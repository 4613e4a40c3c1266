//! Entity handles and the per-component store.
//!
//! An [`Arena`] maps a dense set of live entity handles to values of one
//! component kind. It is a classic swap-remove sparse/dense set: a sparse
//! index vector (entity index to dense slot, or absent) paired with a dense
//! value vector and a dense owner vector. Removal swaps the victim slot with
//! the last dense slot, truncates, and fixes up the swapped owner's sparse
//! entry, so add, remove and lookup are all constant time.

use vstd::prelude::*;

verus! {

/// An entity handle: an opaque identifier that names one row across all
/// component stores. It carries no payload of its own.
#[derive(Clone, Copy, PartialEq, Eq, Structural, Debug)]
pub struct Entity(pub usize);

/// Returned by [`Arena::remove_for`] when the entity holds no value in the
/// store.
#[derive(Clone, Copy, PartialEq, Eq, Structural, Debug)]
pub struct EntityNotFound;

/// A component store mapping live entity handles to values of one component
/// kind.
pub struct Arena<T> {
    data: Vec<T>,
    sparse_map: Vec<Option<usize>>,
    dense_map: Vec<Entity>,
}

impl<T> View for Arena<T> {
    type V = Map<int, T>;

    /// The store, seen as a map from entity index to the stored value.
    closed spec fn view(&self) -> Map<int, T> {
        Map::new(
            |e: int| 0 <= e < self.sparse_map@.len() && self.sparse_map@[e] is Some,
            |e: int| self.data@[self.sparse_map@[e]->0 as int],
        )
    }
}

impl<T> Arena<T> {
    /// The sparse and dense sides agree: `sparse[e] == Some(i)` exactly when
    /// `dense_map[i] == e`, and the two dense vectors run in step.
    pub closed spec fn wf(&self) -> bool {
        &&& self.data@.len() == self.dense_map@.len()
        &&& forall|i: int|
            0 <= i < self.dense_map@.len() ==> {
                &&& (#[trigger] self.dense_map@[i]).0 < self.sparse_map@.len()
                &&& self.sparse_map@[self.dense_map@[i].0 as int] == Some(i as usize)
            }
        &&& forall|e: int|
            0 <= e < self.sparse_map@.len() && (#[trigger] self.sparse_map@[e]) is Some ==> {
                &&& self.sparse_map@[e]->0 < self.dense_map@.len()
                &&& self.dense_map@[self.sparse_map@[e]->0 as int].0 == e
            }
    }

    /// An empty store.
    pub fn new() -> (r: Arena<T>)
        ensures
            r.wf(),
            r@ == Map::<int, T>::empty(),
    {
        let r = Arena { data: Vec::new(), sparse_map: Vec::new(), dense_map: Vec::new() };
        proof {
            assert(r@ =~= Map::<int, T>::empty());
        }
        r
    }

    /// Looks up the component owned by `entity`, or `None` when absent.
    pub fn borrow_for(&self, entity: Entity) -> (r: Option<&T>)
        requires
            self.wf(),
        ensures
            r is Some <==> self@.contains_key(entity.0 as int),
            r matches Some(v) ==> *v == self@[entity.0 as int],
    {
        if entity.0 < self.sparse_map.len() {
            match self.sparse_map[entity.0] {
                None => None,
                Some(arena_index) => Some(&self.data[arena_index]),
            }
        } else {
            None
        }
    }

    /// Whether `entity` owns a component in this store.
    pub fn contains_for(&self, entity: Entity) -> (r: bool)
        requires
            self.wf(),
        ensures
            r == self@.contains_key(entity.0 as int),
    {
        entity.0 < self.sparse_map.len() && self.sparse_map[entity.0].is_some()
    }

    /// Mutably borrows the component owned by `entity`, or `None` when
    /// absent. Whatever the caller writes through the borrow becomes the
    /// stored value; nothing else changes.
    pub fn mut_borrow_for(&mut self, entity: Entity) -> (r: Option<&mut T>)
        requires
            old(self).wf(),
        ensures
            r is Some <==> old(self)@.contains_key(entity.0 as int),
            r matches Some(m) ==> {
                &&& *m == old(self)@[entity.0 as int]
                &&& final(self).wf()
                &&& final(self)@ == old(self)@.insert(entity.0 as int, *final(m))
            },
            r is None ==> *final(self) == *old(self),
    {
        if entity.0 < self.sparse_map.len() {
            match self.sparse_map[entity.0] {
                None => None,
                Some(arena_index) => Some(&mut self.data[arena_index]),
            }
        } else {
            None
        }
    }

    /// Stores `value` for `entity`, replacing any value it already owned.
    pub fn add_for(&mut self, entity: Entity, value: T)
        requires
            old(self).wf(),
            entity.0 < usize::MAX,
        ensures
            final(self).wf(),
            final(self)@ == old(self)@.insert(entity.0 as int, value),
    {
        if entity.0 >= self.sparse_map.len() {
            self.sparse_map.resize(entity.0 + 1, None);
        }
        match self.sparse_map[entity.0] {
            Some(arena_index) => {
                self.data[arena_index] = value;
            },
            None => {
                let index = self.data.len();
                self.data.push(value);
                self.dense_map.push(entity);
                self.sparse_map[entity.0] = Some(index);
            },
        }
        proof {
            assert(self@ =~= old(self)@.insert(entity.0 as int, value));
        }
    }

    /// Removes the component owned by `entity`. Fails, changing nothing,
    /// when the entity owns none.
    pub fn remove_for(&mut self, entity: Entity) -> (r: Result<(), EntityNotFound>)
        requires
            old(self).wf(),
        ensures
            final(self).wf(),
            r is Ok <==> old(self)@.contains_key(entity.0 as int),
            final(self)@ == old(self)@.remove(entity.0 as int),
            r is Err ==> *final(self) == *old(self),
    {
        if entity.0 >= self.sparse_map.len() {
            proof {
                assert(self@ =~= self@.remove(entity.0 as int));
            }
            return Err(EntityNotFound);
        }
        match self.sparse_map[entity.0] {
            None => {
                proof {
                    assert(self@ =~= self@.remove(entity.0 as int));
                }
                Err(EntityNotFound)
            },
            Some(arena_index) => {
                let _removed = self.data.swap_remove(arena_index);
                let _owner = self.dense_map.swap_remove(arena_index);
                self.sparse_map[entity.0] = None;
                if arena_index < self.dense_map.len() {
                    let moved = self.dense_map[arena_index];
                    self.sparse_map[moved.0] = Some(arena_index);
                }
                proof {
                    assert(self@ =~= old(self)@.remove(entity.0 as int));
                }
                Ok(())
            },
        }
    }

    /// All entities that currently own a component here, each exactly once.
    pub fn entities(&self) -> (r: Vec<Entity>)
        requires
            self.wf(),
        ensures
            forall|i: int, j: int| 0 <= i < j < r@.len() ==> r@[i] != r@[j],
            forall|i: int| 0 <= i < r@.len() ==> self@.contains_key((#[trigger] r@[i]).0 as int),
            forall|e: int|
                self@.contains_key(e) ==> exists|i: int| 0 <= i < r@.len() && (#[trigger] r@[i]).0 == e,
    {
        let mut r: Vec<Entity> = Vec::new();
        let n = self.dense_map.len();
        let mut k: usize = 0;
        while k < n
            invariant
                self.wf(),
                n == self.dense_map@.len(),
                k <= n,
                r@ == self.dense_map@.subrange(0, k as int),
            decreases n - k,
        {
            r.push(self.dense_map[k]);
            proof {
                assert(r@ =~= self.dense_map@.subrange(0, k + 1 as int));
            }
            k = k + 1;
        }
        proof {
            assert(r@ =~= self.dense_map@);
        }
        r
    }
}

} // verus!
