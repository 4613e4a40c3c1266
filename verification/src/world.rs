//! The simulation world: one store per component kind plus the entity
//! allocator, with spawn, recursive despawn, reparenting, and the
//! parent-chain world-translation query.
//!
//! Entity handles are the only cross-component linkage: every relationship
//! is a handle resolved through a store at each use, so despawning a
//! referenced entity degrades to a lookup failure instead of a dangling
//! reference. Handles are never reused: the allocator only counts up.

use vstd::prelude::*;
use crate::action::ActionError;
use crate::array::Array;
use crate::array::ArrayCell;
use crate::ecs::Arena;
use crate::ecs::Entity;
use crate::interp::TargetEntity;
use crate::interp::TargetTransform;
use crate::transform::Transform;
use crate::transform::Vec3i;
use crate::util::DespawnOnTouch;
use crate::util::DespawnTimer;
use crate::layout::MAX_CELL_DIM;

verus! {

/// Marks an array whose element sequence changed since the last layout pass.
#[derive(Clone, Copy, PartialEq, Eq, Structural, Debug)]
pub struct RedrawMarker;

/// The whole in-memory entity/component graph.
pub struct World {
    /// The next entity index to hand out; indices are never reused.
    pub next_entity: usize,
    /// Whether each spawned entity is still alive.
    pub alive: Vec<bool>,
    pub transforms: Arena<Transform>,
    pub cells: Arena<ArrayCell>,
    /// Child entity to parent entity.
    pub parents: Arena<Entity>,
    pub arrays: Arena<Array>,
    pub target_transforms: Arena<TargetTransform>,
    pub target_entities: Arena<TargetEntity>,
    pub despawn_timers: Arena<DespawnTimer>,
    pub despawn_on_touch: Arena<DespawnOnTouch>,
    pub redraw_markers: Arena<RedrawMarker>,
}

/// Every key of the store names a spawned entity.
pub open spec fn keys_ok<T>(m: Map<int, T>, next: int) -> bool {
    forall|e: int| m.contains_key(e) ==> 0 <= e < next
}

/// Every element handle is a spawned entity.
pub open spec fn elems_bounded(s: Seq<Entity>, next: int) -> bool {
    forall|i: int| 0 <= i < s.len() ==> (#[trigger] s[i]).0 < next
}

/// No element handle repeats.
pub open spec fn elems_distinct(s: Seq<Entity>) -> bool {
    forall|i: int, j: int| 0 <= i < j < s.len() ==> s[i] != s[j]
}

/// No element handle is shared between the two sequences.
pub open spec fn elems_disjoint(a: Seq<Entity>, b: Seq<Entity>) -> bool {
    forall|i: int, j: int| 0 <= i < a.len() && 0 <= j < b.len() ==> a[i] != b[j]
}

/// Whether some handle in `s` has index `x`.
pub open spec fn seq_has_entity(s: Seq<Entity>, x: int) -> bool {
    exists|j: int| 0 <= j < s.len() && (#[trigger] s[j]).0 == x
}

impl World {
    /// All stores are well formed, every key names a spawned entity, and
    /// every array is sane: shape bounds hold, element handles are spawned,
    /// and no cell sits in two array slots.
    pub open spec fn wf(&self) -> bool {
        &&& self.alive@.len() == self.next_entity
        &&& self.transforms.wf()
        &&& self.cells.wf()
        &&& self.parents.wf()
        &&& self.arrays.wf()
        &&& self.target_transforms.wf()
        &&& self.target_entities.wf()
        &&& self.despawn_timers.wf()
        &&& self.despawn_on_touch.wf()
        &&& self.redraw_markers.wf()
        &&& keys_ok(self.transforms@, self.next_entity as int)
        &&& keys_ok(self.cells@, self.next_entity as int)
        &&& keys_ok(self.parents@, self.next_entity as int)
        &&& keys_ok(self.arrays@, self.next_entity as int)
        &&& keys_ok(self.target_transforms@, self.next_entity as int)
        &&& keys_ok(self.target_entities@, self.next_entity as int)
        &&& keys_ok(self.despawn_timers@, self.next_entity as int)
        &&& keys_ok(self.despawn_on_touch@, self.next_entity as int)
        &&& keys_ok(self.redraw_markers@, self.next_entity as int)
        &&& forall|a: int|
            self.arrays@.contains_key(a) ==> (#[trigger] self.arrays@[a]).wf()
        &&& forall|a: int|
            self.arrays@.contains_key(a) ==> elems_bounded(
                (#[trigger] self.arrays@[a]).elements@,
                self.next_entity as int,
            )
        &&& forall|a: int|
            self.arrays@.contains_key(a) ==> elems_distinct((#[trigger] self.arrays@[a]).elements@)
        &&& forall|a1: int, a2: int|
            a1 != a2 && self.arrays@.contains_key(a1) && self.arrays@.contains_key(a2)
                ==> elems_disjoint(
                (#[trigger] self.arrays@[a1]).elements@,
                (#[trigger] self.arrays@[a2]).elements@,
            )
        &&& forall|e: int|
            self.despawn_on_touch@.contains_key(e) ==> 0 <= (
            #[trigger] self.despawn_on_touch@[e]).radius <= MAX_CELL_DIM
    }

    /// Whether `x` names a spawned, still-alive entity.
    pub open spec fn is_alive(&self, x: int) -> bool {
        0 <= x < self.next_entity && self.alive@[x]
    }

    /// An empty world.
    pub fn new() -> (w: World)
        ensures
            w.wf(),
            w.next_entity == 0,
            w.transforms@ == Map::<int, Transform>::empty(),
            w.cells@ == Map::<int, ArrayCell>::empty(),
            w.parents@ == Map::<int, Entity>::empty(),
            w.arrays@ == Map::<int, Array>::empty(),
            w.target_transforms@ == Map::<int, TargetTransform>::empty(),
            w.target_entities@ == Map::<int, TargetEntity>::empty(),
            w.despawn_timers@ == Map::<int, DespawnTimer>::empty(),
            w.despawn_on_touch@ == Map::<int, DespawnOnTouch>::empty(),
            w.redraw_markers@ == Map::<int, RedrawMarker>::empty(),
    {
        World {
            next_entity: 0,
            alive: Vec::new(),
            transforms: Arena::new(),
            cells: Arena::new(),
            parents: Arena::new(),
            arrays: Arena::new(),
            target_transforms: Arena::new(),
            target_entities: Arena::new(),
            despawn_timers: Arena::new(),
            despawn_on_touch: Arena::new(),
            redraw_markers: Arena::new(),
        }
    }

    /// Creates a fresh entity with no components.
    pub fn spawn(&mut self) -> (r: Entity)
        requires
            old(self).wf(),
            old(self).next_entity < usize::MAX,
        ensures
            final(self).wf(),
            r.0 == old(self).next_entity,
            final(self).next_entity == old(self).next_entity + 1,
            final(self).alive@ == old(self).alive@.push(true),
            final(self).transforms@ == old(self).transforms@,
            final(self).cells@ == old(self).cells@,
            final(self).parents@ == old(self).parents@,
            final(self).arrays@ == old(self).arrays@,
            final(self).target_transforms@ == old(self).target_transforms@,
            final(self).target_entities@ == old(self).target_entities@,
            final(self).despawn_timers@ == old(self).despawn_timers@,
            final(self).despawn_on_touch@ == old(self).despawn_on_touch@,
            final(self).redraw_markers@ == old(self).redraw_markers@,
    {
        let e = Entity(self.next_entity);
        self.alive.push(true);
        self.next_entity = self.next_entity + 1;
        e
    }
}

/// The entity has no component in any store and is not alive.
pub open spec fn entity_erased(w: World, x: int) -> bool {
    &&& !w.transforms@.contains_key(x)
    &&& !w.cells@.contains_key(x)
    &&& !w.parents@.contains_key(x)
    &&& !w.arrays@.contains_key(x)
    &&& !w.target_transforms@.contains_key(x)
    &&& !w.target_entities@.contains_key(x)
    &&& !w.despawn_timers@.contains_key(x)
    &&& !w.despawn_on_touch@.contains_key(x)
    &&& !w.redraw_markers@.contains_key(x)
    &&& 0 <= x < w.alive@.len() ==> !w.alive@[x]
}

/// Every store and the alive flag agree on `x` between the two worlds.
pub open spec fn entity_same(a: World, b: World, x: int) -> bool {
    &&& a.transforms@.contains_key(x) <==> b.transforms@.contains_key(x)
    &&& a.transforms@.contains_key(x) ==> a.transforms@[x] == b.transforms@[x]
    &&& a.cells@.contains_key(x) <==> b.cells@.contains_key(x)
    &&& a.cells@.contains_key(x) ==> a.cells@[x] == b.cells@[x]
    &&& a.parents@.contains_key(x) <==> b.parents@.contains_key(x)
    &&& a.parents@.contains_key(x) ==> a.parents@[x] == b.parents@[x]
    &&& a.arrays@.contains_key(x) <==> b.arrays@.contains_key(x)
    &&& a.arrays@.contains_key(x) ==> a.arrays@[x] == b.arrays@[x]
    &&& a.target_transforms@.contains_key(x) <==> b.target_transforms@.contains_key(x)
    &&& a.target_transforms@.contains_key(x) ==> a.target_transforms@[x]
        == b.target_transforms@[x]
    &&& a.target_entities@.contains_key(x) <==> b.target_entities@.contains_key(x)
    &&& a.target_entities@.contains_key(x) ==> a.target_entities@[x] == b.target_entities@[x]
    &&& a.despawn_timers@.contains_key(x) <==> b.despawn_timers@.contains_key(x)
    &&& a.despawn_timers@.contains_key(x) ==> a.despawn_timers@[x] == b.despawn_timers@[x]
    &&& a.despawn_on_touch@.contains_key(x) <==> b.despawn_on_touch@.contains_key(x)
    &&& a.despawn_on_touch@.contains_key(x) ==> a.despawn_on_touch@[x] == b.despawn_on_touch@[x]
    &&& a.redraw_markers@.contains_key(x) <==> b.redraw_markers@.contains_key(x)
    &&& a.redraw_markers@.contains_key(x) ==> a.redraw_markers@[x] == b.redraw_markers@[x]
    &&& 0 <= x < a.alive@.len() && x < b.alive@.len() ==> a.alive@[x] == b.alive@[x]
}

/// Agreement on an entity between worlds is transitive.
pub proof fn lemma_entity_same_trans(a: World, b: World, c: World, x: int)
    requires
        entity_same(a, b, x),
        entity_same(b, c, x),
        a.alive@.len() == b.alive@.len(),
    ensures
        entity_same(a, c, x),
{
}

impl World {
    /// Removes every component of `e` and marks it dead. The rest of the
    /// world is untouched.
    pub fn remove_everywhere(&mut self, e: Entity)
        requires
            old(self).wf(),
        ensures
            final(self).wf(),
            final(self).next_entity == old(self).next_entity,
            final(self).alive@ == if e.0 < old(self).alive@.len() {
                old(self).alive@.update(e.0 as int, false)
            } else {
                old(self).alive@
            },
            final(self).transforms@ == old(self).transforms@.remove(e.0 as int),
            final(self).cells@ == old(self).cells@.remove(e.0 as int),
            final(self).parents@ == old(self).parents@.remove(e.0 as int),
            final(self).arrays@ == old(self).arrays@.remove(e.0 as int),
            final(self).target_transforms@ == old(self).target_transforms@.remove(e.0 as int),
            final(self).target_entities@ == old(self).target_entities@.remove(e.0 as int),
            final(self).despawn_timers@ == old(self).despawn_timers@.remove(e.0 as int),
            final(self).despawn_on_touch@ == old(self).despawn_on_touch@.remove(e.0 as int),
            final(self).redraw_markers@ == old(self).redraw_markers@.remove(e.0 as int),
            forall|x: int| x != e.0 as int ==> entity_same(*old(self), *final(self), x),
            entity_erased(*final(self), e.0 as int),
    {
        let _ = self.transforms.remove_for(e);
        let _ = self.cells.remove_for(e);
        let _ = self.parents.remove_for(e);
        let _ = self.arrays.remove_for(e);
        let _ = self.target_transforms.remove_for(e);
        let _ = self.target_entities.remove_for(e);
        let _ = self.despawn_timers.remove_for(e);
        let _ = self.despawn_on_touch.remove_for(e);
        let _ = self.redraw_markers.remove_for(e);
        if e.0 < self.alive.len() {
            self.alive[e.0] = false;
        }
    }

    /// Despawns each listed entity; anything not listed is untouched.
    pub fn despawn_all(&mut self, victims: &Vec<Entity>)
        requires
            old(self).wf(),
            elems_distinct(victims@),
        ensures
            final(self).wf(),
            final(self).next_entity == old(self).next_entity,
            final(self).alive@.len() == old(self).alive@.len(),
            forall|j: int|
                0 <= j < victims@.len() ==> entity_erased(*final(self), (#[trigger] victims@[j]).0 as int),
            forall|x: int| !seq_has_entity(victims@, x) ==> entity_same(*old(self), *final(self), x),
    {
        let n = victims.len();
        let mut k: usize = 0;
        while k < n
            invariant
                self.wf(),
                n == victims@.len(),
                k <= n,
                elems_distinct(victims@),
                self.next_entity == old(self).next_entity,
                self.alive@.len() == old(self).alive@.len(),
                forall|j: int|
                    0 <= j < k ==> entity_erased(*self, (#[trigger] victims@[j]).0 as int),
                forall|x: int|
                    !seq_has_entity(victims@.subrange(0, k as int), x) ==> entity_same(
                        *old(self),
                        *self,
                        x,
                    ),
            decreases n - k,
        {
            let ghost prev = *self;
            self.remove_everywhere(victims[k]);
            proof {
                assert forall|x: int|
                    !seq_has_entity(victims@.subrange(0, k + 1 as int), x) implies entity_same(
                    *old(self),
                    *self,
                    x,
                ) by {
                    assert(!seq_has_entity(victims@.subrange(0, k as int), x)) by {
                        if seq_has_entity(victims@.subrange(0, k as int), x) {
                            let j = choose|j: int|
                                0 <= j < k && (#[trigger] victims@.subrange(0, k as int)[j]).0 == x;
                            assert(victims@.subrange(0, k + 1 as int)[j].0 == x);
                        }
                    }
                    assert(victims@[k as int].0 != x) by {
                        assert(victims@.subrange(0, k + 1 as int)[k as int] == victims@[k as int]);
                    }
                    assert(entity_same(*old(self), prev, x));
                    assert(entity_same(prev, *self, x));
                    lemma_entity_same_trans(*old(self), prev, *self, x);
                }
                assert forall|j: int|
                    0 <= j < k + 1 implies entity_erased(*self, (#[trigger] victims@[j]).0 as int) by {
                    if j < k {
                        assert(entity_erased(prev, victims@[j].0 as int));
                        assert(victims@[j] != victims@[k as int]);
                    }
                }
            }
            k = k + 1;
        }
        proof {
            assert forall|x: int| !seq_has_entity(victims@, x) implies entity_same(
                *old(self),
                *self,
                x,
            ) by {
                assert(!seq_has_entity(victims@.subrange(0, n as int), x)) by {
                    if seq_has_entity(victims@.subrange(0, n as int), x) {
                        let j = choose|j: int|
                            0 <= j < n && (#[trigger] victims@.subrange(0, n as int)[j]).0 == x;
                        assert(victims@[j].0 == x);
                    }
                }
            }
        }
    }
}

/// The index of the `k`-th ancestor of `e` under the parent map (`e` itself
/// for `k == 0`), or `None` when the chain ends earlier.
pub open spec fn ancestor_at(parents: Map<int, Entity>, e: int, k: nat) -> Option<int>
    decreases k,
{
    if k == 0 {
        Some(e)
    } else {
        match ancestor_at(parents, e, (k - 1) as nat) {
            None => None,
            Some(a) => if parents.contains_key(a) {
                Some(parents[a].0 as int)
            } else {
                None
            },
        }
    }
}

/// Once an ancestor chain has ended it stays ended.
pub proof fn lemma_ancestor_chain_ends(parents: Map<int, Entity>, e: int, k: nat, k2: nat)
    requires
        ancestor_at(parents, e, k) is None,
        k <= k2,
    ensures
        ancestor_at(parents, e, k2) is None,
    decreases k2,
{
    if k2 > k {
        lemma_ancestor_chain_ends(parents, e, k, (k2 - 1) as nat);
    }
}

/// Whether `e` is `root` itself or one of its descendants: the ancestor
/// chain of `e` reaches `root` within `bound` steps. The walk is bounded so
/// it is total even on a degenerate, cyclic parent graph; with an acyclic
/// graph a bound of the entity count never truncates a real chain.
pub open spec fn in_subtree(parents: Map<int, Entity>, e: int, root: int, bound: nat) -> bool {
    exists|k: nat| k <= bound && ancestor_at(parents, e, k) == Some(root)
}

/// What destroying `root` does to entity `x`: erased when it is in the
/// subtree, untouched otherwise.
pub open spec fn destroy_effect(pre: World, post: World, root: int, x: int) -> bool {
    if in_subtree(pre.parents@, x, root, pre.next_entity as nat) {
        entity_erased(post, x)
    } else {
        entity_same(pre, post, x)
    }
}

impl World {
    /// Whether the ancestor chain of `e` reaches `root` within `bound` steps.
    fn reaches_root(&self, e: Entity, root: Entity, bound: usize) -> (r: bool)
        requires
            self.wf(),
        ensures
            r == in_subtree(self.parents@, e.0 as int, root.0 as int, bound as nat),
    {
        let ghost p = self.parents@;
        let mut cur: Entity = e;
        let mut k: usize = 0;
        while k < bound
            invariant
                self.wf(),
                p == self.parents@,
                k <= bound,
                ancestor_at(p, e.0 as int, k as nat) == Some(cur.0 as int),
                forall|k2: nat| k2 < k ==> ancestor_at(p, e.0 as int, k2) != Some(root.0 as int),
            decreases bound + 1 - k,
        {
            if cur.0 == root.0 {
                proof {
                    assert(k as nat <= bound as nat && ancestor_at(p, e.0 as int, k as nat)
                        == Some(root.0 as int));
                }
                return true;
            }
            match self.parents.borrow_for(cur) {
                Some(parent) => {
                    let next = *parent;
                    proof {
                        assert(ancestor_at(p, e.0 as int, (k + 1) as nat) == Some(next.0 as int));
                        assert forall|k2: nat| k2 < k + 1 implies ancestor_at(p, e.0 as int, k2)
                            != Some(root.0 as int) by {
                            if k2 == k as nat {
                                assert(ancestor_at(p, e.0 as int, k2) == Some(cur.0 as int));
                            }
                        }
                    }
                    cur = next;
                },
                None => {
                    proof {
                        assert(ancestor_at(p, e.0 as int, (k + 1) as nat) is None);
                        assert forall|k2: nat| k2 <= bound as nat implies ancestor_at(
                            p,
                            e.0 as int,
                            k2,
                        ) != Some(root.0 as int) by {
                            if k2 < k as nat {
                            } else if k2 == k as nat {
                                assert(ancestor_at(p, e.0 as int, k2) == Some(cur.0 as int));
                            } else {
                                lemma_ancestor_chain_ends(p, e.0 as int, (k + 1) as nat, k2);
                            }
                        }
                    }
                    return false;
                },
            }
            k = k + 1;
        }
        if cur.0 == root.0 {
            proof {
                assert(k as nat <= bound as nat && ancestor_at(p, e.0 as int, k as nat)
                    == Some(root.0 as int));
            }
            true
        } else {
            proof {
                assert forall|k2: nat| k2 <= bound as nat implies ancestor_at(p, e.0 as int, k2)
                    != Some(root.0 as int) by {
                    if k2 == k as nat {
                        assert(ancestor_at(p, e.0 as int, k2) == Some(cur.0 as int));
                    }
                }
            }
            false
        }
    }

    /// All spawned entities whose ancestor chain reaches `root` within
    /// `next_entity` steps, in ascending order of index.
    fn collect_subtree(&self, root: Entity) -> (r: Vec<Entity>)
        requires
            self.wf(),
        ensures
            elems_distinct(r@),
            forall|j: int|
                0 <= j < r@.len() ==> (#[trigger] r@[j]).0 < self.next_entity,
            forall|x: int|
                0 <= x < self.next_entity ==> (seq_has_entity(r@, x) <==> in_subtree(
                    self.parents@,
                    x,
                    root.0 as int,
                    self.next_entity as nat,
                )),
    {
        let n = self.next_entity;
        let mut r: Vec<Entity> = Vec::new();
        let mut x: usize = 0;
        while x < n
            invariant
                self.wf(),
                n == self.next_entity,
                x <= n,
                forall|j1: int, j2: int|
                    0 <= j1 < j2 < r@.len() ==> (#[trigger] r@[j1]).0 < (#[trigger] r@[j2]).0,
                forall|j: int| 0 <= j < r@.len() ==> (#[trigger] r@[j]).0 < x,
                forall|y: int|
                    0 <= y < x ==> (seq_has_entity(r@, y) <==> in_subtree(
                        self.parents@,
                        y,
                        root.0 as int,
                        n as nat,
                    )),
            decreases n - x,
        {
            let ghost r_old = r@;
            if self.reaches_root(Entity(x), root, n) {
                r.push(Entity(x));
                proof {
                    assert forall|y: int|
                        0 <= y < x + 1 implies (seq_has_entity(r@, y) <==> in_subtree(
                        self.parents@,
                        y,
                        root.0 as int,
                        n as nat,
                    )) by {
                        if y == x as int {
                            assert(r@[r@.len() - 1].0 == y);
                        } else {
                            if seq_has_entity(r@, y) {
                                let j = choose|j: int|
                                    0 <= j < r@.len() && (#[trigger] r@[j]).0 == y;
                                assert(j < r_old.len());
                                assert(r_old[j].0 == y);
                            }
                            if seq_has_entity(r_old, y) {
                                let j = choose|j: int|
                                    0 <= j < r_old.len() && (#[trigger] r_old[j]).0 == y;
                                assert(r@[j].0 == y);
                            }
                        }
                    }
                }
            } else {
                proof {
                    assert forall|y: int|
                        0 <= y < x + 1 implies (seq_has_entity(r@, y) <==> in_subtree(
                        self.parents@,
                        y,
                        root.0 as int,
                        n as nat,
                    )) by {
                        if y == x as int {
                            if seq_has_entity(r@, y) {
                                let j = choose|j: int|
                                    0 <= j < r@.len() && (#[trigger] r@[j]).0 == y;
                                assert(r@[j].0 < x);
                            }
                        }
                    }
                }
            }
            x = x + 1;
        }
        proof {
            assert forall|j1: int, j2: int| 0 <= j1 < j2 < r@.len() implies r@[j1] != r@[j2] by {
                assert(r@[j1].0 < r@[j2].0);
            }
        }
        r
    }

    /// Despawns `entity` and all of its descendants. A handle that was never
    /// spawned, or is no longer alive, is `EntityNotFound` and changes
    /// nothing.
    pub fn destroy(&mut self, entity: Entity) -> (r: Result<(), ActionError>)
        requires
            old(self).wf(),
        ensures
            final(self).wf(),
            final(self).next_entity == old(self).next_entity,
            !old(self).is_alive(entity.0 as int) ==> {
                &&& r == Err::<(), ActionError>(ActionError::EntityNotFound)
                &&& *final(self) == *old(self)
            },
            old(self).is_alive(entity.0 as int) ==> {
                &&& r == Ok::<(), ActionError>(())
                &&& forall|x: int|
                    0 <= x < old(self).next_entity ==> #[trigger] destroy_effect(
                        *old(self),
                        *final(self),
                        entity.0 as int,
                        x,
                    )
                &&& forall|x: int|
                    !(0 <= x < old(self).next_entity) ==> #[trigger] entity_same(
                        *old(self),
                        *final(self),
                        x,
                    )
            },
    {
        if entity.0 >= self.next_entity || !*vstd::std_specs::vec::vec_index(&self.alive, entity.0) {
            return Err(ActionError::EntityNotFound);
        }
        let victims = self.collect_subtree(entity);
        self.despawn_all(&victims);
        proof {
            assert forall|x: int| 0 <= x < old(self).next_entity implies #[trigger] destroy_effect(
                *old(self),
                *self,
                entity.0 as int,
                x,
            ) by {
                if in_subtree(old(self).parents@, x, entity.0 as int, old(self).next_entity as nat) {
                    assert(seq_has_entity(victims@, x));
                    let j = choose|j: int| 0 <= j < victims@.len() && (#[trigger] victims@[j]).0 == x;
                    assert(entity_erased(*self, victims@[j].0 as int));
                    assert(victims@[j].0 as int == x);
                } else {
                    assert(!seq_has_entity(victims@, x));
                    assert(entity_same(*old(self), *self, x));
                }
            }
            assert forall|x: int| !(0 <= x < old(self).next_entity) implies #[trigger] entity_same(
                *old(self),
                *self,
                x,
            ) by {
                assert(!seq_has_entity(victims@, x)) by {
                    if seq_has_entity(victims@, x) {
                        let j = choose|j: int|
                            0 <= j < victims@.len() && (#[trigger] victims@[j]).0 == x;
                        assert(victims@[j].0 < old(self).next_entity);
                    }
                }
                assert(entity_same(*old(self), *self, x));
            }
        }
        Ok(())
    }

    /// Reparents `child` under `parent`. Either handle being dead or never
    /// spawned is `EntityNotFound` and changes nothing.
    pub fn set_parent(&mut self, parent: Entity, child: Entity) -> (r: Result<(), ActionError>)
        requires
            old(self).wf(),
        ensures
            final(self).wf(),
            !(old(self).is_alive(parent.0 as int) && old(self).is_alive(child.0 as int)) ==> {
                &&& r == Err::<(), ActionError>(ActionError::EntityNotFound)
                &&& *final(self) == *old(self)
            },
            old(self).is_alive(parent.0 as int) && old(self).is_alive(child.0 as int) ==> {
                &&& r == Ok::<(), ActionError>(())
                &&& final(self).parents@ == old(self).parents@.insert(child.0 as int, parent)
                &&& final(self).next_entity == old(self).next_entity
                &&& final(self).alive@ == old(self).alive@
                &&& final(self).transforms@ == old(self).transforms@
                &&& final(self).cells@ == old(self).cells@
                &&& final(self).arrays@ == old(self).arrays@
                &&& final(self).target_transforms@ == old(self).target_transforms@
                &&& final(self).target_entities@ == old(self).target_entities@
                &&& final(self).despawn_timers@ == old(self).despawn_timers@
                &&& final(self).despawn_on_touch@ == old(self).despawn_on_touch@
                &&& final(self).redraw_markers@ == old(self).redraw_markers@
            },
    {
        let parent_ok = parent.0 < self.next_entity && *vstd::std_specs::vec::vec_index(
            &self.alive,
            parent.0,
        );
        let child_ok = child.0 < self.next_entity && *vstd::std_specs::vec::vec_index(
            &self.alive,
            child.0,
        );
        if !parent_ok || !child_ok {
            return Err(ActionError::EntityNotFound);
        }
        self.parents.add_for(child, parent);
        Ok(())
    }
}

/// The sum of the local translations along the parent chain of `e`, walked
/// with the given fuel: `None` when the entity has no transform, when the
/// chain is longer than the fuel (a cycle), or when a component sum would
/// overflow.
pub open spec fn world_translation_spec(
    transforms: Map<int, Transform>,
    parents: Map<int, Entity>,
    e: int,
    fuel: nat,
) -> Option<Vec3i>
    decreases fuel,
{
    if !transforms.contains_key(e) {
        None
    } else {
        let local = transforms[e].translation;
        if !parents.contains_key(e) {
            Some(local)
        } else if fuel == 0 {
            None
        } else {
            match world_translation_spec(transforms, parents, parents[e].0 as int, (fuel - 1) as nat) {
                None => None,
                Some(pw) => if i64::MIN <= pw.x + local.x <= i64::MAX && i64::MIN <= pw.y + local.y
                    <= i64::MAX && i64::MIN <= pw.z + local.z <= i64::MAX {
                    Some(
                        Vec3i {
                            x: (pw.x + local.x) as i64,
                            y: (pw.y + local.y) as i64,
                            z: (pw.z + local.z) as i64,
                        },
                    )
                } else {
                    None
                },
            }
        }
    }
}

impl World {
    /// Walks the parent chain with the given fuel, summing translations.
    fn world_translation_fuel(&self, e: Entity, fuel: usize) -> (r: Option<Vec3i>)
        requires
            self.wf(),
        ensures
            r == world_translation_spec(self.transforms@, self.parents@, e.0 as int, fuel as nat),
        decreases fuel,
    {
        match self.transforms.borrow_for(e) {
            None => None,
            Some(t) => {
                let local = t.translation;
                match self.parents.borrow_for(e) {
                    None => Some(local),
                    Some(parent) => {
                        if fuel == 0 {
                            None
                        } else {
                            let p = *parent;
                            match self.world_translation_fuel(p, fuel - 1) {
                                None => None,
                                Some(pw) => pw.checked_add(local),
                            }
                        }
                    },
                }
            },
        }
    }

    /// The entity's world translation: its own translation composed through
    /// the parent chain. `None` when the entity has no transform, the chain
    /// has a cycle, or the sum overflows.
    pub fn world_translation(&self, e: Entity) -> (r: Option<Vec3i>)
        requires
            self.wf(),
        ensures
            r == world_translation_spec(
                self.transforms@,
                self.parents@,
                e.0 as int,
                self.next_entity as nat,
            ),
    {
        self.world_translation_fuel(e, self.next_entity)
    }
}








/// Swapping two slots keeps the element invariants and disjointness.
pub proof fn lemma_elements_swapped(a: Seq<Entity>, s: Seq<Entity>, i: int, j: int, next: int)
    requires
        0 <= i < s.len(),
        0 <= j < s.len(),
    ensures
        elems_distinct(s) ==> elems_distinct(crate::array::swapped(s, i, j)),
        elems_bounded(s, next) ==> elems_bounded(crate::array::swapped(s, i, j), next),
        elems_disjoint(a, s) ==> elems_disjoint(a, crate::array::swapped(s, i, j)),
        elems_disjoint(s, a) ==> elems_disjoint(crate::array::swapped(s, i, j), a),
{
    let t = crate::array::swapped(s, i, j);
    assert(t.len() == s.len());
    assert forall|k: int| 0 <= k < t.len() implies (#[trigger] t[k]) == s[i] || t[k] == s[j] || t[k]
        == s[k] by {
    }
    if elems_distinct(s) {
        assert forall|k1: int, k2: int| 0 <= k1 < k2 < t.len() implies t[k1] != t[k2] by {
            assert(t[k1] == if k1 == i { s[j] } else if k1 == j { s[i] } else { s[k1] });
            assert(t[k2] == if k2 == i { s[j] } else if k2 == j { s[i] } else { s[k2] });
        }
    }
}

impl World {
    /// Despawns one cell entity: removes every component a cell can own and
    /// marks it dead. The array and redraw stores are untouched.
    pub fn despawn_cell(&mut self, e: Entity)
        requires
            old(self).wf(),
        ensures
            final(self).wf(),
            final(self).next_entity == old(self).next_entity,
            final(self).alive@ == if e.0 < old(self).alive@.len() {
                old(self).alive@.update(e.0 as int, false)
            } else {
                old(self).alive@
            },
            final(self).transforms@ == old(self).transforms@.remove(e.0 as int),
            final(self).cells@ == old(self).cells@.remove(e.0 as int),
            final(self).parents@ == old(self).parents@.remove(e.0 as int),
            final(self).target_transforms@ == old(self).target_transforms@.remove(e.0 as int),
            final(self).target_entities@ == old(self).target_entities@.remove(e.0 as int),
            final(self).despawn_timers@ == old(self).despawn_timers@.remove(e.0 as int),
            final(self).despawn_on_touch@ == old(self).despawn_on_touch@.remove(e.0 as int),
            final(self).arrays@ == old(self).arrays@,
            final(self).redraw_markers@ == old(self).redraw_markers@,
    {
        let _ = self.transforms.remove_for(e);
        let _ = self.cells.remove_for(e);
        let _ = self.parents.remove_for(e);
        let _ = self.target_transforms.remove_for(e);
        let _ = self.target_entities.remove_for(e);
        let _ = self.despawn_timers.remove_for(e);
        let _ = self.despawn_on_touch.remove_for(e);
        if e.0 < self.alive.len() {
            self.alive[e.0] = false;
        }
    }
}

} // verus!
