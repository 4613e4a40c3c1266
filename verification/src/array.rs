//! The array domain object: an ordered sequence of cell entities plus layout
//! parameters, with the insert / pop / set / swap mutation logic.
//!
//! Every mutation validates its indices first and changes nothing on failure,
//! so a failed action leaves the array contents exactly as they were.

use vstd::prelude::*;
use crate::action::ActionError;
use crate::ecs::Entity;
use crate::layout::MAX_ARRAY_LEN;
use crate::layout::MAX_CELL_DIM;

verus! {

/// One array: the logical order of its cell entities and its layout shape.
pub struct Array {
    pub elements: Vec<Entity>,
    pub num_columns: usize,
    pub cell_width: i64,
    pub cell_height: i64,
    pub alignment_duration: u32,
}

/// A cell component: the text value one array slot displays.
pub struct ArrayCell {
    pub value: String,
}

impl ArrayCell {
    /// A cell holding `value`.
    pub fn new(value: String) -> (r: ArrayCell)
        ensures
            r.value == value,
    {
        ArrayCell { value }
    }
}

impl Array {
    /// The shape is sane: at least one column, bounded cell size, and a
    /// bounded element count, so grid arithmetic never overflows.
    pub open spec fn wf(&self) -> bool {
        &&& self.num_columns >= 1
        &&& self.elements@.len() <= MAX_ARRAY_LEN
        &&& 0 <= self.cell_width <= MAX_CELL_DIM
        &&& 0 <= self.cell_height <= MAX_CELL_DIM
    }

    /// Builds an array over already spawned cells. Rejects a column count of
    /// zero, an out-of-range cell size, and an over-long element sequence
    /// with `InvalidArgument`.
    pub fn new(
        elements: Vec<Entity>,
        num_columns: usize,
        cell_width: i64,
        cell_height: i64,
        alignment_duration: u32,
    ) -> (r: Result<Array, ActionError>)
        ensures
            r is Ok <==> {
                &&& num_columns >= 1
                &&& elements@.len() <= MAX_ARRAY_LEN
                &&& 0 <= cell_width <= MAX_CELL_DIM
                &&& 0 <= cell_height <= MAX_CELL_DIM
            },
            r matches Ok(a) ==> {
                &&& a.elements@ == elements@
                &&& a.num_columns == num_columns
                &&& a.cell_width == cell_width
                &&& a.cell_height == cell_height
                &&& a.alignment_duration == alignment_duration
                &&& a.wf()
            },
            r matches Err(e) ==> e == ActionError::InvalidArgument,
    {
        if num_columns < 1 || elements.len() > MAX_ARRAY_LEN || cell_width < 0 || cell_width
            > MAX_CELL_DIM || cell_height < 0 || cell_height > MAX_CELL_DIM {
            Err(ActionError::InvalidArgument)
        } else {
            Ok(Array { elements, num_columns, cell_width, cell_height, alignment_duration })
        }
    }

    /// Inserts `element` at `index`, shifting the rest right. An index past
    /// the end is `IndexOutOfRange`; a full array is `InvalidArgument`;
    /// either failure changes nothing.
    pub fn insert(&mut self, index: usize, element: Entity) -> (r: Result<(), ActionError>)
        requires
            old(self).wf(),
        ensures
            final(self).wf(),
            final(self).num_columns == old(self).num_columns,
            final(self).cell_width == old(self).cell_width,
            final(self).cell_height == old(self).cell_height,
            final(self).alignment_duration == old(self).alignment_duration,
            index > old(self).elements@.len() ==> {
                &&& r == Err::<(), ActionError>(ActionError::IndexOutOfRange)
                &&& *final(self) == *old(self)
            },
            index <= old(self).elements@.len() && old(self).elements@.len() == MAX_ARRAY_LEN ==> {
                &&& r == Err::<(), ActionError>(ActionError::InvalidArgument)
                &&& *final(self) == *old(self)
            },
            index <= old(self).elements@.len() && old(self).elements@.len() < MAX_ARRAY_LEN ==> {
                &&& r == Ok::<(), ActionError>(())
                &&& final(self).elements@ == old(self).elements@.insert(index as int, element)
            },
    {
        if index > self.elements.len() {
            Err(ActionError::IndexOutOfRange)
        } else if self.elements.len() >= MAX_ARRAY_LEN {
            Err(ActionError::InvalidArgument)
        } else {
            self.elements.insert(index, element);
            Ok(())
        }
    }

    /// Removes and returns the element at `index`, shifting the rest left.
    /// An out-of-range index is `IndexOutOfRange` and changes nothing.
    pub fn pop(&mut self, index: usize) -> (r: Result<Entity, ActionError>)
        requires
            old(self).wf(),
        ensures
            final(self).wf(),
            final(self).num_columns == old(self).num_columns,
            final(self).cell_width == old(self).cell_width,
            final(self).cell_height == old(self).cell_height,
            final(self).alignment_duration == old(self).alignment_duration,
            index >= old(self).elements@.len() ==> {
                &&& r == Err::<Entity, ActionError>(ActionError::IndexOutOfRange)
                &&& *final(self) == *old(self)
            },
            index < old(self).elements@.len() ==> {
                &&& r == Ok::<Entity, ActionError>(old(self).elements@[index as int])
                &&& final(self).elements@ == old(self).elements@.remove(index as int)
            },
    {
        if index >= self.elements.len() {
            Err(ActionError::IndexOutOfRange)
        } else {
            let element = self.elements.remove(index);
            Ok(element)
        }
    }

    /// Replaces the element at `index` with `element` and returns the old
    /// one. The logical slot changes immediately; retiring the old cell's
    /// visuals is the caller's business. An out-of-range index is
    /// `IndexOutOfRange` and changes nothing.
    pub fn set(&mut self, index: usize, element: Entity) -> (r: Result<Entity, ActionError>)
        requires
            old(self).wf(),
        ensures
            final(self).wf(),
            final(self).num_columns == old(self).num_columns,
            final(self).cell_width == old(self).cell_width,
            final(self).cell_height == old(self).cell_height,
            final(self).alignment_duration == old(self).alignment_duration,
            index >= old(self).elements@.len() ==> {
                &&& r == Err::<Entity, ActionError>(ActionError::IndexOutOfRange)
                &&& *final(self) == *old(self)
            },
            index < old(self).elements@.len() ==> {
                &&& r == Ok::<Entity, ActionError>(old(self).elements@[index as int])
                &&& final(self).elements@ == old(self).elements@.update(index as int, element)
            },
    {
        if index >= self.elements.len() {
            Err(ActionError::IndexOutOfRange)
        } else {
            let previous = self.elements[index];
            self.elements[index] = element;
            Ok(previous)
        }
    }

    /// Swaps the elements at the two indices by value; no entity is spawned
    /// or despawned. An out-of-range index is `IndexOutOfRange` and changes
    /// nothing.
    pub fn swap(&mut self, a_index: usize, b_index: usize) -> (r: Result<(), ActionError>)
        requires
            old(self).wf(),
        ensures
            final(self).wf(),
            final(self).num_columns == old(self).num_columns,
            final(self).cell_width == old(self).cell_width,
            final(self).cell_height == old(self).cell_height,
            final(self).alignment_duration == old(self).alignment_duration,
            !(a_index < old(self).elements@.len() && b_index < old(self).elements@.len()) ==> {
                &&& r == Err::<(), ActionError>(ActionError::IndexOutOfRange)
                &&& *final(self) == *old(self)
            },
            a_index < old(self).elements@.len() && b_index < old(self).elements@.len() ==> {
                &&& r == Ok::<(), ActionError>(())
                &&& final(self).elements@ == swapped(old(self).elements@, a_index as int, b_index as int)
            },
    {
        if a_index >= self.elements.len() || b_index >= self.elements.len() {
            Err(ActionError::IndexOutOfRange)
        } else {
            let a = self.elements[a_index];
            let b = self.elements[b_index];
            self.elements[a_index] = b;
            self.elements[b_index] = a;
            Ok(())
        }
    }
}

/// A sequence with the values at `i` and `j` exchanged.
pub open spec fn swapped<T>(s: Seq<T>, i: int, j: int) -> Seq<T> {
    s.update(i, s[j]).update(j, s[i])
}

/// Inserting shows the value: after inserting `v` at a valid `index`, the
/// sequence is one longer and holds `v` at that position, with everything
/// else kept in order around it.
pub proof fn lemma_insert_shows_value<T>(s: Seq<T>, index: int, v: T)
    requires
        0 <= index <= s.len(),
    ensures
        s.insert(index, v).len() == s.len() + 1,
        s.insert(index, v)[index] == v,
        forall|k: int| 0 <= k < index ==> s.insert(index, v)[k] == s[k],
        forall|k: int| index <= k < s.len() ==> s.insert(index, v)[k + 1] == s[k],
{
}

/// Popping returns the value at the index and shortens the sequence by one,
/// keeping everything else in order.
pub proof fn lemma_pop_removes_value<T>(s: Seq<T>, index: int)
    requires
        0 <= index < s.len(),
    ensures
        s.remove(index).len() == s.len() - 1,
        forall|k: int| 0 <= k < index ==> s.remove(index)[k] == s[k],
        forall|k: int| index < k < s.len() ==> s.remove(index)[k - 1] == s[k],
{
}

/// Swapping twice is the identity.
pub proof fn lemma_swap_twice<T>(s: Seq<T>, i: int, j: int)
    requires
        0 <= i < s.len(),
        0 <= j < s.len(),
    ensures
        swapped(swapped(s, i, j), i, j) == s,
{
    assert(swapped(swapped(s, i, j), i, j) =~= s);
}

} // verus!
