//! The command dispatcher: one handler per action, each validating before it
//! mutates, so a rejected action leaves the world exactly as it was.

use vstd::prelude::*;
use crate::action::Action;
use crate::action::ActionError;
use crate::action::Data;
use crate::array::Array;
use crate::array::ArrayCell;
use crate::ecs::Entity;
use crate::interp::TargetEntity;
use crate::interp::TargetTransform;
use crate::layout::MAX_ARRAY_LEN;
use crate::transform::Transform;
use crate::transform::Vec3i;
use crate::util::DespawnOnTouch;
use crate::util::DespawnTimer;
use crate::world::RedrawMarker;
use crate::frames::map_const_range;
use crate::frames::map_fresh_range;
use crate::frames::lemma_const_range_insert_outside;
use crate::frames::lemma_const_range_extend;
use crate::frames::lemma_fresh_range_insert_top;
use crate::world::elems_bounded;
use crate::world::elems_distinct;
use crate::world::lemma_elements_swapped;
use crate::world::elems_disjoint;
use crate::world::World;
use crate::world::world_translation_spec;

verus! {

/// The width of one array cell on screen.
pub const CELL_WIDTH: i64 = 64;

/// The height of one array cell on screen.
pub const CELL_HEIGHT: i64 = 64;

/// How long cells take to fly to their grid slots, in time units.
pub const DEFAULT_ALIGNMENT_DURATION: u32 = 1000;

/// The animation stores agree between the two worlds.
pub open spec fn same_anim(a: World, b: World) -> bool {
    &&& a.target_transforms@ == b.target_transforms@
    &&& a.target_entities@ == b.target_entities@
}

/// The lifecycle timer stores agree between the two worlds.
pub open spec fn same_timers(a: World, b: World) -> bool {
    &&& a.despawn_timers@ == b.despawn_timers@
    &&& a.despawn_on_touch@ == b.despawn_on_touch@
}

/// The entity allocator agrees between the two worlds.
pub open spec fn same_alloc(a: World, b: World) -> bool {
    &&& a.next_entity == b.next_entity
    &&& a.alive@ == b.alive@
}

/// The position an entity query reports: the entity's world translation,
/// minus the reference's world translation when one is given. An
/// unresolvable position is `EntityNotFound`; an overflowing difference is
/// `InvalidArgument`.
pub open spec fn position_result(w: World, entity: Entity, reference: Option<Entity>) -> Result<Vec3i, ActionError> {
    let wt = world_translation_spec(w.transforms@, w.parents@, entity.0 as int, w.next_entity as nat);
    match reference {
        None => match wt {
            None => Err(ActionError::EntityNotFound),
            Some(v) => Ok(v),
        },
        Some(rf) => {
            let rw = world_translation_spec(w.transforms@, w.parents@, rf.0 as int, w.next_entity as nat);
            if wt is None || rw is None {
                Err(ActionError::EntityNotFound)
            } else {
                let v = wt->0;
                let rv = rw->0;
                if i64::MIN <= v.x - rv.x <= i64::MAX && i64::MIN <= v.y - rv.y <= i64::MAX
                    && i64::MIN <= v.z - rv.z <= i64::MAX {
                    Ok(
                        Vec3i {
                            x: (v.x - rv.x) as i64,
                            y: (v.y - rv.y) as i64,
                            z: (v.z - rv.z) as i64,
                        },
                    )
                } else {
                    Err(ActionError::InvalidArgument)
                }
            }
        },
    }
}

impl World {
    /// Spawns one cell entity carrying its text, its transform, and its
    /// parent.
    fn spawn_cell(&mut self, value: String, transform: Transform, parent: Entity) -> (r: Entity)
        requires
            old(self).wf(),
            old(self).next_entity < usize::MAX,
        ensures
            final(self).wf(),
            r.0 == old(self).next_entity,
            final(self).next_entity == old(self).next_entity + 1,
            final(self).alive@ == old(self).alive@.push(true),
            final(self).cells@ == old(self).cells@.insert(r.0 as int, (ArrayCell { value })),
            final(self).transforms@ == old(self).transforms@.insert(r.0 as int, transform),
            final(self).parents@ == old(self).parents@.insert(r.0 as int, parent),
            final(self).arrays@ == old(self).arrays@,
            same_anim(*old(self), *final(self)),
            same_timers(*old(self), *final(self)),
            final(self).redraw_markers@ == old(self).redraw_markers@,
    {
        let e = self.spawn();
        self.cells.add_for(e, ArrayCell::new(value));
        self.transforms.add_for(e, transform);
        self.parents.add_for(e, parent);
        e
    }

    /// Attaches a goal-transform animation to the entity. A dead or unknown
    /// handle is `EntityNotFound` and changes nothing.
    pub fn set_target(&mut self, entity: Entity, translation: Vec3i, scale: i64, duration: u32) -> (r:
        Result<(), ActionError>)
        requires
            old(self).wf(),
        ensures
            final(self).wf(),
            !old(self).is_alive(entity.0 as int) ==> {
                &&& r == Err::<(), ActionError>(ActionError::EntityNotFound)
                &&& *final(self) == *old(self)
            },
            old(self).is_alive(entity.0 as int) ==> {
                &&& r == Ok::<(), ActionError>(())
                &&& final(self).target_transforms@ == old(self).target_transforms@.insert(
                    entity.0 as int,
                    (TargetTransform {
                        goal_translation: translation,
                        goal_scale: scale,
                        duration,
                        elapsed: 0,
                    }),
                )
                &&& final(self).target_entities@ == old(self).target_entities@
                &&& final(self).transforms@ == old(self).transforms@
                &&& final(self).cells@ == old(self).cells@
                &&& final(self).parents@ == old(self).parents@
                &&& final(self).arrays@ == old(self).arrays@
                &&& same_timers(*old(self), *final(self))
                &&& final(self).redraw_markers@ == old(self).redraw_markers@
                &&& same_alloc(*old(self), *final(self))
            },
    {
        if entity.0 >= self.next_entity || !*vstd::std_specs::vec::vec_index(&self.alive, entity.0) {
            return Err(ActionError::EntityNotFound);
        }
        self.target_transforms.add_for(
            entity,
            TargetTransform { goal_translation: translation, goal_scale: scale, duration, elapsed: 0 },
        );
        Ok(())
    }

    /// The current text value of a cell. A handle without a cell component
    /// is `EntityNotFound`.
    pub fn get_value(&self, entity: Entity) -> (r: Result<String, ActionError>)
        requires
            self.wf(),
        ensures
            r is Ok <==> self.cells@.contains_key(entity.0 as int),
            r matches Ok(s) ==> s == self.cells@[entity.0 as int].value,
            r matches Err(e) ==> e == ActionError::EntityNotFound,
    {
        match self.cells.borrow_for(entity) {
            None => Err(ActionError::EntityNotFound),
            Some(cell) => Ok(cell.value.clone()),
        }
    }

    /// The entity's world position, optionally relative to a reference
    /// entity's world position. An unresolvable position is
    /// `EntityNotFound`; an overflowing difference is `InvalidArgument`.
    pub fn get_position(&self, entity: Entity, reference: Option<Entity>) -> (r: Result<
        Vec3i,
        ActionError,
    >)
        requires
            self.wf(),
        ensures
            r == position_result(*self, entity, reference),
    {
        let w = match self.world_translation(entity) {
            None => {
                return Err(ActionError::EntityNotFound);
            },
            Some(v) => v,
        };
        match reference {
            None => Ok(w),
            Some(rf) => {
                match self.world_translation(rf) {
                    None => Err(ActionError::EntityNotFound),
                    Some(rv) => match w.checked_sub(rv) {
                        None => Err(ActionError::InvalidArgument),
                        Some(d) => Ok(d),
                    },
                }
            },
        }
    }
}

impl World {
    /// Spawns one cell per value in order, all parented to `parent`; the
    /// fresh handles are consecutive, starting at the old allocator position.
    fn spawn_cells(&mut self, values: &Vec<String>, transform: Transform, parent: Entity) -> (r: Vec<Entity>)
        requires
            old(self).wf(),
            old(self).next_entity + values@.len() <= usize::MAX,
        ensures
            final(self).wf(),
            ({
                let n0 = old(self).next_entity as int;
                let len = values@.len() as int;
                &&& final(self).next_entity == n0 + len
                &&& r@.len() == len
                &&& forall|j: int| 0 <= j < len ==> (#[trigger] r@[j]).0 == n0 + j
                &&& final(self).alive@.len() == n0 + len
                &&& forall|x: int| 0 <= x < n0 ==> final(self).alive@[x] == old(self).alive@[x]
                &&& forall|x: int| n0 <= x < n0 + len ==> final(self).alive@[x]
                &&& cell_values_range(final(self).cells@, n0, values@)
                &&& map_fresh_range(old(self).cells@, final(self).cells@, n0, len)
                &&& map_const_range(final(self).transforms@, n0, len, transform)
                &&& map_fresh_range(old(self).transforms@, final(self).transforms@, n0, len)
                &&& map_const_range(final(self).parents@, n0, len, parent)
                &&& map_fresh_range(old(self).parents@, final(self).parents@, n0, len)
                &&& final(self).arrays@ == old(self).arrays@
                &&& same_anim(*old(self), *final(self))
                &&& same_timers(*old(self), *final(self))
                &&& final(self).redraw_markers@ == old(self).redraw_markers@
            }),
    {
        let ghost n0 = self.next_entity as int;
        let mut elements: Vec<Entity> = Vec::new();
        let mut i: usize = 0;
        while i < values.len()
            invariant
                self.wf(),
                i <= values@.len(),
                n0 == old(self).next_entity as int,
                n0 + values@.len() <= usize::MAX,
                self.next_entity == n0 + i,
                elements@.len() == i,
                forall|j: int| 0 <= j < i ==> (#[trigger] elements@[j]).0 == n0 + j,
                self.alive@.len() == n0 + i,
                forall|x: int| 0 <= x < n0 ==> self.alive@[x] == old(self).alive@[x],
                forall|x: int| n0 <= x < n0 + i ==> self.alive@[x],
                forall|j: int| 0 <= j < i ==> #[trigger] self.cells@.contains_key(n0 + j) && self.cells@[n0 + j].value == values@[j],
                forall|k: int| !(n0 <= k < n0 + i) ==> (((#[trigger] self.cells@.contains_key(k)) <==> old(self).cells@.contains_key(k)) && (old(self).cells@.contains_key(k) ==> self.cells@[k] == old(self).cells@[k])),
                forall|j: int| 0 <= j < i ==> #[trigger] self.transforms@.contains_key(n0 + j) && self.transforms@[n0 + j] == transform,
                forall|k: int| !(n0 <= k < n0 + i) ==> (((#[trigger] self.transforms@.contains_key(k)) <==> old(self).transforms@.contains_key(k)) && (old(self).transforms@.contains_key(k) ==> self.transforms@[k] == old(self).transforms@[k])),
                forall|j: int| 0 <= j < i ==> #[trigger] self.parents@.contains_key(n0 + j) && self.parents@[n0 + j] == parent,
                forall|k: int| !(n0 <= k < n0 + i) ==> (((#[trigger] self.parents@.contains_key(k)) <==> old(self).parents@.contains_key(k)) && (old(self).parents@.contains_key(k) ==> self.parents@[k] == old(self).parents@[k])),
                self.arrays@ == old(self).arrays@,
                same_anim(*old(self), *self),
                same_timers(*old(self), *self),
                self.redraw_markers@ == old(self).redraw_markers@,
            decreases values@.len() - i,
        {
            let ghost prev = *self;
            let value = values[i].clone();
            let c = self.spawn_cell(value, transform, parent);
            elements.push(c);
            proof {
                assert forall|j: int|
                    0 <= j < i + 1 implies #[trigger] self.cells@.contains_key(n0 + j)
                    && self.cells@[n0 + j].value == values@[j] by {
                    if j < i {
                        assert(prev.cells@.contains_key(n0 + j));
                        assert(self.cells@[n0 + j] == prev.cells@[n0 + j]);
                    }
                }
                assert forall|j: int|
                    0 <= j < i + 1 implies #[trigger] self.transforms@.contains_key(n0 + j)
                    && self.transforms@[n0 + j] == transform by {
                    if j < i {
                        assert(prev.transforms@.contains_key(n0 + j));
                        assert(self.transforms@[n0 + j] == prev.transforms@[n0 + j]);
                    }
                }
                assert forall|j: int|
                    0 <= j < i + 1 implies #[trigger] self.parents@.contains_key(n0 + j)
                    && self.parents@[n0 + j] == parent by {
                    if j < i {
                        assert(prev.parents@.contains_key(n0 + j));
                        assert(self.parents@[n0 + j] == prev.parents@[n0 + j]);
                    }
                }
            }
            i = i + 1;
        }
        proof {
            let n0g = old(self).next_entity as int;
            let len = values@.len() as int;
            assert(cell_values_range(self.cells@, n0g, values@));
            assert(map_fresh_range(old(self).cells@, self.cells@, n0g, len));
            assert(map_const_range(self.transforms@, n0g, len, transform));
            assert(map_fresh_range(old(self).transforms@, self.transforms@, n0g, len));
            assert(map_const_range(self.parents@, n0g, len, parent));
            assert(map_fresh_range(old(self).parents@, self.parents@, n0g, len));
        }
        elements
    }
}

/// Every key `n0 + i` holds a cell whose text is `values[i]`.
pub open spec fn cell_values_range(post: Map<int, ArrayCell>, n0: int, values: Seq<String>) -> bool {
    forall|i: int|
        0 <= i < values.len() ==> #[trigger] post.contains_key(n0 + i) && post[n0 + i].value
            == values[i]
}

/// After creating an array: the allocator advanced by the cell count plus
/// one, old entities keep their alive flag, and the new ones are alive.
pub open spec fn ca_alloc(pre: World, post: World, len: int) -> bool {
    let n0 = pre.next_entity as int;
    &&& post.next_entity == n0 + len + 1
    &&& forall|x: int| 0 <= x < n0 ==> post.alive@[x] == pre.alive@[x]
    &&& forall|x: int| n0 <= x < n0 + len + 1 ==> post.alive@[x]
}

/// After creating an array: a fresh array entity whose elements are the
/// fresh consecutive cell handles, with the default shape; other arrays are
/// untouched.
pub open spec fn ca_arrays(pre: World, post: World, len: int, num_columns: usize) -> bool {
    let n0 = pre.next_entity as int;
    let aid = n0 + len;
    &&& map_fresh_range(pre.arrays@, post.arrays@, aid, 1)
    &&& post.arrays@.contains_key(aid)
    &&& post.arrays@[aid].elements@.len() == len
    &&& forall|i: int| 0 <= i < len ==> (#[trigger] post.arrays@[aid].elements@[i]).0 == n0 + i
    &&& post.arrays@[aid].num_columns == num_columns
    &&& post.arrays@[aid].cell_width == CELL_WIDTH
    &&& post.arrays@[aid].cell_height == CELL_HEIGHT
    &&& post.arrays@[aid].alignment_duration == DEFAULT_ALIGNMENT_DURATION
}

/// What a successful array creation does: one fresh cell per value carrying
/// the values in order, all at the given transform and parented to the fresh
/// array entity, a redraw marker on that entity, and nothing else changed.
pub open spec fn create_array_post(pre: World, post: World, values: Seq<String>, num_columns: usize, transform: Transform) -> bool {
    let n0 = pre.next_entity as int;
    let len = values.len() as int;
    &&& ca_alloc(pre, post, len)
    &&& ca_arrays(pre, post, len, num_columns)
    &&& cell_values_range(post.cells@, n0, values)
    &&& map_fresh_range(pre.cells@, post.cells@, n0, len)
    &&& map_const_range(post.transforms@, n0, len + 1, transform)
    &&& map_fresh_range(pre.transforms@, post.transforms@, n0, len + 1)
    &&& map_const_range(post.parents@, n0, len, Entity((n0 + len) as usize))
    &&& map_fresh_range(pre.parents@, post.parents@, n0, len)
    &&& post.redraw_markers@ == pre.redraw_markers@.insert(n0 + len, RedrawMarker)
    &&& same_anim(pre, post)
    &&& same_timers(pre, post)
}

impl World {
    /// Creates one cell per value (order preserved) and an array entity that
    /// owns all cells as children; the cells' handles become the array's
    /// elements in order. A column count of zero, an over-long value list,
    /// or an exhausted allocator is `InvalidArgument` and changes nothing.
    pub fn create_array(&mut self, values: Vec<String>, num_columns: usize, transform: Transform) -> (r: Result<Entity, ActionError>)
        requires
            old(self).wf(),
        ensures
            final(self).wf(),
            !(num_columns >= 1 && values@.len() <= MAX_ARRAY_LEN && old(self).next_entity + values@.len() + 1 <= usize::MAX) ==> {
                &&& r == Err::<Entity, ActionError>(ActionError::InvalidArgument)
                &&& *final(self) == *old(self)
            },
            (num_columns >= 1 && values@.len() <= MAX_ARRAY_LEN && old(self).next_entity + values@.len() + 1 <= usize::MAX) ==> {
                &&& r == Ok::<Entity, ActionError>(Entity((old(self).next_entity + values@.len()) as usize))
                &&& create_array_post(*old(self), *final(self), values@, num_columns, transform)
            },
    {
        if num_columns < 1 || values.len() > MAX_ARRAY_LEN {
            return Err(ActionError::InvalidArgument);
        }
        if self.next_entity >= usize::MAX - values.len() {
            return Err(ActionError::InvalidArgument);
        }
        let ghost n0 = self.next_entity as int;
        let parent = Entity(self.next_entity + values.len());
        let elements = self.spawn_cells(&values, transform, parent);
        let ghost after_loop = *self;
        let a = self.spawn();
        self.transforms.add_for(a, transform);
        let arr = Array {
            elements,
            num_columns,
            cell_width: CELL_WIDTH,
            cell_height: CELL_HEIGHT,
            alignment_duration: DEFAULT_ALIGNMENT_DURATION,
        };
        self.arrays.add_for(a, arr);
        self.redraw_markers.add_for(a, RedrawMarker);
        proof {
            let len = values@.len() as int;
            let ga = Entity((n0 + len) as usize);
            assert(a == ga && parent == ga);
            assert forall|a1: int, a2: int|
                a1 != a2 && self.arrays@.contains_key(a1) && self.arrays@.contains_key(a2) implies elems_disjoint(
                (#[trigger] self.arrays@[a1]).elements@,
                (#[trigger] self.arrays@[a2]).elements@,
            ) by {
                let av = self.arrays@;
                let aid = a.0 as int;
                if a1 != aid && a2 != aid {
                    assert(elems_disjoint(
                        old(self).arrays@[a1].elements@,
                        old(self).arrays@[a2].elements@,
                    ));
                } else {
                    let other = if a1 == aid {
                        a2
                    } else {
                        a1
                    };
                    assert(elems_bounded(old(self).arrays@[other].elements@, n0));
                    assert forall|i: int, j: int|
                        0 <= i < av[a1].elements@.len() && 0 <= j < av[a2].elements@.len() implies av[a1].elements@[i]
                        != av[a2].elements@[j] by {
                        if a1 == aid {
                            assert(av[a1].elements@[i].0 >= n0);
                            assert(av[a2].elements@[j].0 < n0);
                        } else {
                            assert(av[a1].elements@[i].0 < n0);
                            assert(av[a2].elements@[j].0 >= n0);
                        }
                    }
                }
            }
            // allocator and array-store facts
            assert(ca_alloc(*old(self), *self, len));
            assert(ca_arrays(*old(self), *self, len, num_columns));
            // cells: untouched after the spawn loop
            assert(self.cells@ == after_loop.cells@);
            // transforms: the array entity's transform goes in on top
            assert(self.transforms@ == after_loop.transforms@.insert(n0 + len, transform));
            lemma_const_range_insert_outside(
                after_loop.transforms@,
                n0,
                len,
                transform,
                n0 + len,
                transform,
            );
            lemma_const_range_extend(self.transforms@, n0, len, transform);
            lemma_fresh_range_insert_top(old(self).transforms@, after_loop.transforms@, n0, len, transform);
            // parents: untouched after the spawn loop
            assert(self.parents@ == after_loop.parents@);
            assert(create_array_post(*old(self), *self, values@, num_columns, transform));
        }
        Ok(a)
    }
}

/// The two arrays agree on everything but their element sequence.
pub open spec fn array_same_shape(a: Array, b: Array) -> bool {
    &&& a.num_columns == b.num_columns
    &&& a.cell_width == b.cell_width
    &&& a.cell_height == b.cell_height
    &&& a.alignment_duration == b.alignment_duration
}

/// What a successful insert does: one fresh cell carrying `value`, parented
/// to the array and spliced into its elements at `index`, a redraw marker,
/// and nothing else changed.
pub open spec fn insert_to_array_post(pre: World, post: World, entity: Entity, index: int, value: String, transform: Transform) -> bool {
    let n = pre.next_entity as int;
    let aid = entity.0 as int;
    &&& post.next_entity == n + 1
    &&& post.alive@ == pre.alive@.push(true)
    &&& post.cells@ == pre.cells@.insert(n, (ArrayCell { value }))
    &&& post.transforms@ == pre.transforms@.insert(n, transform)
    &&& post.parents@ == pre.parents@.insert(n, entity)
    &&& map_fresh_range(pre.arrays@, post.arrays@, aid, 1)
    &&& post.arrays@.contains_key(aid)
    &&& post.arrays@[aid].elements@ == pre.arrays@[aid].elements@.insert(index, Entity(n as usize))
    &&& array_same_shape(pre.arrays@[aid], post.arrays@[aid])
    &&& post.redraw_markers@ == pre.redraw_markers@.insert(aid, RedrawMarker)
    &&& same_anim(pre, post)
    &&& same_timers(pre, post)
}

/// What a successful pop does: the cell at `index` leaves the elements and
/// is despawned, a redraw marker is set, and nothing else changes.
pub open spec fn pop_from_array_post(pre: World, post: World, entity: Entity, index: int) -> bool {
    let aid = entity.0 as int;
    let victim = pre.arrays@[aid].elements@[index];
    let v = victim.0 as int;
    &&& post.next_entity == pre.next_entity
    &&& post.alive@ == if victim.0 < pre.alive@.len() {
        pre.alive@.update(v, false)
    } else {
        pre.alive@
    }
    &&& post.cells@ == pre.cells@.remove(v)
    &&& post.transforms@ == pre.transforms@.remove(v)
    &&& post.parents@ == pre.parents@.remove(v)
    &&& post.target_transforms@ == pre.target_transforms@.remove(v)
    &&& post.target_entities@ == pre.target_entities@.remove(v)
    &&& post.despawn_timers@ == pre.despawn_timers@.remove(v)
    &&& post.despawn_on_touch@ == pre.despawn_on_touch@.remove(v)
    &&& map_fresh_range(pre.arrays@, post.arrays@, aid, 1)
    &&& post.arrays@.contains_key(aid)
    &&& post.arrays@[aid].elements@ == pre.arrays@[aid].elements@.remove(index)
    &&& array_same_shape(pre.arrays@[aid], post.arrays@[aid])
    &&& post.redraw_markers@ == pre.redraw_markers@.insert(aid, RedrawMarker)
}

/// What a successful set does: a fresh cell takes over the slot at `index`
/// immediately, flying toward the old cell, while the old cell is tagged to
/// retire by timer or by touch, whichever fires first.
pub open spec fn set_in_array_post(pre: World, post: World, entity: Entity, index: int, value: String, transform: Transform) -> bool {
    let n = pre.next_entity as int;
    let aid = entity.0 as int;
    let old_cell = pre.arrays@[aid].elements@[index];
    let duration = pre.arrays@[aid].alignment_duration;
    let radius = ((pre.arrays@[aid].cell_width as int) / 2) as i64;
    &&& post.next_entity == n + 1
    &&& post.alive@ == pre.alive@.push(true)
    &&& post.cells@ == pre.cells@.insert(n, (ArrayCell { value }))
    &&& post.transforms@ == pre.transforms@.insert(n, transform)
    &&& post.parents@ == pre.parents@.insert(n, entity)
    &&& map_fresh_range(pre.arrays@, post.arrays@, aid, 1)
    &&& post.arrays@.contains_key(aid)
    &&& post.arrays@[aid].elements@ == pre.arrays@[aid].elements@.update(index, Entity(n as usize))
    &&& array_same_shape(pre.arrays@[aid], post.arrays@[aid])
    &&& post.target_entities@ == pre.target_entities@.insert(n, (TargetEntity { goal_entity: old_cell, duration, elapsed: 0 }))
    &&& post.target_transforms@ == pre.target_transforms@
    &&& post.despawn_timers@ == pre.despawn_timers@.insert(old_cell.0 as int, (DespawnTimer { time: duration }))
    &&& post.despawn_on_touch@ == pre.despawn_on_touch@.insert(old_cell.0 as int, (DespawnOnTouch { entity: Entity(n as usize), radius }))
    &&& post.redraw_markers@ == pre.redraw_markers@.insert(aid, RedrawMarker)
}

/// What a successful swap does: the two slots exchange their handles and a
/// redraw marker is set; nothing else changes.
pub open spec fn swap_in_array_post(pre: World, post: World, entity: Entity, a_index: int, b_index: int) -> bool {
    let aid = entity.0 as int;
    &&& post.next_entity == pre.next_entity
    &&& post.alive@ == pre.alive@
    &&& post.cells@ == pre.cells@
    &&& post.transforms@ == pre.transforms@
    &&& post.parents@ == pre.parents@
    &&& map_fresh_range(pre.arrays@, post.arrays@, aid, 1)
    &&& post.arrays@.contains_key(aid)
    &&& post.arrays@[aid].elements@ == crate::array::swapped(pre.arrays@[aid].elements@, a_index, b_index)
    &&& array_same_shape(pre.arrays@[aid], post.arrays@[aid])
    &&& post.redraw_markers@ == pre.redraw_markers@.insert(aid, RedrawMarker)
    &&& same_anim(pre, post)
    &&& same_timers(pre, post)
}

impl World {
    /// Spawns a new cell holding `value` and inserts its handle into the
    /// array's elements at `index`. An unknown array is `EntityNotFound`, an
    /// index past the end is `IndexOutOfRange`, and a full array or an
    /// exhausted allocator is `InvalidArgument`; every failure changes
    /// nothing.
    pub fn insert_to_array(&mut self, entity: Entity, index: usize, value: String, transform: Transform) -> (r: Result<(), ActionError>)
        requires
            old(self).wf(),
        ensures
            final(self).wf(),
            !old(self).arrays@.contains_key(entity.0 as int) ==> {
                &&& r == Err::<(), ActionError>(ActionError::EntityNotFound)
                &&& *final(self) == *old(self)
            },
            old(self).arrays@.contains_key(entity.0 as int) ==> ({
                let len = old(self).arrays@[entity.0 as int].elements@.len();
                &&& index > len ==> {
                    &&& r == Err::<(), ActionError>(ActionError::IndexOutOfRange)
                    &&& *final(self) == *old(self)
                }
                &&& index <= len && (len >= MAX_ARRAY_LEN || old(self).next_entity == usize::MAX) ==> {
                    &&& r == Err::<(), ActionError>(ActionError::InvalidArgument)
                    &&& *final(self) == *old(self)
                }
                &&& index <= len && len < MAX_ARRAY_LEN && old(self).next_entity < usize::MAX ==> {
                    &&& r == Ok::<(), ActionError>(())
                    &&& insert_to_array_post(*old(self), *final(self), entity, index as int, value, transform)
                }
            }),
    {
        let len = match self.arrays.borrow_for(entity) {
            None => {
                return Err(ActionError::EntityNotFound);
            },
            Some(arr) => arr.elements.len(),
        };
        if index > len {
            return Err(ActionError::IndexOutOfRange);
        }
        if len >= MAX_ARRAY_LEN || self.next_entity == usize::MAX {
            return Err(ActionError::InvalidArgument);
        }
        let n = self.spawn_cell(value, transform, entity);
        let ghost mid = *self;
        match self.arrays.mut_borrow_for(entity) {
            Some(arr) => {
                proof {
                    assert(*arr == mid.arrays@[entity.0 as int]);
                    assert(arr.wf());
                }
                let res = arr.insert(index, n);
            },
            None => {
                proof {
                    assert(false);
                }
            },
        }
        self.redraw_markers.add_for(entity, RedrawMarker);
        proof {
            self.lemma_array_mutation_wf(mid, entity, old(self).next_entity as int);
        }
        Ok(())
    }

    /// Proves the element invariants after one array's elements changed to a
    /// sequence whose handles were all either there before or freshly
    /// spawned.
    proof fn lemma_array_mutation_wf(&self, mid: World, entity: Entity, n0: int)
        requires
            self.arrays@.contains_key(entity.0 as int),
            map_fresh_range(mid.arrays@, self.arrays@, entity.0 as int, 1),
            forall|a: int|
                mid.arrays@.contains_key(a) ==> elems_distinct((#[trigger] mid.arrays@[a]).elements@),
            forall|a: int|
                mid.arrays@.contains_key(a) ==> elems_bounded(
                    (#[trigger] mid.arrays@[a]).elements@,
                    self.next_entity as int,
                ),
            forall|a1: int, a2: int|
                a1 != a2 && mid.arrays@.contains_key(a1) && mid.arrays@.contains_key(a2)
                    ==> elems_disjoint(
                    (#[trigger] mid.arrays@[a1]).elements@,
                    (#[trigger] mid.arrays@[a2]).elements@,
                ),
            elems_distinct(self.arrays@[entity.0 as int].elements@),
            elems_bounded(self.arrays@[entity.0 as int].elements@, self.next_entity as int),
            forall|a: int|
                a != entity.0 as int && mid.arrays@.contains_key(a) ==> elems_disjoint(
                    (#[trigger] mid.arrays@[a]).elements@,
                    self.arrays@[entity.0 as int].elements@,
                ) && elems_disjoint(
                    self.arrays@[entity.0 as int].elements@,
                    (#[trigger] mid.arrays@[a]).elements@,
                ),
        ensures
            forall|a: int|
                self.arrays@.contains_key(a) ==> elems_distinct((#[trigger] self.arrays@[a]).elements@),
            forall|a: int|
                self.arrays@.contains_key(a) ==> elems_bounded(
                    (#[trigger] self.arrays@[a]).elements@,
                    self.next_entity as int,
                ),
            forall|a1: int, a2: int|
                a1 != a2 && self.arrays@.contains_key(a1) && self.arrays@.contains_key(a2)
                    ==> elems_disjoint(
                    (#[trigger] self.arrays@[a1]).elements@,
                    (#[trigger] self.arrays@[a2]).elements@,
                ),
    {
        let aid = entity.0 as int;
        assert forall|a1: int, a2: int|
            a1 != a2 && self.arrays@.contains_key(a1) && self.arrays@.contains_key(a2)
            implies elems_disjoint(
            (#[trigger] self.arrays@[a1]).elements@,
            (#[trigger] self.arrays@[a2]).elements@,
        ) by {
            if a1 == aid {
                assert(self.arrays@[a2] == mid.arrays@[a2]);
            } else if a2 == aid {
                assert(self.arrays@[a1] == mid.arrays@[a1]);
            } else {
                assert(self.arrays@[a1] == mid.arrays@[a1]);
                assert(self.arrays@[a2] == mid.arrays@[a2]);
                assert(elems_disjoint(mid.arrays@[a1].elements@, mid.arrays@[a2].elements@));
            }
        }
    }
}

impl World {
    /// Removes the cell at `index` from the array, despawns it, and returns
    /// its text value. An unknown array, or a cell whose text is already
    /// gone, is `EntityNotFound`; an out-of-range index is `IndexOutOfRange`;
    /// every failure changes nothing.
    pub fn pop_from_array(&mut self, entity: Entity, index: usize) -> (r: Result<String, ActionError>)
        requires
            old(self).wf(),
        ensures
            final(self).wf(),
            !old(self).arrays@.contains_key(entity.0 as int) ==> {
                &&& r == Err::<String, ActionError>(ActionError::EntityNotFound)
                &&& *final(self) == *old(self)
            },
            old(self).arrays@.contains_key(entity.0 as int) ==> ({
                let elems = old(self).arrays@[entity.0 as int].elements@;
                &&& index >= elems.len() ==> {
                    &&& r == Err::<String, ActionError>(ActionError::IndexOutOfRange)
                    &&& *final(self) == *old(self)
                }
                &&& index < elems.len() && !old(self).cells@.contains_key(elems[index as int].0 as int) ==> {
                    &&& r == Err::<String, ActionError>(ActionError::EntityNotFound)
                    &&& *final(self) == *old(self)
                }
                &&& index < elems.len() && old(self).cells@.contains_key(elems[index as int].0 as int) ==> {
                    &&& r == Ok::<String, ActionError>(old(self).cells@[elems[index as int].0 as int].value)
                    &&& pop_from_array_post(*old(self), *final(self), entity, index as int)
                }
            }),
    {
        let victim = match self.arrays.borrow_for(entity) {
            None => {
                return Err(ActionError::EntityNotFound);
            },
            Some(arr) => {
                if index >= arr.elements.len() {
                    return Err(ActionError::IndexOutOfRange);
                }
                arr.elements[index]
            },
        };
        let value = match self.cells.borrow_for(victim) {
            None => {
                return Err(ActionError::EntityNotFound);
            },
            Some(cell) => cell.value.clone(),
        };
        let ghost mid = *self;
        match self.arrays.mut_borrow_for(entity) {
            Some(arr) => {
                proof {
                    assert(*arr == mid.arrays@[entity.0 as int]);
                    assert(arr.wf());
                }
                let res = arr.pop(index);
            },
            None => {
                proof {
                    assert(false);
                }
            },
        }
        self.redraw_markers.add_for(entity, RedrawMarker);
        let ghost mid2 = *self;
        proof {
            self.lemma_array_mutation_wf(mid, entity, old(self).next_entity as int);
        }
        self.despawn_cell(victim);
        proof {
            assert(self.arrays@ == mid2.arrays@);
        }
        Ok(value)
    }

    /// Spawns a new cell holding `value` and installs it at `index`; the old
    /// cell keeps flying until a despawn timer or the new cell's touch
    /// retires it, whichever fires first. An unknown array is
    /// `EntityNotFound`, an out-of-range index is `IndexOutOfRange`, and an
    /// exhausted allocator is `InvalidArgument`; every failure changes
    /// nothing.
    pub fn set_in_array(&mut self, entity: Entity, index: usize, value: String, transform: Transform) -> (r: Result<(), ActionError>)
        requires
            old(self).wf(),
        ensures
            final(self).wf(),
            !old(self).arrays@.contains_key(entity.0 as int) ==> {
                &&& r == Err::<(), ActionError>(ActionError::EntityNotFound)
                &&& *final(self) == *old(self)
            },
            old(self).arrays@.contains_key(entity.0 as int) ==> ({
                let elems = old(self).arrays@[entity.0 as int].elements@;
                &&& index >= elems.len() ==> {
                    &&& r == Err::<(), ActionError>(ActionError::IndexOutOfRange)
                    &&& *final(self) == *old(self)
                }
                &&& index < elems.len() && old(self).next_entity == usize::MAX ==> {
                    &&& r == Err::<(), ActionError>(ActionError::InvalidArgument)
                    &&& *final(self) == *old(self)
                }
                &&& index < elems.len() && old(self).next_entity < usize::MAX ==> {
                    &&& r == Ok::<(), ActionError>(())
                    &&& set_in_array_post(*old(self), *final(self), entity, index as int, value, transform)
                }
            }),
    {
        let (victim, duration, radius) = match self.arrays.borrow_for(entity) {
            None => {
                return Err(ActionError::EntityNotFound);
            },
            Some(arr) => {
                if index >= arr.elements.len() {
                    return Err(ActionError::IndexOutOfRange);
                }
                (arr.elements[index], arr.alignment_duration, ((arr.cell_width as u64) / 2) as i64)
            },
        };
        if self.next_entity == usize::MAX {
            return Err(ActionError::InvalidArgument);
        }
        let n = self.spawn_cell(value, transform, entity);
        let ghost mid = *self;
        match self.arrays.mut_borrow_for(entity) {
            Some(arr) => {
                proof {
                    assert(*arr == mid.arrays@[entity.0 as int]);
                    assert(arr.wf());
                }
                let res = arr.set(index, n);
            },
            None => {
                proof {
                    assert(false);
                }
            },
        }
        self.target_entities.add_for(n, TargetEntity { goal_entity: victim, duration, elapsed: 0 });
        self.despawn_timers.add_for(victim, DespawnTimer::new(duration));
        self.despawn_on_touch.add_for(victim, DespawnOnTouch::new(n, radius));
        self.redraw_markers.add_for(entity, RedrawMarker);
        proof {
            self.lemma_array_mutation_wf(mid, entity, old(self).next_entity as int);
        }
        Ok(())
    }

    /// Swaps the cells at the two indices by value; no entity is spawned or
    /// despawned. An unknown array is `EntityNotFound` and an out-of-range
    /// index is `IndexOutOfRange`; every failure changes nothing.
    pub fn swap_in_array(&mut self, entity: Entity, a_index: usize, b_index: usize) -> (r: Result<(), ActionError>)
        requires
            old(self).wf(),
        ensures
            final(self).wf(),
            !old(self).arrays@.contains_key(entity.0 as int) ==> {
                &&& r == Err::<(), ActionError>(ActionError::EntityNotFound)
                &&& *final(self) == *old(self)
            },
            old(self).arrays@.contains_key(entity.0 as int) ==> ({
                let elems = old(self).arrays@[entity.0 as int].elements@;
                &&& !(a_index < elems.len() && b_index < elems.len()) ==> {
                    &&& r == Err::<(), ActionError>(ActionError::IndexOutOfRange)
                    &&& *final(self) == *old(self)
                }
                &&& a_index < elems.len() && b_index < elems.len() ==> {
                    &&& r == Ok::<(), ActionError>(())
                    &&& swap_in_array_post(*old(self), *final(self), entity, a_index as int, b_index as int)
                }
            }),
    {
        match self.arrays.borrow_for(entity) {
            None => {
                return Err(ActionError::EntityNotFound);
            },
            Some(arr) => {
                if a_index >= arr.elements.len() || b_index >= arr.elements.len() {
                    return Err(ActionError::IndexOutOfRange);
                }
            },
        };
        let ghost mid = *self;
        match self.arrays.mut_borrow_for(entity) {
            Some(arr) => {
                proof {
                    assert(*arr == mid.arrays@[entity.0 as int]);
                    assert(arr.wf());
                }
                let res = arr.swap(a_index, b_index);
            },
            None => {
                proof {
                    assert(false);
                }
            },
        }
        self.redraw_markers.add_for(entity, RedrawMarker);
        proof {
            let aid = entity.0 as int;
            let elems = mid.arrays@[aid].elements@;
            lemma_elements_swapped(elems, elems, a_index as int, b_index as int, self.next_entity as int);
            assert forall|b: int|
                b != aid && mid.arrays@.contains_key(b) implies elems_disjoint(
                (#[trigger] mid.arrays@[b]).elements@,
                self.arrays@[aid].elements@,
            ) && elems_disjoint(
                self.arrays@[aid].elements@,
                (#[trigger] mid.arrays@[b]).elements@,
            ) by {
                lemma_elements_swapped(
                    mid.arrays@[b].elements@,
                    elems,
                    a_index as int,
                    b_index as int,
                    self.next_entity as int,
                );
            }
            self.lemma_array_mutation_wf(mid, entity, old(self).next_entity as int);
        }
        Ok(())
    }
}

/// Every element's cell component is present.
pub open spec fn all_cells_present(cells: Map<int, ArrayCell>, elems: Seq<Entity>) -> bool {
    forall|i: int| 0 <= i < elems.len() ==> cells.contains_key((#[trigger] elems[i]).0 as int)
}

/// The ordered text values of the cells behind the element handles.
pub open spec fn contents_of(cells: Map<int, ArrayCell>, elems: Seq<Entity>) -> Seq<String> {
    elems.map(|i: int, e: Entity| cells[e.0 as int].value)
}

impl World {
    /// The ordered text values of all cells of the array. An unknown array,
    /// or an element whose cell is gone, is `EntityNotFound`.
    pub fn get_array_contents(&self, entity: Entity) -> (r: Result<Vec<String>, ActionError>)
        requires
            self.wf(),
        ensures
            r is Ok <==> (self.arrays@.contains_key(entity.0 as int) && all_cells_present(
                self.cells@,
                self.arrays@[entity.0 as int].elements@,
            )),
            r matches Ok(v) ==> v@ == contents_of(self.cells@, self.arrays@[entity.0 as int].elements@),
            r matches Err(e) ==> e == ActionError::EntityNotFound,
    {
        let arr = match self.arrays.borrow_for(entity) {
            None => {
                return Err(ActionError::EntityNotFound);
            },
            Some(arr) => arr,
        };
        let ghost elems = arr.elements@;
        let n = arr.elements.len();
        let mut out: Vec<String> = Vec::new();
        let mut i: usize = 0;
        while i < n
            invariant
                self.wf(),
                self.arrays@.contains_key(entity.0 as int),
                elems == self.arrays@[entity.0 as int].elements@,
                arr == self.arrays@[entity.0 as int],
                n == elems.len(),
                i <= n,
                out@.len() == i,
                forall|j: int| 0 <= j < i ==> self.cells@.contains_key((#[trigger] elems[j]).0 as int),
                forall|j: int| 0 <= j < i ==> out@[j] == self.cells@[(#[trigger] elems[j]).0 as int].value,
            decreases n - i,
        {
            match self.cells.borrow_for(arr.elements[i]) {
                None => {
                    return Err(ActionError::EntityNotFound);
                },
                Some(cell) => {
                    out.push(cell.value.clone());
                },
            }
            i = i + 1;
        }
        proof {
            assert(out@ =~= contents_of(self.cells@, elems));
        }
        Ok(out)
    }

    /// The ordered entity handles of all cells of the array. An unknown
    /// array is `EntityNotFound`.
    pub fn get_array_content_entities(&self, entity: Entity) -> (r: Result<Vec<Entity>, ActionError>)
        requires
            self.wf(),
        ensures
            r is Ok <==> self.arrays@.contains_key(entity.0 as int),
            r matches Ok(v) ==> v@ == self.arrays@[entity.0 as int].elements@,
            r matches Err(e) ==> e == ActionError::EntityNotFound,
    {
        let arr = match self.arrays.borrow_for(entity) {
            None => {
                return Err(ActionError::EntityNotFound);
            },
            Some(arr) => arr,
        };
        let n = arr.elements.len();
        let mut out: Vec<Entity> = Vec::new();
        let mut i: usize = 0;
        while i < n
            invariant
                n == arr.elements@.len(),
                i <= n,
                out@ == arr.elements@.subrange(0, i as int),
            decreases n - i,
        {
            out.push(arr.elements[i]);
            proof {
                assert(out@ =~= arr.elements@.subrange(0, i + 1 as int));
            }
            i = i + 1;
        }
        proof {
            assert(out@ =~= arr.elements@);
        }
        Ok(out)
    }

    /// The ordered world translations of all cells of the array. An unknown
    /// array, or an element whose world position cannot be resolved, is
    /// `EntityNotFound`.
    pub fn get_array_content_coordinates(&self, entity: Entity) -> (r: Result<Vec<Vec3i>, ActionError>)
        requires
            self.wf(),
        ensures
            r is Ok <==> (self.arrays@.contains_key(entity.0 as int) && (forall|i: int|
                0 <= i < self.arrays@[entity.0 as int].elements@.len()
                    ==> world_translation_spec(
                    self.transforms@,
                    self.parents@,
                    (#[trigger] self.arrays@[entity.0 as int].elements@[i]).0 as int,
                    self.next_entity as nat,
                ) is Some)),
            r matches Ok(v) ==> v@.len() == self.arrays@[entity.0 as int].elements@.len()
                && forall|i: int|
                0 <= i < v@.len() ==> (#[trigger] v@[i]) == world_translation_spec(
                    self.transforms@,
                    self.parents@,
                    self.arrays@[entity.0 as int].elements@[i].0 as int,
                    self.next_entity as nat,
                )->0,
            r matches Err(e) ==> e == ActionError::EntityNotFound,
    {
        let arr = match self.arrays.borrow_for(entity) {
            None => {
                return Err(ActionError::EntityNotFound);
            },
            Some(arr) => arr,
        };
        let ghost elems = arr.elements@;
        let n = arr.elements.len();
        let mut out: Vec<Vec3i> = Vec::new();
        let mut i: usize = 0;
        while i < n
            invariant
                self.wf(),
                self.arrays@.contains_key(entity.0 as int),
                elems == self.arrays@[entity.0 as int].elements@,
                arr == self.arrays@[entity.0 as int],
                n == elems.len(),
                i <= n,
                out@.len() == i,
                forall|j: int|
                    0 <= j < i ==> world_translation_spec(
                        self.transforms@,
                        self.parents@,
                        (#[trigger] elems[j]).0 as int,
                        self.next_entity as nat,
                    ) is Some,
                forall|j: int|
                    0 <= j < i ==> (#[trigger] out@[j]) == world_translation_spec(
                        self.transforms@,
                        self.parents@,
                        elems[j].0 as int,
                        self.next_entity as nat,
                    )->0,
            decreases n - i,
        {
            match self.world_translation(arr.elements[i]) {
                None => {
                    return Err(ActionError::EntityNotFound);
                },
                Some(w) => {
                    out.push(w);
                },
            }
            i = i + 1;
        }
        Ok(out)
    }
}

/// What one dispatched action does to the world and what it answers: the
/// whole protocol, one arm per action. A rejected action leaves the world
/// exactly as it was.
pub open spec fn process_post(pre: World, post: World, action: Action, r: Result<Data, ActionError>) -> bool {
    match action {
        Action::Destroy { entity } => {
            &&& !pre.is_alive(entity.0 as int) ==> r == Err::<Data, ActionError>(
                ActionError::EntityNotFound,
            ) && post == pre
            &&& pre.is_alive(entity.0 as int) ==> {
                &&& r == Ok::<Data, ActionError>(Data::Nothing)
                &&& post.next_entity == pre.next_entity
                &&& forall|x: int|
                    0 <= x < pre.next_entity ==> #[trigger] crate::world::destroy_effect(
                        pre,
                        post,
                        entity.0 as int,
                        x,
                    )
                &&& forall|x: int|
                    !(0 <= x < pre.next_entity) ==> #[trigger] crate::world::entity_same(pre, post, x)
            }
        },
        Action::SetParent { parent, child } => {
            &&& !(pre.is_alive(parent.0 as int) && pre.is_alive(child.0 as int)) ==> r == Err::<
                Data,
                ActionError,
            >(ActionError::EntityNotFound) && post == pre
            &&& pre.is_alive(parent.0 as int) && pre.is_alive(child.0 as int) ==> {
                &&& r == Ok::<Data, ActionError>(Data::Nothing)
                &&& post.parents@ == pre.parents@.insert(child.0 as int, parent)
                &&& same_alloc(pre, post)
                &&& post.transforms@ == pre.transforms@
                &&& post.cells@ == pre.cells@
                &&& post.arrays@ == pre.arrays@
                &&& same_anim(pre, post)
                &&& same_timers(pre, post)
                &&& post.redraw_markers@ == pre.redraw_markers@
            }
        },
        Action::SetTarget { entity, translation, scale, duration } => {
            &&& !pre.is_alive(entity.0 as int) ==> r == Err::<Data, ActionError>(
                ActionError::EntityNotFound,
            ) && post == pre
            &&& pre.is_alive(entity.0 as int) ==> {
                &&& r == Ok::<Data, ActionError>(Data::Nothing)
                &&& post.target_transforms@ == pre.target_transforms@.insert(
                    entity.0 as int,
                    (TargetTransform {
                        goal_translation: translation,
                        goal_scale: scale,
                        duration,
                        elapsed: 0,
                    }),
                )
                &&& post.target_entities@ == pre.target_entities@
                &&& post.transforms@ == pre.transforms@
                &&& post.cells@ == pre.cells@
                &&& post.parents@ == pre.parents@
                &&& post.arrays@ == pre.arrays@
                &&& same_timers(pre, post)
                &&& post.redraw_markers@ == pre.redraw_markers@
                &&& same_alloc(pre, post)
            }
        },
        Action::GetPosition { entity, reference } => {
            &&& post == pre
            &&& r == (match position_result(pre, entity, reference) {
                Ok(v) => Ok::<Data, ActionError>(Data::Position(v)),
                Err(e) => Err::<Data, ActionError>(e),
            })
        },
        Action::GetValue { entity } => {
            &&& post == pre
            &&& pre.cells@.contains_key(entity.0 as int) ==> r == Ok::<Data, ActionError>(
                Data::Value(pre.cells@[entity.0 as int].value),
            )
            &&& !pre.cells@.contains_key(entity.0 as int) ==> r == Err::<Data, ActionError>(
                ActionError::EntityNotFound,
            )
        },
        Action::CreateArray { array, translation, scale } => {
            let cols: usize = if array@.len() == 0 {
                1
            } else {
                array@.len() as usize
            };
            let t = Transform { translation, scale };
            &&& !(array@.len() <= MAX_ARRAY_LEN && pre.next_entity + array@.len() + 1
                <= usize::MAX) ==> r == Err::<Data, ActionError>(ActionError::InvalidArgument)
                && post == pre
            &&& (array@.len() <= MAX_ARRAY_LEN && pre.next_entity + array@.len() + 1 <= usize::MAX)
                ==> {
                &&& r == Ok::<Data, ActionError>(
                    Data::Entity(Entity((pre.next_entity + array@.len()) as usize)),
                )
                &&& create_array_post(pre, post, array@, cols, t)
            }
        },
        Action::InsertToArray { entity, index, value, translation } => {
            let t = Transform { translation, scale: 1 };
            &&& !pre.arrays@.contains_key(entity.0 as int) ==> r == Err::<Data, ActionError>(
                ActionError::EntityNotFound,
            ) && post == pre
            &&& pre.arrays@.contains_key(entity.0 as int) ==> ({
                let len = pre.arrays@[entity.0 as int].elements@.len();
                &&& index > len ==> r == Err::<Data, ActionError>(ActionError::IndexOutOfRange)
                    && post == pre
                &&& index <= len && (len >= MAX_ARRAY_LEN || pre.next_entity == usize::MAX) ==> r
                    == Err::<Data, ActionError>(ActionError::InvalidArgument) && post == pre
                &&& index <= len && len < MAX_ARRAY_LEN && pre.next_entity < usize::MAX ==> {
                    &&& r == Ok::<Data, ActionError>(Data::Nothing)
                    &&& insert_to_array_post(pre, post, entity, index as int, value, t)
                }
            })
        },
        Action::SwapInArray { entity, a_index, b_index } => {
            &&& !pre.arrays@.contains_key(entity.0 as int) ==> r == Err::<Data, ActionError>(
                ActionError::EntityNotFound,
            ) && post == pre
            &&& pre.arrays@.contains_key(entity.0 as int) ==> ({
                let len = pre.arrays@[entity.0 as int].elements@.len();
                &&& !(a_index < len && b_index < len) ==> r == Err::<Data, ActionError>(
                    ActionError::IndexOutOfRange,
                ) && post == pre
                &&& a_index < len && b_index < len ==> {
                    &&& r == Ok::<Data, ActionError>(Data::Nothing)
                    &&& swap_in_array_post(pre, post, entity, a_index as int, b_index as int)
                }
            })
        },
        Action::PopFromArray { entity, index } => {
            &&& !pre.arrays@.contains_key(entity.0 as int) ==> r == Err::<Data, ActionError>(
                ActionError::EntityNotFound,
            ) && post == pre
            &&& pre.arrays@.contains_key(entity.0 as int) ==> ({
                let elems = pre.arrays@[entity.0 as int].elements@;
                &&& index >= elems.len() ==> r == Err::<Data, ActionError>(
                    ActionError::IndexOutOfRange,
                ) && post == pre
                &&& index < elems.len() && !pre.cells@.contains_key(elems[index as int].0 as int)
                    ==> r == Err::<Data, ActionError>(ActionError::EntityNotFound) && post == pre
                &&& index < elems.len() && pre.cells@.contains_key(elems[index as int].0 as int)
                    ==> {
                    &&& r == Ok::<Data, ActionError>(
                        Data::Value(pre.cells@[elems[index as int].0 as int].value),
                    )
                    &&& pop_from_array_post(pre, post, entity, index as int)
                }
            })
        },
        Action::SetInArray { entity, index, value, translation } => {
            let t = Transform { translation, scale: 1 };
            &&& !pre.arrays@.contains_key(entity.0 as int) ==> r == Err::<Data, ActionError>(
                ActionError::EntityNotFound,
            ) && post == pre
            &&& pre.arrays@.contains_key(entity.0 as int) ==> ({
                let len = pre.arrays@[entity.0 as int].elements@.len();
                &&& index >= len ==> r == Err::<Data, ActionError>(ActionError::IndexOutOfRange)
                    && post == pre
                &&& index < len && pre.next_entity == usize::MAX ==> r == Err::<Data, ActionError>(
                    ActionError::InvalidArgument,
                ) && post == pre
                &&& index < len && pre.next_entity < usize::MAX ==> {
                    &&& r == Ok::<Data, ActionError>(Data::Nothing)
                    &&& set_in_array_post(pre, post, entity, index as int, value, t)
                }
            })
        },
        Action::GetArrayContents { entity } => {
            &&& post == pre
            &&& r is Ok <==> (pre.arrays@.contains_key(entity.0 as int) && all_cells_present(
                pre.cells@,
                pre.arrays@[entity.0 as int].elements@,
            ))
            &&& r matches Ok(d) ==> d matches Data::Vector(v) && v@ == contents_of(
                pre.cells@,
                pre.arrays@[entity.0 as int].elements@,
            )
            &&& r matches Err(e) ==> e == ActionError::EntityNotFound
        },
        Action::GetArrayContentEntities { entity } => {
            &&& post == pre
            &&& r is Ok <==> pre.arrays@.contains_key(entity.0 as int)
            &&& r matches Ok(d) ==> d matches Data::Entities(v) && v@ == pre.arrays@[entity.0 as int].elements@
            &&& r matches Err(e) ==> e == ActionError::EntityNotFound
        },
        Action::GetArrayContentCoordinates { entity } => {
            &&& post == pre
            &&& r is Ok <==> (pre.arrays@.contains_key(entity.0 as int) && (forall|i: int|
                0 <= i < pre.arrays@[entity.0 as int].elements@.len() ==> world_translation_spec(
                    pre.transforms@,
                    pre.parents@,
                    (#[trigger] pre.arrays@[entity.0 as int].elements@[i]).0 as int,
                    pre.next_entity as nat,
                ) is Some))
            &&& r matches Ok(d) ==> d matches Data::Coordinates(v) && v@.len()
                == pre.arrays@[entity.0 as int].elements@.len() && (forall|i: int|
                0 <= i < v@.len() ==> (#[trigger] v@[i]) == world_translation_spec(
                    pre.transforms@,
                    pre.parents@,
                    pre.arrays@[entity.0 as int].elements@[i].0 as int,
                    pre.next_entity as nat,
                )->0)
            &&& r matches Err(e) ==> e == ActionError::EntityNotFound
        },
    }
}

impl World {
    /// Applies one externally submitted action and produces its response.
    /// Every action validates before it mutates: a rejected action answers
    /// with its error and leaves the world exactly as it was. A created
    /// array is laid out as a single row: one column per value, at least
    /// one.
    pub fn process(&mut self, action: Action) -> (r: Result<Data, ActionError>)
        requires
            old(self).wf(),
        ensures
            final(self).wf(),
            process_post(*old(self), *final(self), action, r),
    {
        match action {
            Action::Destroy { entity } => match self.destroy(entity) {
                Ok(()) => Ok(Data::Nothing),
                Err(e) => Err(e),
            },
            Action::SetParent { parent, child } => match self.set_parent(parent, child) {
                Ok(()) => Ok(Data::Nothing),
                Err(e) => Err(e),
            },
            Action::SetTarget { entity, translation, scale, duration } => match self.set_target(
                entity,
                translation,
                scale,
                duration,
            ) {
                Ok(()) => Ok(Data::Nothing),
                Err(e) => Err(e),
            },
            Action::GetPosition { entity, reference } => match self.get_position(entity, reference) {
                Ok(v) => Ok(Data::Position(v)),
                Err(e) => Err(e),
            },
            Action::GetValue { entity } => match self.get_value(entity) {
                Ok(s) => Ok(Data::Value(s)),
                Err(e) => Err(e),
            },
            Action::CreateArray { array, translation, scale } => {
                let cols: usize = if array.len() == 0 {
                    1
                } else {
                    array.len()
                };
                match self.create_array(array, cols, Transform { translation, scale }) {
                    Ok(a) => Ok(Data::Entity(a)),
                    Err(e) => Err(e),
                }
            },
            Action::InsertToArray { entity, index, value, translation } => match self.insert_to_array(
                entity,
                index,
                value,
                Transform { translation, scale: 1 },
            ) {
                Ok(()) => Ok(Data::Nothing),
                Err(e) => Err(e),
            },
            Action::SwapInArray { entity, a_index, b_index } => match self.swap_in_array(
                entity,
                a_index,
                b_index,
            ) {
                Ok(()) => Ok(Data::Nothing),
                Err(e) => Err(e),
            },
            Action::PopFromArray { entity, index } => match self.pop_from_array(entity, index) {
                Ok(s) => Ok(Data::Value(s)),
                Err(e) => Err(e),
            },
            Action::SetInArray { entity, index, value, translation } => match self.set_in_array(
                entity,
                index,
                value,
                Transform { translation, scale: 1 },
            ) {
                Ok(()) => Ok(Data::Nothing),
                Err(e) => Err(e),
            },
            Action::GetArrayContents { entity } => match self.get_array_contents(entity) {
                Ok(v) => Ok(Data::Vector(v)),
                Err(e) => Err(e),
            },
            Action::GetArrayContentEntities { entity } => match self.get_array_content_entities(
                entity,
            ) {
                Ok(v) => Ok(Data::Entities(v)),
                Err(e) => Err(e),
            },
            Action::GetArrayContentCoordinates { entity } => match self.get_array_content_coordinates(
                entity,
            ) {
                Ok(v) => Ok(Data::Coordinates(v)),
                Err(e) => Err(e),
            },
        }
    }
}

/// Inserting shows the value: after a successful insert at `index`, the
/// array's readable contents are the old contents with `value` spliced in at
/// `index`, so the length grows by exactly one and the value sits at that
/// position.
pub proof fn lemma_insert_updates_contents(pre: World, post: World, entity: Entity, index: int, value: String, transform: Transform)
    requires
        pre.wf(),
        pre.arrays@.contains_key(entity.0 as int),
        0 <= index <= pre.arrays@[entity.0 as int].elements@.len(),
        insert_to_array_post(pre, post, entity, index, value, transform),
    ensures
        post.arrays@[entity.0 as int].elements@.len() == pre.arrays@[entity.0 as int].elements@.len() + 1,
        contents_of(post.cells@, post.arrays@[entity.0 as int].elements@) == contents_of(
            pre.cells@,
            pre.arrays@[entity.0 as int].elements@,
        ).insert(index, value),
        all_cells_present(pre.cells@, pre.arrays@[entity.0 as int].elements@)
            ==> all_cells_present(post.cells@, post.arrays@[entity.0 as int].elements@),
{
    let aid = entity.0 as int;
    let elems = pre.arrays@[aid].elements@;
    let n = pre.next_entity as int;
    let fresh = Entity(n as usize);
    let elems2 = post.arrays@[aid].elements@;
    assert(elems_bounded(elems, n));
    assert forall|k: int| 0 <= k < elems2.len() implies (#[trigger] elems2[k]).0 != n || elems2[k]
        == fresh by {
        if k < index {
            assert(elems2[k] == elems[k]);
        } else if k > index {
            assert(elems2[k] == elems[k - 1]);
        }
    }
    assert(contents_of(post.cells@, elems2) =~= contents_of(pre.cells@, elems).insert(
        index,
        value,
    )) by {
        assert forall|k: int| 0 <= k < elems2.len() implies contents_of(post.cells@, elems2)[k]
            == contents_of(pre.cells@, elems).insert(index, value)[k] by {
            if k < index {
                assert(elems2[k] == elems[k]);
                assert(elems[k].0 < n);
                assert(post.cells@[elems[k].0 as int] == pre.cells@[elems[k].0 as int]);
            } else if k == index {
                assert(elems2[k] == fresh);
                assert(post.cells@[n] == (ArrayCell { value }));
            } else {
                assert(elems2[k] == elems[k - 1]);
                assert(elems[k - 1].0 < n);
                assert(post.cells@[elems[k - 1].0 as int] == pre.cells@[elems[k - 1].0 as int]);
            }
        }
    }
    if all_cells_present(pre.cells@, elems) {
        assert forall|k: int| 0 <= k < elems2.len() implies post.cells@.contains_key(
            (#[trigger] elems2[k]).0 as int,
        ) by {
            if k < index {
                assert(elems2[k] == elems[k]);
            } else if k > index {
                assert(elems2[k] == elems[k - 1]);
            }
        }
    }
}

/// Popping removes the value: after a successful pop at `index`, the array's
/// readable contents are the old contents with position `index` gone, so the
/// length shrinks by exactly one; the popped cell itself is despawned at
/// once.
pub proof fn lemma_pop_updates_contents(pre: World, post: World, entity: Entity, index: int)
    requires
        pre.wf(),
        pre.arrays@.contains_key(entity.0 as int),
        0 <= index < pre.arrays@[entity.0 as int].elements@.len(),
        pop_from_array_post(pre, post, entity, index),
    ensures
        post.arrays@[entity.0 as int].elements@.len() == pre.arrays@[entity.0 as int].elements@.len() - 1,
        contents_of(post.cells@, post.arrays@[entity.0 as int].elements@) == contents_of(
            pre.cells@,
            pre.arrays@[entity.0 as int].elements@,
        ).remove(index),
        !post.cells@.contains_key(pre.arrays@[entity.0 as int].elements@[index].0 as int),
        !post.transforms@.contains_key(pre.arrays@[entity.0 as int].elements@[index].0 as int),
        all_cells_present(pre.cells@, pre.arrays@[entity.0 as int].elements@)
            ==> all_cells_present(post.cells@, post.arrays@[entity.0 as int].elements@),
{
    let aid = entity.0 as int;
    let elems = pre.arrays@[aid].elements@;
    let victim = elems[index];
    let elems2 = post.arrays@[aid].elements@;
    assert(elems_distinct(elems));
    assert forall|k: int| 0 <= k < elems2.len() implies (#[trigger] elems2[k]) != victim by {
        if k < index {
            assert(elems2[k] == elems[k]);
        } else {
            assert(elems2[k] == elems[k + 1]);
        }
    }
    assert(contents_of(post.cells@, elems2) =~= contents_of(pre.cells@, elems).remove(index)) by {
        assert forall|k: int| 0 <= k < elems2.len() implies contents_of(post.cells@, elems2)[k]
            == contents_of(pre.cells@, elems).remove(index)[k] by {
            if k < index {
                assert(elems2[k] == elems[k]);
                assert(post.cells@[elems[k].0 as int] == pre.cells@[elems[k].0 as int]);
            } else {
                assert(elems2[k] == elems[k + 1]);
                assert(post.cells@[elems[k + 1].0 as int] == pre.cells@[elems[k + 1].0 as int]);
            }
        }
    }
    if all_cells_present(pre.cells@, elems) {
        assert forall|k: int| 0 <= k < elems2.len() implies post.cells@.contains_key(
            (#[trigger] elems2[k]).0 as int,
        ) by {
            if k < index {
                assert(elems2[k] == elems[k]);
            } else {
                assert(elems2[k] == elems[k + 1]);
            }
        }
    }
}

/// Setting replaces the slot immediately: after a successful set at `index`,
/// the slot's logical identity is the new cell, reading that cell gives the
/// new value, and the readable contents are the old contents with position
/// `index` overwritten. The old cell is not despawned yet: it carries a
/// despawn timer of the array's alignment duration and a proximity trigger
/// on the new cell, and whichever fires first retires it.
pub proof fn lemma_set_updates_contents(pre: World, post: World, entity: Entity, index: int, value: String, transform: Transform)
    requires
        pre.wf(),
        pre.arrays@.contains_key(entity.0 as int),
        0 <= index < pre.arrays@[entity.0 as int].elements@.len(),
        set_in_array_post(pre, post, entity, index, value, transform),
    ensures
        post.arrays@[entity.0 as int].elements@.len() == pre.arrays@[entity.0 as int].elements@.len(),
        post.arrays@[entity.0 as int].elements@[index] == Entity(pre.next_entity),
        post.cells@.contains_key(pre.next_entity as int),
        post.cells@[pre.next_entity as int].value == value,
        contents_of(post.cells@, post.arrays@[entity.0 as int].elements@) == contents_of(
            pre.cells@,
            pre.arrays@[entity.0 as int].elements@,
        ).update(index, value),
        post.despawn_timers@.contains_key(pre.arrays@[entity.0 as int].elements@[index].0 as int),
        post.despawn_on_touch@.contains_key(pre.arrays@[entity.0 as int].elements@[index].0 as int),
        all_cells_present(pre.cells@, pre.arrays@[entity.0 as int].elements@)
            ==> all_cells_present(post.cells@, post.arrays@[entity.0 as int].elements@),
{
    let aid = entity.0 as int;
    let elems = pre.arrays@[aid].elements@;
    let n = pre.next_entity as int;
    let elems2 = post.arrays@[aid].elements@;
    assert(elems_bounded(elems, n));
    assert(contents_of(post.cells@, elems2) =~= contents_of(pre.cells@, elems).update(
        index,
        value,
    )) by {
        assert forall|k: int| 0 <= k < elems2.len() implies contents_of(post.cells@, elems2)[k]
            == contents_of(pre.cells@, elems).update(index, value)[k] by {
            if k == index {
                assert(elems2[k] == Entity(n as usize));
                assert(post.cells@[n] == (ArrayCell { value }));
            } else {
                assert(elems2[k] == elems[k]);
                assert(elems[k].0 < n);
                assert(post.cells@[elems[k].0 as int] == pre.cells@[elems[k].0 as int]);
            }
        }
    }
    if all_cells_present(pre.cells@, elems) {
        assert forall|k: int| 0 <= k < elems2.len() implies post.cells@.contains_key(
            (#[trigger] elems2[k]).0 as int,
        ) by {
            if k != index {
                assert(elems2[k] == elems[k]);
            }
        }
    }
}

/// The readable contents of a swapped array are the contents swapped: the
/// text at each position follows its cell.
pub proof fn lemma_contents_of_swapped(cells: Map<int, ArrayCell>, elems: Seq<Entity>, i: int, j: int)
    requires
        0 <= i < elems.len(),
        0 <= j < elems.len(),
    ensures
        contents_of(cells, crate::array::swapped(elems, i, j)) == crate::array::swapped(
            contents_of(cells, elems),
            i,
            j,
        ),
{
    assert(contents_of(cells, crate::array::swapped(elems, i, j)) =~= crate::array::swapped(
        contents_of(cells, elems),
        i,
        j,
    ));
}

/// Swapping twice leaves the readable contents exactly as they were: the
/// identity on what the array shows.
pub proof fn lemma_swap_twice_contents(cells: Map<int, ArrayCell>, elems: Seq<Entity>, i: int, j: int)
    requires
        0 <= i < elems.len(),
        0 <= j < elems.len(),
    ensures
        contents_of(
            cells,
            crate::array::swapped(crate::array::swapped(elems, i, j), i, j),
        ) == contents_of(cells, elems),
{
    crate::array::lemma_swap_twice(elems, i, j);
}

} // verus!
