//! The per-tick engine passes: advancing animations, retiring entities by
//! proximity or timer, and refreshing grid-layout goals, in the order the
//! tick runs them.

use vstd::prelude::*;
use crate::ecs::Entity;
use crate::interp::TargetEntity;
use crate::interp::TargetTransform;
use crate::interp::step_target_entity_spec;
use crate::interp::step_target_transform_spec;
use crate::interp::step_target_entity;
use crate::interp::step_target_transform;
use crate::transform::Transform;
use crate::transform::Vec3i;
use crate::world::World;
use crate::world::entity_same;
use crate::world::entity_erased;
use crate::world::seq_has_entity;
use crate::world::elems_distinct;
use crate::world::elems_disjoint;
use crate::world::RedrawMarker;
use crate::action::Action;
use crate::action::ActionError;
use crate::action::Data;
use crate::world::world_translation_spec;
use crate::transform::within_distance;
use crate::util::DespawnOnTouch;
use crate::util::DespawnTimer;

verus! {

/// The transform and both animation components agree on `x` between the two
/// worlds.
pub open spec fn anim_same_at(a: World, b: World, x: int) -> bool {
    &&& a.transforms@.contains_key(x) <==> b.transforms@.contains_key(x)
    &&& a.transforms@.contains_key(x) ==> a.transforms@[x] == b.transforms@[x]
    &&& a.target_transforms@.contains_key(x) <==> b.target_transforms@.contains_key(x)
    &&& a.target_transforms@.contains_key(x) ==> a.target_transforms@[x] == b.target_transforms@[x]
    &&& a.target_entities@.contains_key(x) <==> b.target_entities@.contains_key(x)
    &&& a.target_entities@.contains_key(x) ==> a.target_entities@[x] == b.target_entities@[x]
}

/// What one tick does to one goal-transform animation: the step rule where
/// both components are present, nothing where either is missing (the entity
/// is skipped for this tick).
pub open spec fn tt_effect(pre: World, post: World, dt: u32, x: int) -> bool {
    if pre.target_transforms@.contains_key(x) && pre.transforms@.contains_key(x) {
        let s = step_target_transform_spec(pre.transforms@[x], pre.target_transforms@[x], dt);
        &&& post.transforms@.contains_key(x)
        &&& post.transforms@[x] == s.0
        &&& match s.1 {
            None => !post.target_transforms@.contains_key(x),
            Some(v) => post.target_transforms@.contains_key(x) && post.target_transforms@[x] == v,
        }
    } else {
        &&& (post.transforms@.contains_key(x) <==> pre.transforms@.contains_key(x))
        &&& pre.transforms@.contains_key(x) ==> post.transforms@[x] == pre.transforms@[x]
        &&& (post.target_transforms@.contains_key(x) <==> pre.target_transforms@.contains_key(x))
        &&& pre.target_transforms@.contains_key(x) ==> post.target_transforms@[x]
            == pre.target_transforms@[x]
    }
}

/// An established goal-transform step outcome at `x` survives changes to
/// other entities.
proof fn lemma_tt_effect_frame(pre: World, mid: World, post: World, dt: u32, x: int)
    requires
        tt_effect(pre, mid, dt, x),
        mid.transforms@.contains_key(x) <==> post.transforms@.contains_key(x),
        mid.transforms@.contains_key(x) ==> post.transforms@[x] == mid.transforms@[x],
        mid.target_transforms@.contains_key(x) <==> post.target_transforms@.contains_key(x),
        mid.target_transforms@.contains_key(x) ==> post.target_transforms@[x]
            == mid.target_transforms@[x],
    ensures
        tt_effect(pre, post, dt, x),
{
}

/// What the goal-transform pass does: every animated entity takes one step,
/// everything else in the world is untouched.
pub open spec fn advance_tt_post(pre: World, post: World, dt: u32) -> bool {
    &&& forall|x: int| #[trigger] tt_effect(pre, post, dt, x)
    &&& post.next_entity == pre.next_entity
    &&& post.alive@ == pre.alive@
    &&& post.cells@ == pre.cells@
    &&& post.parents@ == pre.parents@
    &&& post.arrays@ == pre.arrays@
    &&& post.target_entities@ == pre.target_entities@
    &&& post.despawn_timers@ == pre.despawn_timers@
    &&& post.despawn_on_touch@ == pre.despawn_on_touch@
    &&& post.redraw_markers@ == pre.redraw_markers@
}

impl World {
    /// Advances every goal-transform animation by `dt`: progress grows, the
    /// translation re-blends toward the goal, and a finished animation snaps
    /// to its goal and removes itself. An animated entity without a
    /// transform is skipped for this tick.
    pub fn advance_target_transforms(&mut self, dt: u32)
        requires
            old(self).wf(),
        ensures
            final(self).wf(),
            advance_tt_post(*old(self), *final(self), dt),
    {
        let ids = self.target_transforms.entities();
        let n = ids.len();
        let mut k: usize = 0;
        while k < n
            invariant
                self.wf(),
                n == ids@.len(),
                k <= n,
                elems_distinct(ids@),
                forall|j: int|
                    0 <= j < n ==> old(self).target_transforms@.contains_key(
                        (#[trigger] ids@[j]).0 as int,
                    ),
                forall|x: int|
                    old(self).target_transforms@.contains_key(x) ==> seq_has_entity(ids@, x),
                forall|j: int| 0 <= j < k ==> tt_effect(*old(self), *self, dt, (#[trigger] ids@[j]).0 as int),
                forall|x: int| !seq_has_entity(ids@.subrange(0, k as int), x) ==> anim_same_at(*old(self), *self, x),
                self.next_entity == old(self).next_entity,
                self.alive@ == old(self).alive@,
                self.cells@ == old(self).cells@,
                self.parents@ == old(self).parents@,
                self.arrays@ == old(self).arrays@,
                self.target_entities@ == old(self).target_entities@,
                self.despawn_timers@ == old(self).despawn_timers@,
                self.despawn_on_touch@ == old(self).despawn_on_touch@,
                self.redraw_markers@ == old(self).redraw_markers@,
            decreases n - k,
        {
            let e = ids[k];
            let ghost prev = *self;
            proof {
                assert(!seq_has_entity(ids@.subrange(0, k as int), e.0 as int)) by {
                    if seq_has_entity(ids@.subrange(0, k as int), e.0 as int) {
                        let j = choose|j: int|
                            0 <= j < k && (#[trigger] ids@.subrange(0, k as int)[j]).0 == e.0;
                        assert(ids@[j].0 == e.0 && ids@[j] != ids@[k as int]);
                    }
                }
                assert(anim_same_at(*old(self), *self, e.0 as int));
            }
            let tt_opt: Option<TargetTransform> = match self.target_transforms.borrow_for(e) {
                None => None,
                Some(tt) => Some(*tt),
            };
            let t_opt: Option<Transform> = match self.transforms.borrow_for(e) {
                None => None,
                Some(t) => Some(*t),
            };
            match (tt_opt, t_opt) {
                (Some(tt), Some(t)) => {
                    let s = step_target_transform(t, tt, dt);
                    self.transforms.add_for(e, s.0);
                    match s.1 {
                        None => {
                            let _ = self.target_transforms.remove_for(e);
                        },
                        Some(v) => {
                            self.target_transforms.add_for(e, v);
                        },
                    }
                },
                _ => {
                },
            }
            proof {
                assert(tt_effect(*old(self), *self, dt, e.0 as int));
                assert forall|j: int|
                    0 <= j < k + 1 implies tt_effect(*old(self), *self, dt, (#[trigger] ids@[j]).0 as int) by {
                    if j < k {
                        assert(ids@[j] != ids@[k as int]);
                        lemma_tt_effect_frame(*old(self), prev, *self, dt, ids@[j].0 as int);
                    }
                }
                assert forall|x: int|
                    !seq_has_entity(ids@.subrange(0, k + 1 as int), x) implies anim_same_at(
                    *old(self),
                    *self,
                    x,
                ) by {
                    assert(!seq_has_entity(ids@.subrange(0, k as int), x)) by {
                        if seq_has_entity(ids@.subrange(0, k as int), x) {
                            let j = choose|j: int|
                                0 <= j < k && (#[trigger] ids@.subrange(0, k as int)[j]).0 == x;
                            assert(ids@.subrange(0, k + 1 as int)[j].0 == x);
                        }
                    }
                    assert(ids@[k as int].0 != x) by {
                        assert(ids@.subrange(0, k + 1 as int)[k as int] == ids@[k as int]);
                    }
                    assert(anim_same_at(*old(self), prev, x));
                    assert(anim_same_at(prev, *self, x));
                }
            }
            k = k + 1;
        }
        proof {
            assert forall|x: int| #[trigger] tt_effect(*old(self), *self, dt, x) by {
                if old(self).target_transforms@.contains_key(x) {
                    assert(seq_has_entity(ids@, x));
                    let j = choose|j: int| 0 <= j < ids@.len() && (#[trigger] ids@[j]).0 == x;
                    assert(tt_effect(*old(self), *self, dt, ids@[j].0 as int));
                } else {
                    assert(!seq_has_entity(ids@.subrange(0, n as int), x)) by {
                        if seq_has_entity(ids@.subrange(0, n as int), x) {
                            let j = choose|j: int|
                                0 <= j < n && (#[trigger] ids@.subrange(0, n as int)[j]).0 == x;
                            assert(old(self).target_transforms@.contains_key(ids@[j].0 as int));
                        }
                    }
                    assert(anim_same_at(*old(self), *self, x));
                }
            }
        }
    }
}

/// The goal translation a goal-entity animation on `x` chases this tick:
/// the live translation of its goal entity, or `None` when the animation or
/// the goal's transform is missing.
pub open spec fn te_goal(w: World, x: int) -> Option<Vec3i> {
    if w.target_entities@.contains_key(x) && w.transforms@.contains_key(
        w.target_entities@[x].goal_entity.0 as int,
    ) {
        Some(w.transforms@[w.target_entities@[x].goal_entity.0 as int].translation)
    } else {
        None
    }
}

/// What one tick does to one goal-entity animation: the step rule toward the
/// goal entity's translation as of the start of the pass, where the owner's
/// transform and the goal are both available; nothing otherwise (the entity
/// is skipped for this tick).
pub open spec fn te_effect(pre: World, post: World, dt: u32, x: int) -> bool {
    if pre.target_entities@.contains_key(x) && pre.transforms@.contains_key(x) && te_goal(pre, x) is Some {
        let s = step_target_entity_spec(
            pre.transforms@[x],
            te_goal(pre, x)->0,
            pre.target_entities@[x],
            dt,
        );
        &&& post.transforms@.contains_key(x)
        &&& post.transforms@[x] == s.0
        &&& match s.1 {
            None => !post.target_entities@.contains_key(x),
            Some(v) => post.target_entities@.contains_key(x) && post.target_entities@[x] == v,
        }
    } else {
        &&& (post.transforms@.contains_key(x) <==> pre.transforms@.contains_key(x))
        &&& pre.transforms@.contains_key(x) ==> post.transforms@[x] == pre.transforms@[x]
        &&& (post.target_entities@.contains_key(x) <==> pre.target_entities@.contains_key(x))
        &&& pre.target_entities@.contains_key(x) ==> post.target_entities@[x]
            == pre.target_entities@[x]
    }
}

/// An established goal-entity step outcome at `x` survives changes to other
/// entities.
proof fn lemma_te_effect_frame(pre: World, mid: World, post: World, dt: u32, x: int)
    requires
        te_effect(pre, mid, dt, x),
        mid.transforms@.contains_key(x) <==> post.transforms@.contains_key(x),
        mid.transforms@.contains_key(x) ==> post.transforms@[x] == mid.transforms@[x],
        mid.target_entities@.contains_key(x) <==> post.target_entities@.contains_key(x),
        mid.target_entities@.contains_key(x) ==> post.target_entities@[x]
            == mid.target_entities@[x],
    ensures
        te_effect(pre, post, dt, x),
{
}

/// What the goal-entity pass does: every animated entity takes one step
/// toward its goal's position as of the start of the pass; everything else
/// in the world is untouched.
pub open spec fn advance_te_post(pre: World, post: World, dt: u32) -> bool {
    &&& forall|x: int| #[trigger] te_effect(pre, post, dt, x)
    &&& post.next_entity == pre.next_entity
    &&& post.alive@ == pre.alive@
    &&& post.cells@ == pre.cells@
    &&& post.parents@ == pre.parents@
    &&& post.arrays@ == pre.arrays@
    &&& post.target_transforms@ == pre.target_transforms@
    &&& post.despawn_timers@ == pre.despawn_timers@
    &&& post.despawn_on_touch@ == pre.despawn_on_touch@
    &&& post.redraw_markers@ == pre.redraw_markers@
}

impl World {
    /// Advances every goal-entity animation by `dt`. The goal translation is
    /// re-read from the goal entity's live transform once per tick, at the
    /// start of the pass, so a moving target continuously redirects the
    /// animation. An animation whose owner has no transform, or whose goal
    /// entity has none, is skipped for this tick.
    pub fn advance_target_entities(&mut self, dt: u32)
        requires
            old(self).wf(),
        ensures
            final(self).wf(),
            advance_te_post(*old(self), *final(self), dt),
    {
        let ids = self.target_entities.entities();
        let n = ids.len();
        // read phase: snapshot each animation's goal translation
        let mut goals: Vec<Option<Vec3i>> = Vec::new();
        let mut k: usize = 0;
        while k < n
            invariant
                self.wf(),
                *self == *old(self),
                n == ids@.len(),
                k <= n,
                elems_distinct(ids@),
                forall|j: int|
                    0 <= j < n ==> old(self).target_entities@.contains_key(
                        (#[trigger] ids@[j]).0 as int,
                    ),
                forall|x: int|
                    old(self).target_entities@.contains_key(x) ==> seq_has_entity(ids@, x),
                goals@.len() == k,
                forall|j: int| 0 <= j < k ==> (#[trigger] goals@[j]) == te_goal(*old(self), ids@[j].0 as int),
            decreases n - k,
        {
            let e = ids[k];
            let goal: Option<Vec3i> = match self.target_entities.borrow_for(e) {
                None => None,
                Some(te) => match self.transforms.borrow_for(te.goal_entity) {
                    None => None,
                    Some(t) => Some(t.translation),
                },
            };
            goals.push(goal);
            k = k + 1;
        }
        // write phase: one step per animation
        let mut k2: usize = 0;
        while k2 < n
            invariant
                self.wf(),
                n == ids@.len(),
                k2 <= n,
                elems_distinct(ids@),
                forall|j: int|
                    0 <= j < n ==> old(self).target_entities@.contains_key(
                        (#[trigger] ids@[j]).0 as int,
                    ),
                forall|x: int|
                    old(self).target_entities@.contains_key(x) ==> seq_has_entity(ids@, x),
                goals@.len() == n,
                forall|j: int| 0 <= j < n ==> (#[trigger] goals@[j]) == te_goal(*old(self), ids@[j].0 as int),
                forall|j: int| 0 <= j < k2 ==> te_effect(*old(self), *self, dt, (#[trigger] ids@[j]).0 as int),
                forall|x: int| !seq_has_entity(ids@.subrange(0, k2 as int), x) ==> anim_same_at(*old(self), *self, x),
                self.next_entity == old(self).next_entity,
                self.alive@ == old(self).alive@,
                self.cells@ == old(self).cells@,
                self.parents@ == old(self).parents@,
                self.arrays@ == old(self).arrays@,
                self.target_transforms@ == old(self).target_transforms@,
                self.despawn_timers@ == old(self).despawn_timers@,
                self.despawn_on_touch@ == old(self).despawn_on_touch@,
                self.redraw_markers@ == old(self).redraw_markers@,
            decreases n - k2,
        {
            let e = ids[k2];
            let ghost prev = *self;
            proof {
                assert(!seq_has_entity(ids@.subrange(0, k2 as int), e.0 as int)) by {
                    if seq_has_entity(ids@.subrange(0, k2 as int), e.0 as int) {
                        let j = choose|j: int|
                            0 <= j < k2 && (#[trigger] ids@.subrange(0, k2 as int)[j]).0 == e.0;
                        assert(ids@[j].0 == e.0 && ids@[j] != ids@[k2 as int]);
                    }
                }
                assert(anim_same_at(*old(self), *self, e.0 as int));
            }
            let te_opt: Option<TargetEntity> = match self.target_entities.borrow_for(e) {
                None => None,
                Some(te) => Some(*te),
            };
            let t_opt: Option<Transform> = match self.transforms.borrow_for(e) {
                None => None,
                Some(t) => Some(*t),
            };
            match (te_opt, t_opt, goals[k2]) {
                (Some(te), Some(t), Some(goal)) => {
                    let s = step_target_entity(t, goal, te, dt);
                    self.transforms.add_for(e, s.0);
                    match s.1 {
                        None => {
                            let _ = self.target_entities.remove_for(e);
                        },
                        Some(v) => {
                            self.target_entities.add_for(e, v);
                        },
                    }
                },
                _ => {
                },
            }
            proof {
                assert(te_effect(*old(self), *self, dt, e.0 as int));
                assert forall|j: int|
                    0 <= j < k2 + 1 implies te_effect(*old(self), *self, dt, (#[trigger] ids@[j]).0 as int) by {
                    if j < k2 {
                        assert(ids@[j] != ids@[k2 as int]);
                        lemma_te_effect_frame(*old(self), prev, *self, dt, ids@[j].0 as int);
                    }
                }
                assert forall|x: int|
                    !seq_has_entity(ids@.subrange(0, k2 + 1 as int), x) implies anim_same_at(
                    *old(self),
                    *self,
                    x,
                ) by {
                    assert(!seq_has_entity(ids@.subrange(0, k2 as int), x)) by {
                        if seq_has_entity(ids@.subrange(0, k2 as int), x) {
                            let j = choose|j: int|
                                0 <= j < k2 && (#[trigger] ids@.subrange(0, k2 as int)[j]).0 == x;
                            assert(ids@.subrange(0, k2 + 1 as int)[j].0 == x);
                        }
                    }
                    assert(ids@[k2 as int].0 != x) by {
                        assert(ids@.subrange(0, k2 + 1 as int)[k2 as int] == ids@[k2 as int]);
                    }
                    assert(anim_same_at(*old(self), prev, x));
                    assert(anim_same_at(prev, *self, x));
                }
            }
            k2 = k2 + 1;
        }
        proof {
            assert forall|x: int| #[trigger] te_effect(*old(self), *self, dt, x) by {
                if old(self).target_entities@.contains_key(x) {
                    assert(seq_has_entity(ids@, x));
                    let j = choose|j: int| 0 <= j < ids@.len() && (#[trigger] ids@[j]).0 == x;
                    assert(te_effect(*old(self), *self, dt, ids@[j].0 as int));
                } else {
                    assert(!seq_has_entity(ids@.subrange(0, n as int), x)) by {
                        if seq_has_entity(ids@.subrange(0, n as int), x) {
                            let j = choose|j: int|
                                0 <= j < n && (#[trigger] ids@.subrange(0, n as int)[j]).0 == x;
                            assert(old(self).target_entities@.contains_key(ids@[j].0 as int));
                        }
                    }
                    assert(anim_same_at(*old(self), *self, x));
                }
            }
        }
    }
}

/// Whether the proximity trigger on `x` fires this tick: both world
/// translations resolve and the distance is within the radius.
pub open spec fn touched(w: World, x: int) -> bool {
    &&& w.despawn_on_touch@.contains_key(x)
    &&& ({
        let c = w.despawn_on_touch@[x];
        let wt_self = world_translation_spec(w.transforms@, w.parents@, x, w.next_entity as nat);
        let wt_other = world_translation_spec(
            w.transforms@,
            w.parents@,
            c.entity.0 as int,
            w.next_entity as nat,
        );
        &&& wt_self is Some
        &&& wt_other is Some
        &&& within_distance(wt_self->0, wt_other->0, c.radius as int)
    })
}

/// What the proximity pass does: every entity whose trigger fires is
/// despawned; everything else is untouched. Positions are read as of the
/// start of the pass.
pub open spec fn touch_post(pre: World, post: World) -> bool {
    &&& post.next_entity == pre.next_entity
    &&& post.alive@.len() == pre.alive@.len()
    &&& forall|x: int| #[trigger] touched(pre, x) ==> entity_erased(post, x)
    &&& forall|x: int| !(#[trigger] touched(pre, x)) ==> entity_same(pre, post, x)
}

impl World {
    /// Retires every entity whose proximity trigger fires: if the Euclidean
    /// distance between its world translation and its watched entity's world
    /// translation is within the radius, the owner is despawned. An entity
    /// whose own or watched position cannot be resolved is skipped for this
    /// tick.
    pub fn run_touch_despawn(&mut self)
        requires
            old(self).wf(),
        ensures
            final(self).wf(),
            touch_post(*old(self), *final(self)),
    {
        let ids = self.despawn_on_touch.entities();
        let n = ids.len();
        let mut victims: Vec<Entity> = Vec::new();
        let mut k: usize = 0;
        while k < n
            invariant
                self.wf(),
                *self == *old(self),
                n == ids@.len(),
                k <= n,
                elems_distinct(ids@),
                forall|j: int|
                    0 <= j < n ==> old(self).despawn_on_touch@.contains_key(
                        (#[trigger] ids@[j]).0 as int,
                    ),
                forall|x: int|
                    old(self).despawn_on_touch@.contains_key(x) ==> seq_has_entity(ids@, x),
                elems_distinct(victims@),
                forall|i: int| 0 <= i < victims@.len() ==> touched(*old(self), (#[trigger] victims@[i]).0 as int),
                forall|i: int|
                    0 <= i < victims@.len() ==> exists|j: int|
                        0 <= j < k && (#[trigger] victims@[i]) == ids@[j],
                forall|j: int|
                    0 <= j < k && touched(*old(self), (#[trigger] ids@[j]).0 as int)
                        ==> seq_has_entity(victims@, ids@[j].0 as int),
            decreases n - k,
        {
            let e = ids[k];
            let c = match self.despawn_on_touch.borrow_for(e) {
                None => {
                    proof {
                        assert(false);
                    }
                    DespawnOnTouch { entity: e, radius: 0 }
                },
                Some(c) => *c,
            };
            let ghost victims_old = victims@;
            let mut pushed: bool = false;
            match (self.world_translation(e), self.world_translation(c.entity)) {
                (Some(a), Some(b)) => {
                    if crate::transform::check_within_distance(a, b, c.radius) {
                        proof {
                            assert forall|i: int|
                                0 <= i < victims_old.len() implies victims_old[i] != e by {
                                let jj = choose|j: int|
                                    0 <= j < k && (#[trigger] victims_old[i]) == ids@[j];
                                assert(ids@[jj] != ids@[k as int]);
                            }
                        }
                        victims.push(e);
                        pushed = true;
                    }
                },
                _ => {
                },
            }
            proof {
                if pushed {
                    assert(victims@[victims@.len() - 1] == e);
                } else {
                    assert(!touched(*old(self), e.0 as int));
                }
                assert forall|j: int|
                    0 <= j < k + 1 && touched(*old(self), (#[trigger] ids@[j]).0 as int)
                    implies seq_has_entity(victims@, ids@[j].0 as int) by {
                    if j < k {
                        assert(seq_has_entity(victims_old, ids@[j].0 as int));
                        let i = choose|i: int|
                            0 <= i < victims_old.len() && (#[trigger] victims_old[i]).0 == ids@[j].0;
                        assert(victims@[i].0 == ids@[j].0);
                    } else {
                        assert(victims@[victims@.len() - 1].0 == ids@[j].0);
                    }
                }
            }
            k = k + 1;
        }
        self.despawn_all(&victims);
        proof {
            assert forall|x: int| #[trigger] touched(*old(self), x) implies entity_erased(*self, x) by {
                assert(seq_has_entity(ids@, x));
                let j = choose|j: int| 0 <= j < ids@.len() && (#[trigger] ids@[j]).0 == x;
                assert(seq_has_entity(victims@, x));
                let i = choose|i: int| 0 <= i < victims@.len() && (#[trigger] victims@[i]).0 == x;
                assert(entity_erased(*self, victims@[i].0 as int));
            }
            assert forall|x: int| !(#[trigger] touched(*old(self), x)) implies entity_same(
                *old(self),
                *self,
                x,
            ) by {
                assert(!seq_has_entity(victims@, x)) by {
                    if seq_has_entity(victims@, x) {
                        let i = choose|i: int|
                            0 <= i < victims@.len() && (#[trigger] victims@[i]).0 == x;
                        assert(touched(*old(self), victims@[i].0 as int));
                    }
                }
                assert(entity_same(*old(self), *self, x));
            }
        }
    }
}

/// The despawn-timer store agrees on `x` between the two worlds.
pub open spec fn timer_same_at(a: World, b: World, x: int) -> bool {
    &&& (a.despawn_timers@.contains_key(x) <==> b.despawn_timers@.contains_key(x))
    &&& a.despawn_timers@.contains_key(x) ==> a.despawn_timers@[x] == b.despawn_timers@[x]
}

/// Whether the despawn timer on `x` runs out this tick.
pub open spec fn timer_expires(w: World, dt: u32, x: int) -> bool {
    w.despawn_timers@.contains_key(x) && w.despawn_timers@[x].time <= dt
}

/// Every store but the despawn timers, and the alive flag, agree on `x`.
pub open spec fn entity_same_except_timer(a: World, b: World, x: int) -> bool {
    &&& a.transforms@.contains_key(x) <==> b.transforms@.contains_key(x)
    &&& a.transforms@.contains_key(x) ==> a.transforms@[x] == b.transforms@[x]
    &&& a.cells@.contains_key(x) <==> b.cells@.contains_key(x)
    &&& a.cells@.contains_key(x) ==> a.cells@[x] == b.cells@[x]
    &&& a.parents@.contains_key(x) <==> b.parents@.contains_key(x)
    &&& a.parents@.contains_key(x) ==> a.parents@[x] == b.parents@[x]
    &&& a.arrays@.contains_key(x) <==> b.arrays@.contains_key(x)
    &&& a.arrays@.contains_key(x) ==> a.arrays@[x] == b.arrays@[x]
    &&& a.target_transforms@.contains_key(x) <==> b.target_transforms@.contains_key(x)
    &&& a.target_transforms@.contains_key(x) ==> a.target_transforms@[x]
        == b.target_transforms@[x]
    &&& a.target_entities@.contains_key(x) <==> b.target_entities@.contains_key(x)
    &&& a.target_entities@.contains_key(x) ==> a.target_entities@[x] == b.target_entities@[x]
    &&& a.despawn_on_touch@.contains_key(x) <==> b.despawn_on_touch@.contains_key(x)
    &&& a.despawn_on_touch@.contains_key(x) ==> a.despawn_on_touch@[x] == b.despawn_on_touch@[x]
    &&& a.redraw_markers@.contains_key(x) <==> b.redraw_markers@.contains_key(x)
    &&& a.redraw_markers@.contains_key(x) ==> a.redraw_markers@[x] == b.redraw_markers@[x]
    &&& 0 <= x < a.alive@.len() && x < b.alive@.len() ==> a.alive@[x] == b.alive@[x]
}

/// What the timer pass does: every timer counts down by `dt`, stopping at
/// zero; an expired timer despawns its owner; everything else is untouched.
pub open spec fn timers_post(pre: World, post: World, dt: u32) -> bool {
    &&& post.next_entity == pre.next_entity
    &&& post.alive@.len() == pre.alive@.len()
    &&& forall|x: int| #[trigger] timer_expires(pre, dt, x) ==> entity_erased(post, x)
    &&& forall|x: int|
        pre.despawn_timers@.contains_key(x) && !timer_expires(pre, dt, x) ==> {
            &&& #[trigger] post.despawn_timers@.contains_key(x)
            &&& post.despawn_timers@[x].time == pre.despawn_timers@[x].time - dt
            &&& entity_same_except_timer(pre, post, x)
        }
    &&& forall|x: int|
        !pre.despawn_timers@.contains_key(x) ==> #[trigger] entity_same(pre, post, x)
}

impl World {
    /// Counts every despawn timer down by `dt` and despawns each entity whose
    /// timer has run out. Within one tick this pass runs after the proximity
    /// pass, so an entity retired by touch never reaches its timer.
    pub fn run_despawn_timers(&mut self, dt: u32)
        requires
            old(self).wf(),
        ensures
            final(self).wf(),
            timers_post(*old(self), *final(self), dt),
    {
        let ids = self.despawn_timers.entities();
        let n = ids.len();
        let mut victims: Vec<Entity> = Vec::new();
        let mut k: usize = 0;
        while k < n
            invariant
                self.wf(),
                n == ids@.len(),
                k <= n,
                elems_distinct(ids@),
                forall|j: int|
                    0 <= j < n ==> old(self).despawn_timers@.contains_key(
                        (#[trigger] ids@[j]).0 as int,
                    ),
                forall|x: int|
                    old(self).despawn_timers@.contains_key(x) ==> seq_has_entity(ids@, x),
                elems_distinct(victims@),
                forall|i: int|
                    0 <= i < victims@.len() ==> timer_expires(*old(self), dt, (#[trigger] victims@[i]).0 as int),
                forall|i: int|
                    0 <= i < victims@.len() ==> exists|j: int|
                        0 <= j < k && (#[trigger] victims@[i]) == ids@[j],
                forall|j: int|
                    0 <= j < k && timer_expires(*old(self), dt, (#[trigger] ids@[j]).0 as int)
                        ==> seq_has_entity(victims@, ids@[j].0 as int),
                forall|j: int|
                    0 <= j < k && !timer_expires(*old(self), dt, (#[trigger] ids@[j]).0 as int) ==> {
                        &&& self.despawn_timers@.contains_key(ids@[j].0 as int)
                        &&& self.despawn_timers@[ids@[j].0 as int].time == old(
                            self,
                        ).despawn_timers@[ids@[j].0 as int].time - dt
                    },
                forall|x: int|
                    !seq_has_entity(ids@.subrange(0, k as int), x) ==> #[trigger] timer_same_at(
                        *old(self),
                        *self,
                        x,
                    ),
                self.next_entity == old(self).next_entity,
                self.alive@ == old(self).alive@,
                self.transforms@ == old(self).transforms@,
                self.cells@ == old(self).cells@,
                self.parents@ == old(self).parents@,
                self.arrays@ == old(self).arrays@,
                self.target_transforms@ == old(self).target_transforms@,
                self.target_entities@ == old(self).target_entities@,
                self.despawn_on_touch@ == old(self).despawn_on_touch@,
                self.redraw_markers@ == old(self).redraw_markers@,
            decreases n - k,
        {
            let e = ids[k];
            let ghost prev = *self;
            proof {
                assert(!seq_has_entity(ids@.subrange(0, k as int), e.0 as int)) by {
                    if seq_has_entity(ids@.subrange(0, k as int), e.0 as int) {
                        let j = choose|j: int|
                            0 <= j < k && (#[trigger] ids@.subrange(0, k as int)[j]).0 == e.0;
                        assert(ids@[j].0 == e.0 && ids@[j] != ids@[k as int]);
                    }
                }
                assert(timer_same_at(*old(self), *self, e.0 as int));
                assert(old(self).despawn_timers@.contains_key(e.0 as int));
                assert(self.despawn_timers@.contains_key(e.0 as int));
                assert(self.despawn_timers@[e.0 as int] == old(self).despawn_timers@[e.0 as int]);
            }
            let t = match self.despawn_timers.borrow_for(e) {
                None => {
                    proof {
                        assert(false);
                    }
                    DespawnTimer::new(0)
                },
                Some(t) => *t,
            };
            let mut ticked = t;
            ticked.tick(dt);
            let ghost victims_old = victims@;
            let ghost prev = *self;
            if ticked.done() {
                proof {
                    assert forall|i: int| 0 <= i < victims_old.len() implies victims_old[i] != e by {
                        let jj = choose|j: int|
                            0 <= j < k && (#[trigger] victims_old[i]) == ids@[j];
                        assert(ids@[jj] != ids@[k as int]);
                    }
                }
                victims.push(e);
                proof {
                    assert(victims@[victims@.len() - 1] == e);
                }
            } else {
                self.despawn_timers.add_for(e, ticked);
            }
            proof {
                assert forall|j: int|
                    0 <= j < k + 1 && timer_expires(*old(self), dt, (#[trigger] ids@[j]).0 as int)
                    implies seq_has_entity(victims@, ids@[j].0 as int) by {
                    if j < k {
                        assert(seq_has_entity(victims_old, ids@[j].0 as int));
                        let i = choose|i: int|
                            0 <= i < victims_old.len() && (#[trigger] victims_old[i]).0 == ids@[j].0;
                        assert(victims@[i].0 == ids@[j].0);
                    } else {
                        assert(victims@[victims@.len() - 1].0 == ids@[j].0);
                    }
                }
                assert forall|x: int|
                    !seq_has_entity(ids@.subrange(0, k + 1 as int), x) implies #[trigger] timer_same_at(
                    *old(self),
                    *self,
                    x,
                ) by {
                    assert(!seq_has_entity(ids@.subrange(0, k as int), x)) by {
                        if seq_has_entity(ids@.subrange(0, k as int), x) {
                            let j = choose|j: int|
                                0 <= j < k && (#[trigger] ids@.subrange(0, k as int)[j]).0 == x;
                            assert(ids@.subrange(0, k + 1 as int)[j].0 == x);
                        }
                    }
                    assert(ids@[k as int].0 != x) by {
                        assert(ids@.subrange(0, k + 1 as int)[k as int] == ids@[k as int]);
                    }
                    assert(timer_same_at(*old(self), prev, x));
                    assert(timer_same_at(prev, *self, x));
                }
            }
            k = k + 1;
        }
        let ghost mid = *self;
        self.despawn_all(&victims);
        proof {
            assert forall|x: int| #[trigger] timer_expires(*old(self), dt, x) implies entity_erased(
                *self,
                x,
            ) by {
                assert(seq_has_entity(ids@, x));
                let j = choose|j: int| 0 <= j < ids@.len() && (#[trigger] ids@[j]).0 == x;
                assert(seq_has_entity(victims@, x));
                let i = choose|i: int| 0 <= i < victims@.len() && (#[trigger] victims@[i]).0 == x;
                assert(entity_erased(*self, victims@[i].0 as int));
            }
            assert forall|x: int|
                old(self).despawn_timers@.contains_key(x) && !timer_expires(*old(self), dt, x) implies {
                &&& #[trigger] self.despawn_timers@.contains_key(x)
                &&& self.despawn_timers@[x].time == old(self).despawn_timers@[x].time - dt
                &&& entity_same_except_timer(*old(self), *self, x)
            } by {
                assert(!seq_has_entity(victims@, x)) by {
                    if seq_has_entity(victims@, x) {
                        let i = choose|i: int|
                            0 <= i < victims@.len() && (#[trigger] victims@[i]).0 == x;
                        assert(timer_expires(*old(self), dt, victims@[i].0 as int));
                    }
                }
                assert(seq_has_entity(ids@, x));
                let j = choose|j: int| 0 <= j < ids@.len() && (#[trigger] ids@[j]).0 == x;
                assert(mid.despawn_timers@.contains_key(x) && mid.despawn_timers@[x].time == old(
                    self,
                ).despawn_timers@[x].time - dt);
                assert(entity_same(mid, *self, x));
            }
            assert forall|x: int|
                !old(self).despawn_timers@.contains_key(x) implies #[trigger] entity_same(
                *old(self),
                *self,
                x,
            ) by {
                assert(!seq_has_entity(ids@.subrange(0, n as int), x)) by {
                    if seq_has_entity(ids@.subrange(0, n as int), x) {
                        let j = choose|j: int|
                            0 <= j < n && (#[trigger] ids@.subrange(0, n as int)[j]).0 == x;
                        assert(old(self).despawn_timers@.contains_key(ids@[j].0 as int));
                    }
                }
                assert(!seq_has_entity(victims@, x)) by {
                    if seq_has_entity(victims@, x) {
                        let i = choose|i: int|
                            0 <= i < victims@.len() && (#[trigger] victims@[i]).0 == x;
                        assert(timer_expires(*old(self), dt, victims@[i].0 as int));
                    }
                }
                assert(timer_same_at(*old(self), mid, x));
                assert(entity_same(*old(self), mid, x));
                assert(entity_same(mid, *self, x));
                crate::world::lemma_entity_same_trans(*old(self), mid, *self, x);
            }
        }
    }
}

/// The goal-transform store agrees on `x` between the two worlds.
pub open spec fn tts_same_at(a: World, b: World, x: int) -> bool {
    &&& (a.target_transforms@.contains_key(x) <==> b.target_transforms@.contains_key(x))
    &&& a.target_transforms@.contains_key(x) ==> a.target_transforms@[x] == b.target_transforms@[x]
}

/// The layout goal for element `i` of array `a`: the grid translation for
/// its index, keeping the element's current z and scale, over the array's
/// alignment duration.
pub open spec fn layout_goal(w: World, a: int, i: int) -> TargetTransform {
    let arr = w.arrays@[a];
    let e = arr.elements@[i].0 as int;
    let t = w.transforms@[e];
    TargetTransform {
        goal_translation: Vec3i {
            x: crate::layout::grid_x(i, arr.num_columns as int, arr.cell_width as int) as i64,
            y: crate::layout::grid_y(i, arr.num_columns as int, arr.cell_height as int) as i64,
            z: t.translation.z,
        },
        goal_scale: t.scale,
        duration: arr.alignment_duration,
        elapsed: 0,
    }
}

/// What the layout pass does to element `i` of marked array `a`: install the
/// grid goal, unless an animation with the identical goal is already
/// running, in which case it is left untouched to avoid restarting it. An
/// element without a transform is skipped.
pub open spec fn layout_effect(pre: World, post: World, a: int, i: int) -> bool {
    let e = pre.arrays@[a].elements@[i].0 as int;
    if pre.transforms@.contains_key(e) {
        let goal = layout_goal(pre, a, i);
        if pre.target_transforms@.contains_key(e) && pre.target_transforms@[e].goal_translation
            == goal.goal_translation && pre.target_transforms@[e].goal_scale == goal.goal_scale {
            post.target_transforms@.contains_key(e) && post.target_transforms@[e]
                == pre.target_transforms@[e]
        } else {
            post.target_transforms@.contains_key(e) && post.target_transforms@[e] == goal
        }
    } else {
        tts_same_at(pre, post, e)
    }
}

/// An established layout outcome for one element survives changes to other
/// entities' animations.
proof fn lemma_layout_effect_frame(pre: World, mid: World, post: World, a: int, i: int)
    requires
        layout_effect(pre, mid, a, i),
        tts_same_at(mid, post, pre.arrays@[a].elements@[i].0 as int),
    ensures
        layout_effect(pre, post, a, i),
{
}

/// Whether `x` is an element of some array marked for re-layout.
pub open spec fn in_marked_array(w: World, x: int) -> bool {
    exists|a: int, i: int|
        w.redraw_markers@.contains_key(a) && w.arrays@.contains_key(a) && 0 <= i
            < w.arrays@[a].elements@.len() && (#[trigger] w.arrays@[a].elements@[i]).0 == x
}

/// What the layout pass does: every element of every marked array gets a
/// fresh or confirmed grid goal, every marker is cleared, and nothing else
/// changes.
pub open spec fn layout_post(pre: World, post: World) -> bool {
    &&& forall|a: int, i: int|
        pre.redraw_markers@.contains_key(a) && pre.arrays@.contains_key(a) && 0 <= i
            < pre.arrays@[a].elements@.len() ==> #[trigger] layout_effect(pre, post, a, i)
    &&& forall|x: int| !in_marked_array(pre, x) ==> #[trigger] tts_same_at(pre, post, x)
    &&& post.redraw_markers@ == Map::<int, RedrawMarker>::empty()
    &&& post.next_entity == pre.next_entity
    &&& post.alive@ == pre.alive@
    &&& post.transforms@ == pre.transforms@
    &&& post.cells@ == pre.cells@
    &&& post.parents@ == pre.parents@
    &&& post.arrays@ == pre.arrays@
    &&& post.target_entities@ == pre.target_entities@
    &&& post.despawn_timers@ == pre.despawn_timers@
    &&& post.despawn_on_touch@ == pre.despawn_on_touch@
}

impl World {
    /// Re-targets the cells of every array whose element sequence changed:
    /// each cell gets a goal-transform animation toward its grid slot,
    /// `x = (index mod num_columns) * cell_width`,
    /// `y = -(index div num_columns) * cell_height`, keeping its z and
    /// scale, unless it already runs an animation with the identical goal.
    /// All redraw markers are cleared.
    pub fn refresh_layout(&mut self)
        requires
            old(self).wf(),
        ensures
            final(self).wf(),
            layout_post(*old(self), *final(self)),
    {
        let marked = self.redraw_markers.entities();
        let m_n = marked.len();
        let mut m: usize = 0;
        while m < m_n
            invariant
                self.wf(),
                m_n == marked@.len(),
                m <= m_n,
                elems_distinct(marked@),
                forall|j: int|
                    0 <= j < m_n ==> old(self).redraw_markers@.contains_key(
                        (#[trigger] marked@[j]).0 as int,
                    ),
                forall|x: int|
                    old(self).redraw_markers@.contains_key(x) ==> seq_has_entity(marked@, x),
                forall|j: int, i: int|
                    #![trigger old(self).arrays@[(marked@[j]).0 as int].elements@[i]]
                    0 <= j < m && old(self).arrays@.contains_key(marked@[j].0 as int)
                        && 0 <= i < old(self).arrays@[marked@[j].0 as int].elements@.len()
                        ==> layout_effect(*old(self), *self, marked@[j].0 as int, i),
                forall|x: int|
                    !in_marked_array(*old(self), x) ==> #[trigger] tts_same_at(*old(self), *self, x),
                forall|j: int, i: int|
                    #![trigger old(self).arrays@[(marked@[j]).0 as int].elements@[i]]
                    m <= j < m_n && old(self).arrays@.contains_key(marked@[j].0 as int)
                        && 0 <= i < old(self).arrays@[marked@[j].0 as int].elements@.len()
                        ==> tts_same_at(
                        *old(self),
                        *self,
                        old(self).arrays@[marked@[j].0 as int].elements@[i].0 as int,
                    ),
                forall|x: int|
                    #[trigger] self.redraw_markers@.contains_key(x) <==> (old(
                        self,
                    ).redraw_markers@.contains_key(x) && !seq_has_entity(
                        marked@.subrange(0, m as int),
                        x,
                    )),
                self.next_entity == old(self).next_entity,
                self.alive@ == old(self).alive@,
                self.transforms@ == old(self).transforms@,
                self.cells@ == old(self).cells@,
                self.parents@ == old(self).parents@,
                self.arrays@ == old(self).arrays@,
                self.target_entities@ == old(self).target_entities@,
                self.despawn_timers@ == old(self).despawn_timers@,
                self.despawn_on_touch@ == old(self).despawn_on_touch@,
            decreases m_n - m,
        {
            let a = marked[m];
            let ghost aid = a.0 as int;
            let ghost before_array = *self;
            if self.arrays.contains_for(a) {
                let elems = match self.get_array_content_entities(a) {
                    Ok(v) => v,
                    Err(_) => {
                        proof {
                            assert(false);
                        }
                        Vec::new()
                    },
                };
                let (cols, cw, ch, dur) = match self.arrays.borrow_for(a) {
                    None => {
                        proof {
                            assert(false);
                        }
                        (1usize, 0i64, 0i64, 0u32)
                    },
                    Some(arr) => (arr.num_columns, arr.cell_width, arr.cell_height,
                    arr.alignment_duration),
                };
                let en = elems.len();
                let mut i: usize = 0;
                while i < en
                    invariant
                        self.wf(),
                        m_n == marked@.len(),
                        m < m_n,
                        a == marked@[m as int],
                        aid == a.0 as int,
                        elems_distinct(marked@),
                        forall|j: int|
                            0 <= j < m_n ==> old(self).redraw_markers@.contains_key(
                                (#[trigger] marked@[j]).0 as int,
                            ),
                        old(self).arrays@.contains_key(aid),
                        elems@ == old(self).arrays@[aid].elements@,
                        en == elems@.len(),
                        i <= en,
                        cols == old(self).arrays@[aid].num_columns,
                        cw == old(self).arrays@[aid].cell_width,
                        ch == old(self).arrays@[aid].cell_height,
                        dur == old(self).arrays@[aid].alignment_duration,
                        forall|i2: int|
                            0 <= i2 < i ==> layout_effect(*old(self), *self, aid, i2),
                        forall|i2: int|
                            i <= i2 < en ==> tts_same_at(
                                *old(self),
                                *self,
                                (#[trigger] elems@[i2]).0 as int,
                            ),
                        forall|j: int, i2: int|
                            #![trigger old(self).arrays@[(marked@[j]).0 as int].elements@[i2]]
                            0 <= j < m && old(self).arrays@.contains_key(
                                marked@[j].0 as int,
                            ) && 0 <= i2 < old(self).arrays@[marked@[j].0 as int].elements@.len()
                                ==> layout_effect(*old(self), *self, marked@[j].0 as int, i2),
                        forall|x: int|
                            !in_marked_array(*old(self), x) ==> #[trigger] tts_same_at(
                                *old(self),
                                *self,
                                x,
                            ),
                        forall|j: int, i2: int|
                            #![trigger old(self).arrays@[(marked@[j]).0 as int].elements@[i2]]
                            m < j < m_n && old(self).arrays@.contains_key(
                                marked@[j].0 as int,
                            ) && 0 <= i2 < old(self).arrays@[marked@[j].0 as int].elements@.len()
                                ==> tts_same_at(
                                *old(self),
                                *self,
                                old(self).arrays@[marked@[j].0 as int].elements@[i2].0 as int,
                            ),
                        forall|x: int|
                            #[trigger] self.redraw_markers@.contains_key(x) <==> (old(
                                self,
                            ).redraw_markers@.contains_key(x) && !seq_has_entity(
                                marked@.subrange(0, m as int),
                                x,
                            )),
                        self.next_entity == old(self).next_entity,
                        self.alive@ == old(self).alive@,
                        self.transforms@ == old(self).transforms@,
                        self.cells@ == old(self).cells@,
                        self.parents@ == old(self).parents@,
                        self.arrays@ == old(self).arrays@,
                        self.target_entities@ == old(self).target_entities@,
                        self.despawn_timers@ == old(self).despawn_timers@,
                        self.despawn_on_touch@ == old(self).despawn_on_touch@,
                    decreases en - i,
                {
                    let e = elems[i];
                    let ghost prev = *self;
                    let t_opt: Option<Transform> = match self.transforms.borrow_for(e) {
                        None => None,
                        Some(t) => Some(*t),
                    };
                    match t_opt {
                        None => {
                        },
                        Some(t) => {
                            let (gx, gy) = crate::layout::grid_translation(i, cols, cw, ch);
                            let goal_translation = Vec3i { x: gx, y: gy, z: t.translation.z };
                            let goal_scale = t.scale;
                            let existing: Option<TargetTransform> = match self.target_transforms.borrow_for(e) {
                                None => None,
                                Some(tt) => Some(*tt),
                            };
                            let keep: bool = match existing {
                                Some(tt) => tt.goal_translation == goal_translation
                                    && tt.goal_scale == goal_scale,
                                None => false,
                            };
                            if !keep {
                                self.target_transforms.add_for(
                                    e,
                                    TargetTransform {
                                        goal_translation,
                                        goal_scale,
                                        duration: dur,
                                        elapsed: 0,
                                    },
                                );
                            }
                        },
                    }
                    proof {
                        assert(layout_effect(*old(self), *self, aid, i as int));
                        assert(in_marked_array(*old(self), e.0 as int)) by {
                            assert(old(self).arrays@[aid].elements@[i as int].0 == e.0);
                        }
                        assert forall|i2: int|
                            0 <= i2 < i + 1 implies layout_effect(*old(self), *self, aid, i2) by {
                            if i2 < i {
                                assert(elems@[i2] != elems@[i as int]);
                                assert(tts_same_at(prev, *self, elems@[i2].0 as int));
                                lemma_layout_effect_frame(*old(self), prev, *self, aid, i2);
                            }
                        }
                        assert forall|i2: int|
                            i + 1 <= i2 < en implies tts_same_at(
                            *old(self),
                            *self,
                            (#[trigger] elems@[i2]).0 as int,
                        ) by {
                            assert(elems@[i2] != elems@[i as int]);
                            assert(tts_same_at(*old(self), prev, elems@[i2].0 as int));
                            assert(tts_same_at(prev, *self, elems@[i2].0 as int));
                        }
                        assert forall|j: int, i2: int|
                            #![trigger old(self).arrays@[(marked@[j]).0 as int].elements@[i2]]
                            0 <= j < m && old(self).arrays@.contains_key(
                                marked@[j].0 as int,
                            ) && 0 <= i2 < old(self).arrays@[marked@[j].0 as int].elements@.len()
                            implies layout_effect(*old(self), *self, marked@[j].0 as int, i2) by {
                            let bid = marked@[j].0 as int;
                            assert(marked@[j] != marked@[m as int]);
                            assert(elems_disjoint(
                                old(self).arrays@[bid].elements@,
                                old(self).arrays@[aid].elements@,
                            ));
                            assert(old(self).arrays@[bid].elements@[i2]
                                != old(self).arrays@[aid].elements@[i as int]);
                            assert(tts_same_at(prev, *self, old(self).arrays@[bid].elements@[i2].0 as int));
                            lemma_layout_effect_frame(*old(self), prev, *self, bid, i2);
                        }
                        assert forall|x: int|
                            !in_marked_array(*old(self), x) implies #[trigger] tts_same_at(
                            *old(self),
                            *self,
                            x,
                        ) by {
                            assert(x != e.0 as int);
                            assert(tts_same_at(*old(self), prev, x));
                            assert(tts_same_at(prev, *self, x));
                        }
                        assert forall|j: int, i2: int|
                            #![trigger old(self).arrays@[(marked@[j]).0 as int].elements@[i2]]
                            m < j < m_n && old(self).arrays@.contains_key(
                                marked@[j].0 as int,
                            ) && 0 <= i2 < old(self).arrays@[marked@[j].0 as int].elements@.len()
                            implies tts_same_at(
                            *old(self),
                            *self,
                            old(self).arrays@[marked@[j].0 as int].elements@[i2].0 as int,
                        ) by {
                            let bid = marked@[j].0 as int;
                            assert(marked@[j] != marked@[m as int]);
                            assert(elems_disjoint(
                                old(self).arrays@[bid].elements@,
                                old(self).arrays@[aid].elements@,
                            ));
                            assert(old(self).arrays@[bid].elements@[i2]
                                != old(self).arrays@[aid].elements@[i as int]);
                            assert(tts_same_at(*old(self), prev, old(self).arrays@[bid].elements@[i2].0 as int));
                            assert(tts_same_at(prev, *self, old(self).arrays@[bid].elements@[i2].0 as int));
                        }
                    }
                    i = i + 1;
                }
            }
            let ghost before_marker = *self;
            let _ = self.redraw_markers.remove_for(a);
            proof {
                assert(!seq_has_entity(marked@.subrange(0, m as int), a.0 as int)) by {
                    if seq_has_entity(marked@.subrange(0, m as int), a.0 as int) {
                        let j = choose|j: int|
                            0 <= j < m && (#[trigger] marked@.subrange(0, m as int)[j]).0 == a.0;
                        assert(marked@[j].0 == a.0 && marked@[j] != marked@[m as int]);
                    }
                }
                assert forall|x: int|
                    #[trigger] self.redraw_markers@.contains_key(x) <==> (old(
                    self,
                ).redraw_markers@.contains_key(x) && !seq_has_entity(
                    marked@.subrange(0, m + 1 as int),
                    x,
                )) by {
                    assert(marked@.subrange(0, m + 1 as int)[m as int] == marked@[m as int]);
                    if x != a.0 as int {
                        assert(seq_has_entity(marked@.subrange(0, m + 1 as int), x)
                            <==> seq_has_entity(marked@.subrange(0, m as int), x)) by {
                            if seq_has_entity(marked@.subrange(0, m + 1 as int), x) {
                                let j = choose|j: int|
                                    0 <= j < m + 1 && (#[trigger] marked@.subrange(
                                        0,
                                        m + 1 as int,
                                    )[j]).0 == x;
                                if j < m {
                                    assert(marked@.subrange(0, m as int)[j].0 == x);
                                }
                            }
                            if seq_has_entity(marked@.subrange(0, m as int), x) {
                                let j = choose|j: int|
                                    0 <= j < m && (#[trigger] marked@.subrange(0, m as int)[j]).0
                                        == x;
                                assert(marked@.subrange(0, m + 1 as int)[j].0 == x);
                            }
                        }
                    } else {
                        assert(seq_has_entity(marked@.subrange(0, m + 1 as int), x));
                    }
                }
                assert forall|j: int, i2: int|
                    #![trigger old(self).arrays@[(marked@[j]).0 as int].elements@[i2]]
                    0 <= j < m + 1 && old(self).arrays@.contains_key(
                        marked@[j].0 as int,
                    ) && 0 <= i2 < old(self).arrays@[marked@[j].0 as int].elements@.len()
                    implies layout_effect(*old(self), *self, marked@[j].0 as int, i2) by {
                    assert(layout_effect(*old(self), before_marker, marked@[j].0 as int, i2));
                    lemma_layout_effect_frame(
                        *old(self),
                        before_marker,
                        *self,
                        marked@[j].0 as int,
                        i2,
                    );
                }
                assert forall|x: int|
                    !in_marked_array(*old(self), x) implies #[trigger] tts_same_at(
                    *old(self),
                    *self,
                    x,
                ) by {
                    assert(tts_same_at(*old(self), before_marker, x));
                    assert(tts_same_at(before_marker, *self, x));
                }
                assert forall|j: int, i2: int|
                    #![trigger old(self).arrays@[(marked@[j]).0 as int].elements@[i2]]
                    m + 1 <= j < m_n && old(self).arrays@.contains_key(
                        marked@[j].0 as int,
                    ) && 0 <= i2 < old(self).arrays@[marked@[j].0 as int].elements@.len()
                    implies tts_same_at(
                    *old(self),
                    *self,
                    old(self).arrays@[marked@[j].0 as int].elements@[i2].0 as int,
                ) by {
                    let key = old(self).arrays@[marked@[j].0 as int].elements@[i2].0 as int;
                    assert(tts_same_at(*old(self), before_marker, key));
                    assert(tts_same_at(before_marker, *self, key));
                }
            }
            m = m + 1;
        }
        proof {
            assert(self.redraw_markers@ =~= Map::<int, RedrawMarker>::empty()) by {
                assert forall|x: int| !self.redraw_markers@.contains_key(x) by {
                    if old(self).redraw_markers@.contains_key(x) {
                        assert(seq_has_entity(marked@, x));
                        let j = choose|j: int|
                            0 <= j < marked@.len() && (#[trigger] marked@[j]).0 == x;
                        assert(marked@.subrange(0, m_n as int)[j].0 == x);
                    }
                }
            }
            assert forall|a2: int, i: int|
                old(self).redraw_markers@.contains_key(a2) && old(self).arrays@.contains_key(a2)
                    && 0 <= i < old(self).arrays@[a2].elements@.len() implies #[trigger] layout_effect(
                *old(self),
                *self,
                a2,
                i,
            ) by {
                assert(seq_has_entity(marked@, a2));
                let j = choose|j: int| 0 <= j < marked@.len() && (#[trigger] marked@[j]).0 == a2;
                assert(old(self).arrays@[(marked@[j]).0 as int].elements@[i]
                    == old(self).arrays@[a2].elements@[i]);
                assert(layout_effect(*old(self), *self, marked@[j].0 as int, i));
            }
        }
    }
}

impl World {
    /// One simulation step. In order: drain and fully apply at most one
    /// pending action and produce its response; advance all goal-transform
    /// and then all goal-entity animations by `dt`; run the proximity
    /// despawn pass and then the timer despawn pass, so a touch retires an
    /// entity before its timer is consulted; finally refresh grid-layout
    /// goals for every array whose elements changed.
    pub fn tick(&mut self, dt: u32, action: Option<Action>) -> (r: Option<Result<Data, ActionError>>)
        requires
            old(self).wf(),
        ensures
            final(self).wf(),
            r is Some <==> action is Some,
            exists|w1: World, w2: World, w3: World, w4: World, w5: World|
                #![trigger advance_tt_post(w1, w2, dt), advance_te_post(w2, w3, dt), timers_post(w4, w5, dt)]
                {
                    &&& match action {
                        Some(a) => crate::dispatch::process_post(*old(self), w1, a, r->0),
                        None => w1 == *old(self),
                    }
                    &&& advance_tt_post(w1, w2, dt)
                    &&& advance_te_post(w2, w3, dt)
                    &&& touch_post(w3, w4)
                    &&& timers_post(w4, w5, dt)
                    &&& layout_post(w5, *final(self))
                },
    {
        let r = match action {
            Some(a) => Some(self.process(a)),
            None => None,
        };
        let ghost w1 = *self;
        self.advance_target_transforms(dt);
        let ghost w2 = *self;
        self.advance_target_entities(dt);
        let ghost w3 = *self;
        self.run_touch_despawn();
        let ghost w4 = *self;
        self.run_despawn_timers(dt);
        let ghost w5 = *self;
        self.refresh_layout();
        proof {
            assert(advance_tt_post(w1, w2, dt) && advance_te_post(w2, w3, dt) && touch_post(
                w3,
                w4,
            ) && timers_post(w4, w5, dt) && layout_post(w5, *self));
        }
        r
    }
}

/// Retirement completes: an entity carrying a despawn timer with no more
/// time left than one tick's delta is gone by the end of that tick, whether
/// the proximity trigger or the timer fires first.
pub proof fn lemma_retirement_completes(
    w1: World,
    w2: World,
    w3: World,
    w4: World,
    w5: World,
    post: World,
    dt: u32,
    v: int,
)
    requires
        w1.despawn_timers@.contains_key(v),
        w1.despawn_timers@[v].time <= dt,
        advance_tt_post(w1, w2, dt),
        advance_te_post(w2, w3, dt),
        touch_post(w3, w4),
        timers_post(w4, w5, dt),
        layout_post(w5, post),
    ensures
        entity_erased(post, v),
{
    assert(w3.despawn_timers@ == w1.despawn_timers@);
    if touched(w3, v) {
        assert(entity_erased(w4, v));
        assert(!w4.despawn_timers@.contains_key(v));
        assert(entity_same(w4, w5, v));
    } else {
        assert(entity_same(w3, w4, v));
        assert(timer_expires(w4, dt, v));
    }
    assert(entity_erased(w5, v));
    assert(!post.transforms@.contains_key(v));
    assert(!post.target_transforms@.contains_key(v)) by {
        if in_marked_array(w5, v) {
            let (a, i) = choose|a: int, i: int|
                w5.redraw_markers@.contains_key(a) && w5.arrays@.contains_key(a) && 0 <= i
                    < w5.arrays@[a].elements@.len() && (#[trigger] w5.arrays@[a].elements@[i]).0
                    == v;
            assert(layout_effect(w5, post, a, i));
            assert(!w5.transforms@.contains_key(v));
        } else {
            assert(tts_same_at(w5, post, v));
        }
    }
    assert(!post.redraw_markers@.contains_key(v));
}

} // verus!
