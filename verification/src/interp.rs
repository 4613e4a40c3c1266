//! The interpolation engine's per-entity state and step rule.
//!
//! An animated entity is in state `Animating` while its target component is
//! present and in state `Settled` once the component has been removed; the
//! only entry into `Animating` is attaching the component. Each tick adds the
//! delta to `elapsed`; if the duration is reached the translation snaps to
//! the goal and the component is removed, otherwise the translation is
//! re-blended toward the goal by the progress made so far. The blend is an
//! iterative re-blend from the entity's current position, not a
//! fixed-endpoint interpolation: velocity decays as progress approaches
//! completion. That recurrence is inherited behavior and is reproduced here
//! exactly, on integers.

use vstd::prelude::*;
use crate::ecs::Entity;
use crate::transform::Transform;
use crate::transform::Vec3i;
use crate::util::sum_of;
use vstd::arithmetic::mul::lemma_mul_inequality;
use vstd::arithmetic::mul::lemma_mul_nonnegative;
use vstd::arithmetic::mul::lemma_mul_upper_bound;
use vstd::arithmetic::div_mod::lemma_div_is_ordered;
use vstd::arithmetic::div_mod::lemma_div_by_multiple;
use vstd::arithmetic::mul::lemma_mul_is_commutative;
use vstd::arithmetic::div_mod::lemma_div_pos_is_pos;

verus! {

/// Drives the owning entity toward a fixed goal transform, then removes
/// itself.
#[derive(Clone, Copy, PartialEq, Eq, Structural, Debug)]
pub struct TargetTransform {
    pub goal_translation: Vec3i,
    pub goal_scale: i64,
    pub duration: u32,
    pub elapsed: u32,
}

/// Drives the owning entity toward another entity's live translation, which
/// is re-read every tick, then removes itself.
#[derive(Clone, Copy, PartialEq, Eq, Structural, Debug)]
pub struct TargetEntity {
    pub goal_entity: Entity,
    pub duration: u32,
    pub elapsed: u32,
}

/// One blended coordinate: the current value moved toward the goal by the
/// fraction `elapsed / duration`, with the fractional part truncated.
pub open spec fn blend_component(c: int, g: int, e: int, d: int) -> int {
    if g >= c {
        c + ((g - c) * e) / d
    } else {
        c - ((c - g) * e) / d
    }
}

/// The blended coordinate stays between the current value and the goal.
pub proof fn lemma_blend_component_bounds(c: int, g: int, e: int, d: int)
    requires
        0 <= e < d,
    ensures
        g >= c ==> c <= blend_component(c, g, e, d) <= g,
        g < c ==> g <= blend_component(c, g, e, d) <= c,
{
    let diff = if g >= c {
        g - c
    } else {
        c - g
    };
    lemma_mul_nonnegative(diff, e);
    lemma_div_pos_is_pos(diff * e, d);
    lemma_mul_inequality(e, d, diff);
    lemma_mul_is_commutative(e, diff);
    lemma_mul_is_commutative(d, diff);
    lemma_div_is_ordered(diff * e, diff * d, d);
    lemma_div_by_multiple(diff, d);
}

/// All three coordinates blended.
pub open spec fn blend_translation_spec(c: Vec3i, g: Vec3i, e: int, d: int) -> Vec3i {
    Vec3i {
        x: blend_component(c.x as int, g.x as int, e, d) as i64,
        y: blend_component(c.y as int, g.y as int, e, d) as i64,
        z: blend_component(c.z as int, g.z as int, e, d) as i64,
    }
}

/// Computes one blended coordinate exactly.
fn blend_component_exec(c: i64, g: i64, e: u32, d: u32) -> (r: i64)
    requires
        e < d,
    ensures
        r == blend_component(c as int, g as int, e as int, d as int),
{
    proof {
        lemma_blend_component_bounds(c as int, g as int, e as int, d as int);
    }
    if g >= c {
        let diff: u128 = (g as i128 - c as i128) as u128;
        proof {
            lemma_mul_upper_bound(diff as int, 0x2_0000_0000_0000_0000, e as int, 0xffff_ffff);
            lemma_mul_nonnegative(diff as int, e as int);
        }
        let step: u128 = diff * (e as u128) / (d as u128);
        (c as i128 + step as i128) as i64
    } else {
        let diff: u128 = (c as i128 - g as i128) as u128;
        proof {
            lemma_mul_upper_bound(diff as int, 0x2_0000_0000_0000_0000, e as int, 0xffff_ffff);
            lemma_mul_nonnegative(diff as int, e as int);
        }
        let step: u128 = diff * (e as u128) / (d as u128);
        (c as i128 - step as i128) as i64
    }
}

/// Computes the blended translation exactly.
pub fn blend_translation(current: Vec3i, goal: Vec3i, elapsed: u32, duration: u32) -> (r: Vec3i)
    requires
        elapsed < duration,
    ensures
        r == blend_translation_spec(current, goal, elapsed as int, duration as int),
{
    Vec3i {
        x: blend_component_exec(current.x, goal.x, elapsed, duration),
        y: blend_component_exec(current.y, goal.y, elapsed, duration),
        z: blend_component_exec(current.z, goal.z, elapsed, duration),
    }
}

/// One tick of a goal-transform animation: the transform after the tick and
/// the component after the tick (`None` once settled).
pub open spec fn step_target_transform_spec(t: Transform, tt: TargetTransform, dt: u32) -> (
    Transform,
    Option<TargetTransform>,
) {
    let e2 = tt.elapsed + dt;
    if e2 >= tt.duration {
        (Transform { translation: tt.goal_translation, scale: tt.goal_scale }, None)
    } else {
        (
            Transform {
                translation: blend_translation_spec(
                    t.translation,
                    tt.goal_translation,
                    e2,
                    tt.duration as int,
                ),
                scale: t.scale,
            },
            Some(
                TargetTransform {
                    goal_translation: tt.goal_translation,
                    goal_scale: tt.goal_scale,
                    duration: tt.duration,
                    elapsed: e2 as u32,
                },
            ),
        )
    }
}

/// Performs one tick of a goal-transform animation.
pub fn step_target_transform(t: Transform, tt: TargetTransform, dt: u32) -> (r: (
    Transform,
    Option<TargetTransform>,
))
    ensures
        r == step_target_transform_spec(t, tt, dt),
{
    let e2: u64 = tt.elapsed as u64 + dt as u64;
    if e2 >= tt.duration as u64 {
        (Transform { translation: tt.goal_translation, scale: tt.goal_scale }, None)
    } else {
        let e2u: u32 = e2 as u32;
        (
            Transform {
                translation: blend_translation(t.translation, tt.goal_translation, e2u, tt.duration),
                scale: t.scale,
            },
            Some(
                TargetTransform {
                    goal_translation: tt.goal_translation,
                    goal_scale: tt.goal_scale,
                    duration: tt.duration,
                    elapsed: e2u,
                },
            ),
        )
    }
}

/// One tick of a goal-entity animation, given the goal entity's live
/// translation for this tick. Only the translation is driven; the owner's
/// scale is untouched.
pub open spec fn step_target_entity_spec(t: Transform, goal: Vec3i, te: TargetEntity, dt: u32) -> (
    Transform,
    Option<TargetEntity>,
) {
    let e2 = te.elapsed + dt;
    if e2 >= te.duration {
        (Transform { translation: goal, scale: t.scale }, None)
    } else {
        (
            Transform {
                translation: blend_translation_spec(t.translation, goal, e2, te.duration as int),
                scale: t.scale,
            },
            Some(TargetEntity { goal_entity: te.goal_entity, duration: te.duration, elapsed: e2 as u32 }),
        )
    }
}

/// Performs one tick of a goal-entity animation.
pub fn step_target_entity(t: Transform, goal: Vec3i, te: TargetEntity, dt: u32) -> (r: (
    Transform,
    Option<TargetEntity>,
))
    ensures
        r == step_target_entity_spec(t, goal, te, dt),
{
    let e2: u64 = te.elapsed as u64 + dt as u64;
    if e2 >= te.duration as u64 {
        (Transform { translation: goal, scale: t.scale }, None)
    } else {
        let e2u: u32 = e2 as u32;
        (
            Transform {
                translation: blend_translation(t.translation, goal, e2u, te.duration),
                scale: t.scale,
            },
            Some(TargetEntity { goal_entity: te.goal_entity, duration: te.duration, elapsed: e2u }),
        )
    }
}

/// A goal-transform animation run over a whole sequence of ticks.
pub open spec fn run_target_transform(t: Transform, tt: Option<TargetTransform>, dts: Seq<u32>) -> (
    Transform,
    Option<TargetTransform>,
)
    decreases dts.len(),
{
    if dts.len() == 0 {
        (t, tt)
    } else {
        match tt {
            None => run_target_transform(t, None, dts.drop_first()),
            Some(a) => {
                let s = step_target_transform_spec(t, a, dts[0]);
                run_target_transform(s.0, s.1, dts.drop_first())
            },
        }
    }
}

/// A settled entity stays settled and keeps its transform.
pub proof fn lemma_settled_stays(t: Transform, dts: Seq<u32>)
    ensures
        run_target_transform(t, None, dts) == (t, None::<TargetTransform>),
    decreases dts.len(),
{
    if dts.len() > 0 {
        lemma_settled_stays(t, dts.drop_first());
    }
}

/// Interpolation terminates: for any goal-transform animation that still has
/// time to run, once the ticks add up to the remaining duration the component
/// is absent and the transform equals the goal exactly.
pub proof fn lemma_interpolation_terminates(t: Transform, tt: TargetTransform, dts: Seq<u32>)
    requires
        tt.elapsed < tt.duration,
        sum_of(dts) >= tt.duration - tt.elapsed,
    ensures
        run_target_transform(t, Some(tt), dts).1 is None,
        run_target_transform(t, Some(tt), dts).0 == (Transform {
            translation: tt.goal_translation,
            scale: tt.goal_scale,
        }),
    decreases dts.len(),
{
    if dts.len() == 0 {
        // sum_of is then zero, contradicting the remaining duration
    } else {
        let s = step_target_transform_spec(t, tt, dts[0]);
        if tt.elapsed + dts[0] >= tt.duration {
            lemma_settled_stays(s.0, dts.drop_first());
        } else {
            lemma_interpolation_terminates(s.0, s.1->0, dts.drop_first());
        }
    }
}

} // verus!
