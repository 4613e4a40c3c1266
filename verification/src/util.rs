//! Lifecycle timers: delayed despawn and proximity-triggered despawn.

use vstd::prelude::*;
use crate::ecs::Entity;

verus! {

/// Counts down to zero; when it reaches zero the owning entity is retired.
#[derive(Clone, Copy, PartialEq, Eq, Structural, Debug)]
pub struct DespawnTimer {
    pub time: u32,
}

impl DespawnTimer {
    /// A timer that expires after `time` has elapsed.
    pub fn new(time: u32) -> (r: DespawnTimer)
        ensures
            r == (DespawnTimer { time }),
    {
        DespawnTimer { time }
    }

    /// Advances the timer by `delta`, stopping at zero.
    pub fn tick(&mut self, delta: u32)
        ensures
            final(self).time == if old(self).time <= delta {
                0u32
            } else {
                (old(self).time - delta) as u32
            },
    {
        self.time = if self.time <= delta {
            0
        } else {
            self.time - delta
        };
    }

    /// Whether the timer has run out.
    pub fn done(&self) -> (r: bool)
        ensures
            r == (self.time == 0),
    {
        self.time == 0
    }
}

/// The sum of a sequence of time deltas.
pub open spec fn sum_of(dts: Seq<u32>) -> int
    decreases dts.len(),
{
    if dts.len() == 0 {
        0
    } else {
        dts[0] + sum_of(dts.drop_first())
    }
}

/// The remaining time of a timer after ticking it once per delta.
pub open spec fn timer_after(time: u32, dts: Seq<u32>) -> u32
    decreases dts.len(),
{
    if dts.len() == 0 {
        time
    } else {
        let next = if time <= dts[0] {
            0u32
        } else {
            (time - dts[0]) as u32
        };
        timer_after(next, dts.drop_first())
    }
}

/// Time deltas are unsigned, so their sum is never negative.
pub proof fn lemma_sum_of_nonneg(dts: Seq<u32>)
    ensures
        sum_of(dts) >= 0,
    decreases dts.len(),
{
    if dts.len() > 0 {
        lemma_sum_of_nonneg(dts.drop_first());
    }
}

/// A despawn timer expires once the ticks it has seen add up to its time:
/// after any sequence of deltas whose sum is at least `time`, the timer reads
/// zero and reports done.
pub proof fn lemma_despawn_timer_expires(time: u32, dts: Seq<u32>)
    requires
        sum_of(dts) >= time,
    ensures
        timer_after(time, dts) == 0,
    decreases dts.len(),
{
    if dts.len() == 0 {
    } else {
        let next = if time <= dts[0] {
            0u32
        } else {
            (time - dts[0]) as u32
        };
        lemma_sum_of_nonneg(dts.drop_first());
        lemma_despawn_timer_expires(next, dts.drop_first());
    }
}

/// Retires the owning entity as soon as it comes within `radius` of
/// `entity`'s position.
#[derive(Clone, Copy, PartialEq, Eq, Structural, Debug)]
pub struct DespawnOnTouch {
    pub entity: Entity,
    pub radius: i64,
}

impl DespawnOnTouch {
    /// A proximity trigger on `entity` with the given radius.
    pub fn new(entity: Entity, radius: i64) -> (r: DespawnOnTouch)
        ensures
            r == (DespawnOnTouch { entity, radius }),
    {
        DespawnOnTouch { entity, radius }
    }
}

} // verus!
