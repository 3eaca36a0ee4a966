//! The void spell: a circle on the ground that grows for its duration, pulls
//! in and hurts whoever stands in it once 80% of the time has passed, and then
//! vanishes.
use vstd::prelude::*;
use crate::utils::timer::OnceTimer;

verus! {

/// A void spell under way.
#[derive(Debug, PartialEq, Eq, Structural, Clone, Copy)]
pub struct VoidSpell {
    pub timer: OnceTimer,
    /// The entity that cast the spell, by its bits.
    pub caster: u64,
    /// The hitbox was spawned; the game never sets it, so the hitbox is
    /// spawned again in every frame past 80% of the time.
    pub hitbox_spawned: bool,
}

/// What the game does with a void spell in one frame.
#[derive(Debug, PartialEq, Eq, Structural, Clone, Copy)]
pub struct VoidEffects {
    /// Despawn the spell: its time is up in this frame.
    pub despawn: bool,
    /// Give the spell its hitbox, which damages and pulls in what it touches.
    pub spawn_hitbox: bool,
}

/// More than 80% of the timer's duration has passed (all of it, for a timer
/// without duration).
pub open spec fn past_four_fifths(t: OnceTimer) -> bool {
    t.duration_nanos == 0 || 5 * t.elapsed_nanos > 4 * t.duration_nanos
}

/// The spell and the effects after `delta` nanoseconds.
pub open spec fn void_step(v: VoidSpell, delta: u64) -> (VoidSpell, VoidEffects) {
    let (t, just_finished) = v.timer.ticked(delta);
    (
        VoidSpell { timer: t, ..v },
        VoidEffects {
            despawn: just_finished,
            spawn_hitbox: past_four_fifths(t) && !v.hitbox_spawned,
        },
    )
}

impl VoidSpell {
    /// A spell of `duration_nanos` cast by `caster`, with no hitbox yet.
    pub fn new(duration_nanos: u64, caster: u64) -> (r: Self)
        ensures
            r == (VoidSpell {
                timer: OnceTimer { elapsed_nanos: 0, duration_nanos, finished: false },
                caster,
                hitbox_spawned: false,
            }),
    {
        VoidSpell { timer: OnceTimer::new(duration_nanos), caster, hitbox_spawned: false }
    }

    /// Runs one frame of `delta_nanos`: the spell is despawned in the frame in
    /// which its timer finishes, and gets its hitbox in every frame after 80%
    /// of its time has passed.
    pub fn step(&mut self, delta_nanos: u64) -> (r: VoidEffects)
        requires
            old(self).timer.wf(),
        ensures
            (*final(self), r) == void_step(*old(self), delta_nanos),
            final(self).timer.wf(),
            r.despawn <==> (!old(self).timer.finished && delta_nanos >= old(self).timer.duration_nanos
                - old(self).timer.elapsed_nanos),
            r.spawn_hitbox <==> (!old(self).hitbox_spawned && (old(self).timer.duration_nanos == 0
                || 5 * final(self).timer.elapsed_nanos > 4 * old(self).timer.duration_nanos)),
            final(self).caster == old(self).caster,
            final(self).hitbox_spawned == old(self).hitbox_spawned,
    {
        let despawn = self.timer.tick(delta_nanos);
        let past = self.timer.duration_nanos == 0 || (self.timer.elapsed_nanos as u128) * 5
            > (self.timer.duration_nanos as u128) * 4;
        VoidEffects { despawn, spawn_hitbox: past && !self.hitbox_spawned }
    }
}

/// A spell lasting one second gets no hitbox while at most 800 ms have passed,
/// gets it in every later frame, and is despawned exactly once.
pub proof fn lemma_void_timeline(caster: u64, d1: u64, d2: u64)
    requires
        d1 + d2 <= u64::MAX,
    ensures
        ({
            let v0 = VoidSpell {
                timer: OnceTimer { elapsed_nanos: 0, duration_nanos: 1_000_000_000, finished: false },
                caster,
                hitbox_spawned: false,
            };
            let (v1, e1) = void_step(v0, d1);
            let (v2, e2) = void_step(v1, d2);
            &&& (d1 <= 800_000_000 ==> !e1.spawn_hitbox)
            &&& (d1 > 800_000_000 ==> e1.spawn_hitbox)
            &&& (d1 > 800_000_000 ==> e2.spawn_hitbox)
            &&& !(e1.despawn && e2.despawn)
            &&& (e1.despawn || e2.despawn) == (d1 + d2 >= 1_000_000_000)
        }),
{
}

} // verus!
