use vstd::prelude::*;
use std::time::Duration;
use crate::utils::timer::OnceTimer;

verus! {

/// The kinds of attacks of the player.
#[derive(Debug, PartialEq, Eq, Structural, Clone, Copy)]
pub enum AttackType {
    Normal,
    SwingBottom,
    CastVoid,
}

/// The duration of `Duration::from_millis(ms)`.
pub uninterp spec fn duration_from_millis(ms: u64) -> Duration;

/// Calls `std::time::Duration::from_millis`. The contract claims only that the
/// duration is determined by the number of milliseconds.
#[verifier::external_body]
fn millis(ms: u64) -> (d: Duration)
    ensures
        d == duration_from_millis(ms),
{
    Duration::from_millis(ms)
}

/// How many milliseconds an attack lasts.
pub open spec fn attack_millis(ty: AttackType) -> u64 {
    match ty {
        AttackType::Normal | AttackType::SwingBottom => 500,
        AttackType::CastVoid => 200,
    }
}

impl AttackType {
    /// How long the attack lasts: 500 ms for the melee attacks, 200 ms for
    /// casting the void.
    pub fn duration(&self) -> (d: Duration)
        ensures
            d == duration_from_millis(attack_millis(*self)),
    {
        millis(
            match self {
                Self::Normal | Self::SwingBottom => 500,
                Self::CastVoid => 200,
            },
        )
    }
}

/// The entity of the collider that the player's melee attacks use, by its
/// bits.
#[derive(Debug, PartialEq, Eq, Structural, Clone, Copy)]
pub struct PlayerMeleeAttackCollider(pub u64);

#[derive(Debug, PartialEq, Eq, Structural, Clone, Copy)]
pub enum AttackState {
    Idle,
    Attacking { timer: OnceTimer, ty: AttackType },
}

/// What the game does to the attack collider in one frame.
#[derive(Debug, PartialEq, Eq, Structural, Clone, Copy)]
pub struct AttackEffects {
    /// Give the collider its sword shape and make it deal sword damage.
    pub arm: bool,
    /// Take the collider's shape away again.
    pub disarm: bool,
}

/// The next attack state after `delta` nanoseconds, and the effects on the
/// attack collider.
pub open spec fn attack_advance(state: AttackState, delta: u64) -> (AttackState, AttackEffects) {
    match state {
        AttackState::Idle => (AttackState::Idle, AttackEffects { arm: false, disarm: false }),
        AttackState::Attacking { timer, ty } => {
            let arm = timer.elapsed_nanos == 0 && ty != AttackType::CastVoid;
            let (t, _) = timer.ticked(delta);
            if t.finished {
                (AttackState::Idle, AttackEffects { arm, disarm: true })
            } else {
                (AttackState::Attacking { timer: t, ty }, AttackEffects { arm, disarm: false })
            }
        },
    }
}

impl AttackState {
    /// The timer of an attack is well formed.
    pub open spec fn wf(self) -> bool {
        match self {
            AttackState::Idle => true,
            AttackState::Attacking { timer, .. } => timer.wf(),
        }
    }

    /// Runs one frame of `delta_nanos` of the player's attack: a melee attack
    /// arms the collider in its first frame, and the attack ends, disarming it,
    /// in the frame in which its timer is finished.
    pub fn advance(&mut self, delta_nanos: u64) -> (r: AttackEffects)
        requires
            old(self).wf(),
        ensures
            (*final(self), r) == attack_advance(*old(self), delta_nanos),
            final(self).wf(),
            r.arm <==> (*old(self) matches AttackState::Attacking { timer, ty }
                && timer.elapsed_nanos == 0 && (ty == AttackType::Normal || ty
                == AttackType::SwingBottom)),
            r.disarm <==> (*old(self) matches AttackState::Attacking { timer, .. } && (
            timer.finished || delta_nanos >= timer.duration_nanos - timer.elapsed_nanos)),
            r.disarm <==> (*old(self) is Attacking && *final(self) is Idle),
    {
        match self {
            AttackState::Idle => AttackEffects { arm: false, disarm: false },
            AttackState::Attacking { timer, ty } => {
                let ty = *ty;
                let mut t = *timer;
                let arm = t.elapsed_nanos == 0 && match ty {
                    AttackType::CastVoid => false,
                    AttackType::Normal | AttackType::SwingBottom => true,
                };
                t.tick(delta_nanos);
                if t.is_finished() {
                    *self = AttackState::Idle;
                    AttackEffects { arm, disarm: true }
                } else {
                    *self = AttackState::Attacking { timer: t, ty };
                    AttackEffects { arm, disarm: false }
                }
            },
        }
    }
}

/// An attack arms the collider at most once: after its first frame it never
/// arms it again, whatever time passes.
pub proof fn lemma_attack_arms_once(timer: OnceTimer, ty: AttackType, d1: u64, d2: u64)
    requires
        timer.wf(),
        timer.duration_nanos > 0,
        d1 > 0,
    ensures
        ({
            let (s1, _) = attack_advance(AttackState::Attacking { timer, ty }, d1);
            let (_, e2) = attack_advance(s1, d2);
            !e2.arm
        }),
{
}


/// In the first frame of an attack the collider is armed exactly for a melee
/// attack (a normal attack or a swing to the bottom), never for casting the
/// void; in any later frame, and without an attack, it is not armed.
pub proof fn lemma_arms_melee_in_first_frame(timer: OnceTimer, ty: AttackType, delta: u64)
    requires
        timer.wf(),
    ensures
        timer.elapsed_nanos == 0 ==> (attack_advance(AttackState::Attacking { timer, ty }, delta).1.arm
            <==> (ty == AttackType::Normal || ty == AttackType::SwingBottom)),
        timer.elapsed_nanos != 0 ==> !attack_advance(
            AttackState::Attacking { timer, ty },
            delta,
        ).1.arm,
        !attack_advance(AttackState::Idle, delta).1.arm,
        !attack_advance(AttackState::Idle, delta).1.disarm,
{
}

/// An attack is disarmed and ends in the frame in which its time is up, and
/// goes on, keeping its kind, before that: the elapsed time grows by the frame.
pub proof fn lemma_attack_ends_when_time_is_up(timer: OnceTimer, ty: AttackType, delta: u64)
    requires
        timer.wf(),
        !timer.finished,
    ensures
        ({
            let (s, e) = attack_advance(AttackState::Attacking { timer, ty }, delta);
            &&& (timer.elapsed_nanos + delta >= timer.duration_nanos) ==> (e.disarm && s
                == AttackState::Idle)
            &&& (timer.elapsed_nanos + delta < timer.duration_nanos) ==> (!e.disarm && (s
                matches AttackState::Attacking { timer: t, ty: k } && k == ty && t.elapsed_nanos
                == timer.elapsed_nanos + delta))
        }),
{
}
} // verus!
