//! The melee attacks of the main character: started by a key while standing on
//! the ground, ended by their timer or by a jump.
use vstd::prelude::*;
use crate::character_controller::actions::aerial::AerialState;
use crate::character_controller::PlayerAnimation;
use crate::utils::timer::OnceTimer;

verus! {

/// How long an attack lasts: 500 ms.
pub const ATTACK_DURATION_NANOS: u64 = 500_000_000;

#[derive(Debug, PartialEq, Eq, Structural, Clone, Copy)]
pub enum AttackType {
    Normal,
    SwingBottom,
}

#[derive(Debug, PartialEq, Eq, Structural, Clone, Copy)]
pub enum AttackState {
    Idle,
    Attacking { timer: OnceTimer, ty: AttackType },
}

/// Events that break off what the character is doing.
#[derive(Debug, PartialEq, Eq, Structural, Clone, Copy)]
pub enum InterruptAction {
    PlayerJumped,
}

/// What the game does once a character's attack state changed.
#[derive(Debug, PartialEq, Eq, Structural, Clone, Copy)]
pub enum AttackChange {
    /// Take the collider off the weapon and play this animation.
    Ended(PlayerAnimation),
    /// Give the weapon its collider and play this animation.
    Started(PlayerAnimation),
    /// Nothing: the attack is under way.
    Unchanged,
}

/// An attack that starts now.
pub open spec fn fresh_attack(ty: AttackType) -> AttackState {
    AttackState::Attacking {
        timer: OnceTimer { elapsed_nanos: 0, duration_nanos: ATTACK_DURATION_NANOS, finished: false },
        ty,
    }
}

/// The next attack state after `delta` nanoseconds in which the character was
/// `aerial` and the keys Q (`q`) and E (`e`) were or were not held.
pub open spec fn attack_update(
    state: AttackState,
    aerial: AerialState,
    q: bool,
    e: bool,
    delta: u64,
) -> AttackState {
    match state {
        AttackState::Idle => if aerial == AerialState::Grounded && q {
            fresh_attack(AttackType::Normal)
        } else if aerial == AerialState::Grounded && e {
            fresh_attack(AttackType::SwingBottom)
        } else {
            AttackState::Idle
        },
        AttackState::Attacking { timer, ty } => {
            let (t, just_finished) = timer.ticked(delta);
            if just_finished {
                AttackState::Idle
            } else {
                AttackState::Attacking { timer: t, ty }
            }
        },
    }
}

/// What a change to `state` makes the game do.
pub open spec fn attack_change(state: AttackState) -> AttackChange {
    match state {
        AttackState::Idle => AttackChange::Ended(PlayerAnimation::Idle),
        AttackState::Attacking { timer, ty } => if timer.elapsed_nanos == 0 {
            AttackChange::Started(
                match ty {
                    AttackType::Normal => PlayerAnimation::Attack,
                    AttackType::SwingBottom => PlayerAnimation::AttackSwingBottom,
                },
            )
        } else {
            AttackChange::Unchanged
        },
    }
}

impl AttackState {
    /// The timer of an attack is well formed.
    pub open spec fn wf(self) -> bool {
        match self {
            AttackState::Idle => true,
            AttackState::Attacking { timer, .. } => timer.wf(),
        }
    }

    /// Runs one frame of `delta_nanos` for the main character: standing on the
    /// ground without attacking, Q starts a normal attack and otherwise E a
    /// swing to the bottom; an attack under way ends in the frame in which its
    /// timer finishes.
    pub fn update(&mut self, aerial: AerialState, q_pressed: bool, e_pressed: bool, delta_nanos: u64)
        requires
            old(self).wf(),
        ensures
            *final(self) == attack_update(*old(self), aerial, q_pressed, e_pressed, delta_nanos),
            final(self).wf(),
            *old(self) == AttackState::Idle && aerial != AerialState::Grounded ==> *final(self)
                == AttackState::Idle,
            *old(self) == AttackState::Idle && aerial == AerialState::Grounded && (q_pressed
                || e_pressed) ==> (*final(self) matches AttackState::Attacking { timer, ty }
                && timer.elapsed_nanos == 0 && !timer.finished && timer.duration_nanos
                == ATTACK_DURATION_NANOS && (ty == AttackType::Normal <==> q_pressed)),
            *old(self) == AttackState::Idle && !(q_pressed || e_pressed) ==> *final(self)
                == AttackState::Idle,
    {
        match self {
            AttackState::Idle => {
                if aerial == AerialState::Grounded {
                    if q_pressed {
                        *self = AttackState::Attacking {
                            timer: OnceTimer::new(ATTACK_DURATION_NANOS),
                            ty: AttackType::Normal,
                        };
                    } else if e_pressed {
                        *self = AttackState::Attacking {
                            timer: OnceTimer::new(ATTACK_DURATION_NANOS),
                            ty: AttackType::SwingBottom,
                        };
                    }
                }
            },
            AttackState::Attacking { timer, ty } => {
                let mut t = *timer;
                let ty = *ty;
                if t.tick(delta_nanos) {
                    *self = AttackState::Idle;
                } else {
                    *self = AttackState::Attacking { timer: t, ty };
                }
            },
        }
    }

    /// An interruption ends any attack.
    pub fn interrupt(&mut self, interrupt: InterruptAction)
        ensures
            *final(self) == AttackState::Idle,
    {
        match interrupt {
            InterruptAction::PlayerJumped => *self = AttackState::Idle,
        }
    }

    /// What the game does once the attack state changed to this one: an ended
    /// attack takes the weapon's collider away and goes back to idle, an attack
    /// that has just started gives the weapon a collider and plays the
    /// attack's animation.
    pub fn change(&self) -> (r: AttackChange)
        ensures
            r == attack_change(*self),
    {
        match self {
            AttackState::Idle => AttackChange::Ended(PlayerAnimation::Idle),
            AttackState::Attacking { timer, ty } => {
                if timer.elapsed_nanos == 0 {
                    AttackChange::Started(
                        match ty {
                            AttackType::Normal => PlayerAnimation::Attack,
                            AttackType::SwingBottom => PlayerAnimation::AttackSwingBottom,
                        },
                    )
                } else {
                    AttackChange::Unchanged
                }
            },
        }
    }
}

/// A character off the ground never starts an attack, and an attack, once
/// started, is under way until 500 ms have passed in total: frames that add up
/// to less keep it going, and the frame that reaches the 500 ms ends it.
pub proof fn lemma_attack_lasts_its_duration(
    aerial: AerialState,
    q: bool,
    e: bool,
    ty: AttackType,
    d1: u64,
    d2: u64,
)
    requires
        d1 + d2 <= u64::MAX,
    ensures
        aerial != AerialState::Grounded ==> attack_update(AttackState::Idle, aerial, q, e, d1)
            == AttackState::Idle,
        ({
            let s1 = attack_update(fresh_attack(ty), aerial, q, e, d1);
            let s2 = attack_update(s1, aerial, q, e, d2);
            &&& (d1 + d2 < ATTACK_DURATION_NANOS ==> s2 is Attacking)
            &&& (d1 < ATTACK_DURATION_NANOS && d1 + d2 >= ATTACK_DURATION_NANOS ==> s2
                == AttackState::Idle)
        }),
{
}

} // verus!
