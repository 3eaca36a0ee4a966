//! Whether a character stands, jumps or falls.
use vstd::prelude::*;
use crate::character_controller::PlayerAnimation;

verus! {

#[derive(Debug, PartialEq, Eq, Structural, Clone, Copy)]
pub enum AerialState {
    Grounded,
    Jumping,
    Falling,
}

/// How a character moves vertically, as the game reads it from its vertical
/// velocity `vy`.
#[derive(Debug, PartialEq, Eq, Structural, Clone, Copy)]
pub enum VerticalMotion {
    /// `|vy| < 1`
    Resting,
    /// `vy < -1`
    Falling,
    /// Any other velocity.
    Moving,
}

/// What the game does after updating a character's aerial state.
#[derive(Debug, PartialEq, Eq, Structural, Clone, Copy)]
pub struct AerialUpdate {
    /// Set the vertical velocity to 40 to start a jump.
    pub jump: bool,
    /// Stop updating the remaining characters in this frame.
    pub stop: bool,
}

/// The next aerial state and the action to take.
pub open spec fn aerial_step(state: AerialState, motion: VerticalMotion, jump_pressed: bool) -> (
    AerialState,
    AerialUpdate,
) {
    match motion {
        VerticalMotion::Resting => if !jump_pressed {
            (
                if state == AerialState::Falling {
                    AerialState::Grounded
                } else {
                    state
                },
                AerialUpdate { jump: false, stop: true },
            )
        } else if state != AerialState::Jumping {
            (AerialState::Jumping, AerialUpdate { jump: true, stop: true })
        } else {
            (state, AerialUpdate { jump: false, stop: true })
        },
        VerticalMotion::Falling => if state != AerialState::Falling {
            (AerialState::Falling, AerialUpdate { jump: false, stop: true })
        } else {
            (state, AerialUpdate { jump: false, stop: false })
        },
        VerticalMotion::Moving => (state, AerialUpdate { jump: false, stop: false }),
    }
}

impl AerialState {
    /// The animation that the character plays once its aerial state changed to
    /// this one.
    pub fn animation(&self) -> (r: PlayerAnimation)
        ensures
            r == match *self {
                AerialState::Grounded => PlayerAnimation::Idle,
                AerialState::Jumping => PlayerAnimation::Jumping,
                AerialState::Falling => PlayerAnimation::Falling,
            },
    {
        match self {
            AerialState::Grounded => PlayerAnimation::Idle,
            AerialState::Jumping => PlayerAnimation::Jumping,
            AerialState::Falling => PlayerAnimation::Falling,
        }
    }

    /// Updates the state of a character that moves vertically as `motion` says
    /// while the jump key is (`jump_pressed`) or is not pressed: a resting
    /// character that was falling lands, or starts a jump when the key is
    /// pressed; a falling one falls.
    pub fn update(&mut self, motion: VerticalMotion, jump_pressed: bool) -> (r: AerialUpdate)
        ensures
            (*final(self), r) == aerial_step(*old(self), motion, jump_pressed),
            motion == VerticalMotion::Falling ==> *final(self) == AerialState::Falling && !r.jump
                && (r.stop <==> *old(self) != AerialState::Falling),
            motion == VerticalMotion::Resting && jump_pressed && *old(self) != AerialState::Jumping
                ==> *final(self) == AerialState::Jumping && r.jump && r.stop,
            motion == VerticalMotion::Resting && !jump_pressed ==> *final(self) == (if *old(self)
                == AerialState::Falling {
                AerialState::Grounded
            } else {
                *old(self)
            }) && !r.jump && r.stop,
            motion == VerticalMotion::Moving ==> *final(self) == *old(self) && !r.jump && !r.stop,
            r.jump ==> *final(self) == AerialState::Jumping && *old(self) != AerialState::Jumping,
    {
        match motion {
            VerticalMotion::Resting => {
                if !jump_pressed {
                    match *self {
                        AerialState::Grounded | AerialState::Jumping => {},
                        AerialState::Falling => *self = AerialState::Grounded,
                    }
                    AerialUpdate { jump: false, stop: true }
                } else if *self != AerialState::Jumping {
                    *self = AerialState::Jumping;
                    AerialUpdate { jump: true, stop: true }
                } else {
                    AerialUpdate { jump: false, stop: true }
                }
            },
            VerticalMotion::Falling => {
                if *self != AerialState::Falling {
                    *self = AerialState::Falling;
                    AerialUpdate { jump: false, stop: true }
                } else {
                    AerialUpdate { jump: false, stop: false }
                }
            },
            VerticalMotion::Moving => AerialUpdate { jump: false, stop: false },
        }
    }
}


/// Falling vertical motion makes any character fall, whether it stood, jumped
/// or fell already; only a character that was not falling yet ends the frame's
/// updates. A jump starts only from rest with the key pressed and not while
/// jumping, and a falling character at rest lands.
pub proof fn lemma_aerial_transitions(state: AerialState, motion: VerticalMotion, jump_pressed: bool)
    ensures
        motion == VerticalMotion::Falling ==> aerial_step(state, motion, jump_pressed).0
            == AerialState::Falling,
        motion == VerticalMotion::Falling ==> (aerial_step(state, motion, jump_pressed).1.stop
            <==> state != AerialState::Falling),
        aerial_step(state, motion, jump_pressed).1.jump <==> (motion == VerticalMotion::Resting
            && jump_pressed && state != AerialState::Jumping),
        motion == VerticalMotion::Resting && !jump_pressed && state == AerialState::Falling
            ==> aerial_step(state, motion, jump_pressed).0 == AerialState::Grounded,
        motion == VerticalMotion::Moving ==> aerial_step(state, motion, jump_pressed).0 == state,
{
}
} // verus!
