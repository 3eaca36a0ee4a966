//! How the keys W, A, S and D steer the main character.
//!
//! A direction is kept in half steps along x and z: a key moves one full step
//! (two half steps) on the ground and one half step in the air.
use vstd::prelude::*;
use crate::character_controller::actions::aerial::AerialState;
use crate::character_controller::actions::attack::AttackState;
use crate::character_controller::PlayerAnimation;

verus! {

/// A horizontal direction in half steps.
#[derive(Debug, PartialEq, Eq, Structural, Clone, Copy)]
pub struct HalfSteps {
    pub x: i8,
    pub z: i8,
}

#[derive(Debug, PartialEq, Eq, Structural, Clone, Copy)]
pub struct MovementState {
    /// The direction of the last movement: each part is in `-2 ..= 2`, and both
    /// are zero when the character stands.
    pub direction: HalfSteps,
}

/// The movement keys that are held.
#[derive(Debug, PartialEq, Eq, Structural, Clone, Copy)]
pub struct MovementKeys {
    pub w: bool,
    pub a: bool,
    pub s: bool,
    pub d: bool,
}

/// What the game does with the character's velocity after reading the keys.
#[derive(Debug, PartialEq, Eq, Structural, Clone, Copy)]
pub enum MovementDecision {
    /// No movement key is held: the horizontal velocity is set to zero if the
    /// character was moving, and the remaining characters wait for the next
    /// frame.
    Released { was_moving: bool },
    /// The keys cancel out or the character attacks: the horizontal velocity is
    /// set to zero, and the remaining characters wait for the next frame.
    Halted,
    /// The character moves along its new direction, at half speed when
    /// `airborne`; `turned` when that direction differs from the last one, so
    /// that the model turns smoothly towards it.
    Moving { turned: bool, airborne: bool },
}

/// No movement.
pub open spec fn still() -> HalfSteps {
    HalfSteps { x: 0, z: 0 }
}

/// One step per key, in `(x, z)`: A and D along x, W and S along z.
pub open spec fn key_direction(keys: MovementKeys) -> (int, int) {
    (
        (if keys.d { 1int } else { 0 }) - (if keys.a { 1int } else { 0 }),
        (if keys.s { 1int } else { 0 }) - (if keys.w { 1int } else { 0 }),
    )
}

/// The next direction and the decision for a character that moved along
/// `direction`, with `keys` held, while `aerial`, attacking or not.
pub open spec fn movement_step(
    direction: HalfSteps,
    keys: MovementKeys,
    aerial: AerialState,
    attacking: bool,
) -> (HalfSteps, MovementDecision) {
    let (x, z) = key_direction(keys);
    let half_steps: int = if aerial == AerialState::Grounded { 2 } else { 1 };
    if !(keys.w || keys.a || keys.s || keys.d) {
        (still(), MovementDecision::Released { was_moving: direction != still() })
    } else if (x == 0 && z == 0) || attacking {
        (still(), MovementDecision::Halted)
    } else {
        let next = HalfSteps { x: (x * half_steps) as i8, z: (z * half_steps) as i8 };
        (
            next,
            MovementDecision::Moving {
                turned: next != direction,
                airborne: aerial != AerialState::Grounded,
            },
        )
    }
}

fn axis(plus: bool, minus: bool) -> (r: i8)
    ensures
        r == (if plus { 1int } else { 0 }) - (if minus { 1int } else { 0 }),
{
    if plus && !minus {
        1
    } else if minus && !plus {
        -1
    } else {
        0
    }
}

impl Default for MovementState {
    fn default() -> (r: Self)
        ensures
            r.direction == still(),
    {
        MovementState { direction: HalfSteps { x: 0, z: 0 } }
    }
}

impl MovementState {
    /// Each part of the direction is at most one full step.
    pub open spec fn wf(self) -> bool {
        -2 <= self.direction.x <= 2 && -2 <= self.direction.z <= 2
    }

    /// Reads the movement keys of one frame: with none held the character stops;
    /// when they cancel out or the character attacks it halts; otherwise it
    /// moves one step per key on the ground, half a step in the air.
    pub fn update(&mut self, keys: MovementKeys, aerial: AerialState, attack: &AttackState) -> (r:
        MovementDecision)
        ensures
            (final(self).direction, r) == movement_step(
                old(self).direction,
                keys,
                aerial,
                *attack != AttackState::Idle,
            ),
            final(self).wf(),
            r matches MovementDecision::Moving { turned, airborne } ==> {
                &&& turned <==> (final(self).direction.x != old(self).direction.x
                    || final(self).direction.z != old(self).direction.z)
                &&& airborne <==> aerial != AerialState::Grounded
                &&& final(self).direction.x == (if airborne { 1int } else { 2int }) * ((if keys.d {
                    1int
                } else {
                    0
                }) - (if keys.a {
                    1int
                } else {
                    0
                }))
                &&& final(self).direction.z == (if airborne { 1int } else { 2int }) * ((if keys.s {
                    1int
                } else {
                    0
                }) - (if keys.w {
                    1int
                } else {
                    0
                }))
            },
            r is Moving <==> ((keys.w || keys.a || keys.s || keys.d) && *attack
                == AttackState::Idle && (keys.a != keys.d || keys.w != keys.s)),
            !(r is Moving) ==> final(self).direction.x == 0 && final(self).direction.z == 0,
            r matches MovementDecision::Released { was_moving } ==> (was_moving <==> (
            old(self).direction.x != 0 || old(self).direction.z != 0)),
            r is Released <==> !(keys.w || keys.a || keys.s || keys.d),
    {
        if !(keys.w || keys.a || keys.s || keys.d) {
            let was_moving = self.direction.x != 0 || self.direction.z != 0;
            self.direction = HalfSteps { x: 0, z: 0 };
            return MovementDecision::Released { was_moving };
        }
        let x = axis(keys.d, keys.a);
        let z = axis(keys.s, keys.w);
        let attacking = match attack {
            AttackState::Idle => false,
            AttackState::Attacking { .. } => true,
        };
        if (x == 0 && z == 0) || attacking {
            self.direction = HalfSteps { x: 0, z: 0 };
            return MovementDecision::Halted;
        }
        let airborne = match aerial {
            AerialState::Grounded => false,
            _ => true,
        };
        let next = if airborne {
            HalfSteps { x, z }
        } else {
            HalfSteps { x: x * 2, z: z * 2 }
        };
        let turned = next.x != self.direction.x || next.z != self.direction.z;
        self.direction = next;
        MovementDecision::Moving { turned, airborne }
    }

    /// The animation that a change of movement plays: on the ground and not
    /// attacking, idle when the character stands and running when it moves;
    /// none otherwise.
    pub fn animation(&self, aerial: AerialState, attack: &AttackState) -> (r: Option<
        PlayerAnimation,
    >)
        ensures
            r == if aerial == AerialState::Grounded && *attack == AttackState::Idle {
                Some(
                    if self.direction == still() {
                        PlayerAnimation::Idle
                    } else {
                        PlayerAnimation::Running
                    },
                )
            } else {
                None
            },
    {
        match (aerial, attack) {
            (AerialState::Grounded, AttackState::Idle) => {
                if self.direction.x == 0 && self.direction.z == 0 {
                    Some(PlayerAnimation::Idle)
                } else {
                    Some(PlayerAnimation::Running)
                }
            },
            _ => None,
        }
    }
}


/// A moving character turns exactly when its new direction differs from the
/// last one along x or along z; its direction is one step per key on the
/// ground and half a step in the air, with opposite keys cancelling; it moves
/// unless no key is held, the keys cancel out or it attacks.
pub proof fn lemma_movement_turns_on_any_change(
    direction: HalfSteps,
    keys: MovementKeys,
    aerial: AerialState,
    attacking: bool,
)
    ensures
        ({
            let (next, decision) = movement_step(direction, keys, aerial, attacking);
            let f: int = if aerial == AerialState::Grounded { 2 } else { 1 };
            &&& decision is Moving <==> ((keys.w || keys.a || keys.s || keys.d) && !attacking && (
            keys.a != keys.d || keys.w != keys.s))
            &&& decision matches MovementDecision::Moving { turned, .. } ==> (turned <==> (next.x
                != direction.x || next.z != direction.z))
            &&& decision is Moving ==> next.x == f * ((if keys.d { 1int } else { 0 }) - (if keys.a {
                1int
            } else {
                0
            })) && next.z == f * ((if keys.s { 1int } else { 0 }) - (if keys.w { 1int } else { 0 }))
            &&& !(decision is Moving) ==> next.x == 0 && next.z == 0
        }),
{
}
} // verus!
