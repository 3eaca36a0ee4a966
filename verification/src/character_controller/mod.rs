//! The player character: its actions and the animations that they play.
use vstd::prelude::*;

pub mod action_hooks;
pub mod actions;

verus! {

/// The animation clips of the player character's model.
#[derive(Debug, PartialEq, Eq, Structural, Clone, Copy)]
pub enum PlayerAnimation {
    Idle,
    Running,
    Jumping,
    Falling,
    Attack,
    AttackSwingBottom,
}

} // verus!
