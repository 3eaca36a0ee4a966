use vstd::prelude::*;

verus! {

/// Whether the player stands on the ground, jumps or falls.
#[derive(Debug, Default, PartialEq, Eq, Structural, Clone, Copy)]
pub enum AerialState {
    #[default]
    Grounded,
    Jumping,
    Falling,
}

} // verus!
