use vstd::prelude::*;
use crate::character_controller::actions::aerial::AerialState;

pub mod aerial;
pub mod attack;
pub mod movement;

verus! {

/// The action states that a character starts with.
#[derive(Debug)]
pub struct CharacterActions {
    pub aerial: AerialState,
}

impl Default for CharacterActions {
    fn default() -> (r: Self)
        ensures
            r.aerial == AerialState::Grounded,
    {
        CharacterActions { aerial: AerialState::Grounded }
    }
}

} // verus!
