//! Entities that follow other entities.
use vstd::prelude::*;

verus! {

/// The plugin that keeps followers at their targets while the game is in
/// `state`.
pub struct FollowUtilPlugin<STATE> {
    pub state: STATE,
}

impl<STATE> FollowUtilPlugin<STATE> {
    pub fn new(state: STATE) -> (r: Self)
        ensures
            r.state == state,
    {
        Self { state }
    }
}

} // verus!
