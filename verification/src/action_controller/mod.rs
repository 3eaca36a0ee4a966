//! The life cycle of a character's action: it is asked to start or to stop,
//! the request is announced once per frame, and applying the announcement
//! moves the action on.
use vstd::prelude::*;

verus! {

#[derive(Debug, PartialEq, Eq, Structural, Clone, Copy)]
pub enum ActionState {
    Inactive,
    Starting,
    Active,
    Stopping,
}

/// The id of an action type.
pub type ActionId = u64;

/// The messages that announce the state of an action in one frame.
#[derive(Debug, PartialEq, Eq, Structural, Clone, Copy)]
pub struct ActionAnnouncement {
    /// The action is to start.
    pub start: bool,
    /// The action is to stop.
    pub stop: bool,
    /// The action's change callback is to run.
    pub change: bool,
}

/// Plays one action of type `A`.
pub struct ActionPlayer<A> {
    pub action: A,
    state: ActionState,
    run_change_callback: bool,
}

impl<A> ActionPlayer<A> {
    /// The action that is played.
    pub closed spec fn held_action(&self) -> A {
        self.action
    }

    pub closed spec fn spec_state(&self) -> ActionState {
        self.state
    }

    /// Whether the change callback waits to run.
    pub closed spec fn change_pending(&self) -> bool {
        self.run_change_callback
    }

    /// A player of `action`, which is inactive.
    pub fn new(action: A) -> (r: Self)
        ensures
            r.held_action() == action,
            r.spec_state() == ActionState::Inactive,
            !r.change_pending(),
    {
        ActionPlayer { action, state: ActionState::Inactive, run_change_callback: false }
    }

    /// Asks the action to start.
    pub fn start(&mut self)
        ensures
            final(self).spec_state() == ActionState::Starting,
            final(self).held_action() == old(self).held_action(),
            final(self).change_pending() == old(self).change_pending(),
    {
        self.state = ActionState::Starting;
    }

    /// Asks the action to stop.
    pub fn stop(&mut self)
        ensures
            final(self).spec_state() == ActionState::Stopping,
            final(self).held_action() == old(self).held_action(),
            final(self).change_pending() == old(self).change_pending(),
    {
        self.state = ActionState::Stopping;
    }

    pub fn is_active(&self) -> (r: bool)
        ensures
            r == (self.spec_state() == ActionState::Active),
    {
        match self.state {
            ActionState::Active => true,
            _ => false,
        }
    }

    /// Asks for the action's change callback to run.
    pub fn run_change_callback(&mut self)
        ensures
            final(self).change_pending(),
            final(self).spec_state() == old(self).spec_state(),
            final(self).held_action() == old(self).held_action(),
    {
        self.run_change_callback = true;
    }

    /// The messages that this frame announces: a start or a stop for an action
    /// that is asked to, and a change when its callback waits to run.
    pub fn announce(&self) -> (r: ActionAnnouncement)
        ensures
            r == (ActionAnnouncement {
                start: self.spec_state() == ActionState::Starting,
                stop: self.spec_state() == ActionState::Stopping,
                change: self.change_pending(),
            }),
    {
        let start = match self.state {
            ActionState::Starting => true,
            _ => false,
        };
        let stop = match self.state {
            ActionState::Stopping => true,
            _ => false,
        };
        ActionAnnouncement { start, stop, change: self.run_change_callback }
    }

    /// Applies an announced start: the action is active. The other actions of
    /// the entity that it cancels are asked to stop by
    /// [`ActionPlayer::apply_cancel`].
    pub fn apply_start(&mut self)
        ensures
            final(self).spec_state() == ActionState::Active,
            final(self).held_action() == old(self).held_action(),
            final(self).change_pending() == old(self).change_pending(),
    {
        self.state = ActionState::Active;
    }

    /// Applies the start of an action that cancels the actions `cancels` to
    /// another action of the same entity, whose id is `own_id`: if it is listed
    /// and starting or active, it is asked to stop; otherwise nothing changes.
    pub fn apply_cancel(&mut self, own_id: ActionId, cancels: &[ActionId])
        ensures
            final(self).spec_state() == if cancels@.contains(own_id) && (old(self).spec_state()
                == ActionState::Starting || old(self).spec_state() == ActionState::Active) {
                ActionState::Stopping
            } else {
                old(self).spec_state()
            },
            final(self).held_action() == old(self).held_action(),
            final(self).change_pending() == old(self).change_pending(),
    {
        let mut i: usize = 0;
        let mut listed = false;
        while i < cancels.len()
            invariant
                i <= cancels@.len(),
                listed == exists|j: int| 0 <= j < i && cancels@[j] == own_id,
            decreases cancels@.len() - i,
        {
            if cancels[i] == own_id {
                listed = true;
            }
            i = i + 1;
        }
        proof {
            if cancels@.contains(own_id) {
                let j = choose|j: int| 0 <= j < cancels@.len() && cancels@[j] == own_id;
                assert(0 <= j < i && cancels@[j] == own_id);
            }
        }
        if listed {
            match self.state {
                ActionState::Starting | ActionState::Active => {
                    self.state = ActionState::Stopping;
                },
                _ => {},
            }
        }
    }

    /// Applies an announced stop. The game marks a stopped action active as
    /// well, as it does a started one.
    pub fn apply_stop(&mut self)
        ensures
            final(self).spec_state() == ActionState::Active,
            final(self).held_action() == old(self).held_action(),
            final(self).change_pending() == old(self).change_pending(),
    {
        self.state = ActionState::Active;
    }

    /// Applies an announced change: the callback no longer waits.
    pub fn apply_change(&mut self)
        ensures
            !final(self).change_pending(),
            final(self).spec_state() == old(self).spec_state(),
            final(self).held_action() == old(self).held_action(),
    {
        self.run_change_callback = false;
    }
}

impl<A: Default> Default for ActionPlayer<A> {
    fn default() -> (r: Self)
        ensures
            r.spec_state() == ActionState::Inactive,
            !r.change_pending(),
    {
        Self::new(A::default())
    }
}

} // verus!
