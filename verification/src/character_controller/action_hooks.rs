//! Hooks that switch actions on and off when a condition on the set of running
//! actions holds.
use vstd::prelude::*;
use std::collections::HashSet;

verus! {

broadcast use vstd::std_specs::hash::group_hash_axioms;

/// The index of an action.
pub type ActionIndex = usize;

#[derive(Debug)]
pub struct ActionHook {
    pub condition: ActionHookCondition,
    pub actions: Vec<ActionHookAction>,
}

#[derive(Debug, PartialEq, Eq, Structural, Clone, Copy)]
pub enum ActionHookCondition {
    /// Always run the action when the hook is triggered
    Unconditional,
    IsRunning(ActionIndex),
    IsNotRunning(ActionIndex),
}

/// Action to be performed if the [`ActionHookCondition`] is full filled
#[derive(Debug, PartialEq, Eq, Structural, Clone, Copy)]
pub enum ActionHookAction {
    Insert(ActionIndex),
    Remove(ActionIndex),
}

/// The condition holds for the running actions `active`.
pub open spec fn condition_holds(c: ActionHookCondition, active: Set<ActionIndex>) -> bool {
    match c {
        ActionHookCondition::Unconditional => true,
        ActionHookCondition::IsRunning(index) => active.contains(index),
        ActionHookCondition::IsNotRunning(index) => !active.contains(index),
    }
}

/// The running actions after applying `a`.
pub open spec fn action_applied(a: ActionHookAction, active: Set<ActionIndex>) -> Set<ActionIndex> {
    match a {
        ActionHookAction::Insert(index) => active.insert(index),
        ActionHookAction::Remove(index) => active.remove(index),
    }
}

/// The running actions after applying `actions` in order.
pub open spec fn actions_applied(actions: Seq<ActionHookAction>, active: Set<ActionIndex>) -> Set<
    ActionIndex,
>
    decreases actions.len(),
{
    if actions.len() == 0 {
        active
    } else {
        action_applied(actions.last(), actions_applied(actions.drop_last(), active))
    }
}

impl ActionHookCondition {
    pub fn check_condition(&self, active_actions: &HashSet<ActionIndex>) -> (r: bool)
        ensures
            r == condition_holds(*self, active_actions@),
    {
        match self {
            Self::Unconditional => true,
            Self::IsRunning(index) => active_actions.contains(index),
            Self::IsNotRunning(index) => !active_actions.contains(index),
        }
    }
}

impl ActionHookAction {
    pub fn apply(&self, active_actions: &mut HashSet<ActionIndex>)
        ensures
            final(active_actions)@ == action_applied(*self, old(active_actions)@),
    {
        match self {
            Self::Insert(action) => {
                active_actions.insert(*action);
            },
            Self::Remove(action) => {
                active_actions.remove(action);
            },
        };
    }
}

impl ActionHook {
    /// Applies the hook's actions in order if its condition holds.
    pub fn apply(&self, active_actions: &mut HashSet<ActionIndex>)
        ensures
            final(active_actions)@ == if condition_holds(self.condition, old(active_actions)@) {
                actions_applied(self.actions@, old(active_actions)@)
            } else {
                old(active_actions)@
            },
    {
        if self.condition.check_condition(active_actions) {
            let mut i: usize = 0;
            assert(self.actions@.take(0) =~= Seq::<ActionHookAction>::empty());
            while i < self.actions.len()
                invariant
                    i <= self.actions@.len(),
                    active_actions@ == actions_applied(
                        self.actions@.take(i as int),
                        old(active_actions)@,
                    ),
                decreases self.actions@.len() - i,
            {
                self.actions[i].apply(active_actions);
                proof {
                    assert(self.actions@.take(i + 1).drop_last() =~= self.actions@.take(i as int));
                }
                i = i + 1;
            }
            assert(self.actions@.take(i as int) =~= self.actions@);
        }
    }
}

} // verus!
