//! How a goblin chooses what to do about its target.
use vstd::prelude::*;
use crate::utils::timer::OnceTimer;

verus! {

#[derive(Debug, PartialEq, Eq, Structural, Clone, Copy)]
pub enum GoblinBehaviorState {
    Idle,
    MovingForwards,
    MovingBackwards,
    Attacking,
}

/// Where a goblin's target stands, measured against the goblin's reach of
/// 1.5 to 1.7.
#[derive(Debug, PartialEq, Eq, Structural, Clone, Copy)]
pub enum TargetDistance {
    /// Farther than 1.7.
    BeyondReach,
    /// Nearer than 1.5.
    TooClose,
    /// Any other distance.
    InReach,
}

#[derive(Debug, PartialEq, Eq, Structural, Clone, Copy)]
pub struct GoblinBehavior {
    pub current: GoblinBehaviorState,
    pub last: GoblinBehaviorState,
    /// Cleared when an attack starts, so that the goblin finishes it before
    /// it considers another state.
    pub action_interruptable: bool,
}

/// The state that a goblin wants: nothing to do without a target or while it
/// waits to retry reaching it; otherwise close in, back off or attack by the
/// target's distance.
pub open spec fn wanted_state(target: Option<TargetDistance>, retry_pending: bool) -> GoblinBehaviorState {
    match target {
        Some(d) if !retry_pending => match d {
            TargetDistance::BeyondReach => GoblinBehaviorState::MovingForwards,
            TargetDistance::TooClose => GoblinBehaviorState::MovingBackwards,
            TargetDistance::InReach => GoblinBehaviorState::Attacking,
        },
        _ => GoblinBehaviorState::Idle,
    }
}

/// The behavior after one update.
pub open spec fn behavior_update(
    b: GoblinBehavior,
    target: Option<TargetDistance>,
    retry_pending: bool,
) -> GoblinBehavior {
    if !b.action_interruptable {
        b
    } else {
        let state = wanted_state(target, retry_pending);
        GoblinBehavior {
            current: state,
            last: if b.current != state {
                b.current
            } else {
                b.last
            },
            action_interruptable: state != GoblinBehaviorState::Attacking,
        }
    }
}

impl GoblinBehavior {
    /// A goblin that starts in `state` and may change it.
    pub fn new(state: GoblinBehaviorState) -> (r: Self)
        ensures
            r == (GoblinBehavior { current: state, last: state, action_interruptable: true }),
    {
        GoblinBehavior { current: state, last: state, action_interruptable: true }
    }

    /// Updates the goblin for a target at `target` (`None` without a target)
    /// while it does or does not wait to retry reaching it. A goblin in the
    /// middle of an attack keeps it; a change of state keeps the state left
    /// behind in `last`.
    pub fn update(&mut self, target: Option<TargetDistance>, retry_pending: bool)
        ensures
            *final(self) == behavior_update(*old(self), target, retry_pending),
            !old(self).action_interruptable ==> *final(self) == *old(self),
            old(self).action_interruptable && (retry_pending || target.is_none()) ==> final(self).current
                == GoblinBehaviorState::Idle && final(self).action_interruptable,
            old(self).action_interruptable && !retry_pending ==> (target == Some(
                TargetDistance::BeyondReach,
            ) ==> final(self).current == GoblinBehaviorState::MovingForwards) && (target == Some(
                TargetDistance::TooClose,
            ) ==> final(self).current == GoblinBehaviorState::MovingBackwards) && (target == Some(
                TargetDistance::InReach,
            ) ==> final(self).current == GoblinBehaviorState::Attacking
                && !final(self).action_interruptable),
            final(self).current != old(self).current ==> final(self).last == old(self).current,
            final(self).current == old(self).current ==> final(self).last == old(self).last,
    {
        if !self.action_interruptable {
            return;
        }
        let state = if retry_pending {
            GoblinBehaviorState::Idle
        } else {
            match target {
                Some(TargetDistance::BeyondReach) => GoblinBehaviorState::MovingForwards,
                Some(TargetDistance::TooClose) => GoblinBehaviorState::MovingBackwards,
                Some(TargetDistance::InReach) => {
                    self.action_interruptable = false;
                    GoblinBehaviorState::Attacking
                },
                None => GoblinBehaviorState::Idle,
            }
        };
        if self.current != state {
            self.last = self.current;
            self.current = state;
        }
    }
}

/// How long a goblin that could not reach its target waits before it tries
/// again: one second.
pub const RETRY_MOVE_NANOS: u64 = 1_000_000_000;

/// The wait of a goblin that could not reach its target.
#[derive(Debug, PartialEq, Eq, Structural, Clone, Copy)]
pub struct RetryMoveToTarget(pub OnceTimer);

impl RetryMoveToTarget {
    /// A wait of one second that starts now.
    pub fn new() -> (r: Self)
        ensures
            r.0 == (OnceTimer { elapsed_nanos: 0, duration_nanos: RETRY_MOVE_NANOS, finished: false }),
    {
        RetryMoveToTarget(OnceTimer::new(RETRY_MOVE_NANOS))
    }

    /// Lets `delta_nanos` pass; returns whether the wait is over in this
    /// frame, when the goblin stops waiting and moves towards its target again.
    pub fn tick(&mut self, delta_nanos: u64) -> (retry: bool)
        requires
            old(self).0.wf(),
        ensures
            (final(self).0, retry) == old(self).0.ticked(delta_nanos),
            final(self).0.wf(),
    {
        self.0.tick(delta_nanos)
    }
}

/// An attacking goblin stays attacking, whatever its target does, and updating
/// twice with the same input changes nothing the second time.
pub proof fn lemma_goblin_attack_sticks(
    b: GoblinBehavior,
    target: Option<TargetDistance>,
    retry_pending: bool,
    later: Option<TargetDistance>,
    later_retry: bool,
)
    ensures
        ({
            let b1 = behavior_update(b, target, retry_pending);
            b1.current == GoblinBehaviorState::Attacking ==> behavior_update(b1, later, later_retry)
                == b1
        }),
        ({
            let b1 = behavior_update(b, target, retry_pending);
            behavior_update(b1, target, retry_pending) == b1
        }),
{
}


/// While a retry is pending a goblin that may change its state wants to be
/// idle, whatever its target's distance: it never starts an attack then. It
/// starts an attack only when its target is in reach and no retry is pending.
pub proof fn lemma_goblin_idle_while_retrying(
    b: GoblinBehavior,
    target: Option<TargetDistance>,
    retry_pending: bool,
)
    ensures
        b.action_interruptable && retry_pending ==> behavior_update(b, target, retry_pending).current
            == GoblinBehaviorState::Idle && behavior_update(b, target, retry_pending).action_interruptable,
        b.action_interruptable && behavior_update(b, target, retry_pending).current
            == GoblinBehaviorState::Attacking ==> !retry_pending && target == Some(
            TargetDistance::InReach,
        ),
{
}
} // verus!
