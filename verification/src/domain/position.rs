//! The current position: the single pointer to "which step of which task".
//!
//! Uniqueness is a property of the type: a [`CurrentPosition`] holds one value,
//! and the core state keeps one field of it. The only state without a value is
//! [`CurrentPosition::NotStarted`]; during a rest the value is kept and only
//! the clock stops.

use vstd::prelude::*;

use super::task::{StepId, TaskId};
use super::Timestamp;

verus! {

/// The current position; there is one in the whole system.
#[derive(Debug, Clone, Copy, PartialEq, Eq, Structural)]
pub enum CurrentPosition {
    /// No position has been placed yet — the only state without a value.
    NotStarted,
    /// Points at a step and the continuous work time runs.
    Active {
        /// The task the step belongs to.
        task_id: TaskId,
        /// The step pointed at (its id, never its ordinal).
        step_id: StepId,
        /// Start of the continuous work time; moved only when becoming active
        /// from inactive (or from not started).
        activated_at: Timestamp,
    },
    /// At rest: the value is kept, only the clock stops.
    Inactive {
        /// The task the step belongs to.
        task_id: TaskId,
        /// The step pointed at.
        step_id: StepId,
        /// When the position last became active; kept until it comes back.
        activated_at: Timestamp,
    },
}

/// The position after moving to `(task_id, step_id)` at `now`: always active;
/// the start of the work time is kept when it was already active.
pub open spec fn moved_to(
    position: CurrentPosition,
    task_id: TaskId,
    step_id: StepId,
    now: Timestamp,
) -> CurrentPosition {
    CurrentPosition::Active {
        task_id,
        step_id,
        activated_at: match position {
            CurrentPosition::Active { activated_at, .. } => activated_at,
            _ => now,
        },
    }
}

/// The position made inactive; the value is kept.
pub open spec fn deactivated(position: CurrentPosition) -> CurrentPosition {
    match position {
        CurrentPosition::Active { task_id, step_id, activated_at } => CurrentPosition::Inactive {
            task_id,
            step_id,
            activated_at,
        },
        _ => position,
    }
}

/// The position made active at `now`; only an inactive position changes.
pub open spec fn activated(position: CurrentPosition, now: Timestamp) -> CurrentPosition {
    match position {
        CurrentPosition::Inactive { task_id, step_id, .. } => CurrentPosition::Active {
            task_id,
            step_id,
            activated_at: now,
        },
        _ => position,
    }
}

/// The task pointed at, if any.
pub open spec fn task_of(position: CurrentPosition) -> Option<TaskId> {
    match position {
        CurrentPosition::NotStarted => None,
        CurrentPosition::Active { task_id, .. } => Some(task_id),
        CurrentPosition::Inactive { task_id, .. } => Some(task_id),
    }
}

/// The step pointed at, if any.
pub open spec fn step_of(position: CurrentPosition) -> Option<StepId> {
    match position {
        CurrentPosition::NotStarted => None,
        CurrentPosition::Active { step_id, .. } => Some(step_id),
        CurrentPosition::Inactive { step_id, .. } => Some(step_id),
    }
}

/// The start of the continuous work time, if any.
pub open spec fn activated_at_of(position: CurrentPosition) -> Option<Timestamp> {
    match position {
        CurrentPosition::NotStarted => None,
        CurrentPosition::Active { activated_at, .. } => Some(activated_at),
        CurrentPosition::Inactive { activated_at, .. } => Some(activated_at),
    }
}

impl CurrentPosition {
    /// The task pointed at; `None` when not started.
    pub fn task_id(&self) -> (task_id: Option<TaskId>)
        ensures
            task_id == task_of(*self),
    {
        match self {
            CurrentPosition::NotStarted => None,
            CurrentPosition::Active { task_id, .. } => Some(*task_id),
            CurrentPosition::Inactive { task_id, .. } => Some(*task_id),
        }
    }

    /// The step pointed at; `None` when not started.
    pub fn step_id(&self) -> (step_id: Option<StepId>)
        ensures
            step_id == step_of(*self),
    {
        match self {
            CurrentPosition::NotStarted => None,
            CurrentPosition::Active { step_id, .. } => Some(*step_id),
            CurrentPosition::Inactive { step_id, .. } => Some(*step_id),
        }
    }

    /// Whether the position is active; not started is not active.
    pub fn is_active(&self) -> (active: bool)
        ensures
            active == (*self is Active),
    {
        match self {
            CurrentPosition::Active { .. } => true,
            _ => false,
        }
    }

    /// The start of the continuous work time; `None` when not started.
    pub fn activated_at(&self) -> (at: Option<Timestamp>)
        ensures
            at == activated_at_of(*self),
    {
        match self {
            CurrentPosition::NotStarted => None,
            CurrentPosition::Active { activated_at, .. } => Some(*activated_at),
            CurrentPosition::Inactive { activated_at, .. } => Some(*activated_at),
        }
    }

    /// Moves the position to the given step; the result is active and the
    /// previous position is gone. A switch while active keeps the start of the
    /// continuous work time; only coming from inactive (or not started) sets it
    /// to `now`.
    pub fn move_to(self, task_id: TaskId, step_id: StepId, now: Timestamp) -> (moved: Self)
        ensures
            moved == moved_to(self, task_id, step_id, now),
    {
        let activated_at = match self {
            CurrentPosition::Active { activated_at, .. } => activated_at,
            _ => now,
        };
        CurrentPosition::Active { task_id, step_id, activated_at }
    }

    /// Makes the position inactive (entering a rest); the value is kept. Not
    /// started stays as it is.
    pub fn deactivate(self) -> (inactive: Self)
        ensures
            inactive == deactivated(self),
    {
        match self {
            CurrentPosition::Active { task_id, step_id, activated_at } => {
                CurrentPosition::Inactive { task_id, step_id, activated_at }
            },
            _ => self,
        }
    }

    /// Makes the position active (back from a rest). Only an inactive position
    /// changes, and its work time restarts at `now`.
    pub fn activate(self, now: Timestamp) -> (active: Self)
        ensures
            active == activated(self, now),
    {
        match self {
            CurrentPosition::Inactive { task_id, step_id, .. } => CurrentPosition::Active {
                task_id,
                step_id,
                activated_at: now,
            },
            _ => self,
        }
    }

    /// Rebuilds a stored position.
    pub fn rehydrate(task_id: TaskId, step_id: StepId, is_active: bool, activated_at: Timestamp) -> (position: Self)
        ensures
            is_active ==> position == (CurrentPosition::Active { task_id, step_id, activated_at }),
            !is_active ==> position == (CurrentPosition::Inactive { task_id, step_id, activated_at }),
    {
        if is_active {
            CurrentPosition::Active { task_id, step_id, activated_at }
        } else {
            CurrentPosition::Inactive { task_id, step_id, activated_at }
        }
    }
}

impl Default for CurrentPosition {
    /// Right after the first start nothing is registered: not started.
    fn default() -> (position: Self)
        ensures
            position == CurrentPosition::NotStarted,
    {
        CurrentPosition::NotStarted
    }
}

/// A switch while active never resets the continuous work time, and a move
/// from a position that was not active starts it at the moment of the move.
pub proof fn law_switch_keeps_work_clock(position: CurrentPosition, task_id: TaskId, step_id: StepId, now: Timestamp)
    ensures
        position is Active ==> activated_at_of(moved_to(position, task_id, step_id, now))
            == activated_at_of(position),
        !(position is Active) ==> activated_at_of(moved_to(position, task_id, step_id, now))
            == Some(now),
        moved_to(position, task_id, step_id, now) is Active,
        step_of(moved_to(position, task_id, step_id, now)) == Some(step_id),
{
}

/// A rest keeps the value: deactivating changes neither the task, the step
/// nor the start of the work time; coming back restarts the clock at `now`.
pub proof fn law_rest_keeps_the_value(position: CurrentPosition, now: Timestamp)
    ensures
        task_of(deactivated(position)) == task_of(position),
        step_of(deactivated(position)) == step_of(position),
        activated_at_of(deactivated(position)) == activated_at_of(position),
        !(deactivated(position) is Active),
        position is Active ==> activated(deactivated(position), now) == (CurrentPosition::Active {
            task_id: task_of(position).unwrap(),
            step_id: step_of(position).unwrap(),
            activated_at: now,
        }),
        position is Active ==> activated(position, now) == position,
{
}

} // verus!
