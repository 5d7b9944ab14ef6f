//! Plain values that name tasks and describe what happened to them.

use vstd::prelude::*;

verus! {

/// The identity of a task: its position in the table of the executor that
/// admitted it.  A handle is never given to a second task, and holding one
/// does not keep the task alive.
#[derive(Clone, Copy, Debug, PartialEq, Eq, Structural, Hash)]
pub struct TaskHandle {
    pub index: usize,
}

/// What one poll of a suspendable computation reports.
#[derive(Debug, PartialEq, Eq)]
pub enum Step<T> {
    /// The computation finished with a result.
    Complete(T),
    /// The computation's own logic failed; it will not be polled again.
    Failed,
    /// The computation is not ready and yields until it is woken.
    Pending,
}

impl<T> Step<T> {
    /// The event that a poll with this result is recorded as.
    pub open spec fn event(self) -> TurnEvent {
        match self {
            Step::Complete(_) => TurnEvent::Completed,
            Step::Failed => TurnEvent::Failed,
            Step::Pending => TurnEvent::Suspended,
        }
    }

    /// The status of a task whose latest poll gave this result.
    pub open spec fn status(self) -> Status {
        match self {
            Step::Complete(_) => Status::Completed,
            Step::Failed => Status::Failed,
            Step::Pending => Status::Pending,
        }
    }
}

/// The completion state of a task.
#[derive(Clone, Copy, Debug, PartialEq, Eq, Structural)]
pub enum Status {
    /// Not finished: the task may still be polled.
    Pending,
    /// Finished with a result.
    Completed,
    /// Finished by a failure of the computation.
    Failed,
    /// Dropped by its owner before it finished.
    Cancelled,
}

impl Status {
    /// A task in a terminal state is never polled again.
    pub open spec fn is_terminal(self) -> bool {
        !(self is Pending)
    }

    /// A task that was polled to its end, with a result or a failure.
    pub open spec fn is_settled(self) -> bool {
        self is Completed || self is Failed
    }
}

/// How a task ended.
#[derive(Debug, PartialEq, Eq)]
pub enum Outcome<T> {
    /// Normal completion with the computation's result.
    Finished(T),
    /// The computation failed.
    Failed,
}

impl<T> Outcome<T> {
    /// The terminal status that goes with this outcome.
    pub open spec fn status(self) -> Status {
        match self {
            Outcome::Finished(_) => Status::Completed,
            Outcome::Failed => Status::Failed,
        }
    }
}

/// One entry of the completion log: which task ended, and how.
#[derive(Debug, PartialEq, Eq)]
pub struct Completion<T> {
    pub task: TaskHandle,
    pub outcome: Outcome<T>,
}

/// What the run loop did with one entry of the ready queue.
#[derive(Clone, Copy, Debug, PartialEq, Eq, Structural)]
pub enum TurnEvent {
    /// The task was polled and finished with a result.
    Completed,
    /// The task was polled and its computation failed.
    Failed,
    /// The task was polled and is not ready yet.
    Suspended,
    /// The entry was stale: the task is unknown or already terminal, and no
    /// poll took place.
    Skipped,
}

impl TurnEvent {
    /// Whether the computation was polled in this turn.
    pub open spec fn is_poll(self) -> bool {
        !(self is Skipped)
    }
}

/// One turn of the run loop.
#[derive(Clone, Copy, Debug, PartialEq, Eq, Structural)]
pub struct Turn {
    pub task: TaskHandle,
    pub event: TurnEvent,
}

/// A background waiter: once `deadline` has been reached it wakes `target`.
/// It refers to its target by handle only, so it never keeps a task alive.
#[derive(Clone, Copy, Debug, PartialEq, Eq, Structural)]
pub struct Waiter {
    pub deadline: u64,
    pub target: TaskHandle,
}

} // verus!
