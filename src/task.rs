//! Scheduler tasks, as identities.
use vstd::prelude::*;

verus! {

/// A scheduler-native task, identified by its handle. The value does not own
/// the task: dropping it leaves the task running.
#[derive(Clone, Copy, Debug, PartialEq, Eq, Structural)]
pub struct Task(pub u64);

/// The state of a scheduler task.
#[derive(Clone, Copy, Debug, PartialEq, Eq, Structural)]
pub enum TaskState {
    /// The task is running.
    Running,
    /// The task is ready to run.
    Ready,
    /// The task is blocked.
    Blocked,
    /// The task is suspended.
    Suspended,
    /// The task has been deleted.
    Deleted,
    /// The handle names no task.
    Invalid,
}

/// How a notification changes the notified task's counter.
#[derive(Clone, Copy, Debug, PartialEq, Eq, Structural)]
pub enum NotifyAction {
    /// Leave the counter as it is.
    NoChange,
    /// Set bits of the counter.
    Bits,
    /// Increment the counter.
    Incr,
    /// Overwrite the counter.
    OWrite,
    /// Overwrite the counter only if it has been read.
    NoOWrite,
}

} // verus!
