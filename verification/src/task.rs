//! Task control blocks: scheduling metadata and lifecycle status.
use vstd::prelude::*;

verus! {

/// The minimum schedulable priority. Anything lower is rejected so the
/// stride increment `STRIDE_UNIT / priority` can neither divide by zero nor
/// grow large enough to starve low-priority tasks.
pub const MIN_PRIORITY: u64 = 2;

/// The priority a freshly spawned task starts with.
pub const DEFAULT_PRIORITY: u64 = 16;

/// Where a task stands in its life cycle.
#[derive(Clone, Copy, Debug, PartialEq, Eq, Structural)]
pub enum TaskStatus {
    /// Runnable and queued for dispatch.
    Ready,
    /// Currently dispatched.
    Running,
    /// Suspended on a wait queue or a timer deadline.
    Blocked,
    /// Exited; awaiting reaping.
    Zombie,
}

/// Scheduling metadata of one task. The task's id is its index in the
/// kernel's task table, which is also its row in the resource ledger.
#[derive(Clone, Copy, Debug, PartialEq, Eq, Structural)]
pub struct Task {
    /// Stride-scheduling weight; at least [`MIN_PRIORITY`].
    pub priority: u64,
    /// Accumulated pass value; wraps at 2^64.
    pub pass: u64,
    /// Lifecycle status.
    pub status: TaskStatus,
    /// The code the task exited with, once it is a zombie.
    pub exit_code: i32,
}

impl Task {
    /// A fresh ready task with the default priority.
    pub fn new() -> (t: Self)
        ensures
            t.priority == DEFAULT_PRIORITY,
            t.pass == 0,
            t.status == TaskStatus::Ready,
            t.exit_code == 0,
    {
        Task { priority: DEFAULT_PRIORITY, pass: 0, status: TaskStatus::Ready, exit_code: 0 }
    }
}

} // verus!
