//! Core of a cooperative, single-core teaching kernel: a stride-based ready
//! queue, blocking synchronization primitives with FIFO wait queues, and a
//! Banker's-algorithm deadlock detector gating resource acquisition.
//!
//! The kernel-wide state lives in an explicit [`kernel::Kernel`] value with an
//! init-once lifecycle, threaded through every entry point instead of a global
//! singleton, so the scheduler, ledger and primitives are independently
//! testable. Virtual memory, context switching, timers and process loading
//! are external collaborators: the entry points here take and return plain
//! values, and the surrounding runtime drives dispatch through
//! [`kernel::fetch_task`] and [`kernel::add_task`].
use vstd::prelude::*;

pub mod stride;
pub mod task;
pub mod perms;
pub mod kernel;
pub mod sched;
pub mod banker;
pub mod sync;
pub mod ledger;

verus! {

/// Recoverable failures surfaced to the syscall layer.
///
/// None of these aborts the kernel: every entry point returns them as values.
#[derive(Clone, Copy, Debug, PartialEq, Eq, Structural)]
pub enum KernelError {
    /// The distinguished denial sentinel: the deadlock detector refused the
    /// acquisition because the resulting state would have no safe completion
    /// order. Distinct from ordinary blocking.
    UnsafeAcquisition,
    /// A mutex/semaphore/condvar id is out of range or names a freed slot.
    InvalidHandle,
    /// A priority below the minimum of 2 was requested.
    InvalidPriority,
    /// With detection enabled, a release was requested by a task whose ledger
    /// row records no allocation of that resource.
    NotOwner,
    /// A ledger counter or a deadline would exceed its machine bound.
    CapacityExceeded,
}

} // verus!
