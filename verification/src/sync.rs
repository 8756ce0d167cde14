//! Synchronization primitives: spin and blocking mutexes, counting
//! semaphores, and condition variables, each with an explicit FIFO wait
//! queue of task ids.
//!
//! These are pure state machines. Acquiring either succeeds at once or asks
//! the caller to suspend the task; releasing hands readiness to exactly one
//! waiter, always the earliest enqueued. The kernel layer wires the returned
//! task ids back into statuses and the ready queue.
use vstd::prelude::*;

verus! {

/// What an acquisition attempt did.
#[derive(Clone, Copy, Debug, PartialEq, Eq, Structural)]
pub enum AcquireOutcome {
    /// The resource was granted immediately.
    Acquired,
    /// The caller was appended to the wait queue and must suspend.
    Blocked,
    /// Spin mutex only: the flag is held; the caller should yield and retry.
    Retry,
}

/// A mutex: a spin variant that never queues, or a blocking variant with an
/// owner and a FIFO wait queue.
pub struct MutexState {
    /// Blocking variant? A spin mutex busy-retries and keeps no queue;
    /// starvation-prone under contention, by design.
    pub blocking: bool,
    /// The lock flag.
    pub locked: bool,
    /// Blocking variant: the task conceptually holding the lock.
    pub owner: Option<usize>,
    /// Blocking variant: tasks suspended on the lock, in arrival order.
    pub waiters: Vec<usize>,
}

/// Task `t` is in the holding state for this mutex.
pub open spec fn holds(m: MutexState, t: usize) -> bool {
    m.owner == Some(t)
}

impl MutexState {
    /// Structural soundness: a spin mutex has no owner record and no queue;
    /// a blocking mutex records an owner exactly while locked, and every
    /// queued id names one of the `ntasks` live tasks.
    pub open spec fn wf(self, ntasks: int) -> bool {
        &&& (!self.blocking ==> self.owner is None && self.waiters@.len() == 0)
        &&& (self.blocking ==> (self.locked <==> self.owner is Some))
        &&& (self.owner matches Some(t) ==> t < ntasks)
        &&& (forall|i: int| 0 <= i < self.waiters@.len() ==> #[trigger] self.waiters@[i] < ntasks)
    }

    /// A fresh, unheld mutex.
    pub fn new(blocking: bool) -> (m: Self)
        ensures
            m.wf(0),
            m.blocking == blocking,
            !m.locked,
            m.owner is None,
            m.waiters@.len() == 0,
    {
        MutexState { blocking, locked: false, owner: None, waiters: Vec::new() }
    }

    /// Attempt to take the lock for task `tid`.
    ///
    /// A free mutex is granted at once. A held blocking mutex enqueues the
    /// caller at the tail; a held spin mutex asks the caller to retry.
    pub fn acquire(&mut self, tid: usize, ntasks: usize) -> (r: AcquireOutcome)
        requires
            old(self).wf(ntasks as int),
            tid < ntasks,
        ensures
            final(self).wf(ntasks as int),
            final(self).blocking == old(self).blocking,
            !old(self).locked ==> r == AcquireOutcome::Acquired && final(self).locked
                && final(self).waiters@ == old(self).waiters@ && (old(self).blocking
                ==> final(self).owner == Some(tid)) && (!old(self).blocking
                ==> final(self).owner is None),
            old(self).locked && old(self).blocking ==> r == AcquireOutcome::Blocked
                && *final(self) == (MutexState {
                waiters: final(self).waiters,
                ..*old(self)
            }) && final(self).waiters@ == old(self).waiters@.push(tid),
            old(self).locked && !old(self).blocking ==> r == AcquireOutcome::Retry && *final(self)
                == *old(self),
    {
        if !self.locked {
            self.locked = true;
            if self.blocking {
                self.owner = Some(tid);
            }
            AcquireOutcome::Acquired
        } else if self.blocking {
            self.waiters.push(tid);
            AcquireOutcome::Blocked
        } else {
            AcquireOutcome::Retry
        }
    }

    /// Release the lock.
    ///
    /// With waiters queued, ownership transfers to the head of the queue —
    /// FIFO, the earliest enqueued — and that task id is returned so the
    /// kernel can make it ready; the woken task need not re-contend.
    /// Otherwise the flag is simply cleared.
    pub fn release(&mut self, ntasks: usize) -> (woken: Option<usize>)
        requires
            old(self).wf(ntasks as int),
        ensures
            final(self).wf(ntasks as int),
            final(self).blocking == old(self).blocking,
            old(self).blocking && old(self).waiters@.len() > 0 ==> woken == Some(
                old(self).waiters@[0],
            ) && final(self).locked && final(self).owner == Some(old(self).waiters@[0])
                && final(self).waiters@ == old(self).waiters@.remove(0),
            !(old(self).blocking && old(self).waiters@.len() > 0) ==> woken is None
                && !final(self).locked && final(self).owner is None && final(self).waiters@
                == old(self).waiters@,
            woken matches Some(t) ==> t < ntasks,
    {
        if self.blocking && self.waiters.len() > 0 {
            let head = self.waiters.remove(0);
            self.owner = Some(head);
            self.locked = true;
            Some(head)
        } else {
            self.locked = false;
            self.owner = None;
            None
        }
    }
}

/// A counting semaphore with a FIFO wait queue.
///
/// The count never goes negative: a would-be-negative decrement suspends the
/// caller instead, and the deferred decrement is settled by the matching
/// release, which passes the unit straight to the queue head.
pub struct SemaphoreState {
    /// Units currently available.
    pub count: usize,
    /// Tasks suspended on the semaphore, in arrival order.
    pub waiters: Vec<usize>,
}

impl SemaphoreState {
    /// Every queued id names a live task, and units are never idle while
    /// tasks wait.
    pub open spec fn wf(self, ntasks: int) -> bool {
        &&& (forall|i: int| 0 <= i < self.waiters@.len() ==> #[trigger] self.waiters@[i] < ntasks)
        &&& (self.waiters@.len() > 0 ==> self.count == 0)
    }

    /// A fresh semaphore holding `count` units.
    pub fn new(count: usize) -> (s: Self)
        ensures
            s.wf(0),
            s.count == count,
            s.waiters@.len() == 0,
    {
        SemaphoreState { count, waiters: Vec::new() }
    }

    /// Take one unit, or suspend: with no unit available the caller is
    /// appended to the wait queue and the decrement is deferred.
    pub fn down(&mut self, tid: usize, ntasks: usize) -> (r: AcquireOutcome)
        requires
            old(self).wf(ntasks as int),
            tid < ntasks,
        ensures
            final(self).wf(ntasks as int),
            old(self).count > 0 ==> r == AcquireOutcome::Acquired && final(self).count
                == old(self).count - 1 && final(self).waiters@ == old(self).waiters@,
            old(self).count == 0 ==> r == AcquireOutcome::Blocked && final(self).count == 0
                && final(self).waiters@ == old(self).waiters@.push(tid),
    {
        if self.count > 0 {
            self.count = self.count - 1;
            AcquireOutcome::Acquired
        } else {
            self.waiters.push(tid);
            AcquireOutcome::Blocked
        }
    }

    /// Return one unit. A queued waiter exists only while the count is zero;
    /// the unit then goes straight to the queue head — FIFO — and that task
    /// id is returned so the kernel can make it ready.
    pub fn up(&mut self, ntasks: usize) -> (woken: Option<usize>)
        requires
            old(self).wf(ntasks as int),
            old(self).waiters@.len() > 0 || old(self).count < usize::MAX,
        ensures
            final(self).wf(ntasks as int),
            old(self).waiters@.len() > 0 ==> woken == Some(old(self).waiters@[0])
                && final(self).count == old(self).count && final(self).waiters@
                == old(self).waiters@.remove(0),
            old(self).waiters@.len() == 0 ==> woken is None && final(self).count
                == old(self).count + 1 && final(self).waiters@ == old(self).waiters@,
            woken matches Some(t) ==> t < ntasks,
    {
        if self.waiters.len() > 0 {
            let head = self.waiters.remove(0);
            Some(head)
        } else {
            self.count = self.count + 1;
            None
        }
    }
}

/// A condition variable: a FIFO wait queue and nothing else. It is bound to
/// a caller-supplied mutex at wait time only.
pub struct CondvarState {
    /// Tasks suspended on the condition, in arrival order.
    pub waiters: Vec<usize>,
}

impl CondvarState {
    /// Every queued id names a live task.
    pub open spec fn wf(self, ntasks: int) -> bool {
        forall|i: int| 0 <= i < self.waiters@.len() ==> #[trigger] self.waiters@[i] < ntasks
    }

    /// A fresh condition variable with an empty queue.
    pub fn new() -> (c: Self)
        ensures
            c.wf(0),
            c.waiters@.len() == 0,
    {
        CondvarState { waiters: Vec::new() }
    }

    /// Enqueue `tid`; the caller then suspends it.
    pub fn enqueue(&mut self, tid: usize, ntasks: usize)
        requires
            old(self).wf(ntasks as int),
            tid < ntasks,
        ensures
            final(self).wf(ntasks as int),
            final(self).waiters@ == old(self).waiters@.push(tid),
    {
        self.waiters.push(tid);
    }

    /// Wake one waiter if any — always the head, FIFO; spurious wakeups are
    /// not modeled.
    pub fn signal(&mut self, ntasks: usize) -> (woken: Option<usize>)
        requires
            old(self).wf(ntasks as int),
        ensures
            final(self).wf(ntasks as int),
            old(self).waiters@.len() > 0 ==> woken == Some(old(self).waiters@[0])
                && final(self).waiters@ == old(self).waiters@.remove(0),
            old(self).waiters@.len() == 0 ==> woken is None && final(self).waiters@
                == old(self).waiters@,
            woken matches Some(t) ==> t < ntasks,
    {
        if self.waiters.len() > 0 {
            Some(self.waiters.remove(0))
        } else {
            None
        }
    }
}

/// Mutual exclusion: no two distinct tasks are ever both in the holding
/// state for the same mutex — the owner record admits one holder.
pub proof fn lemma_mutual_exclusion(m: MutexState, t1: usize, t2: usize)
    requires
        holds(m, t1),
        holds(m, t2),
    ensures
        t1 == t2,
{
}

/// The wait queue after `n` releases have each consumed its head — the
/// step every nonempty release performs, per the contracts of
/// [`MutexState::release`], [`SemaphoreState::up`] and
/// [`CondvarState::signal`].
pub open spec fn queue_after_releases(w: Seq<usize>, n: int) -> Seq<usize>
    decreases n,
{
    if n <= 0 {
        w
    } else {
        queue_after_releases(w, n - 1).remove(0)
    }
}

/// The task the `i`-th release wakes (counting from zero), starting from
/// wait queue `w`.
pub open spec fn woken_by_release(w: Seq<usize>, i: int) -> usize {
    queue_after_releases(w, i)[0]
}

/// FIFO fairness: starting from a wait queue holding `w`, across `n`
/// sequential releases the `i`-th release wakes exactly `w[i]` — tasks
/// blocked on one primitive are woken in arrival order — and the queue is
/// left holding the remainder `w.skip(n)`.
pub proof fn lemma_fifo_wake_order(w: Seq<usize>, n: int)
    requires
        0 <= n <= w.len(),
    ensures
        queue_after_releases(w, n) == w.skip(n),
        forall|i: int| 0 <= i < n ==> #[trigger] woken_by_release(w, i) == w[i],
    decreases n,
{
    if n > 0 {
        lemma_fifo_wake_order(w, n - 1);
        assert(queue_after_releases(w, n - 1).remove(0) =~= w.skip(n));
        assert(woken_by_release(w, n - 1) == w.skip(n - 1)[0]);
    }
}

} // verus!
