//! The kernel core's process-wide state and its syscall-layer entry points.
//!
//! All state lives in one explicit [`Kernel`] value created once by
//! [`init`] and threaded through every call — no global singleton — so the
//! scheduler, primitives and ledger are independently testable. Callers are
//! identified by the task id they pass in; the surrounding runtime drives
//! dispatch with [`fetch_task`] and re-enqueues woken or timer-expired tasks
//! with [`add_task`].
use vstd::prelude::*;
use crate::KernelError;
use crate::banker::{is_safe, safety_check, dims_ok};
use crate::ledger::{Ledger, MUTEX_CLASS, SEMAPHORE_CLASS, CLASS_COUNT, matrix_set, avail_set};
use crate::sched::{TaskManager, ReadyEntry, coherent, entry_before};
use crate::stride::{STRIDE_UNIT, pass_advance};
use crate::sync::{AcquireOutcome, CondvarState, MutexState, SemaphoreState};
use crate::task::{Task, TaskStatus, MIN_PRIORITY, DEFAULT_PRIORITY};

verus! {

/// The process-wide kernel state.
pub struct Kernel {
    /// Task control blocks, indexed by task id; a task's id is also its
    /// ledger row.
    pub tasks: Vec<Task>,
    /// The stride-ordered ready queue.
    pub ready: TaskManager,
    /// Mutex slots; a freed (`None`) slot is reused before the table grows.
    pub mutex_list: Vec<Option<MutexState>>,
    /// Semaphore slots, reused the same way.
    pub semaphore_list: Vec<Option<SemaphoreState>>,
    /// Condition-variable slots, reused the same way.
    pub condvar_list: Vec<Option<CondvarState>>,
    /// The resource ledger the deadlock detector reads.
    pub ledger: Ledger,
    /// Whether acquisitions are gated by the Banker's-algorithm detector.
    pub enable_deadlock_detect: bool,
}

impl Kernel {
    /// Number of live tasks.
    pub open spec fn ntasks(self) -> int {
        self.tasks@.len() as int
    }

    /// Well-formedness: the ledger's shape tracks the task and slot tables,
    /// priorities respect the minimum, every primitive is structurally
    /// sound, and every queued or recorded task id names a live task.
    pub open spec fn wf(self) -> bool {
        &&& self.ledger.wf(
            self.ntasks(),
            self.mutex_list@.len() as int,
            self.semaphore_list@.len() as int,
        )
        &&& forall|t: int|
            0 <= t < self.ntasks() ==> (#[trigger] self.tasks@[t]).priority >= MIN_PRIORITY
        &&& forall|i: int|
            0 <= i < self.mutex_list@.len() ==> ((#[trigger] self.mutex_list@[i]) matches Some(m)
                ==> m.wf(self.ntasks()))
        &&& forall|i: int|
            0 <= i < self.semaphore_list@.len() ==> ((#[trigger] self.semaphore_list@[i]) matches Some(
            s) ==> s.wf(self.ntasks()))
        &&& forall|i: int|
            0 <= i < self.condvar_list@.len() ==> ((#[trigger] self.condvar_list@[i]) matches Some(c)
                ==> c.wf(self.ntasks()))
        &&& forall|i: int|
            0 <= i < self.ready.entries@.len() ==> (#[trigger] self.ready.entries@[i]).tid
                < self.ntasks()
    }
}

/// Create the kernel state: no tasks, no sync objects, an empty ledger, and
/// deadlock detection off. Called once; everything else takes the returned
/// state by reference.
pub fn init() -> (k: Kernel)
    ensures
        k.wf(),
        k.tasks@.len() == 0,
        k.ready.entries@.len() == 0,
        k.mutex_list@.len() == 0,
        k.semaphore_list@.len() == 0,
        k.condvar_list@.len() == 0,
        !k.enable_deadlock_detect,
{
    Kernel {
        tasks: Vec::new(),
        ready: TaskManager::new(),
        mutex_list: Vec::new(),
        semaphore_list: Vec::new(),
        condvar_list: Vec::new(),
        ledger: Ledger::new(),
        enable_deadlock_detect: false,
    }
}

/// The pass value task `tid` will carry after one stride advance.
pub open spec fn bumped_pass(k: Kernel, tid: int) -> u64 {
    vstd::wrapping::u64_specs::wrapping_add(
        k.tasks@[tid].pass,
        (STRIDE_UNIT / k.tasks@[tid].priority) as u64,
    )
}

/// Make task `tid` ready: advance its pass by `STRIDE_UNIT / priority` and
/// enqueue it. Every enqueue — first dispatch, yield, or wake-up — pays the
/// same stride toll, which is what keeps dispatch fair.
pub fn add_task(k: &mut Kernel, tid: usize)
    requires
        old(k).wf(),
        tid < old(k).tasks@.len(),
    ensures
        final(k).wf(),
        final(k).tasks@ == old(k).tasks@.update(
            tid as int,
            (Task {
                pass: bumped_pass(*old(k), tid as int),
                status: TaskStatus::Ready,
                ..old(k).tasks@[tid as int]
            }),
        ),
        final(k).ready.entries@ == old(k).ready.entries@.push(
            (ReadyEntry { tid, pass: bumped_pass(*old(k), tid as int) }),
        ),
        final(k).mutex_list == old(k).mutex_list,
        final(k).semaphore_list == old(k).semaphore_list,
        final(k).condvar_list == old(k).condvar_list,
        final(k).ledger == old(k).ledger,
        final(k).enable_deadlock_detect == old(k).enable_deadlock_detect,
{
    let t = k.tasks[tid];
    let inc = STRIDE_UNIT / t.priority;
    let new_pass = pass_advance(t.pass, inc);
    k.tasks[tid] = Task { pass: new_pass, status: TaskStatus::Ready, ..t };
    k.ready.add(tid, new_pass);
}

/// Dispatch: remove and return the ready task with the minimum pass value
/// (wraparound comparison, ties to the smaller id) and mark it running.
/// `None` on an empty queue is the idle case, not an error.
pub fn fetch_task(k: &mut Kernel) -> (r: Option<usize>)
    requires
        old(k).wf(),
    ensures
        final(k).wf(),
        final(k).mutex_list == old(k).mutex_list,
        final(k).semaphore_list == old(k).semaphore_list,
        final(k).condvar_list == old(k).condvar_list,
        final(k).ledger == old(k).ledger,
        final(k).enable_deadlock_detect == old(k).enable_deadlock_detect,
        match r {
            None => old(k).ready.entries@.len() == 0 && final(k).tasks == old(k).tasks
                && final(k).ready.entries@ == old(k).ready.entries@,
            Some(tid) => tid < old(k).tasks@.len() && final(k).tasks@ == old(k).tasks@.update(
                tid as int,
                (Task { status: TaskStatus::Running, ..old(k).tasks@[tid as int] }),
            ) && exists|i: int|
                0 <= i < old(k).ready.entries@.len() && (#[trigger] old(k).ready.entries@[i]).tid
                    == tid && final(k).ready.entries@ == old(k).ready.entries@.remove(i) && (
                coherent(old(k).ready.entries@) ==> forall|j: int|
                    0 <= j < old(k).ready.entries@.len() && j != i ==> !entry_before(
                        #[trigger] old(k).ready.entries@[j],
                        old(k).ready.entries@[i],
                    )),
        },
{
    let fetched = k.ready.fetch();
    match fetched {
        None => None,
        Some(e) => {
            let t = k.tasks[e.tid];
            k.tasks[e.tid] = Task { status: TaskStatus::Running, ..t };
            Some(e.tid)
        },
    }
}

/// Create a task: a fresh control block with the default priority, a zeroed
/// ledger row spanning every existing resource id, and a place in the ready
/// queue. Returns the new task's id. Loading the task's image is the
/// runtime's business; the core only registers the schedulable entity.
pub fn sys_spawn(k: &mut Kernel) -> (tid: usize)
    requires
        old(k).wf(),
    ensures
        final(k).wf(),
        tid == old(k).tasks@.len(),
        final(k).tasks@.len() == old(k).tasks@.len() + 1,
        forall|t: int| 0 <= t < old(k).tasks@.len() ==> #[trigger] final(k).tasks@[t] == old(k).tasks@[t],
        final(k).tasks@[tid as int].priority == DEFAULT_PRIORITY,
        final(k).tasks@[tid as int].status == TaskStatus::Ready,
        forall|c: int, id: int|
            0 <= c < CLASS_COUNT && 0 <= id < old(k).ledger.width(c) ==> #[trigger] final(k).ledger.alloc_at(tid as int, c, id) == 0 && final(k).ledger.need_at(tid as int, c, id)
                == 0,
        final(k).ready.entries@ == old(k).ready.entries@.push(
            (ReadyEntry { tid: (old(k).tasks@.len() as usize), pass: final(k).tasks@[tid as int].pass }),
        ),
        final(k).mutex_list == old(k).mutex_list,
        final(k).semaphore_list == old(k).semaphore_list,
        final(k).condvar_list == old(k).condvar_list,
        final(k).enable_deadlock_detect == old(k).enable_deadlock_detect,
{
    let ghost init = *k;
    let tid = k.tasks.len();
    let n_mutex = k.mutex_list.len();
    let n_sem = k.semaphore_list.len();
    k.tasks.push(Task::new());
    let ntasks_old = tid;
    k.ledger.add_row(ntasks_old, n_mutex, n_sem);
    proof {
        assert forall|i: int|
            0 <= i < k.mutex_list@.len() implies ((#[trigger] k.mutex_list@[i]) matches Some(m)
            ==> m.wf(k.ntasks())) by {
            assert(init.mutex_list@[i] matches Some(m) ==> m.wf(init.ntasks()));
            assert(k.mutex_list@[i] == init.mutex_list@[i]);
        }
        assert forall|i: int|
            0 <= i < k.semaphore_list@.len() implies ((#[trigger] k.semaphore_list@[i]) matches Some(
            s) ==> s.wf(k.ntasks())) by {
            assert(init.semaphore_list@[i] matches Some(s) ==> s.wf(init.ntasks()));
            assert(k.semaphore_list@[i] == init.semaphore_list@[i]);
        }
        assert forall|i: int|
            0 <= i < k.condvar_list@.len() implies ((#[trigger] k.condvar_list@[i]) matches Some(c)
            ==> c.wf(k.ntasks())) by {
            assert(init.condvar_list@[i] matches Some(c) ==> c.wf(init.ntasks()));
            assert(k.condvar_list@[i] == init.condvar_list@[i]);
        }
        assert(k.wf());
    }
    add_task(k, tid);
    tid
}

/// The task exits: it becomes a zombie carrying `exit_code` and is never
/// dispatched again; reaping is the parent's business, outside the core.
pub fn sys_exit(k: &mut Kernel, tid: usize, exit_code: i32)
    requires
        old(k).wf(),
        tid < old(k).tasks@.len(),
    ensures
        final(k).wf(),
        final(k).tasks@ == old(k).tasks@.update(
            tid as int,
            (Task { status: TaskStatus::Zombie, exit_code, ..old(k).tasks@[tid as int] }),
        ),
        final(k).ready == old(k).ready,
        final(k).mutex_list == old(k).mutex_list,
        final(k).semaphore_list == old(k).semaphore_list,
        final(k).condvar_list == old(k).condvar_list,
        final(k).ledger == old(k).ledger,
        final(k).enable_deadlock_detect == old(k).enable_deadlock_detect,
{
    let t = k.tasks[tid];
    k.tasks[tid] = Task { status: TaskStatus::Zombie, exit_code, ..t };
}

/// The task gives the core up: it goes back to the ready queue (paying the
/// stride toll) and the dispatcher picks again.
pub fn sys_yield(k: &mut Kernel, tid: usize) -> (r: isize)
    requires
        old(k).wf(),
        tid < old(k).tasks@.len(),
    ensures
        final(k).wf(),
        r == 0,
        final(k).tasks@ == old(k).tasks@.update(
            tid as int,
            (Task {
                pass: bumped_pass(*old(k), tid as int),
                status: TaskStatus::Ready,
                ..old(k).tasks@[tid as int]
            }),
        ),
        final(k).ready.entries@ == old(k).ready.entries@.push(
            (ReadyEntry { tid, pass: bumped_pass(*old(k), tid as int) }),
        ),
        final(k).mutex_list == old(k).mutex_list,
        final(k).semaphore_list == old(k).semaphore_list,
        final(k).condvar_list == old(k).condvar_list,
        final(k).ledger == old(k).ledger,
        final(k).enable_deadlock_detect == old(k).enable_deadlock_detect,
{
    add_task(k, tid);
    0
}

/// A task's id, which doubles as its process-visible identity here.
pub fn sys_getpid(k: &Kernel, tid: usize) -> (r: usize)
    requires
        tid < k.tasks@.len(),
    ensures
        r == tid,
{
    tid
}

/// Set the calling task's priority. Anything below the minimum of 2 is
/// rejected — a smaller value would make the stride increment degenerate —
/// and leaves the state untouched.
pub fn sys_set_priority(k: &mut Kernel, tid: usize, prio: isize) -> (r: Result<isize, KernelError>)
    requires
        old(k).wf(),
        tid < old(k).tasks@.len(),
    ensures
        final(k).wf(),
        prio >= MIN_PRIORITY ==> r == Ok::<isize, KernelError>(prio) && final(k).tasks@ == old(k).tasks@.update(
            tid as int,
            (Task { priority: prio as u64, ..old(k).tasks@[tid as int] }),
        ),
        prio < MIN_PRIORITY ==> r == Err::<isize, KernelError>(KernelError::InvalidPriority)
            && *final(k) == *old(k),
        final(k).ready == old(k).ready,
        final(k).mutex_list == old(k).mutex_list,
        final(k).semaphore_list == old(k).semaphore_list,
        final(k).condvar_list == old(k).condvar_list,
        final(k).ledger == old(k).ledger,
        final(k).enable_deadlock_detect == old(k).enable_deadlock_detect,
{
    if prio >= 2 {
        let t = k.tasks[tid];
        k.tasks[tid] = Task { priority: prio as u64, ..t };
        Ok(prio)
    } else {
        Err(KernelError::InvalidPriority)
    }
}

/// Put the task to sleep until `now_ms + ms`: it blocks now, and the
/// returned deadline is handed to the external timer facility, which later
/// re-enqueues the task through [`add_task`] — the scheduler does not care
/// why a task became ready. A deadline beyond the machine's range is
/// refused untouched.
pub fn sys_sleep(k: &mut Kernel, tid: usize, now_ms: usize, ms: usize) -> (r: Result<
    usize,
    KernelError,
>)
    requires
        old(k).wf(),
        tid < old(k).tasks@.len(),
    ensures
        final(k).wf(),
        now_ms + ms <= usize::MAX ==> r == Ok::<usize, KernelError>((now_ms + ms) as usize)
            && final(k).tasks@ == old(k).tasks@.update(
            tid as int,
            (Task { status: TaskStatus::Blocked, ..old(k).tasks@[tid as int] }),
        ),
        now_ms + ms > usize::MAX ==> r == Err::<usize, KernelError>(KernelError::CapacityExceeded)
            && *final(k) == *old(k),
        final(k).ready == old(k).ready,
        final(k).mutex_list == old(k).mutex_list,
        final(k).semaphore_list == old(k).semaphore_list,
        final(k).condvar_list == old(k).condvar_list,
        final(k).ledger == old(k).ledger,
        final(k).enable_deadlock_detect == old(k).enable_deadlock_detect,
{
    if ms > usize::MAX - now_ms {
        return Err(KernelError::CapacityExceeded);
    }
    let deadline = now_ms + ms;
    let t = k.tasks[tid];
    k.tasks[tid] = Task { status: TaskStatus::Blocked, ..t };
    Ok(deadline)
}

} // verus!

verus! {

/// Slot `i` is the first free slot of the table.
pub open spec fn is_first_none<T>(s: Seq<Option<T>>, i: int) -> bool {
    0 <= i < s.len() && s[i] is None && forall|j: int| 0 <= j < i ==> (#[trigger] s[j]) is Some
}

/// Find the first free slot, if any.
fn first_none<T>(v: &Vec<Option<T>>) -> (r: Option<usize>)
    ensures
        match r {
            Some(i) => is_first_none(v@, i as int),
            None => forall|j: int| 0 <= j < v@.len() ==> (#[trigger] v@[j]) is Some,
        },
{
    let mut i: usize = 0;
    while i < v.len()
        invariant
            0 <= i <= v@.len(),
            forall|j: int| 0 <= j < i ==> (#[trigger] v@[j]) is Some,
        decreases v@.len() - i,
    {
        if v[i].is_none() {
            return Some(i);
        }
        i = i + 1;
    }
    None
}

/// The two ledgers agree on every cell except column `(c, id)`, and have
/// the same shape.
pub open spec fn ledger_unchanged_except_column(l1: Ledger, l2: Ledger, c: int, id: int, ntasks: int) -> bool {
    &&& forall|c2: int| 0 <= c2 < CLASS_COUNT ==> #[trigger] l2.width(c2) == l1.width(c2)
    &&& forall|t: int, c2: int, id2: int|
        0 <= t < ntasks && 0 <= c2 < CLASS_COUNT && 0 <= id2 < l1.width(c2) && !(c2 == c && id2
            == id) ==> #[trigger] l2.alloc_at(t, c2, id2) == l1.alloc_at(t, c2, id2)
            && l2.need_at(t, c2, id2) == l1.need_at(t, c2, id2)
    &&& forall|c2: int, id2: int|
        0 <= c2 < CLASS_COUNT && 0 <= id2 < l1.width(c2) && !(c2 == c && id2 == id)
            ==> #[trigger] l2.avail_at(c2, id2) == l1.avail_at(c2, id2)
}

/// Column `(c, id)` holds a fresh resource: no task holds or needs it, and
/// `avail_v` units are available.
pub open spec fn column_is_fresh(l: Ledger, c: int, id: int, avail_v: usize, ntasks: int) -> bool {
    &&& forall|t: int| 0 <= t < ntasks ==> #[trigger] l.alloc_at(t, c, id) == 0 && l.need_at(
        t,
        c,
        id,
    ) == 0
    &&& l.avail_at(c, id) == avail_v
}

/// Create a mutex — spin when `blocking` is false — and return its id. A
/// freed slot is always reused before the table grows; either way the id's
/// ledger column is reset: nobody holds or needs it and one unit is
/// available.
pub fn sys_mutex_create(k: &mut Kernel, blocking: bool) -> (r: usize)
    requires
        old(k).wf(),
    ensures
        final(k).wf(),
        r < final(k).mutex_list@.len(),
        final(k).mutex_list@[r as int] matches Some(m) && m.blocking == blocking && !m.locked
            && m.owner is None && m.waiters@.len() == 0,
        (exists|i: int| is_first_none(old(k).mutex_list@, i)) ==> is_first_none(
            old(k).mutex_list@,
            r as int,
        ) && final(k).mutex_list@.len() == old(k).mutex_list@.len() && (forall|j: int|
            0 <= j < old(k).mutex_list@.len() && j != r ==> #[trigger] final(k).mutex_list@[j]
                == old(k).mutex_list@[j]) && ledger_unchanged_except_column(
            old(k).ledger,
            final(k).ledger,
            MUTEX_CLASS as int,
            r as int,
            old(k).ntasks(),
        ),
        !(exists|i: int| is_first_none(old(k).mutex_list@, i)) ==> r == old(k).mutex_list@.len()
            && final(k).mutex_list@.len() == old(k).mutex_list@.len() + 1 && (forall|j: int|
            0 <= j < old(k).mutex_list@.len() ==> #[trigger] final(k).mutex_list@[j] == old(k).mutex_list@[j]) && final(k).ledger.width(MUTEX_CLASS as int) == old(k).ledger.width(
            MUTEX_CLASS as int,
        ) + 1 && (forall|t: int, c2: int, id2: int|
            0 <= t < old(k).ntasks() && 0 <= c2 < CLASS_COUNT && 0 <= id2 < old(k).ledger.width(c2)
                ==> #[trigger] final(k).ledger.alloc_at(t, c2, id2) == old(k).ledger.alloc_at(
                t,
                c2,
                id2,
            ) && final(k).ledger.need_at(t, c2, id2) == old(k).ledger.need_at(t, c2, id2)) && (
        forall|c2: int, id2: int|
            0 <= c2 < CLASS_COUNT && 0 <= id2 < old(k).ledger.width(c2) ==> #[trigger] final(k).ledger.avail_at(c2, id2) == old(k).ledger.avail_at(c2, id2)),
        column_is_fresh(final(k).ledger, MUTEX_CLASS as int, r as int, 1, old(k).ntasks()),
        final(k).tasks == old(k).tasks,
        final(k).ready == old(k).ready,
        final(k).semaphore_list == old(k).semaphore_list,
        final(k).condvar_list == old(k).condvar_list,
        final(k).enable_deadlock_detect == old(k).enable_deadlock_detect,
{
    let ntasks = k.tasks.len();
    let n_mutex = k.mutex_list.len();
    let n_sem = k.semaphore_list.len();
    let slot = first_none(&k.mutex_list);
    match slot {
        Some(id) => {
            k.mutex_list[id] = Some(MutexState::new(blocking));
            k.ledger.reset_column(MUTEX_CLASS, id, 1, ntasks, n_mutex, n_sem);
            id
        },
        None => {
            k.mutex_list.push(Some(MutexState::new(blocking)));
            k.ledger.push_column(MUTEX_CLASS, 1, ntasks, n_mutex, n_sem);
            n_mutex
        },
    }
}

/// Create a counting semaphore holding `res_count` units and return its id.
/// Slot reuse and the ledger column reset work as for mutexes, with the
/// column's available count seeded to `res_count`.
pub fn sys_semaphore_create(k: &mut Kernel, res_count: usize) -> (r: usize)
    requires
        old(k).wf(),
    ensures
        final(k).wf(),
        r < final(k).semaphore_list@.len(),
        final(k).semaphore_list@[r as int] matches Some(s) && s.count == res_count
            && s.waiters@.len() == 0,
        (exists|i: int| is_first_none(old(k).semaphore_list@, i)) ==> is_first_none(
            old(k).semaphore_list@,
            r as int,
        ) && final(k).semaphore_list@.len() == old(k).semaphore_list@.len() && (forall|j: int|
            0 <= j < old(k).semaphore_list@.len() && j != r ==> #[trigger] final(k).semaphore_list@[j] == old(k).semaphore_list@[j]) && ledger_unchanged_except_column(
            old(k).ledger,
            final(k).ledger,
            SEMAPHORE_CLASS as int,
            r as int,
            old(k).ntasks(),
        ),
        !(exists|i: int| is_first_none(old(k).semaphore_list@, i)) ==> r == old(k).semaphore_list@.len() && final(k).semaphore_list@.len() == old(k).semaphore_list@.len()
            + 1 && (forall|j: int|
            0 <= j < old(k).semaphore_list@.len() ==> #[trigger] final(k).semaphore_list@[j] == old(k).semaphore_list@[j]) && final(k).ledger.width(SEMAPHORE_CLASS as int) == old(k).ledger.width(SEMAPHORE_CLASS as int) + 1 && (forall|t: int, c2: int, id2: int|
            0 <= t < old(k).ntasks() && 0 <= c2 < CLASS_COUNT && 0 <= id2 < old(k).ledger.width(c2)
                ==> #[trigger] final(k).ledger.alloc_at(t, c2, id2) == old(k).ledger.alloc_at(
                t,
                c2,
                id2,
            ) && final(k).ledger.need_at(t, c2, id2) == old(k).ledger.need_at(t, c2, id2)) && (
        forall|c2: int, id2: int|
            0 <= c2 < CLASS_COUNT && 0 <= id2 < old(k).ledger.width(c2) ==> #[trigger] final(k).ledger.avail_at(c2, id2) == old(k).ledger.avail_at(c2, id2)),
        column_is_fresh(final(k).ledger, SEMAPHORE_CLASS as int, r as int, res_count, old(k).ntasks()),
        final(k).tasks == old(k).tasks,
        final(k).ready == old(k).ready,
        final(k).mutex_list == old(k).mutex_list,
        final(k).condvar_list == old(k).condvar_list,
        final(k).enable_deadlock_detect == old(k).enable_deadlock_detect,
{
    let ntasks = k.tasks.len();
    let n_mutex = k.mutex_list.len();
    let n_sem = k.semaphore_list.len();
    let slot = first_none(&k.semaphore_list);
    match slot {
        Some(id) => {
            k.semaphore_list[id] = Some(SemaphoreState::new(res_count));
            k.ledger.reset_column(SEMAPHORE_CLASS, id, res_count, ntasks, n_mutex, n_sem);
            id
        },
        None => {
            k.semaphore_list.push(Some(SemaphoreState::new(res_count)));
            k.ledger.push_column(SEMAPHORE_CLASS, res_count, ntasks, n_mutex, n_sem);
            n_sem
        },
    }
}

/// Create a condition variable and return its id. Slots are reused as for
/// the other primitives; condition variables have no ledger column.
pub fn sys_condvar_create(k: &mut Kernel) -> (r: usize)
    requires
        old(k).wf(),
    ensures
        final(k).wf(),
        r < final(k).condvar_list@.len(),
        final(k).condvar_list@[r as int] matches Some(c) && c.waiters@.len() == 0,
        (exists|i: int| is_first_none(old(k).condvar_list@, i)) ==> is_first_none(
            old(k).condvar_list@,
            r as int,
        ) && final(k).condvar_list@.len() == old(k).condvar_list@.len() && (forall|j: int|
            0 <= j < old(k).condvar_list@.len() && j != r ==> #[trigger] final(k).condvar_list@[j]
                == old(k).condvar_list@[j]),
        !(exists|i: int| is_first_none(old(k).condvar_list@, i)) ==> r == old(k).condvar_list@.len() && final(k).condvar_list@.len() == old(k).condvar_list@.len() + 1 && (
        forall|j: int|
            0 <= j < old(k).condvar_list@.len() ==> #[trigger] final(k).condvar_list@[j] == old(k).condvar_list@[j]),
        final(k).tasks == old(k).tasks,
        final(k).ready == old(k).ready,
        final(k).mutex_list == old(k).mutex_list,
        final(k).semaphore_list == old(k).semaphore_list,
        final(k).ledger == old(k).ledger,
        final(k).enable_deadlock_detect == old(k).enable_deadlock_detect,
{
    let slot = first_none(&k.condvar_list);
    match slot {
        Some(id) => {
            k.condvar_list[id] = Some(CondvarState::new());
            id
        },
        None => {
            let n = k.condvar_list.len();
            k.condvar_list.push(Some(CondvarState::new()));
            n
        },
    }
}

} // verus!

verus! {

/// Mutex id `id` names a live slot.
pub open spec fn mutex_slot_valid(k: Kernel, id: int) -> bool {
    0 <= id < k.mutex_list@.len() && k.mutex_list@[id] is Some
}

/// Semaphore id `id` names a live slot.
pub open spec fn sem_slot_valid(k: Kernel, id: int) -> bool {
    0 <= id < k.semaphore_list@.len() && k.semaphore_list@[id] is Some
}

/// Condvar id `id` names a live slot.
pub open spec fn condvar_slot_valid(k: Kernel, id: int) -> bool {
    0 <= id < k.condvar_list@.len() && k.condvar_list@[id] is Some
}

/// The need matrix of class `c` after task `tid` declares one more unit of
/// demand on id `id` — the speculative increment the detector judges.
pub open spec fn bumped_need(l: Ledger, t: int, c: int, id: int) -> Seq<Seq<usize>> {
    l.need_class(c).update(t, l.need_class(c)[t].update(id, ((l.need_at(t, c, id) + 1) as usize)))
}

/// Would granting `tid` one more unit of `(c, id)` leave the ledger safe?
pub open spec fn grant_is_safe(k: Kernel, tid: int, c: int, id: int) -> bool {
    is_safe(bumped_need(k.ledger, tid, c, id), k.ledger.alloc_class(c), k.ledger.available@[c]@)
}

/// The need and allocation counters `tid` holds on `(c, id)` can still grow.
pub open spec fn counters_ok(k: Kernel, tid: int, c: int, id: int) -> bool {
    k.ledger.need_at(tid, c, id) < usize::MAX && k.ledger.alloc_at(tid, c, id) < usize::MAX
}

/// How one acquisition changed a mutex.
pub open spec fn acquire_step(m1: MutexState, m2: MutexState, tid: usize, out: AcquireOutcome) -> bool {
    &&& m2.blocking == m1.blocking
    &&& (!m1.locked ==> out == AcquireOutcome::Acquired && m2.locked && m2.waiters@ == m1.waiters@
        && (m1.blocking ==> m2.owner == Some(tid)) && (!m1.blocking ==> m2.owner is None))
    &&& (m1.locked && m1.blocking ==> out == AcquireOutcome::Blocked && m2.locked && m2.owner
        == m1.owner && m2.waiters@ == m1.waiters@.push(tid))
    &&& (m1.locked && !m1.blocking ==> out == AcquireOutcome::Retry && m2 == m1)
}

/// How one release changed a mutex: FIFO hand-off to the queue head, or a
/// plain clear.
pub open spec fn release_step(m1: MutexState, m2: MutexState, woken: Option<usize>) -> bool {
    &&& m2.blocking == m1.blocking
    &&& (m1.blocking && m1.waiters@.len() > 0 ==> woken == Some(m1.waiters@[0]) && m2.locked
        && m2.owner == Some(m1.waiters@[0]) && m2.waiters@ == m1.waiters@.remove(0))
    &&& (!(m1.blocking && m1.waiters@.len() > 0) ==> woken is None && !m2.locked && m2.owner is None
        && m2.waiters@ == m1.waiters@)
}

/// The class-`c` matrices and available vector have the shapes the detector
/// expects.
proof fn lemma_class_dims(l: Ledger, c: int, ntasks: int, nm: int, ns: int)
    requires
        l.wf(ntasks, nm, ns),
        0 <= c < CLASS_COUNT,
    ensures
        l.need_class(c).len() == ntasks,
        l.alloc_class(c).len() == ntasks,
        forall|t: int| 0 <= t < ntasks ==> (#[trigger] l.need_class(c)[t]).len() == l.width(c),
        forall|t: int| 0 <= t < ntasks ==> (#[trigger] l.alloc_class(c)[t]).len() == l.width(c),
{
    assert forall|t: int| 0 <= t < ntasks implies (#[trigger] l.need_class(c)[t]).len() == l.width(
        c,
    ) by {
        assert(l.need_class(c)[t] == l.need@[t]@[c]@);
        assert((l.need@[t]@[c])@.len() == l.available@[c]@.len());
    }
    assert forall|t: int| 0 <= t < ntasks implies (#[trigger] l.alloc_class(c)[t]).len()
        == l.width(c) by {
        assert(l.alloc_class(c)[t] == l.allocation@[t]@[c]@);
        assert((l.allocation@[t]@[c])@.len() == l.available@[c]@.len());
    }
}

/// Copy the class-`c` need matrix with `tid`'s demand on `id` bumped by one.
fn bumped_need_matrix(l: &Ledger, tid: usize, c: usize, id: usize, ntasks: usize, n_mutex: usize, n_sem: usize) -> (r: Vec<Vec<usize>>)
    requires
        l.wf(ntasks as int, n_mutex as int, n_sem as int),
        tid < ntasks,
        c < CLASS_COUNT,
        id < l.width(c as int),
        l.need_at(tid as int, c as int, id as int) < usize::MAX,
    ensures
        r.deep_view() == bumped_need(*l, tid as int, c as int, id as int),
        r@.len() == ntasks,
        forall|t: int| 0 <= t < ntasks ==> (#[trigger] r@[t])@.len() == l.width(c as int),
    {
    proof {
        lemma_class_dims(*l, c as int, ntasks as int, n_mutex as int, n_sem as int);
    }
    let mut m = l.need_matrix(c, ntasks);
    let ghost m0 = m.deep_view();
    proof {
        assert(m@[tid as int]@ == l.need@[tid as int]@[c as int]@);
        assert(m0[tid as int].len() == l.width(c as int));
    }
    let cur = m[tid][id];
    m[tid][id] = cur + 1;
    proof {
        assert forall|t: int| 0 <= t < ntasks implies #[trigger] m.deep_view()[t] == bumped_need(
            *l,
            tid as int,
            c as int,
            id as int,
        )[t] by {
            if t == tid {
                assert(m@[t]@ == m0[t].update(id as int, (cur + 1) as usize));
                assert(m.deep_view()[t] =~= m@[t]@);
            } else {
                assert(m@[t]@ == l.need@[t]@[c as int]@);
                assert(m.deep_view()[t] =~= m@[t]@);
            }
        }
        assert(m.deep_view() =~= bumped_need(*l, tid as int, c as int, id as int));
    }
    m
}

} // verus!

verus! {

/// Acquire mutex `mutex_id` for task `tid`.
///
/// An out-of-range or freed id is refused. With detection enabled, the
/// attempt first declares one more unit of demand and runs the Banker's
/// safety check on the mutex class: an unsafe state returns the
/// distinguished [`KernelError::UnsafeAcquisition`] sentinel with the whole
/// kernel state — ledger included — exactly as it was. A safe state is
/// committed (one unit moves from available to `tid`'s allocation) when a
/// unit is available. With nothing available the primitive decides: a
/// caller it enqueues (blocking variant) keeps its declared demand on the
/// books while it waits — safety certifies eventual availability, not
/// immediate availability — and the demand is settled when a release hands
/// the unit over; a caller asked to retry (spin variant) leaves no trace.
pub fn sys_mutex_lock(k: &mut Kernel, tid: usize, mutex_id: usize) -> (r: Result<
    AcquireOutcome,
    KernelError,
>)
    requires
        old(k).wf(),
        tid < old(k).tasks@.len(),
    ensures
        final(k).wf(),
        r is Err ==> *final(k) == *old(k),
        r is Err ==> r == Err::<AcquireOutcome, KernelError>(KernelError::InvalidHandle) || r
            == Err::<AcquireOutcome, KernelError>(KernelError::CapacityExceeded) || r == Err::<
            AcquireOutcome,
            KernelError,
        >(KernelError::UnsafeAcquisition),
        r == Err::<AcquireOutcome, KernelError>(KernelError::InvalidHandle) <==> !mutex_slot_valid(
            *old(k),
            mutex_id as int,
        ),
        r == Err::<AcquireOutcome, KernelError>(KernelError::CapacityExceeded) <==> (
        mutex_slot_valid(*old(k), mutex_id as int) && old(k).enable_deadlock_detect && !counters_ok(
            *old(k),
            tid as int,
            MUTEX_CLASS as int,
            mutex_id as int,
        )),
        r == Err::<AcquireOutcome, KernelError>(KernelError::UnsafeAcquisition) <==> (
        mutex_slot_valid(*old(k), mutex_id as int) && old(k).enable_deadlock_detect && counters_ok(
            *old(k),
            tid as int,
            MUTEX_CLASS as int,
            mutex_id as int,
        ) && !grant_is_safe(*old(k), tid as int, MUTEX_CLASS as int, mutex_id as int)),
        r matches Ok(out) ==> ({
            let m1 = old(k).mutex_list@[mutex_id as int]->0;
            &&& mutex_slot_valid(*old(k), mutex_id as int)
            &&& final(k).mutex_list@.len() == old(k).mutex_list@.len()
            &&& forall|j: int|
                0 <= j < old(k).mutex_list@.len() && j != mutex_id ==> #[trigger] final(k).mutex_list@[j] == old(k).mutex_list@[j]
            &&& final(k).mutex_list@[mutex_id as int] is Some
            &&& acquire_step(m1, final(k).mutex_list@[mutex_id as int]->0, tid, out)
            &&& (out == AcquireOutcome::Blocked ==> final(k).tasks@ == old(k).tasks@.update(
                tid as int,
                (Task { status: TaskStatus::Blocked, ..old(k).tasks@[tid as int] }),
            ))
            &&& (out != AcquireOutcome::Blocked ==> final(k).tasks == old(k).tasks)
            &&& final(k).ready == old(k).ready
            &&& final(k).semaphore_list == old(k).semaphore_list
            &&& final(k).condvar_list == old(k).condvar_list
            &&& final(k).enable_deadlock_detect == old(k).enable_deadlock_detect
            &&& (!old(k).enable_deadlock_detect ==> final(k).ledger == old(k).ledger)
            &&& (old(k).enable_deadlock_detect ==> grant_is_safe(
                *old(k),
                tid as int,
                MUTEX_CLASS as int,
                mutex_id as int,
            ))
            &&& (old(k).enable_deadlock_detect && old(k).ledger.avail_at(
                MUTEX_CLASS as int,
                mutex_id as int,
            ) > 0 ==> ledger_commit_grant(
                old(k).ledger,
                final(k).ledger,
                tid as int,
                MUTEX_CLASS as int,
                mutex_id as int,
                old(k).ntasks(),
            ))
            &&& (old(k).enable_deadlock_detect && old(k).ledger.avail_at(
                MUTEX_CLASS as int,
                mutex_id as int,
            ) == 0 && out == AcquireOutcome::Blocked ==> ledger_keep_demand(
                old(k).ledger,
                final(k).ledger,
                tid as int,
                MUTEX_CLASS as int,
                mutex_id as int,
                old(k).ntasks(),
            ))
            &&& (old(k).enable_deadlock_detect && old(k).ledger.avail_at(
                MUTEX_CLASS as int,
                mutex_id as int,
            ) == 0 && out != AcquireOutcome::Blocked ==> final(k).ledger == old(k).ledger)
        }),
{
    let ghost init = *k;
    let ntasks = k.tasks.len();
    let n_mutex = k.mutex_list.len();
    let n_sem = k.semaphore_list.len();
    if mutex_id >= n_mutex {
        return Err(KernelError::InvalidHandle);
    }
    if k.mutex_list[mutex_id].is_none() {
        return Err(KernelError::InvalidHandle);
    }
    let mut needv: usize = 0;
    let mut availv: usize = 0;
    if k.enable_deadlock_detect {
        needv = k.ledger.get_need(tid, MUTEX_CLASS, mutex_id);
        let allocv = k.ledger.get_alloc(tid, MUTEX_CLASS, mutex_id);
        if needv == usize::MAX || allocv == usize::MAX {
            return Err(KernelError::CapacityExceeded);
        }
        let need_m = bumped_need_matrix(&k.ledger, tid, MUTEX_CLASS, mutex_id, ntasks, n_mutex, n_sem);
        let alloc_m = k.ledger.alloc_matrix(MUTEX_CLASS, ntasks);
        let avail_v = k.ledger.avail_vector(MUTEX_CLASS);
        proof {
            lemma_class_dims(k.ledger, MUTEX_CLASS as int, ntasks as int, n_mutex as int, n_sem as int);
            assert forall|t: int| 0 <= t < ntasks implies (#[trigger] alloc_m.deep_view()[t]).len()
                == avail_v@.len() by {
                assert(alloc_m.deep_view()[t] =~= alloc_m@[t]@);
            }
            assert forall|t: int| 0 <= t < ntasks implies (#[trigger] need_m.deep_view()[t]).len()
                == avail_v@.len() by {
                assert(need_m.deep_view()[t] =~= need_m@[t]@);
            }
            assert(dims_ok(
                need_m.deep_view(),
                alloc_m.deep_view(),
                avail_v@,
                ntasks as int,
                avail_v@.len() as int,
            ));
        }
        let safe = safety_check(&need_m, &alloc_m, &avail_v);
        if !safe {
            return Err(KernelError::UnsafeAcquisition);
        }
        availv = k.ledger.get_avail(MUTEX_CLASS, mutex_id);
        if availv > 0 {
            let ghost led0 = k.ledger;
            k.ledger.set_alloc(tid, MUTEX_CLASS, mutex_id, allocv + 1, ntasks, n_mutex, n_sem);
            let ghost led1 = k.ledger;
            k.ledger.set_avail(MUTEX_CLASS, mutex_id, availv - 1, ntasks, n_mutex, n_sem);
            proof {
                assert forall|t2: int, c2: int, id2: int|
                    0 <= t2 < ntasks && 0 <= c2 < CLASS_COUNT && 0 <= id2 < led0.width(c2) && !(t2
                        == tid && c2 == MUTEX_CLASS && id2 == mutex_id) implies #[trigger] k.ledger.alloc_at(
                    t2,
                    c2,
                    id2,
                ) == init.ledger.alloc_at(t2, c2, id2) by {
                    assert(led1.alloc_at(t2, c2, id2) == led0.alloc_at(t2, c2, id2));
                    assert(k.ledger.allocation == led1.allocation);
                }
                assert(ledger_commit_grant(
                    init.ledger,
                    k.ledger,
                    tid as int,
                    MUTEX_CLASS as int,
                    mutex_id as int,
                    ntasks as int,
                ));
            }
        }
    }
    let ghost led_done = k.ledger;
    let out;
    match &mut k.mutex_list[mutex_id] {
        Some(m) => {
            out = m.acquire(tid, ntasks);
        },
        None => {
            proof {
                assert(false);
            }
            out = AcquireOutcome::Retry;
        },
    }
    if out == AcquireOutcome::Blocked {
        let t = k.tasks[tid];
        k.tasks[tid] = Task { status: TaskStatus::Blocked, ..t };
    }
    // the declared demand stays on the books only while the task actually
    // waits; an attempt that was not enqueued leaves no trace
    if k.enable_deadlock_detect && availv == 0 && out == AcquireOutcome::Blocked {
        k.ledger.set_need(tid, MUTEX_CLASS, mutex_id, needv + 1, ntasks, n_mutex, n_sem);
        proof {
            assert(ledger_keep_demand(
                init.ledger,
                k.ledger,
                tid as int,
                MUTEX_CLASS as int,
                mutex_id as int,
                ntasks as int,
            ));
        }
    }
    proof {
        if init.enable_deadlock_detect && init.ledger.avail_at(MUTEX_CLASS as int, mutex_id as int)
            > 0 {
            assert(k.ledger == led_done);
            assert(ledger_commit_grant(
                init.ledger,
                led_done,
                tid as int,
                MUTEX_CLASS as int,
                mutex_id as int,
                ntasks as int,
            ));
            assert forall|t2: int, c2: int, id2: int|
                0 <= t2 < ntasks && 0 <= c2 < CLASS_COUNT && 0 <= id2 < init.ledger.width(c2)
                    && !(t2 == tid && c2 == MUTEX_CLASS && id2 == mutex_id)
                    implies #[trigger] k.ledger.alloc_at(t2, c2, id2) == init.ledger.alloc_at(
                t2,
                c2,
                id2,
            ) by {
                assert(led_done.alloc_at(t2, c2, id2) == init.ledger.alloc_at(t2, c2, id2));
            }
            assert forall|c2: int, id2: int|
                0 <= c2 < CLASS_COUNT && 0 <= id2 < init.ledger.width(c2) && !(c2 == MUTEX_CLASS
                    && id2 == mutex_id) implies #[trigger] k.ledger.avail_at(c2, id2)
                == init.ledger.avail_at(c2, id2) by {
                assert(led_done.avail_at(c2, id2) == init.ledger.avail_at(c2, id2));
            }
        }
        if init.enable_deadlock_detect && init.ledger.avail_at(MUTEX_CLASS as int, mutex_id as int)
            == 0 && out != AcquireOutcome::Blocked {
            assert(k.ledger == init.ledger);
        }
    }
    Ok(out)
}

/// After a committed grant, one unit has moved from the column's available
/// count to `tid`'s allocation; the declared demand is settled and nothing
/// else moved.
pub open spec fn ledger_commit_grant(l1: Ledger, l2: Ledger, tid: int, c: int, id: int, ntasks: int) -> bool {
    &&& forall|c2: int| 0 <= c2 < CLASS_COUNT ==> #[trigger] l2.width(c2) == l1.width(c2)
    &&& l2.alloc_at(tid, c, id) == l1.alloc_at(tid, c, id) + 1
    &&& l2.avail_at(c, id) == l1.avail_at(c, id) - 1
    &&& l2.need == l1.need
    &&& forall|t2: int, c2: int, id2: int|
        0 <= t2 < ntasks && 0 <= c2 < CLASS_COUNT && 0 <= id2 < l1.width(c2) && !(t2 == tid && c2
            == c && id2 == id) ==> #[trigger] l2.alloc_at(t2, c2, id2) == l1.alloc_at(t2, c2, id2)
    &&& forall|c2: int, id2: int|
        0 <= c2 < CLASS_COUNT && 0 <= id2 < l1.width(c2) && !(c2 == c && id2 == id)
            ==> #[trigger] l2.avail_at(c2, id2) == l1.avail_at(c2, id2)
}

/// A safe grant with nothing available yet: the declared demand stays on
/// the books while the task waits; nothing else moved.
pub open spec fn ledger_keep_demand(l1: Ledger, l2: Ledger, tid: int, c: int, id: int, ntasks: int) -> bool {
    &&& forall|c2: int| 0 <= c2 < CLASS_COUNT ==> #[trigger] l2.width(c2) == l1.width(c2)
    &&& l2.need_at(tid, c, id) == l1.need_at(tid, c, id) + 1
    &&& l2.allocation == l1.allocation
    &&& l2.available == l1.available
    &&& forall|t2: int, c2: int, id2: int|
        0 <= t2 < ntasks && 0 <= c2 < CLASS_COUNT && 0 <= id2 < l1.width(c2) && !(t2 == tid && c2
            == c && id2 == id) ==> #[trigger] l2.need_at(t2, c2, id2) == l1.need_at(t2, c2, id2)
}

/// After a committed release, one unit has moved from `tid`'s allocation
/// back to the column's available count; nothing else moved.
pub open spec fn ledger_commit_release(l1: Ledger, l2: Ledger, tid: int, c: int, id: int, ntasks: int) -> bool {
    &&& forall|c2: int| 0 <= c2 < CLASS_COUNT ==> #[trigger] l2.width(c2) == l1.width(c2)
    &&& l2.alloc_at(tid, c, id) == l1.alloc_at(tid, c, id) - 1
    &&& l2.avail_at(c, id) == l1.avail_at(c, id) + 1
    &&& l2.need == l1.need
    &&& forall|t2: int, c2: int, id2: int|
        0 <= t2 < ntasks && 0 <= c2 < CLASS_COUNT && 0 <= id2 < l1.width(c2) && !(t2 == tid && c2
            == c && id2 == id) ==> #[trigger] l2.alloc_at(t2, c2, id2) == l1.alloc_at(t2, c2, id2)
    &&& forall|c2: int, id2: int|
        0 <= c2 < CLASS_COUNT && 0 <= id2 < l1.width(c2) && !(c2 == c && id2 == id)
            ==> #[trigger] l2.avail_at(c2, id2) == l1.avail_at(c2, id2)
}

/// At a FIFO hand-off the booking moves with the unit: one unit of
/// `(c, id)` leaves `from`'s allocation and joins `to`'s, settling one
/// declared unit of `to`'s demand if any is on the books; the available
/// pool is untouched, since the unit never becomes free.
pub open spec fn ledger_handoff(l1: Ledger, l2: Ledger, from: int, to: int, c: int, id: int, ntasks: int) -> bool {
    &&& forall|c2: int| 0 <= c2 < CLASS_COUNT ==> #[trigger] l2.width(c2) == l1.width(c2)
    &&& l2.available == l1.available
    &&& (from != to ==> l2.alloc_at(from, c, id) == l1.alloc_at(from, c, id) - 1
        && l2.alloc_at(to, c, id) == l1.alloc_at(to, c, id) + 1)
    &&& (from == to ==> l2.alloc_at(from, c, id) == l1.alloc_at(from, c, id))
    &&& forall|t2: int, c2: int, id2: int|
        0 <= t2 < ntasks && 0 <= c2 < CLASS_COUNT && 0 <= id2 < l1.width(c2) && !(t2 == from && c2
            == c && id2 == id) && !(t2 == to && c2 == c && id2 == id) ==> #[trigger] l2.alloc_at(
            t2,
            c2,
            id2,
        ) == l1.alloc_at(t2, c2, id2)
    &&& l2.need_at(to, c, id) == (if l1.need_at(to, c, id) > 0 {
        (l1.need_at(to, c, id) - 1) as usize
    } else {
        0usize
    })
    &&& forall|t2: int, c2: int, id2: int|
        0 <= t2 < ntasks && 0 <= c2 < CLASS_COUNT && 0 <= id2 < l1.width(c2) && !(t2 == to && c2
            == c && id2 == id) ==> #[trigger] l2.need_at(t2, c2, id2) == l1.need_at(t2, c2, id2)
}

/// The one way a booked mutex release can exceed a counter: at a hand-off,
/// the recipient's allocation is at its bound; with nobody to hand to, the
/// available count is.
pub open spec fn release_capacity_blocked(k: Kernel, tid: usize, id: int) -> bool {
    let m1 = k.mutex_list@[id]->0;
    if m1.blocking && m1.waiters@.len() > 0 {
        m1.waiters@[0] != tid && k.ledger.alloc_at(
            m1.waiters@[0] as int,
            MUTEX_CLASS as int,
            id,
        ) == usize::MAX
    } else {
        k.ledger.avail_at(MUTEX_CLASS as int, id) == usize::MAX
    }
}

/// Release a live mutex on behalf of `tid`: the ledger part, the primitive
/// part, and the wake-up, shared by [`sys_mutex_unlock`] and
/// [`sys_condvar_wait`].
///
/// With detection enabled the release must be covered by a recorded
/// allocation — a stray release would otherwise underflow the ledger, so it
/// is refused with [`KernelError::NotOwner`]. A release that hands the lock
/// to the FIFO queue head transfers the booking with it: the unit moves
/// from the releaser's allocation to the woken task's, settling the demand
/// it declared when it blocked, and the available pool is untouched — the
/// unit never becomes free. Only a release with no waiters returns the unit
/// to the pool.
fn do_mutex_release(k: &mut Kernel, tid: usize, mutex_id: usize) -> (r: Result<
    Option<usize>,
    KernelError,
>)
    requires
        old(k).wf(),
        tid < old(k).tasks@.len(),
        mutex_slot_valid(*old(k), mutex_id as int),
    ensures
        final(k).wf(),
        r is Err ==> *final(k) == *old(k),
        r is Err ==> r == Err::<Option<usize>, KernelError>(KernelError::NotOwner) || r == Err::<
            Option<usize>,
            KernelError,
        >(KernelError::CapacityExceeded),
        r == Err::<Option<usize>, KernelError>(KernelError::NotOwner) <==> (old(k).enable_deadlock_detect && old(k).ledger.alloc_at(
            tid as int,
            MUTEX_CLASS as int,
            mutex_id as int,
        ) == 0),
        r == Err::<Option<usize>, KernelError>(KernelError::CapacityExceeded) <==> (old(k).enable_deadlock_detect && old(k).ledger.alloc_at(
            tid as int,
            MUTEX_CLASS as int,
            mutex_id as int,
        ) > 0 && release_capacity_blocked(*old(k), tid, mutex_id as int)),
        r matches Ok(woken) ==> ({
            let m1 = old(k).mutex_list@[mutex_id as int]->0;
            &&& final(k).mutex_list@.len() == old(k).mutex_list@.len()
            &&& forall|j: int|
                0 <= j < old(k).mutex_list@.len() && j != mutex_id ==> #[trigger] final(k).mutex_list@[j] == old(k).mutex_list@[j]
            &&& final(k).mutex_list@[mutex_id as int] is Some
            &&& release_step(m1, final(k).mutex_list@[mutex_id as int]->0, woken)
            &&& (woken matches Some(h) ==> h < old(k).tasks@.len() && final(k).tasks@ == old(k).tasks@.update(
                h as int,
                (Task {
                    pass: bumped_pass(*old(k), h as int),
                    status: TaskStatus::Ready,
                    ..old(k).tasks@[h as int]
                }),
            ) && final(k).ready.entries@ == old(k).ready.entries@.push(
                (ReadyEntry { tid: h, pass: bumped_pass(*old(k), h as int) }),
            ))
            &&& (woken is None ==> final(k).tasks == old(k).tasks && final(k).ready == old(k).ready)
            &&& final(k).semaphore_list == old(k).semaphore_list
            &&& final(k).condvar_list == old(k).condvar_list
            &&& final(k).enable_deadlock_detect == old(k).enable_deadlock_detect
            &&& (!old(k).enable_deadlock_detect ==> final(k).ledger == old(k).ledger)
            &&& (old(k).enable_deadlock_detect && woken is None ==> ledger_commit_release(
                old(k).ledger,
                final(k).ledger,
                tid as int,
                MUTEX_CLASS as int,
                mutex_id as int,
                old(k).ntasks(),
            ))
            &&& (woken matches Some(h) ==> (old(k).enable_deadlock_detect ==> ledger_handoff(
                old(k).ledger,
                final(k).ledger,
                tid as int,
                h as int,
                MUTEX_CLASS as int,
                mutex_id as int,
                old(k).ntasks(),
            )))
        }),
{
    let ghost init = *k;
    let ntasks = k.tasks.len();
    let n_mutex = k.mutex_list.len();
    let n_sem = k.semaphore_list.len();
    // who would the primitive hand the lock to?
    let mut head: Option<usize> = None;
    match &k.mutex_list[mutex_id] {
        Some(m) => {
            if m.blocking && m.waiters.len() > 0 {
                head = Some(m.waiters[0]);
            }
        },
        None => {
            proof {
                assert(false);
            }
        },
    }
    if k.enable_deadlock_detect {
        let allocv = k.ledger.get_alloc(tid, MUTEX_CLASS, mutex_id);
        if allocv == 0 {
            return Err(KernelError::NotOwner);
        }
        match head {
            Some(h) => {
                proof {
                    assert(init.mutex_list@[mutex_id as int] matches Some(m) ==> m.wf(
                        init.ntasks(),
                    ));
                    assert(h < ntasks);
                }
                if h != tid {
                    let alloc_h = k.ledger.get_alloc(h, MUTEX_CLASS, mutex_id);
                    if alloc_h == usize::MAX {
                        return Err(KernelError::CapacityExceeded);
                    }
                    let ghost led0 = k.ledger;
                    k.ledger.set_alloc(tid, MUTEX_CLASS, mutex_id, allocv - 1, ntasks, n_mutex, n_sem);
                    let ghost led1 = k.ledger;
                    k.ledger.set_alloc(h, MUTEX_CLASS, mutex_id, alloc_h + 1, ntasks, n_mutex, n_sem);
                    proof {
                        assert forall|t2: int, c2: int, id2: int|
                            0 <= t2 < ntasks && 0 <= c2 < CLASS_COUNT && 0 <= id2 < init.ledger.width(
                            c2) && !(t2 == tid && c2 == MUTEX_CLASS && id2 == mutex_id) && !(t2 == h
                                && c2 == MUTEX_CLASS && id2 == mutex_id)
                            implies #[trigger] k.ledger.alloc_at(t2, c2, id2)
                            == init.ledger.alloc_at(t2, c2, id2) by {
                            assert(led1.alloc_at(t2, c2, id2) == led0.alloc_at(t2, c2, id2));
                        }
                        assert(k.ledger.alloc_at(tid as int, MUTEX_CLASS as int, mutex_id as int)
                            == led1.alloc_at(tid as int, MUTEX_CLASS as int, mutex_id as int));
                    }
                }
                let ghost led2 = k.ledger;
                let need_h = k.ledger.get_need(h, MUTEX_CLASS, mutex_id);
                if need_h > 0 {
                    k.ledger.set_need(h, MUTEX_CLASS, mutex_id, need_h - 1, ntasks, n_mutex, n_sem);
                }
                proof {
                    assert(k.ledger.allocation == led2.allocation);
                    assert forall|t2: int, c2: int, id2: int|
                        0 <= t2 < ntasks && 0 <= c2 < CLASS_COUNT && 0 <= id2 < init.ledger.width(c2)
                            && !(t2 == tid && c2 == MUTEX_CLASS && id2 == mutex_id) && !(t2 == h
                            && c2 == MUTEX_CLASS && id2 == mutex_id)
                        implies #[trigger] k.ledger.alloc_at(t2, c2, id2) == init.ledger.alloc_at(
                        t2,
                        c2,
                        id2,
                    ) by {
                        assert(led2.alloc_at(t2, c2, id2) == init.ledger.alloc_at(t2, c2, id2));
                    }
                    assert forall|t2: int, c2: int, id2: int|
                        0 <= t2 < ntasks && 0 <= c2 < CLASS_COUNT && 0 <= id2 < init.ledger.width(c2)
                            && !(t2 == h && c2 == MUTEX_CLASS && id2 == mutex_id)
                        implies #[trigger] k.ledger.need_at(t2, c2, id2) == init.ledger.need_at(
                        t2,
                        c2,
                        id2,
                    ) by {
                        assert(led2.need == init.ledger.need);
                    }
                    assert(k.ledger.need_at(h as int, MUTEX_CLASS as int, mutex_id as int) == (
                    if init.ledger.need_at(h as int, MUTEX_CLASS as int, mutex_id as int) > 0 {
                        (init.ledger.need_at(h as int, MUTEX_CLASS as int, mutex_id as int)
                            - 1) as usize
                    } else {
                        0usize
                    }));
                    assert(ledger_handoff(
                        init.ledger,
                        k.ledger,
                        tid as int,
                        h as int,
                        MUTEX_CLASS as int,
                        mutex_id as int,
                        ntasks as int,
                    ));
                }
            },
            None => {
                let availv = k.ledger.get_avail(MUTEX_CLASS, mutex_id);
                if availv == usize::MAX {
                    return Err(KernelError::CapacityExceeded);
                }
                let ghost led0 = k.ledger;
                k.ledger.set_alloc(tid, MUTEX_CLASS, mutex_id, allocv - 1, ntasks, n_mutex, n_sem);
                let ghost led1 = k.ledger;
                k.ledger.set_avail(MUTEX_CLASS, mutex_id, availv + 1, ntasks, n_mutex, n_sem);
                proof {
                    assert forall|t2: int, c2: int, id2: int|
                        0 <= t2 < ntasks && 0 <= c2 < CLASS_COUNT && 0 <= id2 < led0.width(c2)
                            && !(t2 == tid && c2 == MUTEX_CLASS && id2 == mutex_id)
                        implies #[trigger] k.ledger.alloc_at(t2, c2, id2) == init.ledger.alloc_at(
                        t2,
                        c2,
                        id2,
                    ) by {
                        assert(led1.alloc_at(t2, c2, id2) == led0.alloc_at(t2, c2, id2));
                        assert(k.ledger.allocation == led1.allocation);
                    }
                    assert(ledger_commit_release(
                        init.ledger,
                        k.ledger,
                        tid as int,
                        MUTEX_CLASS as int,
                        mutex_id as int,
                        ntasks as int,
                    ));
                }
            },
        }
    }
    let ghost led_done = k.ledger;
    let woken;
    match &mut k.mutex_list[mutex_id] {
        Some(m) => {
            woken = m.release(ntasks);
        },
        None => {
            proof {
                assert(false);
            }
            woken = None;
        },
    }
    proof {
        assert(woken == head);
    }
    if let Some(h) = woken {
        add_task(k, h);
    }
    proof {
        assert(k.ledger == led_done);
        if init.enable_deadlock_detect {
            match head {
                Some(h) => {
                    assert(ledger_handoff(
                        init.ledger,
                        led_done,
                        tid as int,
                        h as int,
                        MUTEX_CLASS as int,
                        mutex_id as int,
                        ntasks as int,
                    ));
                    assert forall|t2: int, c2: int, id2: int|
                        0 <= t2 < ntasks && 0 <= c2 < CLASS_COUNT && 0 <= id2 < init.ledger.width(c2)
                            && !(t2 == tid && c2 == MUTEX_CLASS && id2 == mutex_id) && !(t2 == h
                            && c2 == MUTEX_CLASS && id2 == mutex_id)
                        implies #[trigger] k.ledger.alloc_at(t2, c2, id2) == init.ledger.alloc_at(
                        t2,
                        c2,
                        id2,
                    ) by {
                        assert(led_done.alloc_at(t2, c2, id2) == init.ledger.alloc_at(t2, c2, id2));
                    }
                    assert forall|t2: int, c2: int, id2: int|
                        0 <= t2 < ntasks && 0 <= c2 < CLASS_COUNT && 0 <= id2 < init.ledger.width(c2)
                            && !(t2 == h && c2 == MUTEX_CLASS && id2 == mutex_id)
                        implies #[trigger] k.ledger.need_at(t2, c2, id2) == init.ledger.need_at(
                        t2,
                        c2,
                        id2,
                    ) by {
                        assert(led_done.need_at(t2, c2, id2) == init.ledger.need_at(t2, c2, id2));
                    }
                    assert(ledger_handoff(
                        init.ledger,
                        k.ledger,
                        tid as int,
                        h as int,
                        MUTEX_CLASS as int,
                        mutex_id as int,
                        ntasks as int,
                    ));
                },
                None => {
                    assert(ledger_commit_release(
                        init.ledger,
                        led_done,
                        tid as int,
                        MUTEX_CLASS as int,
                        mutex_id as int,
                        ntasks as int,
                    ));
                    assert forall|t2: int, c2: int, id2: int|
                        0 <= t2 < ntasks && 0 <= c2 < CLASS_COUNT && 0 <= id2 < init.ledger.width(c2)
                            && !(t2 == tid && c2 == MUTEX_CLASS && id2 == mutex_id)
                        implies #[trigger] k.ledger.alloc_at(t2, c2, id2) == init.ledger.alloc_at(
                        t2,
                        c2,
                        id2,
                    ) by {
                        assert(led_done.alloc_at(t2, c2, id2) == init.ledger.alloc_at(t2, c2, id2));
                    }
                    assert forall|c2: int, id2: int|
                        0 <= c2 < CLASS_COUNT && 0 <= id2 < init.ledger.width(c2) && !(c2
                            == MUTEX_CLASS && id2 == mutex_id) implies #[trigger] k.ledger.avail_at(
                        c2,
                        id2,
                    ) == init.ledger.avail_at(c2, id2) by {
                        assert(led_done.avail_at(c2, id2) == init.ledger.avail_at(c2, id2));
                    }
                },
            }
        }
    }
    Ok(woken)
}

/// Release mutex `mutex_id` on behalf of task `tid`.
///
/// With detection enabled a release must be covered by a recorded
/// allocation (else [`KernelError::NotOwner`], refusing what would
/// underflow the ledger). A release that wakes the FIFO queue head hands
/// the booking over with the lock, so the woken holder's own release is
/// covered in turn; a release with no waiters returns the unit to the
/// available pool. The woken task, if any, is made ready, re-enqueued, and
/// its id returned.
pub fn sys_mutex_unlock(k: &mut Kernel, tid: usize, mutex_id: usize) -> (r: Result<
    Option<usize>,
    KernelError,
>)
    requires
        old(k).wf(),
        tid < old(k).tasks@.len(),
    ensures
        final(k).wf(),
        r is Err ==> *final(k) == *old(k),
        r is Err ==> r == Err::<Option<usize>, KernelError>(KernelError::InvalidHandle) || r
            == Err::<Option<usize>, KernelError>(KernelError::NotOwner) || r == Err::<
            Option<usize>,
            KernelError,
        >(KernelError::CapacityExceeded),
        r == Err::<Option<usize>, KernelError>(KernelError::InvalidHandle) <==> !mutex_slot_valid(
            *old(k),
            mutex_id as int,
        ),
        r == Err::<Option<usize>, KernelError>(KernelError::NotOwner) <==> (mutex_slot_valid(
            *old(k),
            mutex_id as int,
        ) && old(k).enable_deadlock_detect && old(k).ledger.alloc_at(
            tid as int,
            MUTEX_CLASS as int,
            mutex_id as int,
        ) == 0),
        r == Err::<Option<usize>, KernelError>(KernelError::CapacityExceeded) <==> (
        mutex_slot_valid(*old(k), mutex_id as int) && old(k).enable_deadlock_detect && old(k).ledger.alloc_at(tid as int, MUTEX_CLASS as int, mutex_id as int) > 0
            && release_capacity_blocked(*old(k), tid, mutex_id as int)),
        r matches Ok(woken) ==> ({
            let m1 = old(k).mutex_list@[mutex_id as int]->0;
            &&& mutex_slot_valid(*old(k), mutex_id as int)
            &&& final(k).mutex_list@.len() == old(k).mutex_list@.len()
            &&& forall|j: int|
                0 <= j < old(k).mutex_list@.len() && j != mutex_id ==> #[trigger] final(k).mutex_list@[j] == old(k).mutex_list@[j]
            &&& final(k).mutex_list@[mutex_id as int] is Some
            &&& release_step(m1, final(k).mutex_list@[mutex_id as int]->0, woken)
            &&& (woken matches Some(h) ==> h < old(k).tasks@.len() && final(k).tasks@ == old(k).tasks@.update(
                h as int,
                (Task {
                    pass: bumped_pass(*old(k), h as int),
                    status: TaskStatus::Ready,
                    ..old(k).tasks@[h as int]
                }),
            ) && final(k).ready.entries@ == old(k).ready.entries@.push(
                (ReadyEntry { tid: h, pass: bumped_pass(*old(k), h as int) }),
            ))
            &&& (woken is None ==> final(k).tasks == old(k).tasks && final(k).ready == old(k).ready)
            &&& final(k).semaphore_list == old(k).semaphore_list
            &&& final(k).condvar_list == old(k).condvar_list
            &&& final(k).enable_deadlock_detect == old(k).enable_deadlock_detect
            &&& (!old(k).enable_deadlock_detect ==> final(k).ledger == old(k).ledger)
            &&& (old(k).enable_deadlock_detect && woken is None ==> ledger_commit_release(
                old(k).ledger,
                final(k).ledger,
                tid as int,
                MUTEX_CLASS as int,
                mutex_id as int,
                old(k).ntasks(),
            ))
            &&& (woken matches Some(h) ==> (old(k).enable_deadlock_detect ==> ledger_handoff(
                old(k).ledger,
                final(k).ledger,
                tid as int,
                h as int,
                MUTEX_CLASS as int,
                mutex_id as int,
                old(k).ntasks(),
            )))
        }),
{
    if mutex_id >= k.mutex_list.len() {
        return Err(KernelError::InvalidHandle);
    }
    if k.mutex_list[mutex_id].is_none() {
        return Err(KernelError::InvalidHandle);
    }
    do_mutex_release(k, tid, mutex_id)
}

} // verus!

verus! {

/// How one `down` changed a semaphore.
pub open spec fn sem_down_step(s1: SemaphoreState, s2: SemaphoreState, tid: usize, out: AcquireOutcome) -> bool {
    &&& (s1.count > 0 ==> out == AcquireOutcome::Acquired && s2.count == s1.count - 1
        && s2.waiters@ == s1.waiters@)
    &&& (s1.count == 0 ==> out == AcquireOutcome::Blocked && s2.count == 0 && s2.waiters@
        == s1.waiters@.push(tid))
}

/// How one `up` changed a semaphore: the unit goes to the FIFO queue head
/// if anybody waits, else back to the count.
pub open spec fn sem_up_step(s1: SemaphoreState, s2: SemaphoreState, woken: Option<usize>) -> bool {
    &&& (s1.waiters@.len() > 0 ==> woken == Some(s1.waiters@[0]) && s2.count == s1.count
        && s2.waiters@ == s1.waiters@.remove(0))
    &&& (s1.waiters@.len() == 0 ==> woken is None && s2.count == s1.count + 1 && s2.waiters@
        == s1.waiters@)
}

/// Take one unit of semaphore `sem_id` for task `tid`.
///
/// The detection-enabled path is the same admission control as
/// [`sys_mutex_lock`], run on the semaphore class: declare the demand, run
/// the safety check, deny with the sentinel and an untouched state, or
/// commit when a unit is available — with nothing available the demand
/// stays declared only while the task actually waits, settled when an up
/// hands the unit over. The primitive then grants a unit or enqueues the
/// caller FIFO.
pub fn sys_semaphore_down(k: &mut Kernel, tid: usize, sem_id: usize) -> (r: Result<
    AcquireOutcome,
    KernelError,
>)
    requires
        old(k).wf(),
        tid < old(k).tasks@.len(),
    ensures
        final(k).wf(),
        r is Err ==> *final(k) == *old(k),
        r is Err ==> r == Err::<AcquireOutcome, KernelError>(KernelError::InvalidHandle) || r
            == Err::<AcquireOutcome, KernelError>(KernelError::CapacityExceeded) || r == Err::<
            AcquireOutcome,
            KernelError,
        >(KernelError::UnsafeAcquisition),
        r == Err::<AcquireOutcome, KernelError>(KernelError::InvalidHandle) <==> !sem_slot_valid(
            *old(k),
            sem_id as int,
        ),
        r == Err::<AcquireOutcome, KernelError>(KernelError::CapacityExceeded) <==> (sem_slot_valid(
            *old(k),
            sem_id as int,
        ) && old(k).enable_deadlock_detect && !counters_ok(
            *old(k),
            tid as int,
            SEMAPHORE_CLASS as int,
            sem_id as int,
        )),
        r == Err::<AcquireOutcome, KernelError>(KernelError::UnsafeAcquisition) <==> (
        sem_slot_valid(*old(k), sem_id as int) && old(k).enable_deadlock_detect && counters_ok(
            *old(k),
            tid as int,
            SEMAPHORE_CLASS as int,
            sem_id as int,
        ) && !grant_is_safe(*old(k), tid as int, SEMAPHORE_CLASS as int, sem_id as int)),
        r matches Ok(out) ==> ({
            let s1 = old(k).semaphore_list@[sem_id as int]->0;
            &&& sem_slot_valid(*old(k), sem_id as int)
            &&& final(k).semaphore_list@.len() == old(k).semaphore_list@.len()
            &&& forall|j: int|
                0 <= j < old(k).semaphore_list@.len() && j != sem_id ==> #[trigger] final(k).semaphore_list@[j] == old(k).semaphore_list@[j]
            &&& final(k).semaphore_list@[sem_id as int] is Some
            &&& sem_down_step(s1, final(k).semaphore_list@[sem_id as int]->0, tid, out)
            &&& (out == AcquireOutcome::Blocked ==> final(k).tasks@ == old(k).tasks@.update(
                tid as int,
                (Task { status: TaskStatus::Blocked, ..old(k).tasks@[tid as int] }),
            ))
            &&& (out != AcquireOutcome::Blocked ==> final(k).tasks == old(k).tasks)
            &&& final(k).ready == old(k).ready
            &&& final(k).mutex_list == old(k).mutex_list
            &&& final(k).condvar_list == old(k).condvar_list
            &&& final(k).enable_deadlock_detect == old(k).enable_deadlock_detect
            &&& (!old(k).enable_deadlock_detect ==> final(k).ledger == old(k).ledger)
            &&& (old(k).enable_deadlock_detect ==> grant_is_safe(
                *old(k),
                tid as int,
                SEMAPHORE_CLASS as int,
                sem_id as int,
            ))
            &&& (old(k).enable_deadlock_detect && old(k).ledger.avail_at(
                SEMAPHORE_CLASS as int,
                sem_id as int,
            ) > 0 ==> ledger_commit_grant(
                old(k).ledger,
                final(k).ledger,
                tid as int,
                SEMAPHORE_CLASS as int,
                sem_id as int,
                old(k).ntasks(),
            ))
            &&& (old(k).enable_deadlock_detect && old(k).ledger.avail_at(
                SEMAPHORE_CLASS as int,
                sem_id as int,
            ) == 0 && out == AcquireOutcome::Blocked ==> ledger_keep_demand(
                old(k).ledger,
                final(k).ledger,
                tid as int,
                SEMAPHORE_CLASS as int,
                sem_id as int,
                old(k).ntasks(),
            ))
            &&& (old(k).enable_deadlock_detect && old(k).ledger.avail_at(
                SEMAPHORE_CLASS as int,
                sem_id as int,
            ) == 0 && out != AcquireOutcome::Blocked ==> final(k).ledger == old(k).ledger)
        }),
{
    let ghost init = *k;
    let ntasks = k.tasks.len();
    let n_mutex = k.mutex_list.len();
    let n_sem = k.semaphore_list.len();
    if sem_id >= n_sem {
        return Err(KernelError::InvalidHandle);
    }
    if k.semaphore_list[sem_id].is_none() {
        return Err(KernelError::InvalidHandle);
    }
    let mut needv: usize = 0;
    let mut availv: usize = 0;
    if k.enable_deadlock_detect {
        needv = k.ledger.get_need(tid, SEMAPHORE_CLASS, sem_id);
        let allocv = k.ledger.get_alloc(tid, SEMAPHORE_CLASS, sem_id);
        if needv == usize::MAX || allocv == usize::MAX {
            return Err(KernelError::CapacityExceeded);
        }
        let need_m = bumped_need_matrix(&k.ledger, tid, SEMAPHORE_CLASS, sem_id, ntasks, n_mutex, n_sem);
        let alloc_m = k.ledger.alloc_matrix(SEMAPHORE_CLASS, ntasks);
        let avail_v = k.ledger.avail_vector(SEMAPHORE_CLASS);
        proof {
            lemma_class_dims(k.ledger, SEMAPHORE_CLASS as int, ntasks as int, n_mutex as int, n_sem as int);
            assert forall|t: int| 0 <= t < ntasks implies (#[trigger] alloc_m.deep_view()[t]).len()
                == avail_v@.len() by {
                assert(alloc_m.deep_view()[t] =~= alloc_m@[t]@);
            }
            assert forall|t: int| 0 <= t < ntasks implies (#[trigger] need_m.deep_view()[t]).len()
                == avail_v@.len() by {
                assert(need_m.deep_view()[t] =~= need_m@[t]@);
            }
            assert(dims_ok(
                need_m.deep_view(),
                alloc_m.deep_view(),
                avail_v@,
                ntasks as int,
                avail_v@.len() as int,
            ));
        }
        let safe = safety_check(&need_m, &alloc_m, &avail_v);
        if !safe {
            return Err(KernelError::UnsafeAcquisition);
        }
        availv = k.ledger.get_avail(SEMAPHORE_CLASS, sem_id);
        if availv > 0 {
            let ghost led0 = k.ledger;
            k.ledger.set_alloc(tid, SEMAPHORE_CLASS, sem_id, allocv + 1, ntasks, n_mutex, n_sem);
            let ghost led1 = k.ledger;
            k.ledger.set_avail(SEMAPHORE_CLASS, sem_id, availv - 1, ntasks, n_mutex, n_sem);
            proof {
                assert forall|t2: int, c2: int, id2: int|
                    0 <= t2 < ntasks && 0 <= c2 < CLASS_COUNT && 0 <= id2 < led0.width(c2) && !(t2
                        == tid && c2 == SEMAPHORE_CLASS && id2 == sem_id)
                        implies #[trigger] k.ledger.alloc_at(t2, c2, id2) == init.ledger.alloc_at(
                    t2,
                    c2,
                    id2,
                ) by {
                    assert(led1.alloc_at(t2, c2, id2) == led0.alloc_at(t2, c2, id2));
                    assert(k.ledger.allocation == led1.allocation);
                }
                assert(ledger_commit_grant(
                    init.ledger,
                    k.ledger,
                    tid as int,
                    SEMAPHORE_CLASS as int,
                    sem_id as int,
                    ntasks as int,
                ));
            }
        }
    }
    let ghost led_done = k.ledger;
    let out;
    match &mut k.semaphore_list[sem_id] {
        Some(s) => {
            out = s.down(tid, ntasks);
        },
        None => {
            proof {
                assert(false);
            }
            out = AcquireOutcome::Retry;
        },
    }
    if out == AcquireOutcome::Blocked {
        let t = k.tasks[tid];
        k.tasks[tid] = Task { status: TaskStatus::Blocked, ..t };
    }
    // the declared demand stays on the books only while the task actually
    // waits; an attempt that was not enqueued leaves no trace
    if k.enable_deadlock_detect && availv == 0 && out == AcquireOutcome::Blocked {
        k.ledger.set_need(tid, SEMAPHORE_CLASS, sem_id, needv + 1, ntasks, n_mutex, n_sem);
        proof {
            assert(ledger_keep_demand(
                init.ledger,
                k.ledger,
                tid as int,
                SEMAPHORE_CLASS as int,
                sem_id as int,
                ntasks as int,
            ));
        }
    }
    proof {
        if init.enable_deadlock_detect && init.ledger.avail_at(
            SEMAPHORE_CLASS as int,
            sem_id as int,
        ) > 0 {
            assert(k.ledger == led_done);
            assert(ledger_commit_grant(
                init.ledger,
                led_done,
                tid as int,
                SEMAPHORE_CLASS as int,
                sem_id as int,
                ntasks as int,
            ));
            assert forall|t2: int, c2: int, id2: int|
                0 <= t2 < ntasks && 0 <= c2 < CLASS_COUNT && 0 <= id2 < init.ledger.width(c2)
                    && !(t2 == tid && c2 == SEMAPHORE_CLASS && id2 == sem_id)
                    implies #[trigger] k.ledger.alloc_at(t2, c2, id2) == init.ledger.alloc_at(
                t2,
                c2,
                id2,
            ) by {
                assert(led_done.alloc_at(t2, c2, id2) == init.ledger.alloc_at(t2, c2, id2));
            }
            assert forall|c2: int, id2: int|
                0 <= c2 < CLASS_COUNT && 0 <= id2 < init.ledger.width(c2) && !(c2
                    == SEMAPHORE_CLASS && id2 == sem_id) implies #[trigger] k.ledger.avail_at(
                c2,
                id2,
            ) == init.ledger.avail_at(c2, id2) by {
                assert(led_done.avail_at(c2, id2) == init.ledger.avail_at(c2, id2));
            }
        }
        if init.enable_deadlock_detect && init.ledger.avail_at(
            SEMAPHORE_CLASS as int,
            sem_id as int,
        ) == 0 && out != AcquireOutcome::Blocked {
            assert(k.ledger == init.ledger);
        }
    }
    Ok(out)
}

/// The one way a booked semaphore release can exceed a counter: at a
/// hand-off, the recipient's allocation is at its bound; with nobody to
/// hand to, the available count (detection on) or the live count is.
pub open spec fn sem_release_capacity_blocked(k: Kernel, tid: usize, id: int) -> bool {
    let s1 = k.semaphore_list@[id]->0;
    if s1.waiters@.len() > 0 {
        k.enable_deadlock_detect && s1.waiters@[0] != tid && k.ledger.alloc_at(
            s1.waiters@[0] as int,
            SEMAPHORE_CLASS as int,
            id,
        ) == usize::MAX
    } else {
        (k.enable_deadlock_detect && k.ledger.avail_at(SEMAPHORE_CLASS as int, id) == usize::MAX)
            || s1.count == usize::MAX
    }
}

/// Return one unit of semaphore `sem_id` on behalf of task `tid`.
///
/// With detection enabled the release must be covered by a recorded
/// allocation (else [`KernelError::NotOwner`], refusing what would
/// underflow the ledger). When a waiter is queued the primitive passes the
/// unit to the FIFO queue head — which is made ready, re-enqueued and its
/// id returned — and the booking moves with it: the unit joins the woken
/// task's allocation, settling its declared demand, and the available pool
/// is untouched. With nobody queued the unit goes back to the pool and the
/// count.
pub fn sys_semaphore_up(k: &mut Kernel, tid: usize, sem_id: usize) -> (r: Result<
    Option<usize>,
    KernelError,
>)
    requires
        old(k).wf(),
        tid < old(k).tasks@.len(),
    ensures
        final(k).wf(),
        r is Err ==> *final(k) == *old(k),
        r is Err ==> r == Err::<Option<usize>, KernelError>(KernelError::InvalidHandle) || r
            == Err::<Option<usize>, KernelError>(KernelError::NotOwner) || r == Err::<
            Option<usize>,
            KernelError,
        >(KernelError::CapacityExceeded),
        r == Err::<Option<usize>, KernelError>(KernelError::InvalidHandle) <==> !sem_slot_valid(
            *old(k),
            sem_id as int,
        ),
        r == Err::<Option<usize>, KernelError>(KernelError::NotOwner) <==> (sem_slot_valid(
            *old(k),
            sem_id as int,
        ) && old(k).enable_deadlock_detect && old(k).ledger.alloc_at(
            tid as int,
            SEMAPHORE_CLASS as int,
            sem_id as int,
        ) == 0),
        r == Err::<Option<usize>, KernelError>(KernelError::CapacityExceeded) <==> (sem_slot_valid(
            *old(k),
            sem_id as int,
        ) && (old(k).enable_deadlock_detect ==> old(k).ledger.alloc_at(
            tid as int,
            SEMAPHORE_CLASS as int,
            sem_id as int,
        ) > 0) && sem_release_capacity_blocked(*old(k), tid, sem_id as int)),
        r matches Ok(woken) ==> ({
            let s1 = old(k).semaphore_list@[sem_id as int]->0;
            &&& sem_slot_valid(*old(k), sem_id as int)
            &&& final(k).semaphore_list@.len() == old(k).semaphore_list@.len()
            &&& forall|j: int|
                0 <= j < old(k).semaphore_list@.len() && j != sem_id ==> #[trigger] final(k).semaphore_list@[j] == old(k).semaphore_list@[j]
            &&& final(k).semaphore_list@[sem_id as int] is Some
            &&& sem_up_step(s1, final(k).semaphore_list@[sem_id as int]->0, woken)
            &&& (woken matches Some(h) ==> h < old(k).tasks@.len() && final(k).tasks@ == old(k).tasks@.update(
                h as int,
                (Task {
                    pass: bumped_pass(*old(k), h as int),
                    status: TaskStatus::Ready,
                    ..old(k).tasks@[h as int]
                }),
            ) && final(k).ready.entries@ == old(k).ready.entries@.push(
                (ReadyEntry { tid: h, pass: bumped_pass(*old(k), h as int) }),
            ))
            &&& (woken is None ==> final(k).tasks == old(k).tasks && final(k).ready == old(k).ready)
            &&& final(k).mutex_list == old(k).mutex_list
            &&& final(k).condvar_list == old(k).condvar_list
            &&& final(k).enable_deadlock_detect == old(k).enable_deadlock_detect
            &&& (!old(k).enable_deadlock_detect ==> final(k).ledger == old(k).ledger)
            &&& (old(k).enable_deadlock_detect && woken is None ==> ledger_commit_release(
                old(k).ledger,
                final(k).ledger,
                tid as int,
                SEMAPHORE_CLASS as int,
                sem_id as int,
                old(k).ntasks(),
            ))
            &&& (woken matches Some(h) ==> (old(k).enable_deadlock_detect ==> ledger_handoff(
                old(k).ledger,
                final(k).ledger,
                tid as int,
                h as int,
                SEMAPHORE_CLASS as int,
                sem_id as int,
                old(k).ntasks(),
            )))
        }),
{
    let ghost init = *k;
    let ntasks = k.tasks.len();
    let n_mutex = k.mutex_list.len();
    let n_sem = k.semaphore_list.len();
    if sem_id >= n_sem {
        return Err(KernelError::InvalidHandle);
    }
    if k.semaphore_list[sem_id].is_none() {
        return Err(KernelError::InvalidHandle);
    }
    // who would the primitive pass the unit to?
    let mut head: Option<usize> = None;
    let mut sem_full = false;
    match &k.semaphore_list[sem_id] {
        Some(s) => {
            if s.waiters.len() > 0 {
                head = Some(s.waiters[0]);
            } else if s.count == usize::MAX {
                sem_full = true;
            }
        },
        None => {
            proof {
                assert(false);
            }
        },
    }
    if k.enable_deadlock_detect {
        let allocv = k.ledger.get_alloc(tid, SEMAPHORE_CLASS, sem_id);
        if allocv == 0 {
            return Err(KernelError::NotOwner);
        }
        match head {
            Some(h) => {
                proof {
                    assert(init.semaphore_list@[sem_id as int] matches Some(s) ==> s.wf(
                        init.ntasks(),
                    ));
                    assert(h < ntasks);
                }
                if h != tid {
                    let alloc_h = k.ledger.get_alloc(h, SEMAPHORE_CLASS, sem_id);
                    if alloc_h == usize::MAX {
                        return Err(KernelError::CapacityExceeded);
                    }
                    let ghost led0 = k.ledger;
                    k.ledger.set_alloc(tid, SEMAPHORE_CLASS, sem_id, allocv - 1, ntasks, n_mutex, n_sem);
                    let ghost led1 = k.ledger;
                    k.ledger.set_alloc(h, SEMAPHORE_CLASS, sem_id, alloc_h + 1, ntasks, n_mutex, n_sem);
                    proof {
                        assert forall|t2: int, c2: int, id2: int|
                            0 <= t2 < ntasks && 0 <= c2 < CLASS_COUNT && 0 <= id2 < init.ledger.width(
                            c2) && !(t2 == tid && c2 == SEMAPHORE_CLASS && id2 == sem_id) && !(t2
                                == h && c2 == SEMAPHORE_CLASS && id2 == sem_id)
                            implies #[trigger] k.ledger.alloc_at(t2, c2, id2)
                            == init.ledger.alloc_at(t2, c2, id2) by {
                            assert(led1.alloc_at(t2, c2, id2) == led0.alloc_at(t2, c2, id2));
                        }
                        assert(k.ledger.alloc_at(tid as int, SEMAPHORE_CLASS as int, sem_id as int)
                            == led1.alloc_at(tid as int, SEMAPHORE_CLASS as int, sem_id as int));
                    }
                }
                let ghost led2 = k.ledger;
                let need_h = k.ledger.get_need(h, SEMAPHORE_CLASS, sem_id);
                if need_h > 0 {
                    k.ledger.set_need(h, SEMAPHORE_CLASS, sem_id, need_h - 1, ntasks, n_mutex, n_sem);
                }
                proof {
                    assert(k.ledger.allocation == led2.allocation);
                    assert forall|t2: int, c2: int, id2: int|
                        0 <= t2 < ntasks && 0 <= c2 < CLASS_COUNT && 0 <= id2 < init.ledger.width(c2)
                            && !(t2 == tid && c2 == SEMAPHORE_CLASS && id2 == sem_id) && !(t2 == h
                            && c2 == SEMAPHORE_CLASS && id2 == sem_id)
                        implies #[trigger] k.ledger.alloc_at(t2, c2, id2) == init.ledger.alloc_at(
                        t2,
                        c2,
                        id2,
                    ) by {
                        assert(led2.alloc_at(t2, c2, id2) == init.ledger.alloc_at(t2, c2, id2));
                    }
                    assert forall|t2: int, c2: int, id2: int|
                        0 <= t2 < ntasks && 0 <= c2 < CLASS_COUNT && 0 <= id2 < init.ledger.width(c2)
                            && !(t2 == h && c2 == SEMAPHORE_CLASS && id2 == sem_id)
                        implies #[trigger] k.ledger.need_at(t2, c2, id2) == init.ledger.need_at(
                        t2,
                        c2,
                        id2,
                    ) by {
                        assert(led2.need == init.ledger.need);
                    }
                    assert(k.ledger.need_at(h as int, SEMAPHORE_CLASS as int, sem_id as int) == (
                    if init.ledger.need_at(h as int, SEMAPHORE_CLASS as int, sem_id as int) > 0 {
                        (init.ledger.need_at(h as int, SEMAPHORE_CLASS as int, sem_id as int)
                            - 1) as usize
                    } else {
                        0usize
                    }));
                    assert(ledger_handoff(
                        init.ledger,
                        k.ledger,
                        tid as int,
                        h as int,
                        SEMAPHORE_CLASS as int,
                        sem_id as int,
                        ntasks as int,
                    ));
                }
            },
            None => {
                let availv = k.ledger.get_avail(SEMAPHORE_CLASS, sem_id);
                if availv == usize::MAX {
                    return Err(KernelError::CapacityExceeded);
                }
                if sem_full {
                    return Err(KernelError::CapacityExceeded);
                }
                let ghost led0 = k.ledger;
                k.ledger.set_alloc(tid, SEMAPHORE_CLASS, sem_id, allocv - 1, ntasks, n_mutex, n_sem);
                let ghost led1 = k.ledger;
                k.ledger.set_avail(SEMAPHORE_CLASS, sem_id, availv + 1, ntasks, n_mutex, n_sem);
                proof {
                    assert forall|t2: int, c2: int, id2: int|
                        0 <= t2 < ntasks && 0 <= c2 < CLASS_COUNT && 0 <= id2 < led0.width(c2)
                            && !(t2 == tid && c2 == SEMAPHORE_CLASS && id2 == sem_id)
                        implies #[trigger] k.ledger.alloc_at(t2, c2, id2) == init.ledger.alloc_at(
                        t2,
                        c2,
                        id2,
                    ) by {
                        assert(led1.alloc_at(t2, c2, id2) == led0.alloc_at(t2, c2, id2));
                        assert(k.ledger.allocation == led1.allocation);
                    }
                    assert(ledger_commit_release(
                        init.ledger,
                        k.ledger,
                        tid as int,
                        SEMAPHORE_CLASS as int,
                        sem_id as int,
                        ntasks as int,
                    ));
                }
            },
        }
    } else {
        if sem_full {
            return Err(KernelError::CapacityExceeded);
        }
    }
    let ghost led_done = k.ledger;
    let woken;
    match &mut k.semaphore_list[sem_id] {
        Some(s) => {
            woken = s.up(ntasks);
        },
        None => {
            proof {
                assert(false);
            }
            woken = None;
        },
    }
    proof {
        assert(woken == head);
    }
    if let Some(h) = woken {
        add_task(k, h);
    }
    proof {
        assert(k.ledger == led_done);
        if init.enable_deadlock_detect {
            match head {
                Some(h) => {
                    assert(ledger_handoff(
                        init.ledger,
                        led_done,
                        tid as int,
                        h as int,
                        SEMAPHORE_CLASS as int,
                        sem_id as int,
                        ntasks as int,
                    ));
                    assert forall|t2: int, c2: int, id2: int|
                        0 <= t2 < ntasks && 0 <= c2 < CLASS_COUNT && 0 <= id2 < init.ledger.width(c2)
                            && !(t2 == tid && c2 == SEMAPHORE_CLASS && id2 == sem_id) && !(t2 == h
                            && c2 == SEMAPHORE_CLASS && id2 == sem_id)
                        implies #[trigger] k.ledger.alloc_at(t2, c2, id2) == init.ledger.alloc_at(
                        t2,
                        c2,
                        id2,
                    ) by {
                        assert(led_done.alloc_at(t2, c2, id2) == init.ledger.alloc_at(t2, c2, id2));
                    }
                    assert forall|t2: int, c2: int, id2: int|
                        0 <= t2 < ntasks && 0 <= c2 < CLASS_COUNT && 0 <= id2 < init.ledger.width(c2)
                            && !(t2 == h && c2 == SEMAPHORE_CLASS && id2 == sem_id)
                        implies #[trigger] k.ledger.need_at(t2, c2, id2) == init.ledger.need_at(
                        t2,
                        c2,
                        id2,
                    ) by {
                        assert(led_done.need_at(t2, c2, id2) == init.ledger.need_at(t2, c2, id2));
                    }
                    assert(ledger_handoff(
                        init.ledger,
                        k.ledger,
                        tid as int,
                        h as int,
                        SEMAPHORE_CLASS as int,
                        sem_id as int,
                        ntasks as int,
                    ));
                },
                None => {
                    assert(ledger_commit_release(
                        init.ledger,
                        led_done,
                        tid as int,
                        SEMAPHORE_CLASS as int,
                        sem_id as int,
                        ntasks as int,
                    ));
                    assert forall|t2: int, c2: int, id2: int|
                        0 <= t2 < ntasks && 0 <= c2 < CLASS_COUNT && 0 <= id2 < init.ledger.width(c2)
                            && !(t2 == tid && c2 == SEMAPHORE_CLASS && id2 == sem_id)
                        implies #[trigger] k.ledger.alloc_at(t2, c2, id2) == init.ledger.alloc_at(
                        t2,
                        c2,
                        id2,
                    ) by {
                        assert(led_done.alloc_at(t2, c2, id2) == init.ledger.alloc_at(t2, c2, id2));
                    }
                    assert forall|c2: int, id2: int|
                        0 <= c2 < CLASS_COUNT && 0 <= id2 < init.ledger.width(c2) && !(c2
                            == SEMAPHORE_CLASS && id2 == sem_id)
                        implies #[trigger] k.ledger.avail_at(c2, id2) == init.ledger.avail_at(
                        c2,
                        id2,
                    ) by {
                        assert(led_done.avail_at(c2, id2) == init.ledger.avail_at(c2, id2));
                    }
                },
            }
        }
    }
    Ok(woken)
}

} // verus!

verus! {

/// Wake one waiter of condvar `condvar_id`, FIFO, if any; the woken task is
/// made ready and re-enqueued, and its id returned.
pub fn sys_condvar_signal(k: &mut Kernel, condvar_id: usize) -> (r: Result<
    Option<usize>,
    KernelError,
>)
    requires
        old(k).wf(),
    ensures
        final(k).wf(),
        r is Err ==> *final(k) == *old(k),
        r is Err ==> r == Err::<Option<usize>, KernelError>(KernelError::InvalidHandle),
        r == Err::<Option<usize>, KernelError>(KernelError::InvalidHandle) <==> !condvar_slot_valid(
            *old(k),
            condvar_id as int,
        ),
        r matches Ok(woken) ==> ({
            let c1 = old(k).condvar_list@[condvar_id as int]->0;
            &&& condvar_slot_valid(*old(k), condvar_id as int)
            &&& final(k).condvar_list@.len() == old(k).condvar_list@.len()
            &&& forall|j: int|
                0 <= j < old(k).condvar_list@.len() && j != condvar_id ==> #[trigger] final(k).condvar_list@[j] == old(k).condvar_list@[j]
            &&& final(k).condvar_list@[condvar_id as int] is Some
            &&& (c1.waiters@.len() > 0 ==> woken == Some(c1.waiters@[0]) && (final(k).condvar_list@[condvar_id as int]->0).waiters@ == c1.waiters@.remove(0))
            &&& (c1.waiters@.len() == 0 ==> woken is None && (final(k).condvar_list@[condvar_id as int]->0).waiters@ == c1.waiters@)
            &&& (woken matches Some(h) ==> h < old(k).tasks@.len() && final(k).tasks@ == old(k).tasks@.update(
                h as int,
                (Task {
                    pass: bumped_pass(*old(k), h as int),
                    status: TaskStatus::Ready,
                    ..old(k).tasks@[h as int]
                }),
            ) && final(k).ready.entries@ == old(k).ready.entries@.push(
                (ReadyEntry { tid: h, pass: bumped_pass(*old(k), h as int) }),
            ))
            &&& (woken is None ==> final(k).tasks == old(k).tasks && final(k).ready == old(k).ready)
            &&& final(k).mutex_list == old(k).mutex_list
            &&& final(k).semaphore_list == old(k).semaphore_list
            &&& final(k).ledger == old(k).ledger
            &&& final(k).enable_deadlock_detect == old(k).enable_deadlock_detect
        }),
{
    let ntasks = k.tasks.len();
    if condvar_id >= k.condvar_list.len() {
        return Err(KernelError::InvalidHandle);
    }
    if k.condvar_list[condvar_id].is_none() {
        return Err(KernelError::InvalidHandle);
    }
    let woken;
    match &mut k.condvar_list[condvar_id] {
        Some(c) => {
            woken = c.signal(ntasks);
        },
        None => {
            proof {
                assert(false);
            }
            woken = None;
        },
    }
    if let Some(h) = woken {
        add_task(k, h);
    }
    Ok(woken)
}

/// Wait on condvar `condvar_id` with mutex `mutex_id` held: the mutex is
/// released first — through the same release path as [`sys_mutex_unlock`],
/// ledger included, possibly handing lock and booking to its own queue
/// head, whose id is returned — then the caller joins the condvar's FIFO
/// queue and suspends. There is no atomic hand-off: a woken task must
/// reacquire the mutex itself.
pub fn sys_condvar_wait(k: &mut Kernel, tid: usize, condvar_id: usize, mutex_id: usize) -> (r:
    Result<Option<usize>, KernelError>)
    requires
        old(k).wf(),
        tid < old(k).tasks@.len(),
    ensures
        final(k).wf(),
        r is Err ==> *final(k) == *old(k),
        r is Err ==> r == Err::<Option<usize>, KernelError>(KernelError::InvalidHandle) || r
            == Err::<Option<usize>, KernelError>(KernelError::NotOwner) || r == Err::<
            Option<usize>,
            KernelError,
        >(KernelError::CapacityExceeded),
        r == Err::<Option<usize>, KernelError>(KernelError::InvalidHandle) <==> !(
        condvar_slot_valid(*old(k), condvar_id as int) && mutex_slot_valid(
            *old(k),
            mutex_id as int,
        )),
        r == Err::<Option<usize>, KernelError>(KernelError::NotOwner) <==> (condvar_slot_valid(
            *old(k),
            condvar_id as int,
        ) && mutex_slot_valid(*old(k), mutex_id as int) && old(k).enable_deadlock_detect && old(k).ledger.alloc_at(tid as int, MUTEX_CLASS as int, mutex_id as int) == 0),
        r == Err::<Option<usize>, KernelError>(KernelError::CapacityExceeded) <==> (
        condvar_slot_valid(*old(k), condvar_id as int) && mutex_slot_valid(
            *old(k),
            mutex_id as int,
        ) && old(k).enable_deadlock_detect && old(k).ledger.alloc_at(
            tid as int,
            MUTEX_CLASS as int,
            mutex_id as int,
        ) > 0 && release_capacity_blocked(*old(k), tid, mutex_id as int)),
        r matches Ok(w1) ==> ({
            let m1 = old(k).mutex_list@[mutex_id as int]->0;
            let c1 = old(k).condvar_list@[condvar_id as int]->0;
            let after_wake = if w1 is Some {
                old(k).tasks@.update(
                    w1->0 as int,
                    (Task {
                        pass: bumped_pass(*old(k), w1->0 as int),
                        status: TaskStatus::Ready,
                        ..old(k).tasks@[w1->0 as int]
                    }),
                )
            } else {
                old(k).tasks@
            };
            &&& condvar_slot_valid(*old(k), condvar_id as int)
            &&& mutex_slot_valid(*old(k), mutex_id as int)
            &&& final(k).mutex_list@.len() == old(k).mutex_list@.len()
            &&& forall|j: int|
                0 <= j < old(k).mutex_list@.len() && j != mutex_id ==> #[trigger] final(k).mutex_list@[j] == old(k).mutex_list@[j]
            &&& final(k).mutex_list@[mutex_id as int] is Some
            &&& release_step(m1, final(k).mutex_list@[mutex_id as int]->0, w1)
            &&& final(k).condvar_list@.len() == old(k).condvar_list@.len()
            &&& forall|j: int|
                0 <= j < old(k).condvar_list@.len() && j != condvar_id ==> #[trigger] final(k).condvar_list@[j] == old(k).condvar_list@[j]
            &&& final(k).condvar_list@[condvar_id as int] is Some
            &&& (final(k).condvar_list@[condvar_id as int]->0).waiters@ == c1.waiters@.push(tid)
            &&& (w1 matches Some(h) ==> h < old(k).tasks@.len())
            &&& final(k).tasks@ == after_wake.update(
                tid as int,
                (Task { status: TaskStatus::Blocked, ..after_wake[tid as int] }),
            )
            &&& (w1 matches Some(h) ==> final(k).ready.entries@ == old(k).ready.entries@.push(
                (ReadyEntry { tid: h, pass: bumped_pass(*old(k), h as int) }),
            ))
            &&& (w1 is None ==> final(k).ready == old(k).ready)
            &&& final(k).semaphore_list == old(k).semaphore_list
            &&& final(k).enable_deadlock_detect == old(k).enable_deadlock_detect
            &&& (!old(k).enable_deadlock_detect ==> final(k).ledger == old(k).ledger)
            &&& (old(k).enable_deadlock_detect && w1 is None ==> ledger_commit_release(
                old(k).ledger,
                final(k).ledger,
                tid as int,
                MUTEX_CLASS as int,
                mutex_id as int,
                old(k).ntasks(),
            ))
            &&& (w1 matches Some(h) ==> (old(k).enable_deadlock_detect ==> ledger_handoff(
                old(k).ledger,
                final(k).ledger,
                tid as int,
                h as int,
                MUTEX_CLASS as int,
                mutex_id as int,
                old(k).ntasks(),
            )))
        }),
{
    let ntasks = k.tasks.len();
    if condvar_id >= k.condvar_list.len() {
        return Err(KernelError::InvalidHandle);
    }
    if k.condvar_list[condvar_id].is_none() {
        return Err(KernelError::InvalidHandle);
    }
    if mutex_id >= k.mutex_list.len() {
        return Err(KernelError::InvalidHandle);
    }
    if k.mutex_list[mutex_id].is_none() {
        return Err(KernelError::InvalidHandle);
    }
    let w1 = match do_mutex_release(k, tid, mutex_id) {
        Ok(w) => w,
        Err(e) => {
            return Err(e);
        },
    };
    match &mut k.condvar_list[condvar_id] {
        Some(c) => {
            c.enqueue(tid, ntasks);
        },
        None => {
            proof {
                assert(false);
            }
        },
    }
    let t = k.tasks[tid];
    k.tasks[tid] = Task { status: TaskStatus::Blocked, ..t };
    Ok(w1)
}

} // verus!

verus! {

/// What a mutex column's available count is rebuilt to: one free unit for
/// an unheld live mutex, none for a held or freed one.
pub open spec fn mutex_col_avail(slot: Option<MutexState>) -> usize {
    match slot {
        Some(m) => if m.locked {
            0usize
        } else {
            1usize
        },
        None => 0usize,
    }
}

/// What task `t`'s allocation on a mutex column is rebuilt to: one unit
/// exactly when the live mutex records `t` as owner.
pub open spec fn mutex_cell_alloc(slot: Option<MutexState>, t: int) -> usize {
    match slot {
        Some(m) => if m.owner matches Some(o) && o == t {
            1usize
        } else {
            0usize
        },
        None => 0usize,
    }
}

/// What a semaphore column's available count is rebuilt to: the live count.
pub open spec fn sem_col_avail(slot: Option<SemaphoreState>) -> usize {
    match slot {
        Some(s) => s.count,
        None => 0usize,
    }
}

/// The ledger has been resynchronized from the live primitives: blocking
/// mutex ownership is attributed to the recorded owner, every count
/// matches the primitive, and all declared demand is cleared.
pub open spec fn ledger_rebuilt(
    mutexes: Seq<Option<MutexState>>,
    sems: Seq<Option<SemaphoreState>>,
    ntasks: int,
    l: Ledger,
) -> bool {
    &&& forall|t: int, id: int|
        0 <= t < ntasks && 0 <= id < mutexes.len() ==> #[trigger] l.alloc_at(
            t,
            MUTEX_CLASS as int,
            id,
        ) == mutex_cell_alloc(mutexes[id], t)
    &&& forall|t: int, id: int|
        0 <= t < ntasks && 0 <= id < mutexes.len() ==> #[trigger] l.need_at(
            t,
            MUTEX_CLASS as int,
            id,
        ) == 0
    &&& forall|id: int|
        0 <= id < mutexes.len() ==> #[trigger] l.avail_at(MUTEX_CLASS as int, id)
            == mutex_col_avail(mutexes[id])
    &&& forall|t: int, id: int|
        0 <= t < ntasks && 0 <= id < sems.len() ==> #[trigger] l.alloc_at(
            t,
            SEMAPHORE_CLASS as int,
            id,
        ) == 0
    &&& forall|t: int, id: int|
        0 <= t < ntasks && 0 <= id < sems.len() ==> #[trigger] l.need_at(
            t,
            SEMAPHORE_CLASS as int,
            id,
        ) == 0
    &&& forall|id: int|
        0 <= id < sems.len() ==> #[trigger] l.avail_at(SEMAPHORE_CLASS as int, id) == sem_col_avail(
            sems[id],
        )
}

/// Rebuild the ledger from the live primitives.
fn rebuild_ledger(k: &mut Kernel)
    requires
        old(k).wf(),
    ensures
        final(k).wf(),
        ledger_rebuilt(
            old(k).mutex_list@,
            old(k).semaphore_list@,
            old(k).ntasks(),
            final(k).ledger,
        ),
        final(k).tasks == old(k).tasks,
        final(k).ready == old(k).ready,
        final(k).mutex_list == old(k).mutex_list,
        final(k).semaphore_list == old(k).semaphore_list,
        final(k).condvar_list == old(k).condvar_list,
        final(k).enable_deadlock_detect == old(k).enable_deadlock_detect,
{
    let ghost init = *k;
    let ntasks = k.tasks.len();
    let n_mutex = k.mutex_list.len();
    let n_sem = k.semaphore_list.len();
    let mut id: usize = 0;
    while id < n_mutex
        invariant
            init == *old(k),
            init.wf(),
            0 <= id <= n_mutex,
            ntasks == init.tasks@.len(),
            n_mutex == init.mutex_list@.len(),
            n_sem == init.semaphore_list@.len(),
            k.tasks == init.tasks,
            k.ready == init.ready,
            k.mutex_list == init.mutex_list,
            k.semaphore_list == init.semaphore_list,
            k.condvar_list == init.condvar_list,
            k.enable_deadlock_detect == init.enable_deadlock_detect,
            k.ledger.wf(ntasks as int, n_mutex as int, n_sem as int),
            forall|t: int, id2: int|
                0 <= t < ntasks && 0 <= id2 < id ==> #[trigger] k.ledger.alloc_at(
                    t,
                    MUTEX_CLASS as int,
                    id2,
                ) == mutex_cell_alloc(init.mutex_list@[id2], t),
            forall|t: int, id2: int|
                0 <= t < ntasks && 0 <= id2 < id ==> #[trigger] k.ledger.need_at(
                    t,
                    MUTEX_CLASS as int,
                    id2,
                ) == 0,
            forall|id2: int|
                0 <= id2 < id ==> #[trigger] k.ledger.avail_at(MUTEX_CLASS as int, id2)
                    == mutex_col_avail(init.mutex_list@[id2]),
        decreases n_mutex - id,
    {
        let avail_v: usize;
        let owner: Option<usize>;
        match &k.mutex_list[id] {
            Some(m) => {
                avail_v = if m.locked {
                    0
                } else {
                    1
                };
                owner = m.owner;
            },
            None => {
                avail_v = 0;
                owner = None;
            },
        }
        let ghost prev = k.ledger;
        k.ledger.reset_column(MUTEX_CLASS, id, avail_v, ntasks, n_mutex, n_sem);
        let ghost mid = k.ledger;
        if let Some(o) = owner {
            proof {
                assert(init.mutex_list@[id as int] matches Some(m) ==> m.wf(init.ntasks()));
            }
            k.ledger.set_alloc(o, MUTEX_CLASS, id, 1, ntasks, n_mutex, n_sem);
        }
        proof {
            assert forall|t: int, id2: int|
                0 <= t < ntasks && 0 <= id2 < id + 1 implies #[trigger] k.ledger.alloc_at(
                t,
                MUTEX_CLASS as int,
                id2,
            ) == mutex_cell_alloc(init.mutex_list@[id2], t) && k.ledger.need_at(
                t,
                MUTEX_CLASS as int,
                id2,
            ) == 0 by {
                if id2 < id {
                    assert(prev.alloc_at(t, MUTEX_CLASS as int, id2) == mutex_cell_alloc(
                        init.mutex_list@[id2],
                        t,
                    ));
                    assert(mid.alloc_at(t, MUTEX_CLASS as int, id2) == prev.alloc_at(
                        t,
                        MUTEX_CLASS as int,
                        id2,
                    ));
                    assert(prev.need_at(t, MUTEX_CLASS as int, id2) == 0);
                    assert(mid.need_at(t, MUTEX_CLASS as int, id2) == prev.need_at(
                        t,
                        MUTEX_CLASS as int,
                        id2,
                    ));
                    assert(k.ledger.alloc_at(t, MUTEX_CLASS as int, id2) == mid.alloc_at(
                        t,
                        MUTEX_CLASS as int,
                        id2,
                    ));
                    assert(k.ledger.need == mid.need);
                    assert(k.ledger.need_at(t, MUTEX_CLASS as int, id2) == mid.need_at(
                        t,
                        MUTEX_CLASS as int,
                        id2,
                    ));
                } else {
                    assert(mid.alloc_at(t, MUTEX_CLASS as int, id2) == 0);
                    assert(mid.need_at(t, MUTEX_CLASS as int, id2) == 0);
                    assert(k.ledger.need == mid.need);
                    assert(k.ledger.need_at(t, MUTEX_CLASS as int, id2) == mid.need_at(
                        t,
                        MUTEX_CLASS as int,
                        id2,
                    ));
                    assert(k.ledger.alloc_at(t, MUTEX_CLASS as int, id2) == mutex_cell_alloc(
                        init.mutex_list@[id2],
                        t,
                    ));
                }
            }
            assert forall|t: int, id2: int|
                0 <= t < ntasks && 0 <= id2 < id + 1 implies #[trigger] k.ledger.need_at(
                t,
                MUTEX_CLASS as int,
                id2,
            ) == 0 by {
                assert(k.ledger.alloc_at(t, MUTEX_CLASS as int, id2) == mutex_cell_alloc(
                    init.mutex_list@[id2],
                    t,
                ));
            }
            assert forall|id2: int|
                0 <= id2 < id + 1 implies #[trigger] k.ledger.avail_at(MUTEX_CLASS as int, id2)
                == mutex_col_avail(init.mutex_list@[id2]) by {
                if id2 < id {
                    assert(prev.avail_at(MUTEX_CLASS as int, id2) == mutex_col_avail(
                        init.mutex_list@[id2],
                    ));
                    assert(mid.avail_at(MUTEX_CLASS as int, id2) == prev.avail_at(
                        MUTEX_CLASS as int,
                        id2,
                    ));
                    assert(k.ledger.available == mid.available);
                } else {
                    assert(mid.avail_at(MUTEX_CLASS as int, id2) == avail_v);
                    assert(k.ledger.available == mid.available);
                }
            }
        }
        id = id + 1;
    }
    let mut sid: usize = 0;
    while sid < n_sem
        invariant
            init == *old(k),
            init.wf(),
            0 <= sid <= n_sem,
            ntasks == init.tasks@.len(),
            n_mutex == init.mutex_list@.len(),
            n_sem == init.semaphore_list@.len(),
            k.tasks == init.tasks,
            k.ready == init.ready,
            k.mutex_list == init.mutex_list,
            k.semaphore_list == init.semaphore_list,
            k.condvar_list == init.condvar_list,
            k.enable_deadlock_detect == init.enable_deadlock_detect,
            k.ledger.wf(ntasks as int, n_mutex as int, n_sem as int),
            forall|t: int, id2: int|
                0 <= t < ntasks && 0 <= id2 < n_mutex ==> #[trigger] k.ledger.alloc_at(
                    t,
                    MUTEX_CLASS as int,
                    id2,
                ) == mutex_cell_alloc(init.mutex_list@[id2], t),
            forall|t: int, id2: int|
                0 <= t < ntasks && 0 <= id2 < n_mutex ==> #[trigger] k.ledger.need_at(
                    t,
                    MUTEX_CLASS as int,
                    id2,
                ) == 0,
            forall|id2: int|
                0 <= id2 < n_mutex ==> #[trigger] k.ledger.avail_at(MUTEX_CLASS as int, id2)
                    == mutex_col_avail(init.mutex_list@[id2]),
            forall|t: int, id2: int|
                0 <= t < ntasks && 0 <= id2 < sid ==> #[trigger] k.ledger.alloc_at(
                    t,
                    SEMAPHORE_CLASS as int,
                    id2,
                ) == 0,
            forall|t: int, id2: int|
                0 <= t < ntasks && 0 <= id2 < sid ==> #[trigger] k.ledger.need_at(
                    t,
                    SEMAPHORE_CLASS as int,
                    id2,
                ) == 0,
            forall|id2: int|
                0 <= id2 < sid ==> #[trigger] k.ledger.avail_at(SEMAPHORE_CLASS as int, id2)
                    == sem_col_avail(init.semaphore_list@[id2]),
        decreases n_sem - sid,
    {
        let avail_v: usize;
        match &k.semaphore_list[sid] {
            Some(s) => {
                avail_v = s.count;
            },
            None => {
                avail_v = 0;
            },
        }
        let ghost prev = k.ledger;
        k.ledger.reset_column(SEMAPHORE_CLASS, sid, avail_v, ntasks, n_mutex, n_sem);
        proof {
            assert forall|t: int, id2: int|
                0 <= t < ntasks && 0 <= id2 < n_mutex implies #[trigger] k.ledger.alloc_at(
                t,
                MUTEX_CLASS as int,
                id2,
            ) == mutex_cell_alloc(init.mutex_list@[id2], t) && k.ledger.need_at(
                t,
                MUTEX_CLASS as int,
                id2,
            ) == 0 by {
                assert(prev.alloc_at(t, MUTEX_CLASS as int, id2) == mutex_cell_alloc(
                    init.mutex_list@[id2],
                    t,
                ));
                assert(prev.need_at(t, MUTEX_CLASS as int, id2) == 0);
            }
            assert forall|t: int, id2: int|
                0 <= t < ntasks && 0 <= id2 < n_mutex implies #[trigger] k.ledger.need_at(
                t,
                MUTEX_CLASS as int,
                id2,
            ) == 0 by {
                assert(k.ledger.alloc_at(t, MUTEX_CLASS as int, id2) == mutex_cell_alloc(
                    init.mutex_list@[id2],
                    t,
                ));
            }
            assert forall|id2: int|
                0 <= id2 < n_mutex implies #[trigger] k.ledger.avail_at(MUTEX_CLASS as int, id2)
                == mutex_col_avail(init.mutex_list@[id2]) by {
                assert(prev.avail_at(MUTEX_CLASS as int, id2) == mutex_col_avail(
                    init.mutex_list@[id2],
                ));
            }
            assert forall|t: int, id2: int|
                0 <= t < ntasks && 0 <= id2 < sid + 1 implies #[trigger] k.ledger.alloc_at(
                t,
                SEMAPHORE_CLASS as int,
                id2,
            ) == 0 && k.ledger.need_at(t, SEMAPHORE_CLASS as int, id2) == 0 by {
                if id2 < sid {
                    assert(prev.alloc_at(t, SEMAPHORE_CLASS as int, id2) == 0);
                    assert(prev.need_at(t, SEMAPHORE_CLASS as int, id2) == 0);
                }
            }
            assert forall|t: int, id2: int|
                0 <= t < ntasks && 0 <= id2 < sid + 1 implies #[trigger] k.ledger.need_at(
                t,
                SEMAPHORE_CLASS as int,
                id2,
            ) == 0 by {
                assert(k.ledger.alloc_at(t, SEMAPHORE_CLASS as int, id2) == 0);
            }
            assert forall|id2: int|
                0 <= id2 < sid + 1 implies #[trigger] k.ledger.avail_at(SEMAPHORE_CLASS as int, id2)
                == sem_col_avail(init.semaphore_list@[id2]) by {
                if id2 < sid {
                    assert(prev.avail_at(SEMAPHORE_CLASS as int, id2) == sem_col_avail(
                        init.semaphore_list@[id2],
                    ));
                }
            }
        }
        sid = sid + 1;
    }
}

/// Toggle the per-process deadlock detector: `1` enables, anything else
/// disables; always returns 0.
///
/// Mid-life enabling while locks acquired under the opposite mode are still
/// held would leave the ledger stale relative to true ownership. The policy
/// here: on every enabling the ledger is rebuilt from the live primitives —
/// blocking mutex ownership is attributed to the recorded owner, counts are
/// taken from the semaphores, and all declared demand is cleared. Units
/// taken from a semaphore or a spin mutex before enabling cannot be
/// attributed to a holder and are treated as external until returned.
/// Disabling keeps the ledger as it stands.
pub fn sys_enable_deadlock_detect(k: &mut Kernel, enabled: usize) -> (r: isize)
    requires
        old(k).wf(),
    ensures
        final(k).wf(),
        r == 0,
        enabled == 1 ==> final(k).enable_deadlock_detect && ledger_rebuilt(
            old(k).mutex_list@,
            old(k).semaphore_list@,
            old(k).ntasks(),
            final(k).ledger,
        ),
        enabled != 1 ==> !final(k).enable_deadlock_detect && final(k).ledger == old(k).ledger,
        final(k).tasks == old(k).tasks,
        final(k).ready == old(k).ready,
        final(k).mutex_list == old(k).mutex_list,
        final(k).semaphore_list == old(k).semaphore_list,
        final(k).condvar_list == old(k).condvar_list,
{
    if enabled == 1 {
        k.enable_deadlock_detect = true;
        rebuild_ledger(k);
    } else {
        k.enable_deadlock_detect = false;
    }
    0
}

} // verus!
