use kernel_core::KernelError;
use kernel_core::kernel::{
    init, add_task, fetch_task, sys_spawn, sys_exit, sys_yield, sys_getpid, sys_set_priority,
    sys_sleep, sys_enable_deadlock_detect, sys_mutex_create, sys_mutex_lock, sys_mutex_unlock,
    sys_semaphore_create, sys_semaphore_up, sys_condvar_create, sys_condvar_signal,
    sys_condvar_wait,
};
use kernel_core::perms::Flag;
use kernel_core::sync::AcquireOutcome;
use kernel_core::task::TaskStatus;

#[test]
fn priority_below_two_is_rejected() {
    let mut k = init();
    let t = sys_spawn(&mut k);
    assert_eq!(sys_set_priority(&mut k, t, 1), Err(KernelError::InvalidPriority));
    assert_eq!(sys_set_priority(&mut k, t, 0), Err(KernelError::InvalidPriority));
    assert_eq!(sys_set_priority(&mut k, t, -3), Err(KernelError::InvalidPriority));
    assert_eq!(k.tasks[t].priority, 16);
    assert_eq!(sys_set_priority(&mut k, t, 2), Ok(2));
    assert_eq!(k.tasks[t].priority, 2);
    assert_eq!(sys_set_priority(&mut k, t, 40), Ok(40));
    assert_eq!(k.tasks[t].priority, 40);
}

#[test]
fn stale_and_out_of_range_handles_are_refused() {
    let mut k = init();
    let t = sys_spawn(&mut k);
    assert_eq!(sys_mutex_lock(&mut k, t, 0), Err(KernelError::InvalidHandle));
    assert_eq!(sys_mutex_unlock(&mut k, t, 3), Err(KernelError::InvalidHandle));
    assert_eq!(sys_condvar_signal(&mut k, 0), Err(KernelError::InvalidHandle));
    let m = sys_mutex_create(&mut k, true);
    k.mutex_list[m] = None;
    assert_eq!(sys_mutex_lock(&mut k, t, m), Err(KernelError::InvalidHandle));
    let cv = sys_condvar_create(&mut k);
    assert_eq!(sys_condvar_wait(&mut k, t, cv, 7), Err(KernelError::InvalidHandle));
}

#[test]
fn release_without_recorded_hold_is_refused_under_detection() {
    let mut k = init();
    let t0 = sys_spawn(&mut k);
    let t1 = sys_spawn(&mut k);
    sys_enable_deadlock_detect(&mut k, 1);
    let m = sys_mutex_create(&mut k, true);
    assert_eq!(sys_mutex_lock(&mut k, t0, m), Ok(AcquireOutcome::Acquired));
    assert_eq!(sys_mutex_unlock(&mut k, t1, m), Err(KernelError::NotOwner));
    assert_eq!(sys_mutex_unlock(&mut k, t0, m), Ok(None));
}

#[test]
fn sleep_blocks_until_the_timer_re_enqueues() {
    let mut k = init();
    let t = sys_spawn(&mut k);
    assert_eq!(fetch_task(&mut k), Some(t));
    assert_eq!(k.tasks[t].status, TaskStatus::Running);
    let deadline = sys_sleep(&mut k, t, 1000, 250).unwrap();
    assert_eq!(deadline, 1250);
    assert_eq!(k.tasks[t].status, TaskStatus::Blocked);
    // the external timer fires at the deadline and re-enqueues the task
    add_task(&mut k, t);
    assert_eq!(k.tasks[t].status, TaskStatus::Ready);
    assert_eq!(fetch_task(&mut k), Some(t));
}

#[test]
fn sleep_deadline_past_the_machine_range_is_refused() {
    let mut k = init();
    let t = sys_spawn(&mut k);
    assert_eq!(sys_sleep(&mut k, t, usize::MAX, 1), Err(KernelError::CapacityExceeded));
    assert_ne!(k.tasks[t].status, TaskStatus::Blocked);
}

#[test]
fn spawn_extends_the_ledger_with_zero_rows() {
    let mut k = init();
    let t0 = sys_spawn(&mut k);
    sys_mutex_create(&mut k, true);
    sys_semaphore_create(&mut k, 3);
    let t1 = sys_spawn(&mut k);
    assert_eq!(sys_getpid(&k, t1), t1);
    assert_eq!(k.ledger.allocation.len(), 2);
    assert_eq!(k.ledger.allocation[t1][0], vec![0]);
    assert_eq!(k.ledger.allocation[t1][1], vec![0]);
    assert_eq!(k.ledger.need[t1][0], vec![0]);
    assert_eq!(k.ledger.need[t1][1], vec![0]);
    assert_eq!(k.ledger.allocation[t0][0], vec![0]);
    assert_eq!(k.ledger.available[1], vec![3]);
}

#[test]
fn exit_makes_a_zombie_with_the_exit_code() {
    let mut k = init();
    let t = sys_spawn(&mut k);
    sys_exit(&mut k, t, 42);
    assert_eq!(k.tasks[t].status, TaskStatus::Zombie);
    assert_eq!(k.tasks[t].exit_code, 42);
}

#[test]
fn yield_requeues_the_caller() {
    let mut k = init();
    let t = sys_spawn(&mut k);
    assert_eq!(fetch_task(&mut k), Some(t));
    assert_eq!(sys_yield(&mut k, t), 0);
    assert_eq!(k.tasks[t].status, TaskStatus::Ready);
    assert_eq!(fetch_task(&mut k), Some(t));
}

#[test]
fn spin_mutex_asks_the_loser_to_retry() {
    let mut k = init();
    let t0 = sys_spawn(&mut k);
    let t1 = sys_spawn(&mut k);
    let m = sys_mutex_create(&mut k, false);
    assert_eq!(sys_mutex_lock(&mut k, t0, m), Ok(AcquireOutcome::Acquired));
    assert_eq!(sys_mutex_lock(&mut k, t1, m), Ok(AcquireOutcome::Retry));
    // the retrying task is not queued and stays schedulable
    assert_ne!(k.tasks[t1].status, TaskStatus::Blocked);
    assert_eq!(sys_mutex_unlock(&mut k, t0, m), Ok(None));
    assert_eq!(sys_mutex_lock(&mut k, t1, m), Ok(AcquireOutcome::Acquired));
}

#[test]
fn condvar_wait_releases_the_mutex_and_signal_wakes_fifo() {
    let mut k = init();
    let t0 = sys_spawn(&mut k);
    let t1 = sys_spawn(&mut k);
    let m = sys_mutex_create(&mut k, true);
    let cv = sys_condvar_create(&mut k);
    assert_eq!(sys_mutex_lock(&mut k, t0, m), Ok(AcquireOutcome::Acquired));
    assert_eq!(sys_condvar_wait(&mut k, t0, cv, m), Ok(None));
    assert_eq!(k.tasks[t0].status, TaskStatus::Blocked);
    assert!(!k.mutex_list[m].as_ref().unwrap().locked);
    // another task can now take the mutex
    assert_eq!(sys_mutex_lock(&mut k, t1, m), Ok(AcquireOutcome::Acquired));
    assert_eq!(sys_condvar_signal(&mut k, cv), Ok(Some(t0)));
    assert_eq!(k.tasks[t0].status, TaskStatus::Ready);
    // no atomic hand-off: the woken task must reacquire the mutex itself
    assert_eq!(sys_mutex_lock(&mut k, t0, m), Ok(AcquireOutcome::Blocked));
    assert_eq!(sys_mutex_unlock(&mut k, t1, m), Ok(Some(t0)));
    // a signal with nobody waiting wakes nobody
    assert_eq!(sys_condvar_signal(&mut k, cv), Ok(None));
}

#[test]
fn enabling_detection_rebuilds_the_ledger_from_live_state() {
    let mut k = init();
    let t0 = sys_spawn(&mut k);
    let t1 = sys_spawn(&mut k);
    let m = sys_mutex_create(&mut k, true);
    let s = sys_semaphore_create(&mut k, 4);
    // acquired while detection is off: nothing is on the books
    assert_eq!(sys_mutex_lock(&mut k, t1, m), Ok(AcquireOutcome::Acquired));
    assert_eq!(k.ledger.allocation[t1][0][m], 0);
    sys_enable_deadlock_detect(&mut k, 1);
    // the rebuild attributes the mutex to its recorded owner
    assert_eq!(k.ledger.allocation[t1][0][m], 1);
    assert_eq!(k.ledger.allocation[t0][0][m], 0);
    assert_eq!(k.ledger.available[0][m], 0);
    assert_eq!(k.ledger.available[1][s], 4);
    // a release under detection is now covered by the rebuilt books
    assert_eq!(sys_mutex_unlock(&mut k, t1, m), Ok(None));
    assert_eq!(k.ledger.available[0][m], 1);
    // disabling keeps the ledger as it stands
    sys_enable_deadlock_detect(&mut k, 0);
    assert!(!k.enable_deadlock_detect);
    assert_eq!(k.ledger.available[0][m], 1);
}

#[test]
fn semaphore_up_without_waiters_banks_the_unit() {
    let mut k = init();
    let t = sys_spawn(&mut k);
    let s = sys_semaphore_create(&mut k, 0);
    assert_eq!(sys_semaphore_up(&mut k, t, s), Ok(None));
    assert_eq!(sys_semaphore_up(&mut k, t, s), Ok(None));
    assert_eq!(k.semaphore_list[s].as_ref().unwrap().count, 2);
}

#[test]
fn permission_bits_decode_independently() {
    assert!(Flag(0x1).is_read() && !Flag(0x1).is_write() && !Flag(0x1).is_execute());
    assert!(!Flag(0x2).is_read() && Flag(0x2).is_write() && !Flag(0x2).is_execute());
    assert!(!Flag(0x4).is_read() && !Flag(0x4).is_write() && Flag(0x4).is_execute());
    assert!(Flag(0x7).is_read() && Flag(0x7).is_write() && Flag(0x7).is_execute());
    assert!(!Flag(0x0).is_read() && !Flag(0x0).is_write() && !Flag(0x0).is_execute());
}

#[test]
fn spin_retry_under_detection_leaves_no_declared_demand() {
    let mut k = init();
    let t0 = sys_spawn(&mut k);
    let t1 = sys_spawn(&mut k);
    sys_enable_deadlock_detect(&mut k, 1);
    let m = sys_mutex_create(&mut k, false);
    assert_eq!(sys_mutex_lock(&mut k, t0, m), Ok(AcquireOutcome::Acquired));
    // the retrying task was never enqueued, so nothing stays on the books
    assert_eq!(sys_mutex_lock(&mut k, t1, m), Ok(AcquireOutcome::Retry));
    assert_eq!(k.ledger.need[t1][0][m], 0);
    assert_eq!(sys_mutex_lock(&mut k, t1, m), Ok(AcquireOutcome::Retry));
    assert_eq!(k.ledger.need[t1][0][m], 0);
    // after the holder releases, the retrying task can be admitted
    assert_eq!(sys_mutex_unlock(&mut k, t0, m), Ok(None));
    assert_eq!(sys_mutex_lock(&mut k, t1, m), Ok(AcquireOutcome::Acquired));
}

#[test]
fn condvar_wait_releases_the_booking_under_detection() {
    let mut k = init();
    let t0 = sys_spawn(&mut k);
    let t1 = sys_spawn(&mut k);
    sys_enable_deadlock_detect(&mut k, 1);
    let m = sys_mutex_create(&mut k, true);
    let cv = sys_condvar_create(&mut k);
    assert_eq!(sys_mutex_lock(&mut k, t0, m), Ok(AcquireOutcome::Acquired));
    assert_eq!(sys_mutex_lock(&mut k, t1, m), Ok(AcquireOutcome::Blocked));
    // waiting releases the mutex through the regular release path: the
    // lock and its booking go to the queued t1
    assert_eq!(sys_condvar_wait(&mut k, t0, cv, m), Ok(Some(t1)));
    assert_eq!(k.ledger.allocation[t0][0][m], 0);
    assert_eq!(k.ledger.allocation[t1][0][m], 1);
    assert_eq!(k.tasks[t0].status, TaskStatus::Blocked);
    // t1 finishes and releases; the signalled t0 then reacquires
    assert_eq!(sys_condvar_signal(&mut k, cv), Ok(Some(t0)));
    assert_eq!(sys_mutex_lock(&mut k, t0, m), Ok(AcquireOutcome::Blocked));
    assert_eq!(sys_mutex_unlock(&mut k, t1, m), Ok(Some(t0)));
    assert_eq!(k.ledger.allocation[t0][0][m], 1);
    assert_eq!(sys_mutex_unlock(&mut k, t0, m), Ok(None));
}

#[test]
fn wait_without_booked_hold_is_refused_under_detection() {
    let mut k = init();
    let t0 = sys_spawn(&mut k);
    let t1 = sys_spawn(&mut k);
    sys_enable_deadlock_detect(&mut k, 1);
    let m = sys_mutex_create(&mut k, true);
    let cv = sys_condvar_create(&mut k);
    assert_eq!(sys_mutex_lock(&mut k, t0, m), Ok(AcquireOutcome::Acquired));
    assert_eq!(sys_condvar_wait(&mut k, t1, cv, m), Err(KernelError::NotOwner));
    // the holder's state is untouched by the refused wait
    assert_eq!(k.ledger.allocation[t0][0][m], 1);
    assert_ne!(k.tasks[t1].status, TaskStatus::Blocked);
}
