use kernel_core::KernelError;
use kernel_core::kernel::{
    init, sys_spawn, sys_enable_deadlock_detect, sys_mutex_create, sys_mutex_lock,
    sys_mutex_unlock, sys_semaphore_create, sys_semaphore_down, sys_semaphore_up,
};
use kernel_core::sync::AcquireOutcome;
use kernel_core::task::TaskStatus;

#[test]
fn deadlock_denied_when_detection_enabled() {
    // 2 tasks, 2 mutexes; T0 holds M0 and requests M1, T1 holds M1 and
    // requests M0: the second cross request gets the denial sentinel.
    let mut k = init();
    let t0 = sys_spawn(&mut k);
    let t1 = sys_spawn(&mut k);
    sys_enable_deadlock_detect(&mut k, 1);
    let m0 = sys_mutex_create(&mut k, true);
    let m1 = sys_mutex_create(&mut k, true);
    assert_eq!(sys_mutex_lock(&mut k, t0, m0), Ok(AcquireOutcome::Acquired));
    assert_eq!(sys_mutex_lock(&mut k, t1, m1), Ok(AcquireOutcome::Acquired));
    // safe: T1 can still finish and release M1; T0 blocks awaiting it,
    // its declared demand staying on the books while it waits
    assert_eq!(sys_mutex_lock(&mut k, t0, m1), Ok(AcquireOutcome::Blocked));
    assert_eq!(k.ledger.need[t0][0][m1], 1);
    assert_eq!(sys_mutex_lock(&mut k, t1, m0), Err(KernelError::UnsafeAcquisition));
    // T0's earlier acquisition is untouched
    assert_eq!(k.ledger.allocation[t0][0][m0], 1);
    assert_eq!(k.mutex_list[m0].as_ref().unwrap().owner, Some(t0));
}

#[test]
fn same_interleaving_blocks_when_detection_disabled() {
    let mut k = init();
    let t0 = sys_spawn(&mut k);
    let t1 = sys_spawn(&mut k);
    let m0 = sys_mutex_create(&mut k, true);
    let m1 = sys_mutex_create(&mut k, true);
    assert_eq!(sys_mutex_lock(&mut k, t0, m0), Ok(AcquireOutcome::Acquired));
    assert_eq!(sys_mutex_lock(&mut k, t1, m1), Ok(AcquireOutcome::Acquired));
    assert_eq!(sys_mutex_lock(&mut k, t0, m1), Ok(AcquireOutcome::Blocked));
    assert_eq!(sys_mutex_lock(&mut k, t1, m0), Ok(AcquireOutcome::Blocked));
    assert_eq!(k.tasks[t0].status, TaskStatus::Blocked);
    assert_eq!(k.tasks[t1].status, TaskStatus::Blocked);
}

#[test]
fn semaphore_as_mutex_wakes_five_tasks_in_down_order() {
    let mut k = init();
    let mut tids = Vec::new();
    for _ in 0..5 {
        tids.push(sys_spawn(&mut k));
    }
    let s = sys_semaphore_create(&mut k, 1);
    assert_eq!(sys_semaphore_down(&mut k, tids[0], s), Ok(AcquireOutcome::Acquired));
    for i in 1..5 {
        assert_eq!(sys_semaphore_down(&mut k, tids[i], s), Ok(AcquireOutcome::Blocked));
    }
    // each up passes the unit to the earliest waiter still queued
    assert_eq!(sys_semaphore_up(&mut k, tids[0], s), Ok(Some(tids[1])));
    assert_eq!(sys_semaphore_up(&mut k, tids[1], s), Ok(Some(tids[2])));
    assert_eq!(sys_semaphore_up(&mut k, tids[2], s), Ok(Some(tids[3])));
    assert_eq!(sys_semaphore_up(&mut k, tids[3], s), Ok(Some(tids[4])));
    assert_eq!(sys_semaphore_up(&mut k, tids[4], s), Ok(None));
    assert_eq!(k.semaphore_list[s].as_ref().unwrap().count, 1);
}

#[test]
fn freed_slot_is_reused_and_its_column_reset() {
    let mut k = init();
    let t0 = sys_spawn(&mut k);
    let t1 = sys_spawn(&mut k);
    sys_enable_deadlock_detect(&mut k, 1);
    let m0 = sys_mutex_create(&mut k, true);
    assert_eq!(m0, 0);
    assert_eq!(sys_mutex_lock(&mut k, t0, m0), Ok(AcquireOutcome::Acquired));
    assert_eq!(k.ledger.allocation[t0][0][m0], 1);
    // dispose the slot; the stale column is still on the books
    k.mutex_list[m0] = None;
    // the next create prefers the freed slot over growth and resets its column
    let m_again = sys_mutex_create(&mut k, true);
    assert_eq!(m_again, 0);
    assert_eq!(k.mutex_list.len(), 1);
    assert_eq!(k.ledger.allocation[t0][0][0], 0);
    assert_eq!(k.ledger.allocation[t1][0][0], 0);
    assert_eq!(k.ledger.need[t0][0][0], 0);
    assert_eq!(k.ledger.need[t1][0][0], 0);
    assert_eq!(k.ledger.available[0][0], 1);
}

#[test]
fn blocked_tasks_wake_in_arrival_order() {
    let mut k = init();
    let t0 = sys_spawn(&mut k);
    let t1 = sys_spawn(&mut k);
    let t2 = sys_spawn(&mut k);
    let t3 = sys_spawn(&mut k);
    let m = sys_mutex_create(&mut k, true);
    assert_eq!(sys_mutex_lock(&mut k, t0, m), Ok(AcquireOutcome::Acquired));
    assert_eq!(sys_mutex_lock(&mut k, t1, m), Ok(AcquireOutcome::Blocked));
    assert_eq!(sys_mutex_lock(&mut k, t2, m), Ok(AcquireOutcome::Blocked));
    assert_eq!(sys_mutex_lock(&mut k, t3, m), Ok(AcquireOutcome::Blocked));
    assert_eq!(sys_mutex_unlock(&mut k, t0, m), Ok(Some(t1)));
    assert_eq!(sys_mutex_unlock(&mut k, t1, m), Ok(Some(t2)));
    assert_eq!(sys_mutex_unlock(&mut k, t2, m), Ok(Some(t3)));
    assert_eq!(sys_mutex_unlock(&mut k, t3, m), Ok(None));
}

#[test]
fn only_one_task_holds_the_blocking_mutex() {
    let mut k = init();
    let t0 = sys_spawn(&mut k);
    let t1 = sys_spawn(&mut k);
    let m = sys_mutex_create(&mut k, true);
    assert_eq!(sys_mutex_lock(&mut k, t0, m), Ok(AcquireOutcome::Acquired));
    assert_eq!(sys_mutex_lock(&mut k, t1, m), Ok(AcquireOutcome::Blocked));
    // ownership is a single record: t0 holds, t1 does not
    assert_eq!(k.mutex_list[m].as_ref().unwrap().owner, Some(t0));
    // hand-off moves the one holding state to t1
    assert_eq!(sys_mutex_unlock(&mut k, t0, m), Ok(Some(t1)));
    assert_eq!(k.mutex_list[m].as_ref().unwrap().owner, Some(t1));
}

#[test]
fn denied_acquisition_rolls_the_ledger_back_exactly() {
    let mut k = init();
    let t0 = sys_spawn(&mut k);
    let t1 = sys_spawn(&mut k);
    sys_enable_deadlock_detect(&mut k, 1);
    let m0 = sys_mutex_create(&mut k, true);
    let m1 = sys_mutex_create(&mut k, true);
    sys_mutex_lock(&mut k, t0, m0).unwrap();
    sys_mutex_lock(&mut k, t1, m1).unwrap();
    sys_mutex_lock(&mut k, t0, m1).unwrap();
    let need_before = k.ledger.need.clone();
    let alloc_before = k.ledger.allocation.clone();
    let avail_before = k.ledger.available.clone();
    assert_eq!(sys_mutex_lock(&mut k, t1, m0), Err(KernelError::UnsafeAcquisition));
    assert_eq!(k.ledger.need, need_before);
    assert_eq!(k.ledger.allocation, alloc_before);
    assert_eq!(k.ledger.available, avail_before);
}

#[test]
fn semaphore_acquisition_can_be_denied_too() {
    let mut k = init();
    let t0 = sys_spawn(&mut k);
    let t1 = sys_spawn(&mut k);
    sys_enable_deadlock_detect(&mut k, 1);
    let s0 = sys_semaphore_create(&mut k, 1);
    let s1 = sys_semaphore_create(&mut k, 1);
    assert_eq!(sys_semaphore_down(&mut k, t0, s0), Ok(AcquireOutcome::Acquired));
    assert_eq!(sys_semaphore_down(&mut k, t1, s1), Ok(AcquireOutcome::Acquired));
    assert_eq!(sys_semaphore_down(&mut k, t0, s1), Ok(AcquireOutcome::Blocked));
    let need_before = k.ledger.need.clone();
    assert_eq!(sys_semaphore_down(&mut k, t1, s0), Err(KernelError::UnsafeAcquisition));
    assert_eq!(k.ledger.need, need_before);
}

#[test]
fn handoff_keeps_the_mutex_booked_under_detection() {
    let mut k = init();
    let t0 = sys_spawn(&mut k);
    let t1 = sys_spawn(&mut k);
    let t2 = sys_spawn(&mut k);
    sys_enable_deadlock_detect(&mut k, 1);
    let m = sys_mutex_create(&mut k, true);
    assert_eq!(sys_mutex_lock(&mut k, t0, m), Ok(AcquireOutcome::Acquired));
    assert_eq!(sys_mutex_lock(&mut k, t1, m), Ok(AcquireOutcome::Blocked));
    assert_eq!(sys_mutex_lock(&mut k, t2, m), Ok(AcquireOutcome::Blocked));
    assert_eq!(k.ledger.need[t1][0][m], 1);
    assert_eq!(k.ledger.need[t2][0][m], 1);
    // the hand-off moves the booking with the lock: the unit never becomes
    // free, and the woken holder's declared demand is settled
    assert_eq!(sys_mutex_unlock(&mut k, t0, m), Ok(Some(t1)));
    assert_eq!(k.ledger.allocation[t0][0][m], 0);
    assert_eq!(k.ledger.allocation[t1][0][m], 1);
    assert_eq!(k.ledger.need[t1][0][m], 0);
    assert_eq!(k.ledger.available[0][m], 0);
    // so the woken holder's own release is covered, and the chain runs on
    assert_eq!(sys_mutex_unlock(&mut k, t1, m), Ok(Some(t2)));
    assert_eq!(k.ledger.allocation[t2][0][m], 1);
    assert_eq!(k.ledger.need[t2][0][m], 0);
    assert_eq!(sys_mutex_unlock(&mut k, t2, m), Ok(None));
    assert_eq!(k.ledger.allocation[t2][0][m], 0);
    assert_eq!(k.ledger.available[0][m], 1);
}

#[test]
fn handoff_keeps_the_semaphore_booked_under_detection() {
    let mut k = init();
    let t0 = sys_spawn(&mut k);
    let t1 = sys_spawn(&mut k);
    let t2 = sys_spawn(&mut k);
    sys_enable_deadlock_detect(&mut k, 1);
    let s = sys_semaphore_create(&mut k, 1);
    assert_eq!(sys_semaphore_down(&mut k, t0, s), Ok(AcquireOutcome::Acquired));
    assert_eq!(sys_semaphore_down(&mut k, t1, s), Ok(AcquireOutcome::Blocked));
    assert_eq!(sys_semaphore_down(&mut k, t2, s), Ok(AcquireOutcome::Blocked));
    assert_eq!(sys_semaphore_up(&mut k, t0, s), Ok(Some(t1)));
    assert_eq!(k.ledger.allocation[t1][1][s], 1);
    assert_eq!(k.ledger.need[t1][1][s], 0);
    assert_eq!(k.ledger.available[1][s], 0);
    assert_eq!(sys_semaphore_up(&mut k, t1, s), Ok(Some(t2)));
    assert_eq!(k.ledger.allocation[t2][1][s], 1);
    assert_eq!(sys_semaphore_up(&mut k, t2, s), Ok(None));
    assert_eq!(k.ledger.allocation[t2][1][s], 0);
    assert_eq!(k.ledger.available[1][s], 1);
}

#[test]
fn denied_deadlock_unwinds_once_a_holder_releases() {
    // the state of the denial scenario is not wedged: when T1 releases M1,
    // the blocked T0 receives it with the booking, finishes, and releases
    // everything
    let mut k = init();
    let t0 = sys_spawn(&mut k);
    let t1 = sys_spawn(&mut k);
    sys_enable_deadlock_detect(&mut k, 1);
    let m0 = sys_mutex_create(&mut k, true);
    let m1 = sys_mutex_create(&mut k, true);
    assert_eq!(sys_mutex_lock(&mut k, t0, m0), Ok(AcquireOutcome::Acquired));
    assert_eq!(sys_mutex_lock(&mut k, t1, m1), Ok(AcquireOutcome::Acquired));
    assert_eq!(sys_mutex_lock(&mut k, t0, m1), Ok(AcquireOutcome::Blocked));
    assert_eq!(sys_mutex_lock(&mut k, t1, m0), Err(KernelError::UnsafeAcquisition));
    assert_eq!(sys_mutex_unlock(&mut k, t1, m1), Ok(Some(t0)));
    assert_eq!(k.ledger.allocation[t0][0][m1], 1);
    assert_eq!(sys_mutex_unlock(&mut k, t0, m1), Ok(None));
    assert_eq!(sys_mutex_unlock(&mut k, t0, m0), Ok(None));
    assert_eq!(k.ledger.available[0][m0], 1);
    assert_eq!(k.ledger.available[0][m1], 1);
}
