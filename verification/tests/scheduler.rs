use kernel_core::sched::TaskManager;
use kernel_core::kernel::{init, sys_spawn, sys_set_priority, sys_yield, fetch_task};
use kernel_core::stride::{pass_lt, STRIDE_UNIT};

#[test]
fn fetch_on_empty_queue_is_none() {
    let mut q = TaskManager::new();
    assert_eq!(q.fetch(), None);
    let mut k = init();
    assert_eq!(fetch_task(&mut k), None);
}

#[test]
fn fetch_returns_minimum_pass() {
    let mut q = TaskManager::new();
    q.add(0, 300);
    q.add(1, 100);
    q.add(2, 200);
    assert_eq!(q.fetch().unwrap().tid, 1);
    assert_eq!(q.fetch().unwrap().tid, 2);
    assert_eq!(q.fetch().unwrap().tid, 0);
    assert_eq!(q.fetch(), None);
}

#[test]
fn equal_pass_ties_break_by_smaller_tid() {
    let mut q = TaskManager::new();
    q.add(2, 50);
    q.add(0, 50);
    q.add(1, 50);
    assert_eq!(q.fetch().unwrap().tid, 0);
    assert_eq!(q.fetch().unwrap().tid, 1);
    assert_eq!(q.fetch().unwrap().tid, 2);
}

#[test]
fn wraparound_comparison_orders_across_overflow() {
    // a counter just before wrapping precedes one just after the wrap
    assert!(pass_lt(u64::MAX - 5, 10));
    assert!(!pass_lt(10, u64::MAX - 5));
    let mut q = TaskManager::new();
    q.add(7, 10); // wrapped counter, logically later
    q.add(3, u64::MAX - 5); // about to wrap, logically earlier
    assert_eq!(q.fetch().unwrap().tid, 3);
    assert_eq!(q.fetch().unwrap().tid, 7);
}

#[test]
fn higher_priority_advances_more_slowly() {
    let mut k = init();
    let t0 = sys_spawn(&mut k);
    let t1 = sys_spawn(&mut k);
    // priority 2: stride unit / 2 per enqueue; priority 16 (default): / 16
    sys_set_priority(&mut k, t0, 2).unwrap();
    // drain the initial enqueues
    assert_eq!(fetch_task(&mut k), Some(t0));
    assert_eq!(fetch_task(&mut k), Some(t1));
    // both re-enqueue once; t0 pays a far larger stride toll
    sys_yield(&mut k, t0);
    sys_yield(&mut k, t1);
    assert_eq!(k.tasks[t0].pass, STRIDE_UNIT / 16 + STRIDE_UNIT / 2);
    assert_eq!(k.tasks[t1].pass, 2 * (STRIDE_UNIT / 16));
    // the cheaper (higher-priority) task is dispatched first
    assert_eq!(fetch_task(&mut k), Some(t1));
    assert_eq!(fetch_task(&mut k), Some(t0));
}
