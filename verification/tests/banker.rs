use kernel_core::banker::safety_check;

/// Exhaustive reference: does some ordering of all tasks let each finish?
fn search(need: &Vec<Vec<usize>>, alloc: &Vec<Vec<usize>>, work: &mut Vec<usize>, done: &mut Vec<bool>) -> bool {
    if done.iter().all(|d| *d) {
        return true;
    }
    for t in 0..need.len() {
        if !done[t] && need[t].iter().zip(work.iter()).all(|(n, w)| n <= w) {
            for j in 0..work.len() {
                work[j] += alloc[t][j];
            }
            done[t] = true;
            if search(need, alloc, work, done) {
                return true;
            }
            done[t] = false;
            for j in 0..work.len() {
                work[j] -= alloc[t][j];
            }
        }
    }
    false
}

fn exhaustive_safe(need: &Vec<Vec<usize>>, alloc: &Vec<Vec<usize>>, avail: &Vec<usize>) -> bool {
    let mut work = avail.clone();
    let mut done = vec![false; need.len()];
    search(need, alloc, &mut work, &mut done)
}

fn check_both(need: Vec<Vec<usize>>, alloc: Vec<Vec<usize>>, avail: Vec<usize>, expected: bool) {
    assert_eq!(exhaustive_safe(&need, &alloc, &avail), expected);
    assert_eq!(safety_check(&need, &alloc, &avail), expected);
}

#[test]
fn trivial_states_are_safe() {
    check_both(vec![], vec![], vec![], true);
    check_both(vec![vec![0, 0], vec![0, 0]], vec![vec![0, 0], vec![0, 0]], vec![0, 0], true);
}

#[test]
fn classic_grantable_state_is_safe() {
    // three tasks, two resources; completion order 1, 0, 2 works
    check_both(
        vec![vec![1, 2], vec![0, 1], vec![3, 0]],
        vec![vec![1, 0], vec![1, 1], vec![0, 1]],
        vec![1, 1],
        true,
    );
}

#[test]
fn circular_hold_and_wait_is_unsafe() {
    // two tasks each hold one unit the other still needs, nothing available
    check_both(
        vec![vec![0, 1], vec![1, 0]],
        vec![vec![1, 0], vec![0, 1]],
        vec![0, 0],
        false,
    );
}

#[test]
fn safety_needs_the_right_release_order() {
    // only task 2 can finish first; its allocation then unblocks the rest
    check_both(
        vec![vec![2, 0, 0], vec![0, 2, 0], vec![1, 1, 0]],
        vec![vec![0, 1, 0], vec![1, 0, 0], vec![1, 1, 1]],
        vec![1, 1, 0],
        true,
    );
}

#[test]
fn four_task_instances_match_exhaustive_search() {
    check_both(
        vec![vec![1, 0, 2], vec![0, 1, 0], vec![2, 0, 0], vec![0, 0, 1]],
        vec![vec![0, 1, 0], vec![1, 0, 1], vec![0, 0, 1], vec![1, 1, 0]],
        vec![0, 0, 1],
        true,
    );
    check_both(
        vec![vec![2, 1], vec![1, 2], vec![2, 2], vec![1, 1]],
        vec![vec![1, 0], vec![0, 1], vec![1, 1], vec![0, 0]],
        vec![0, 0],
        false,
    );
}

#[test]
fn unfinishable_task_blocks_safety_even_with_stock() {
    check_both(
        vec![vec![5], vec![0]],
        vec![vec![1], vec![1]],
        vec![2],
        false,
    );
    check_both(
        vec![vec![3], vec![0]],
        vec![vec![1], vec![1]],
        vec![2],
        true,
    );
}
