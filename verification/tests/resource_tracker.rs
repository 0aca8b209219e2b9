use rcore_os::sync::ResourceTracker;

/// Registers `threads` threads and the given resource totals on an enabled tracker.
fn tracker_with(threads: usize, totals: &[usize]) -> ResourceTracker {
    let mut t = ResourceTracker::new();
    t.set_enable(true);
    for tid in 1..threads {
        t.resize(tid);
    }
    for (r, &v) in totals.iter().enumerate() {
        t.add_resource(r, v);
    }
    t
}

/// Gives thread `tid` `n` units of resource `r`, declaring the need first.
fn hold(t: &mut ResourceTracker, tid: usize, r: usize, n: usize) {
    t.check_safe_state(tid, r, n);
    t.request_resource(tid, r, n);
}

/// The state of the classic five-thread, three-resource example.
fn textbook() -> ResourceTracker {
    let mut t = tracker_with(5, &[10, 5, 7]);
    let allocation = [[0, 1, 0], [2, 0, 0], [3, 0, 2], [2, 1, 1], [0, 0, 2]];
    for (tid, row) in allocation.iter().enumerate() {
        for (r, &n) in row.iter().enumerate() {
            if n > 0 {
                hold(&mut t, tid, r, n);
            }
        }
    }
    t
}

#[test]
fn disabled_tracker_answers_safe() {
    let mut t = ResourceTracker::new();
    assert!(t.check_safe_state(7, 9, 100));
    t.resize(4);
    t.add_resource(3, 5);
    t.request_resource(2, 2, 1);
    t.release_resource(2, 2, 1);
    assert!(t.check_safe_state(0, 0, 1));
}

#[test]
fn textbook_state_is_safe() {
    let mut t = textbook();
    let need = [[7, 4, 3], [1, 2, 2], [6, 0, 0], [0, 1, 1], [4, 3, 1]];
    let mut last = false;
    for (tid, row) in need.iter().enumerate() {
        for (r, &n) in row.iter().enumerate() {
            if n > 0 {
                last = t.check_safe_state(tid, r, n);
            }
        }
    }
    assert!(last);
    // a need beyond everything there is can never be met
    assert!(!t.check_safe_state(2, 0, 5));
}

#[test]
fn two_threads_each_waiting_for_the_other_deadlock() {
    let mut t = tracker_with(2, &[2]);
    hold(&mut t, 0, 0, 1);
    hold(&mut t, 1, 0, 1);
    // thread 0 waits for one more: thread 1 can finish and hand its unit back
    assert!(t.check_safe_state(0, 0, 1));
    // now thread 1 waits too: neither can finish
    assert!(!t.check_safe_state(1, 0, 1));
}

#[test]
fn release_restores_what_request_took() {
    let mut t = tracker_with(2, &[1]);
    assert!(t.check_safe_state(0, 0, 1));
    t.request_resource(0, 0, 1);
    // thread 1 now needs the unit thread 0 holds; thread 0 needs nothing
    assert!(t.check_safe_state(1, 0, 1));
    t.release_resource(0, 0, 1);
    // with the unit back in the pool, another thread's extra need of one is met
    assert!(t.check_safe_state(0, 0, 0));
    let mut u = tracker_with(2, &[1]);
    u.check_safe_state(0, 0, 1);
    u.request_resource(0, 0, 1);
    u.release_resource(0, 0, 1);
    // pool back to one unit: thread 1 needing two can never finish
    assert!(!u.check_safe_state(1, 0, 2));
}

#[test]
fn zero_request_keeps_answer() {
    let mut t = textbook();
    let a = t.check_safe_state(3, 1, 0);
    let b = t.check_safe_state(3, 1, 0);
    assert_eq!(a, b);
    assert!(a);
}

#[test]
fn resize_adds_zero_rows() {
    let mut t = tracker_with(1, &[3]);
    t.resize(4);
    // threads 1..=4 exist with nothing held or needed
    assert!(t.check_safe_state(4, 0, 3));
    assert!(t.check_safe_state(2, 0, 3));
    // a thread that needs more than there is
    assert!(!t.check_safe_state(1, 0, 4));
}

#[test]
fn resize_resets_a_thread() {
    let mut t = tracker_with(2, &[2]);
    hold(&mut t, 1, 0, 1);
    assert!(!t.check_safe_state(0, 0, 3));
    t.resize(0);
    // thread 0's need is cleared, thread 1 still holds its unit
    assert!(t.check_safe_state(0, 0, 1));
}

#[test]
fn add_resource_grows_and_clears_columns() {
    let mut t = tracker_with(2, &[]);
    t.add_resource(2, 4);
    // resources 0 and 1 exist with nothing free
    assert!(!t.check_safe_state(0, 1, 1));
    t.add_resource(1, 1);
    // re-registering resource 1 clears thread 0's need of it
    assert!(t.check_safe_state(1, 2, 4));
    assert!(t.check_safe_state(1, 1, 1));
}

#[test]
fn release_keeps_a_safe_state_safe() {
    let mut t = tracker_with(2, &[3]);
    hold(&mut t, 0, 0, 2);
    assert!(t.check_safe_state(1, 0, 1));
    t.release_resource(0, 0, 1);
    assert!(t.check_safe_state(1, 0, 0));
}

#[test]
fn registering_threads_and_resources_keeps_safety() {
    let mut t = textbook();
    assert!(t.check_safe_state(0, 0, 0));
    t.resize(7);
    assert!(t.check_safe_state(7, 0, 0));
    t.add_resource(3, 0);
    assert!(t.check_safe_state(6, 3, 0));
    t.add_resource(1, 2);
    assert!(t.check_safe_state(0, 1, 2));
}
