use os::sync::mutex::{Mutex, MutexBlocking, MutexSpin};
use os::sync::queue::{contains_tid, queue_contains_tid, queue_tids, remove_waiter, tid_position, WaitStep};
use std::collections::VecDeque;

#[test]
fn spin_free_mutex_is_taken() {
    let mut m = MutexSpin::new();
    assert_eq!(m.owner_tid(), None);
    assert_eq!(m.lock(3), WaitStep::Acquired);
    assert_eq!(m.owner_tid(), Some(3));
    assert!(m.waiting_tids().is_empty());
    assert_eq!(m.unlock(), None);
    assert_eq!(m.owner_tid(), None);
}

#[test]
fn spin_handover_is_first_come_first_served() {
    let mut m = MutexSpin::new();
    assert_eq!(m.lock(1), WaitStep::Acquired);
    assert_eq!(m.lock(2), WaitStep::Blocked);
    assert_eq!(m.lock(3), WaitStep::Blocked);
    // a thread that was woken without a grant keeps its place
    assert_eq!(m.resume_lock(2), WaitStep::Blocked);
    assert_eq!(m.waiting_tids(), vec![2, 3]);
    assert_eq!(m.unlock(), Some(2));
    assert_eq!(m.owner_tid(), Some(2));
    // nobody overtakes the thread that the mutex was handed to
    assert_eq!(m.lock(4), WaitStep::Blocked);
    assert_eq!(m.resume_lock(2), WaitStep::Acquired);
    assert_eq!(m.owner_tid(), Some(2));
    assert_eq!(m.waiting_tids(), vec![3, 4]);
}

#[test]
fn spin_owner_that_locks_again_waits_for_itself() {
    let mut m = MutexSpin::new();
    assert_eq!(m.lock(1), WaitStep::Acquired);
    assert_eq!(m.lock(1), WaitStep::Blocked);
    assert_eq!(m.waiting_tids(), vec![1]);
    assert_eq!(m.unlock(), Some(1));
    assert_eq!(m.resume_lock(1), WaitStep::Acquired);
}

#[test]
fn blocking_handover() {
    let mut m = MutexBlocking::new();
    assert_eq!(m.lock(1), WaitStep::Acquired);
    assert_eq!(m.lock(2), WaitStep::Blocked);
    assert_eq!(m.lock(2), WaitStep::Blocked);
    assert_eq!(m.waiting_tids(), vec![2]);
    assert_eq!(m.unlock(), Some(2));
    assert_eq!(m.lock(5), WaitStep::Blocked);
    assert_eq!(m.resume_lock(2), WaitStep::Acquired);
    assert_eq!(m.owner_tid(), Some(2));
    assert_eq!(m.unlock(), Some(5));
    assert_eq!(m.resume_lock(5), WaitStep::Acquired);
    assert_eq!(m.unlock(), None);
    assert_eq!(m.owner_tid(), None);
}

#[test]
fn blocking_grant_can_be_noticed_by_a_new_request() {
    let mut m = MutexBlocking::new();
    m.lock(1);
    m.lock(2);
    m.unlock();
    assert_eq!(m.lock(2), WaitStep::Acquired);
    assert_eq!(m.lock(2), WaitStep::Blocked);
}

#[test]
fn blocking_wake_up_without_grant_keeps_waiting() {
    let mut m = MutexBlocking::new();
    m.lock(1);
    m.lock(2);
    assert_eq!(m.resume_lock(2), WaitStep::Blocked);
    assert_eq!(m.owner_tid(), Some(1));
    assert_eq!(m.waiting_tids(), vec![2]);
    assert_eq!(m.unlock(), Some(2));
    assert_eq!(m.resume_lock(2), WaitStep::Acquired);
    assert_eq!(m.owner_tid(), Some(2));
    assert!(m.waiting_tids().is_empty());
}

#[test]
fn resumed_request_takes_a_free_mutex() {
    let mut m = MutexBlocking::new();
    assert_eq!(m.resume_lock(2), WaitStep::Acquired);
    assert_eq!(m.owner_tid(), Some(2));
    assert_eq!(m.resume_lock(3), WaitStep::Blocked);
    assert_eq!(m.owner_tid(), Some(2));
}

#[test]
fn mutexes_behind_the_trait() {
    let mut list: Vec<Box<dyn Mutex>> = vec![Box::new(MutexSpin::new()), Box::new(MutexBlocking::new())];
    for m in list.iter_mut() {
        assert_eq!(m.lock(7), WaitStep::Acquired);
        assert_eq!(m.lock(8), WaitStep::Blocked);
        assert_eq!(m.owner_tid(), Some(7));
        assert_eq!(m.waiting_tids(), vec![8]);
        assert_eq!(m.unlock(), Some(8));
    }
}

#[test]
fn queues_of_tids() {
    let mut q: VecDeque<usize> = VecDeque::from(vec![4, 2, 4]);
    assert_eq!(tid_position(&q, 2), Some(1));
    assert_eq!(tid_position(&q, 9), None);
    assert!(queue_contains_tid(&q, 4));
    assert!(!queue_contains_tid(&q, 5));
    assert!(remove_waiter(&mut q, 4));
    assert_eq!(queue_tids(&q), vec![2, 4]);
    assert!(!remove_waiter(&mut q, 9));
    assert_eq!(queue_tids(&q), vec![2, 4]);
    assert!(contains_tid(&vec![1, 2], 2));
    assert!(!contains_tid(&vec![], 2));
}

#[test]
fn waiting_is_bounded_by_the_place_in_line() {
    let mut m = MutexBlocking::new();
    m.lock(1);
    for tid in [4, 2, 9] {
        assert_eq!(m.lock(tid), WaitStep::Blocked);
    }
    assert_eq!(m.waiting_tids(), vec![4, 2, 9]);
    m.unlock();
    m.unlock();
    m.unlock();
    assert_eq!(m.owner_tid(), Some(9));
    assert_eq!(m.resume_lock(9), WaitStep::Acquired);
}

#[test]
fn both_kinds_lock_alike() {
    let mut a = MutexSpin::new();
    let mut b = MutexBlocking::new();
    for tid in [1, 2, 2, 3, 1] {
        assert_eq!(a.lock(tid), b.lock(tid));
        assert_eq!(a.owner_tid(), b.owner_tid());
        assert_eq!(a.waiting_tids(), b.waiting_tids());
    }
    assert_eq!(a.unlock(), b.unlock());
    assert_eq!(a.lock(2), b.lock(2));
    assert_eq!(a.owner_tid(), b.owner_tid());
}
