use os::sync::queue::WaitStep;
use os::sync::semaphore::Semaphore;

#[test]
fn units_are_taken_and_given_back() {
    let mut s = Semaphore::new(2);
    assert_eq!(s.available_count(), 2);
    assert_eq!(s.down(5), WaitStep::Acquired);
    assert_eq!(s.down(3), WaitStep::Acquired);
    assert_eq!(s.available_count(), 0);
    assert_eq!(s.holder_tids(), vec![3, 5]);
    assert_eq!(s.up(5), None);
    assert_eq!(s.holder_tids(), vec![3]);
    assert_eq!(s.available_count(), 1);
    assert_eq!(s.up(3), None);
    assert!(s.holder_tids().is_empty());
    assert_eq!(s.available_count(), 2);
}

#[test]
fn a_holder_of_two_units_stays_one_until_both_are_back() {
    let mut s = Semaphore::new(2);
    s.down(1);
    s.down(1);
    assert_eq!(s.up(1), None);
    assert_eq!(s.holder_tids(), vec![1]);
    assert_eq!(s.up(1), None);
    assert!(s.holder_tids().is_empty());
}

#[test]
fn waiting_threads_get_units_in_order() {
    let mut s = Semaphore::new(1);
    assert_eq!(s.down(1), WaitStep::Acquired);
    assert_eq!(s.down(2), WaitStep::Blocked);
    assert_eq!(s.down(3), WaitStep::Blocked);
    assert_eq!(s.available_count(), -2);
    assert_eq!(s.waiting_tids(), vec![2, 3]);
    assert_eq!(s.up(1), Some(2));
    assert_eq!(s.available_count(), -1);
    assert_eq!(s.waiting_tids(), vec![3]);
    assert_eq!(s.holder_tids(), vec![2]);
    s.resume_down(2);
    assert_eq!(s.holder_tids(), vec![2]);
    assert_eq!(s.up(2), Some(3));
    s.resume_down(3);
    assert_eq!(s.holder_tids(), vec![3]);
    assert_eq!(s.available_count(), 0);
    assert_eq!(s.up(3), None);
    assert_eq!(s.available_count(), 1);
}

#[test]
fn up_without_down_adds_a_unit() {
    let mut s = Semaphore::new(0);
    assert_eq!(s.up(9), None);
    assert_eq!(s.available_count(), 1);
    assert!(s.holder_tids().is_empty());
}

#[test]
fn up_of_a_stranger_wakes_a_waiter() {
    let mut s = Semaphore::new(0);
    assert_eq!(s.down(1), WaitStep::Blocked);
    assert_eq!(s.up(2), Some(1));
    assert_eq!(s.holder_tids(), vec![1]);
    assert_eq!(s.available_count(), 0);
}

#[test]
fn wake_up_without_grant_counts_as_holding() {
    let mut s = Semaphore::new(1);
    assert_eq!(s.down(1), WaitStep::Acquired);
    assert_eq!(s.down(2), WaitStep::Blocked);
    s.resume_down(2);
    assert!(s.waiting_tids().is_empty());
    assert_eq!(s.holder_tids(), vec![1, 2]);
    assert_eq!(s.units_held(2), 1);
    assert_eq!(s.available_count(), -1);
    // nobody is left to wake
    assert_eq!(s.up(1), None);
    assert_eq!(s.available_count(), 0);
    assert_eq!(s.holder_tids(), vec![2]);
}

#[test]
fn units_stay_in_order_over_a_run() {
    let mut s = Semaphore::new(2);
    let total = |s: &Semaphore| -> isize {
        let held: usize = s.holder_tids().iter().map(|tid| s.units_held(*tid)).sum();
        s.available_count() + held as isize + s.waiting_tids().len() as isize
    };
    assert_eq!(total(&s), 2);
    for tid in [1, 2, 3, 4] {
        s.down(tid);
        assert_eq!(total(&s), 2);
        assert_eq!(s.waiting_tids().len() as isize, (-s.available_count()).max(0));
    }
    assert_eq!(s.up(2), Some(3));
    s.resume_down(3);
    assert_eq!(total(&s), 2);
    assert_eq!(s.up(1), Some(4));
    s.resume_down(4);
    assert_eq!(total(&s), 2);
    assert_eq!(s.holder_tids(), vec![3, 4]);
    // a unit that was not held adds to them
    assert_eq!(s.up(1), None);
    assert_eq!(total(&s), 3);
}

#[test]
fn huge_count_wraps_to_negative() {
    let s = Semaphore::new(usize::MAX);
    assert_eq!(s.available_count(), -1);
    let s = Semaphore::new(isize::MAX as usize + 1);
    assert_eq!(s.available_count(), isize::MIN);
    let s = Semaphore::new(isize::MAX as usize);
    assert_eq!(s.available_count(), isize::MAX);
}

#[test]
fn units_held_are_counted_per_thread() {
    let mut s = Semaphore::new(3);
    s.down(1);
    s.down(1);
    s.down(2);
    assert_eq!(s.units_held(1), 2);
    assert_eq!(s.units_held(2), 1);
    assert_eq!(s.units_held(3), 0);
    assert_eq!(s.down(3), WaitStep::Blocked);
    assert_eq!(s.up(1), Some(3));
    assert_eq!(s.units_held(1), 1);
    assert_eq!(s.units_held(3), 1);
    assert_eq!(s.down(4), WaitStep::Blocked);
}
