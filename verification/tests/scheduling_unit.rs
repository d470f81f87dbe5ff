use rtcore::processes::scheduling::Scheduler;

#[test]
fn scheduler_starts_at_first_slot() {
    let s = Scheduler::new(vec![(1, 10), (2, 5)]);
    assert_eq!(s.time, 0);
    assert_eq!(s.periodic_index, 0);
    assert_eq!(s.periodic_time, 10);
    assert!(!s.periodic_yielded);
    assert_eq!(s.get_current_periodic_entry(), (1, 10));
}

#[test]
fn slot_change_only_when_countdown_expires() {
    let mut s = Scheduler::new(vec![(1, 10), (2, 5), (3, 7)]);
    assert_eq!(s.check_and_change_periodic(), (1, false));
    assert_eq!(s.periodic_index, 0);
    s.periodic_time = 0;
    s.periodic_yielded = true;
    // Expiry advances cyclically, reloads the countdown and clears the flag.
    assert_eq!(s.check_and_change_periodic(), (2, true));
    assert_eq!(s.periodic_index, 1);
    assert_eq!(s.periodic_time, 5);
    assert!(!s.periodic_yielded);
    s.periodic_time = 0;
    assert_eq!(s.check_and_change_periodic(), (3, true));
    s.periodic_time = 0;
    // The table wraps around.
    assert_eq!(s.check_and_change_periodic(), (1, true));
    assert_eq!(s.periodic_index, 0);
    assert_eq!(s.periodic_time, 10);
}
