use rtcore::kernel::Kernel;
use rtcore::memory::StackBounds;
use rtcore::processes::process::ProcessStatus;
use rtcore::processes::SchedulingLevel;
use rtcore::sync::{Semaphore, SemaphoreError};

fn bounds(start: u64, end: u64) -> StackBounds {
    StackBounds { start, end }
}

#[test]
fn semaphore_wait_and_signal_round_trip() {
    let mut s = Semaphore::new(1);
    assert!(s.is_neutral());
    assert!(s.wait());
    assert!(!s.is_neutral());
    assert!(!s.wait());
    assert!(s.signal());
    assert!(s.is_neutral());
}

#[test]
fn neutrality_means_count_back_at_initial() {
    // A freshly made semaphore is neutral by definition; any count away
    // from the initial value — above or below, whatever the sign of the
    // start — is not neutral.
    let mut s = Semaphore::new(-1);
    assert!(s.is_neutral());
    s.signal();
    assert!(!s.is_neutral());
    s.signal();
    assert!(!s.is_neutral());
    let mut t = Semaphore::new(2);
    assert!(t.is_neutral());
    assert!(t.wait());
    assert!(!t.is_neutral());
    t.signal();
    assert!(t.is_neutral());
}

#[test]
fn wait_queue_registration_and_removal() {
    let mut s = Semaphore::new(0);
    s.add_to_wait_queue(7);
    s.add_to_wait_queue(9);
    assert!(!s.is_neutral());
    assert!(!s.check_and_pop_if_exists(8));
    assert!(s.check_and_pop_if_exists(7));
    assert!(!s.check_and_pop_if_exists(7));
    assert!(s.check_and_pop_if_exists(9));
    assert!(s.is_neutral());
}

#[test]
fn init_sem_rejects_duplicate_identifier() {
    let mut k = Kernel::new(vec![(1, 10)]);
    assert!(k.os_init_sem(123, 1).is_ok());
    assert_eq!(k.os_init_sem(123, 5), Err(()));
}

#[test]
fn drop_sem_reports_missing_and_unclean() {
    let mut k = Kernel::new(vec![(1, 10)]);
    assert_eq!(k.os_drop_sem(55), Err(SemaphoreError::Missing));
    k.os_init_sem(55, 1).unwrap();
    assert_eq!(k.os_wait(55), Ok(true));
    // Dropping a non-neutral semaphore fails and the semaphore stays in
    // place, so the synchronization bug surfaces instead of vanishing.
    assert_eq!(k.os_drop_sem(55), Err(SemaphoreError::NotNeutral));
    assert_eq!(k.os_drop_sem(55), Err(SemaphoreError::NotNeutral));
    assert_eq!(k.os_init_sem(55, 3), Err(()));
    // Once the holder releases, the semaphore is neutral and the drop goes
    // through; afterwards the identifier really is gone.
    assert_eq!(k.os_signal(55), Ok(false));
    assert_eq!(k.os_drop_sem(55), Ok(()));
    assert_eq!(k.os_drop_sem(55), Err(SemaphoreError::Missing));
}

#[test]
fn semaphore_round_trip_with_blocked_periodic() {
    // init(id, 1); a first wait succeeds and the count reaches 0; a second
    // wait from a periodic process blocks and registers it; signal restores
    // the count and, the blocked name matching the active periodic slot,
    // clears its Yielded state.
    let mut k = Kernel::new(vec![(7, 10), (8, 10)]);
    let p = k
        .os_create(1, SchedulingLevel::Periodic, 7, bounds(0x1000, 0x2000), 0x1F00)
        .expect("periodic creation should succeed");
    let s = k
        .os_create(2, SchedulingLevel::Sporadic, 900, bounds(0x3000, 0x4000), 0x3F00)
        .expect("sporadic creation should succeed");

    k.os_init_sem(42, 1).unwrap();
    assert_eq!(k.os_wait(42), Ok(true));

    // The periodic process named 7 runs in its slot and finds the count
    // exhausted: it is added to the wait set and then yields to spin.
    let (_r, ov) = k.os_tick(0x9001);
    assert!(!ov);
    assert_eq!(k.processes.get_current_process_pid(), p);
    assert_eq!(k.os_wait(42), Ok(false));
    k.os_yield(0x9002);
    assert_eq!(k.processes.get_current_process_pid(), s);
    assert_eq!(
        k.processes.get_process_with_pid(p).unwrap().get_process_status(),
        ProcessStatus::Yielded
    );

    // The sporadic holder signals: the count returns to 1 and, since the
    // waiter's name matches the active slot, its Yielded state is cleared
    // and the signaller learns it should yield promptly.
    assert_eq!(k.os_signal(42), Ok(true));
    assert_eq!(
        k.processes.get_process_with_pid(p).unwrap().get_process_status(),
        ProcessStatus::Scheduled
    );
    assert!(!k.processes.get_periodic_yielded());

    // The signaller yields; a sporadic yield alone only re-picks the
    // sporadic front, so the woken process resumes at the next tick, when
    // the cascade revisits the still-active slot. Its retried wait succeeds.
    k.os_yield(0x9003);
    assert_eq!(k.processes.get_current_process_pid(), s);
    let (_r2, _ov2) = k.os_tick(0x9004);
    assert_eq!(k.processes.get_current_process_pid(), p);
    assert_eq!(k.os_wait_retry(42), Ok(true));
    assert_eq!(k.os_signal(42), Ok(false));
    k.os_drop_sem(42).expect("the semaphore is neutral again");
}

#[test]
fn signal_without_matching_waiter_reports_no_wake() {
    let mut k = Kernel::new(vec![(1, 10)]);
    k.os_init_sem(5, 0).unwrap();
    assert_eq!(k.os_signal(5), Ok(false));
    assert_eq!(k.os_wait(5), Ok(true));
}

#[test]
fn wait_on_missing_semaphore_fails() {
    let mut k = Kernel::new(vec![(1, 10)]);
    assert_eq!(k.os_wait(77), Err(()));
    assert_eq!(k.os_wait_retry(77), Err(()));
    assert_eq!(k.os_signal(77), Err(()));
}

#[test]
fn non_periodic_waiter_is_not_registered() {
    let mut k = Kernel::new(vec![(1, 10)]);
    let s = k
        .os_create(1, SchedulingLevel::Sporadic, 900, bounds(0x3000, 0x4000), 0x3F00)
        .unwrap();
    k.os_init_sem(6, 0).unwrap();
    let (_r, _ov) = k.os_tick(0xA001);
    assert_eq!(k.processes.get_current_process_pid(), s);
    // A sporadic caller blocks without joining the wait set: a later signal
    // wakes nobody by name.
    assert_eq!(k.os_wait(6), Ok(false));
    assert_eq!(k.os_signal(6), Ok(false));
    assert_eq!(k.os_wait_retry(6), Ok(true));
}
