use rtcore::memory::StackBounds;
use rtcore::processes::process::ProcessStatus;
use rtcore::processes::{CreateError, ProcessesManager, SchedulingLevel};

fn bounds(start: u64, end: u64) -> StackBounds {
    StackBounds { start, end }
}

#[test]
fn duplicate_periodic_name_is_rejected_without_side_effect() {
    let mut pm = ProcessesManager::new(vec![(4, 5), (3, 5)]);
    let first = pm
        .create_new_process(SchedulingLevel::Periodic, 4, 1, bounds(0x1000, 0x2000), 0x1F00)
        .expect("first creation should succeed");
    let before_queue = pm.get_sporadic_queue();
    let err = pm.create_new_process(SchedulingLevel::Periodic, 4, 2, bounds(0x3000, 0x4000), 0x3F00);
    assert_eq!(err, Err(CreateError::NameTaken));
    // The table is unchanged: the first process is untouched and no new pid
    // was taken from the pool.
    assert!(pm.get_process_with_pid(first).is_some());
    assert!(pm.get_process_with_pid(first + 1).is_none());
    assert_eq!(pm.get_sporadic_queue(), before_queue);
    // After the holder terminates, the name is free again.
    let (_r, _ov) = pm.next_tick_preempt_process(0x10);
    assert_eq!(pm.get_current_process_pid(), first);
    pm.end_current_process();
    let again =
        pm.create_new_process(SchedulingLevel::Periodic, 4, 3, bounds(0x5000, 0x6000), 0x5F00);
    assert!(again.is_ok());
}

#[test]
fn device_creation_skips_uniqueness_check() {
    let mut pm = ProcessesManager::new(vec![(1, 5)]);
    let d1 = pm
        .create_new_process(SchedulingLevel::Device, 10, 1, bounds(0x1000, 0x2000), 0x1F00)
        .expect("device creation should succeed");
    let d2 = pm
        .create_new_process(SchedulingLevel::Device, 10, 2, bounds(0x3000, 0x4000), 0x3F00)
        .expect("second device with the same name should succeed");
    assert_ne!(d1, d2);
}

#[test]
fn pids_increase_and_table_grows_on_demand() {
    let mut pm = ProcessesManager::new(vec![(1, 5)]);
    let a = pm
        .create_new_process(SchedulingLevel::Sporadic, 100, 1, bounds(0x1000, 0x2000), 0x1F00)
        .unwrap();
    let b = pm
        .create_new_process(SchedulingLevel::Sporadic, 101, 2, bounds(0x3000, 0x4000), 0x3F00)
        .unwrap();
    let c = pm
        .create_new_process(SchedulingLevel::Sporadic, 102, 3, bounds(0x5000, 0x6000), 0x5F00)
        .unwrap();
    assert_eq!(a, 1);
    assert_eq!(b, 2);
    assert_eq!(c, 3);
    assert_eq!(pm.get_process_with_pid(c).unwrap().get_arg(), 3);
    assert_eq!(pm.get_process_with_pid(c).unwrap().get_name(), 102);
}

#[test]
fn terminated_pid_returns_to_pool_and_is_reissued() {
    let mut pm = ProcessesManager::new(vec![(1, 5)]);
    let a = pm
        .create_new_process(SchedulingLevel::Sporadic, 100, 1, bounds(0x1000, 0x2000), 0x1F00)
        .unwrap();
    let b = pm
        .create_new_process(SchedulingLevel::Sporadic, 101, 2, bounds(0x3000, 0x4000), 0x3F00)
        .unwrap();
    pm.next_tick_preempt_process(0x20);
    assert_eq!(pm.get_current_process_pid(), a);
    let (resume, freed) = pm.end_current_process();
    // The stack range of the terminated process is handed out exactly once,
    // for the caller to unmap; its slot is cleared and b takes over.
    assert_eq!(freed.start(), 0x1000);
    assert_eq!(freed.end(), 0x2000);
    assert!(pm.get_process_with_pid(a).is_none());
    assert_eq!(pm.get_current_process_pid(), b);
    assert_eq!(resume, 0x3F00);
    // The next creation reissues the recycled pid.
    let c = pm
        .create_new_process(SchedulingLevel::Sporadic, 102, 3, bounds(0x5000, 0x6000), 0x5F00)
        .unwrap();
    assert_eq!(c, a);
}

#[test]
fn termination_of_last_process_parks_on_idle() {
    let mut pm = ProcessesManager::new(vec![(1, 5)]);
    let a = pm
        .create_new_process(SchedulingLevel::Sporadic, 100, 1, bounds(0x1000, 0x2000), 0x1F00)
        .unwrap();
    pm.next_tick_preempt_process(0x30);
    assert_eq!(pm.get_current_process_pid(), a);
    pm.end_current_process();
    assert_eq!(pm.get_current_process_pid(), 0);
    assert_eq!(pm.get_sporadic_queue(), Vec::<u64>::new());
}

#[test]
fn yield_saves_the_callers_handle() {
    let mut pm = ProcessesManager::new(vec![(1, 5)]);
    let a = pm
        .create_new_process(SchedulingLevel::Sporadic, 100, 1, bounds(0x1000, 0x2000), 0x1F00)
        .unwrap();
    let b = pm
        .create_new_process(SchedulingLevel::Sporadic, 101, 2, bounds(0x3000, 0x4000), 0x3F00)
        .unwrap();
    pm.next_tick_preempt_process(0x40);
    assert_eq!(pm.get_current_process_pid(), a);
    let resume = pm.yield_current_process(0xDEAD_BEE5);
    // B's primed handle comes back; A's handle was saved for its next turn.
    assert_eq!(resume, 0x3F00);
    assert_eq!(pm.get_process_with_pid(a).unwrap().get_stack_pos(), 0xDEAD_BEE5);
    assert_eq!(pm.get_current_process_pid(), b);
    let resume2 = pm.yield_current_process(0xCAFE);
    assert_eq!(resume2, 0xDEAD_BEE5);
}

#[test]
fn idle_process_is_fixed_singleton() {
    let idle = rtcore::processes::process::Process::idle();
    assert_eq!(idle.get_pid(), 0);
    assert_eq!(idle.get_process_status(), ProcessStatus::Running);
    assert_eq!(idle.get_name(), 0);
    assert_eq!(idle.get_stack_bounds().start(), 0);
    assert_eq!(idle.get_stack_bounds().end(), 0);
}
