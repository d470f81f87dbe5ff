use rtcore::memory::StackBounds;
use rtcore::processes::process::ProcessStatus;
use rtcore::processes::{ProcessesManager, SchedulingLevel};

fn bounds(start: u64, end: u64) -> StackBounds {
    StackBounds { start, end }
}

fn spawn(pm: &mut ProcessesManager, level: SchedulingLevel, name: u64, arg: i32) -> u64 {
    let pid_hint = 0x1000_0000 + arg as u64 * 0x1000;
    pm.create_new_process(level, name, arg, bounds(pid_hint, pid_hint + 0x1000), pid_hint + 0xF00)
        .expect("creation should succeed")
}

fn status_of(pm: &ProcessesManager, pid: u64) -> ProcessStatus {
    pm.get_process_with_pid(pid).expect("process should be live").get_process_status()
}

#[test]
fn round_robin_rotation_on_sporadic_yield() {
    let mut pm = ProcessesManager::new(vec![(1, 10)]);
    let a = spawn(&mut pm, SchedulingLevel::Sporadic, 100, 1);
    let b = spawn(&mut pm, SchedulingLevel::Sporadic, 101, 2);
    let c = spawn(&mut pm, SchedulingLevel::Sporadic, 102, 3);
    assert_eq!(pm.get_sporadic_queue(), vec![a, b, c]);

    // A tick schedules the front of the sporadic queue (no device, no
    // periodic process named 1 exists).
    let (_resume, overrun) = pm.next_tick_preempt_process(0xAAA0);
    assert!(!overrun);
    assert_eq!(pm.get_current_process_pid(), a);
    assert_eq!(status_of(&pm, a), ProcessStatus::Running);

    // A yield from A rotates the queue to [B, C, A] and B becomes Running.
    pm.yield_current_process(0xAAA1);
    assert_eq!(pm.get_sporadic_queue(), vec![b, c, a]);
    assert_eq!(pm.get_current_process_pid(), b);
    assert_eq!(status_of(&pm, b), ProcessStatus::Running);
    assert_eq!(status_of(&pm, a), ProcessStatus::Scheduled);
    assert_eq!(status_of(&pm, c), ProcessStatus::Scheduled);
}

#[test]
fn sporadic_yield_with_single_entry_keeps_running() {
    let mut pm = ProcessesManager::new(vec![(1, 10)]);
    let a = spawn(&mut pm, SchedulingLevel::Sporadic, 100, 1);
    pm.next_tick_preempt_process(0xBBB0);
    assert_eq!(pm.get_current_process_pid(), a);
    // With one element the rotation is trivial and A continues.
    pm.yield_current_process(0xBBB1);
    assert_eq!(pm.get_sporadic_queue(), vec![a]);
    assert_eq!(pm.get_current_process_pid(), a);
    assert_eq!(status_of(&pm, a), ProcessStatus::Running);
}

#[test]
fn device_front_preempts_periodic_and_sporadic() {
    let mut pm = ProcessesManager::new(vec![(7, 10)]);
    let p = spawn(&mut pm, SchedulingLevel::Periodic, 7, 1);
    let s = spawn(&mut pm, SchedulingLevel::Sporadic, 200, 2);
    // Device with rate 2 becomes due at tick 2.
    let d = spawn(&mut pm, SchedulingLevel::Device, 2, 3);

    let (_r, overrun) = pm.next_tick_preempt_process(0xCC01);
    assert!(!overrun);
    // Tick 1: device not due; the periodic process owns the active slot.
    assert_eq!(pm.get_current_process_pid(), p);

    let (_r, overrun) = pm.next_tick_preempt_process(0xCC02);
    assert!(!overrun);
    // Tick 2: the device is due and its queue front wins over both tiers.
    assert_eq!(pm.get_device_queue(), vec![d]);
    assert_eq!(pm.get_current_process_pid(), d);
    assert_eq!(status_of(&pm, d), ProcessStatus::Running);
    assert_eq!(status_of(&pm, p), ProcessStatus::Scheduled);
    assert_eq!(status_of(&pm, s), ProcessStatus::Scheduled);

    // When the device yields, its queue empties and the periodic slot owner
    // resumes without the slot being charged by the yield-driven cascade.
    let time_before = pm.get_periodic_time();
    pm.yield_current_process(0xCC03);
    assert_eq!(pm.get_device_queue(), Vec::<u64>::new());
    assert_eq!(pm.get_current_process_pid(), p);
    assert_eq!(pm.get_periodic_time(), time_before);
}

#[test]
fn device_overrun_is_reported_and_process_continues() {
    let mut pm = ProcessesManager::new(vec![(1, 10)]);
    let d = spawn(&mut pm, SchedulingLevel::Device, 3, 1);
    // Tick 3 makes the device due and it starts running.
    pm.next_tick_preempt_process(0xD001);
    pm.next_tick_preempt_process(0xD002);
    let (_r, overrun) = pm.next_tick_preempt_process(0xD003);
    assert!(!overrun);
    assert_eq!(pm.get_current_process_pid(), d);
    // The next tick catches the device still running: an overrun, reported
    // but non-fatal; the same process continues.
    let (resume, overrun) = pm.next_tick_preempt_process(0xD004);
    assert!(overrun);
    assert_eq!(resume, 0xD004);
    assert_eq!(pm.get_current_process_pid(), d);
}

#[test]
fn periodic_slot_expiry_falls_through_when_owner_missing() {
    // The scenario: table [(1,10),(2,5)]; only a process named 1 exists; at
    // tick 10 the scheduler advances to name 2's slot, and since no such
    // process exists the cascade falls through to idle.
    let mut pm = ProcessesManager::new(vec![(1, 10), (2, 5)]);
    let p1 = spawn(&mut pm, SchedulingLevel::Periodic, 1, 1);
    for t in 0..9 {
        let (_r, overrun) = pm.next_tick_preempt_process(0xE000 + t);
        assert!(!overrun);
        assert_eq!(pm.get_periodic_index(), 0);
        assert_eq!(pm.get_current_process_pid(), p1);
    }
    assert_eq!(pm.get_periodic_time(), 1);
    // Tick 10: countdown expires, the slot advances to (2, 5); name 2 is
    // unregistered, and with no sporadic work the idle process runs.
    let (_r, overrun) = pm.next_tick_preempt_process(0xE00A);
    assert!(!overrun);
    assert_eq!(pm.get_periodic_index(), 1);
    assert_eq!(pm.get_periodic_time(), 5);
    assert_eq!(pm.get_current_process_pid(), 0);
    assert_eq!(status_of(&pm, p1), ProcessStatus::Scheduled);
}

#[test]
fn periodic_slot_fallthrough_picks_sporadic() {
    let mut pm = ProcessesManager::new(vec![(1, 2), (2, 2)]);
    let p1 = spawn(&mut pm, SchedulingLevel::Periodic, 1, 1);
    let s = spawn(&mut pm, SchedulingLevel::Sporadic, 300, 2);
    pm.next_tick_preempt_process(0xF001);
    assert_eq!(pm.get_current_process_pid(), p1);
    pm.next_tick_preempt_process(0xF002);
    // Slot (2,2) has no owner: sporadic work fills the idle periodic slot.
    assert_eq!(pm.get_periodic_index(), 1);
    assert_eq!(pm.get_current_process_pid(), s);
}

#[test]
fn periodic_yield_switches_to_sporadic_and_slot_reentry_resumes() {
    let mut pm = ProcessesManager::new(vec![(1, 3), (2, 3)]);
    let p1 = spawn(&mut pm, SchedulingLevel::Periodic, 1, 1);
    let s = spawn(&mut pm, SchedulingLevel::Sporadic, 400, 2);
    pm.next_tick_preempt_process(0x1001);
    assert_eq!(pm.get_current_process_pid(), p1);

    // The periodic owner yields mid-slot: it is marked Yielded, the flag is
    // set, and the sporadic process takes over.
    pm.yield_current_process(0x1002);
    assert!(pm.get_periodic_yielded());
    assert_eq!(status_of(&pm, p1), ProcessStatus::Yielded);
    assert_eq!(pm.get_current_process_pid(), s);

    // Ticks pass; while its own slot is active and it stays yielded, the
    // sporadic process keeps the processor.
    pm.next_tick_preempt_process(0x1003);
    assert_eq!(pm.get_current_process_pid(), s);

    // Once the slot expires the owner is returned to Scheduled; its next
    // slot round picks it up again.
    pm.next_tick_preempt_process(0x1004);
    assert_eq!(pm.get_periodic_index(), 1);
    assert!(!pm.get_periodic_yielded());
    assert_eq!(status_of(&pm, p1), ProcessStatus::Scheduled);
    pm.next_tick_preempt_process(0x1005);
    pm.next_tick_preempt_process(0x1006);
    pm.next_tick_preempt_process(0x1007);
    // Back at slot (1,3): the owner runs again.
    assert_eq!(pm.get_periodic_index(), 0);
    assert_eq!(pm.get_current_process_pid(), p1);
}

#[test]
fn exactly_one_running_at_every_observation() {
    let mut pm = ProcessesManager::new(vec![(1, 4), (2, 4)]);
    let p1 = spawn(&mut pm, SchedulingLevel::Periodic, 1, 1);
    let s1 = spawn(&mut pm, SchedulingLevel::Sporadic, 500, 2);
    let s2 = spawn(&mut pm, SchedulingLevel::Sporadic, 501, 3);
    let d = spawn(&mut pm, SchedulingLevel::Device, 5, 4);
    let live = [p1, s1, s2, d];
    let mut handle: u64 = 0x2000;
    for step in 0..20 {
        let (_r, _overrun) = pm.next_tick_preempt_process(handle);
        handle += 1;
        if step % 3 == 2 && pm.get_current_process_pid() != 0 {
            pm.yield_current_process(handle);
            handle += 1;
        }
        // Exactly one process (or idle, as pid 0) is Running.
        let cur = pm.get_current_process_pid();
        let mut running: u32 = 0;
        for pid in live {
            if status_of(&pm, pid) == ProcessStatus::Running {
                assert_eq!(pid, cur);
                running += 1;
            }
        }
        if cur == 0 {
            assert_eq!(running, 0);
        } else {
            assert_eq!(running, 1);
        }
    }
}
