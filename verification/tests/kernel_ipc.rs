use rtcore::interrupts::{InterruptIndex, SyscallCommand, PIC_1_OFFSET, PIC_2_OFFSET};
use rtcore::kernel::Kernel;
use rtcore::memory::StackBounds;
use rtcore::processes::SchedulingLevel;

fn bounds(start: u64, end: u64) -> StackBounds {
    StackBounds { start, end }
}

#[test]
fn fifo_write_then_read_round_trips() {
    let mut k = Kernel::new(vec![(1, 10)]);
    let key = k.os_init_fifo();
    assert_eq!(key, 1000);
    k.os_write(key, &vec![1, 2, 3, 4, 5]).unwrap();
    k.os_write(key, &vec![6, 7]).unwrap();
    let mut buf = vec![0u8; 4];
    assert_eq!(k.os_read(key, &mut buf), Ok(4));
    assert_eq!(buf, vec![1, 2, 3, 4]);
    // The stream continues where the previous read stopped.
    let mut rest = vec![0u8; 10];
    assert_eq!(k.os_read(key, &mut rest), Ok(3));
    assert_eq!(&rest[..3], &[5, 6, 7]);
    // A drained channel reads zero bytes.
    assert_eq!(k.os_read(key, &mut rest), Ok(0));
}

#[test]
fn fifo_keys_increase_and_channels_are_independent() {
    let mut k = Kernel::new(vec![(1, 10)]);
    let a = k.os_init_fifo();
    let b = k.os_init_fifo();
    assert_eq!(b, a + 1);
    k.os_write(a, &vec![10]).unwrap();
    k.os_write(b, &vec![20]).unwrap();
    let mut buf = vec![0u8; 1];
    assert_eq!(k.os_read(b, &mut buf), Ok(1));
    assert_eq!(buf, vec![20]);
    assert_eq!(k.os_read(a, &mut buf), Ok(1));
    assert_eq!(buf, vec![10]);
}

#[test]
fn fifo_unknown_key_is_rejected() {
    let mut k = Kernel::new(vec![(1, 10)]);
    assert_eq!(k.os_write(999, &vec![1]), Err(()));
    let mut buf = vec![0u8; 1];
    assert_eq!(k.os_read(999, &mut buf), Err(()));
}

#[test]
fn syscall_numbers_round_trip() {
    assert_eq!(SyscallCommand::Yield.as_u64(), 10);
    assert_eq!(SyscallCommand::Terminate.as_u64(), 11);
    assert_eq!(SyscallCommand::from_u64(10), Some(SyscallCommand::Yield));
    assert_eq!(SyscallCommand::from_u64(11), Some(SyscallCommand::Terminate));
    assert_eq!(SyscallCommand::from_u64(0), None);
    assert_eq!(SyscallCommand::from_u64(12), None);
}

#[test]
fn interrupt_vectors_follow_the_remap_base() {
    assert_eq!(PIC_1_OFFSET, 32);
    assert_eq!(PIC_2_OFFSET, 40);
    assert_eq!(InterruptIndex::Timer.as_u8(), 32);
    assert_eq!(InterruptIndex::Keyboard.as_u8(), 33);
}

#[test]
fn internal_syscall_dispatches_yield_and_terminate() {
    let mut k = Kernel::new(vec![(1, 10)]);
    let a = k
        .os_create(1, SchedulingLevel::Sporadic, 100, bounds(0x1000, 0x2000), 0x1F00)
        .unwrap();
    let b = k
        .os_create(2, SchedulingLevel::Sporadic, 101, bounds(0x3000, 0x4000), 0x3F00)
        .unwrap();
    k.os_tick(0x5000);
    assert_eq!(k.processes.get_current_process_pid(), a);
    // A yield trap: no stack range comes back.
    let (resume, freed) = k.internal_syscall(0x5001, 10);
    assert_eq!(resume, 0x3F00);
    assert!(freed.is_none());
    assert_eq!(k.processes.get_current_process_pid(), b);
    // A terminate trap: the dead process's stack range comes back to unmap.
    let (resume, freed) = k.internal_syscall(0x5002, 11);
    let freed = freed.expect("termination must hand back the stack range");
    assert_eq!(freed.start(), 0x3000);
    assert_eq!(freed.end(), 0x4000);
    assert_eq!(resume, 0x5001);
    assert_eq!(k.processes.get_current_process_pid(), a);
}

#[test]
fn os_getparam_reads_the_running_process_argument() {
    let mut k = Kernel::new(vec![(1, 10)]);
    k.os_create(4242, SchedulingLevel::Sporadic, 100, bounds(0x1000, 0x2000), 0x1F00).unwrap();
    k.os_tick(0x6000);
    assert_eq!(k.os_getparam(), 4242);
}
