//! The kernel context: the process manager, the semaphore store and the FIFO
//! pool as one explicitly owned state, with the syscall-surface entry points.
//! Hardware setup, the raw trap handlers and the cooperative retry loop of a
//! blocked waiter live outside this crate and call in with plain values.

use vstd::prelude::*;
use crate::interrupts::SyscallCommand;
use crate::ipc::{FifoKey, FifoPool};
use crate::memory::StackBounds;
use crate::processes::{CreateError, Name, Pid, ProcessesManager, SchedulingLevel};
use crate::sync::{Semaphore, SemaphoreError, SemaphoreId, SemaphoreStore};

verus! {

pub struct Kernel {
    pub processes: ProcessesManager,
    pub semaphores: SemaphoreStore,
    pub fifos: FifoPool,
}

impl Kernel {
    pub open spec fn wf(&self) -> bool {
        &&& self.processes.inv()
        &&& self.semaphores.wf()
        &&& self.fifos.wf()
    }

    pub fn new(periodic_order: Vec<(Name, usize)>) -> (r: Kernel)
        requires
            periodic_order@.len() >= 1,
            forall|i: int| 0 <= i < periodic_order@.len() ==> (#[trigger] periodic_order@[i]).1 >= 1,
        ensures
            r.wf(),
            r.processes.sched().periodic_order == periodic_order,
            r.processes.current_pid() == 0,
            r.processes.table().len() == 2,
            forall|i: int| 0 <= i < r.processes.table().len() ==> r.processes.table()[i] is None,
            r.processes.sched().time == 0,
            r.processes.sched().periodic_index == 0,
            r.processes.sched().periodic_time == periodic_order@[0].1,
            r.processes.sched().periodic_yielded == false,
            r.processes.sched().device_queue@ == Seq::<Pid>::empty(),
            r.processes.sched().sporadic_queue@ == Seq::<Pid>::empty(),
            r.processes.pool().free_list() == Seq::<Pid>::empty(),
            r.processes.pool().next_fresh() == 1,
            forall|n: nat| !r.processes.registry().bit_set(n),
            r.semaphores.entries() == Seq::<(SemaphoreId, Semaphore)>::empty(),
            r.fifos.entries() == Seq::<(FifoKey, Seq<u8>)>::empty(),
            r.fifos.spec_next_key() == crate::ipc::FIRST_FIFO_KEY,
    {
        Kernel {
            processes: ProcessesManager::new(periodic_order),
            semaphores: SemaphoreStore::new(),
            fifos: FifoPool::new(),
        }
    }

    /// The opaque argument the running process was created with; when the
    /// idle singleton is running, that argument is 0.
    pub fn os_getparam(&self) -> (r: i32)
        requires
            self.wf(),
        ensures
            r == self.processes.current_proc().spec_arg(),
            self.processes.current_pid() == 0 ==> r == 0,
    {
        self.processes.get_current_process_arg()
    }

    /// The cooperative yield trap: hands the caller's suspended-execution
    /// handle to the manager and returns the handle to resume. The idle
    /// process must never yield.
    pub fn os_yield(&mut self, stack_p: u64) -> (r: u64)
        requires
            old(self).wf(),
            old(self).processes.current_pid() != 0,
        ensures
            final(self).wf(),
            r == final(self).processes.current_proc().spec_stack_pos(),
            final(self).processes.live(old(self).processes.current_pid()),
            final(self).processes.proc(old(self).processes.current_pid()).spec_stack_pos()
                == stack_p,
            final(self).semaphores == old(self).semaphores,
            final(self).fifos == old(self).fifos,
            old(self).processes.current_proc().spec_level() == SchedulingLevel::Sporadic ==> {
                &&& final(self).processes.sched().sporadic_queue@ == old(self).processes.sched().sporadic_queue@.subrange(
                    1,
                    old(self).processes.sched().sporadic_queue@.len() as int,
                ).push(old(self).processes.current_pid())
                &&& final(self).processes.current_pid() == final(self).processes.sched().sporadic_queue@[0]
            },
            old(self).processes.current_proc().spec_level() == SchedulingLevel::Device ==> final(self).processes.sched().device_queue@ == old(self).processes.sched().device_queue@.subrange(
                1,
                old(self).processes.sched().device_queue@.len() as int,
            ) && (final(self).processes.sched().device_queue@.len() > 0 ==> final(self).processes.current_pid() == final(self).processes.sched().device_queue@[0]),
            old(self).processes.current_proc().spec_level() == SchedulingLevel::Periodic ==> {
                &&& final(self).processes.proc(old(self).processes.current_pid()).spec_status()
                    == crate::processes::process::ProcessStatus::Yielded
                &&& final(self).processes.sched().periodic_yielded
                &&& (old(self).processes.sporadic_len() > 0 ==> final(self).processes.current_pid()
                    == old(self).processes.sched().sporadic_queue@[0])
                &&& (old(self).processes.sporadic_len() == 0 ==> final(self).processes.current_pid()
                    == 0)
            },
    {
        self.processes.yield_current_process(stack_p)
    }

    /// The termination trap: tears the running process down and returns the
    /// next handle to resume together with the stack range to unmap.
    pub fn os_terminate_current(&mut self) -> (r: (u64, StackBounds))
        requires
            old(self).wf(),
            old(self).processes.current_pid() != 0,
        ensures
            final(self).wf(),
            r.0 == final(self).processes.current_proc().spec_stack_pos(),
            r.1 == old(self).processes.current_proc().spec_stack_bounds(),
            final(self).processes.table()[old(self).processes.current_pid() - 1] is None,
            final(self).processes.table().len() == old(self).processes.table().len(),
            forall|i: int|
                0 <= i < old(self).processes.table().len() && i != old(self).processes.current_pid() - 1 ==> ((
                #[trigger] final(self).processes.table()[i]) is Some <==> old(self).processes.table()[i] is Some),
            forall|i: int|
                0 <= i < old(self).processes.table().len() && i != old(self).processes.current_pid() - 1 && old(self).processes.table()[i] is Some
                    ==> ProcessesManager::same_proc_modulo_status(
                    old(self).processes.table()[i]->0,
                    (#[trigger] final(self).processes.table()[i])->0,
                ),
            final(self).processes.pool().free_list() == old(self).processes.pool().free_list().push(
                old(self).processes.current_pid(),
            ),
            final(self).processes.pool().next_fresh() == old(self).processes.pool().next_fresh(),
            final(self).processes.sched().time == old(self).processes.sched().time,
            final(self).processes.sched().periodic_order == old(self).processes.sched().periodic_order,
            forall|m: nat|
                #[trigger] final(self).processes.registry().bit_set(m) == old(self).processes.registry_bit_after_end(m),
            old(self).processes.current_proc().spec_level() == SchedulingLevel::Device ==> final(self).processes.sched().device_queue@
                == old(self).processes.sched().device_queue@.subrange(
                1,
                old(self).processes.sched().device_queue@.len() as int,
            ) && final(self).processes.sched().sporadic_queue == old(self).processes.sched().sporadic_queue,
            old(self).processes.current_proc().spec_level() == SchedulingLevel::Sporadic ==> final(self).processes.sched().sporadic_queue@
                == old(self).processes.sched().sporadic_queue@.subrange(
                1,
                old(self).processes.sched().sporadic_queue@.len() as int,
            ) && final(self).processes.sched().device_queue == old(self).processes.sched().device_queue,
            old(self).processes.current_proc().spec_level() == SchedulingLevel::Periodic ==> final(self).processes.sched().sporadic_queue
                == old(self).processes.sched().sporadic_queue && final(self).processes.sched().device_queue
                == old(self).processes.sched().device_queue,
            final(self).processes.sched().device_queue@.len() > 0 ==> final(self).processes.current_pid()
                == final(self).processes.sched().device_queue@[0],
            final(self).semaphores == old(self).semaphores,
            final(self).fifos == old(self).fifos,
    {
        self.processes.end_current_process()
    }

    /// Creates a process around an already-reserved, primed stack; see
    /// `ProcessesManager::create_new_process`.
    pub fn os_create(
        &mut self,
        arg: i32,
        level: SchedulingLevel,
        name: Name,
        stack_bounds: StackBounds,
        stack_pointer: u64,
    ) -> (r: Result<Pid, CreateError>)
        requires
            old(self).wf(),
            level != SchedulingLevel::Idle,
            level == SchedulingLevel::Periodic ==> name <= usize::MAX && exists|i: int|
                0 <= i < old(self).processes.sched().periodic_order@.len() && (#[trigger] old(self).processes.sched().periodic_order@[i]).0 == name,
            level == SchedulingLevel::Device ==> name >= 1,
            old(self).processes.pool().next_fresh() < usize::MAX,
        ensures
            final(self).wf(),
            r is Err <==> (level == SchedulingLevel::Periodic && old(self).processes.registry().bit_set(name as nat)),
            r is Err ==> *final(self) == *old(self) && r == Err::<Pid, CreateError>(
                CreateError::NameTaken,
            ),
            !(level == SchedulingLevel::Periodic && old(self).processes.registry().bit_set(
                name as nat,
            )) ==> r == Ok::<Pid, CreateError>(old(self).processes.next_pid()),
            r matches Ok(pid) ==> {
                &&& pid == old(self).processes.next_pid()
                &&& final(self).processes.live(pid)
                &&& final(self).processes.proc(pid).spec_pid() == pid
                &&& final(self).processes.proc(pid).spec_level() == level
                &&& final(self).processes.proc(pid).spec_status()
                    == crate::processes::process::ProcessStatus::Scheduled
                &&& final(self).processes.proc(pid).spec_name() == name
                &&& final(self).processes.proc(pid).spec_stack_bounds() == stack_bounds
                &&& final(self).processes.proc(pid).spec_stack_pos() == stack_pointer
                &&& final(self).processes.proc(pid).spec_arg() == arg
                &&& final(self).processes.table().len() == if old(self).processes.table().len() >= pid {
                    old(self).processes.table().len() as int
                } else {
                    pid as int
                }
                &&& forall|i: int|
                    0 <= i < old(self).processes.table().len() && i != pid - 1 ==> final(self).processes.table()[i]
                        == old(self).processes.table()[i]
                &&& forall|i: int|
                    old(self).processes.table().len() <= i < final(self).processes.table().len() && i != pid - 1
                        ==> final(self).processes.table()[i] is None
                &&& (old(self).processes.pool().free_list().len() > 0 ==> final(self).processes.pool().free_list()
                    == old(self).processes.pool().free_list().drop_last() && final(self).processes.pool().next_fresh()
                    == old(self).processes.pool().next_fresh())
                &&& (old(self).processes.pool().free_list().len() == 0 ==> final(self).processes.pool().free_list()
                    == old(self).processes.pool().free_list() && final(self).processes.pool().next_fresh()
                    == old(self).processes.pool().next_fresh() + 1)
                &&& final(self).processes.sched().device_queue == old(self).processes.sched().device_queue
                &&& (level == SchedulingLevel::Sporadic ==> final(self).processes.sched().sporadic_queue@
                    == old(self).processes.sched().sporadic_queue@.push(pid))
                &&& (level != SchedulingLevel::Sporadic ==> final(self).processes.sched().sporadic_queue
                    == old(self).processes.sched().sporadic_queue)
                &&& (level == SchedulingLevel::Periodic ==> final(self).processes.registry().bit_set(
                    name as nat,
                ) && forall|m: nat|
                    m != name as nat ==> final(self).processes.registry().bit_set(m) == old(self).processes.registry().bit_set(m))
                &&& (level != SchedulingLevel::Periodic ==> final(self).processes.registry() == old(self).processes.registry())
                &&& final(self).processes.sched().time == old(self).processes.sched().time
                &&& final(self).processes.sched().periodic_order == old(self).processes.sched().periodic_order
                &&& final(self).processes.sched().periodic_index == old(self).processes.sched().periodic_index
                &&& final(self).processes.sched().periodic_time == old(self).processes.sched().periodic_time
                &&& final(self).processes.sched().periodic_yielded == old(self).processes.sched().periodic_yielded
                &&& final(self).processes.current_pid() == old(self).processes.current_pid()
                &&& final(self).processes.idle() == old(self).processes.idle()
            },
            final(self).semaphores == old(self).semaphores,
            final(self).fifos == old(self).fifos,
    {
        self.processes.create_new_process(level, name, arg, stack_bounds, stack_pointer)
    }

    /// The timer trap; see `ProcessesManager::next_tick_preempt_process`.
    pub fn os_tick(&mut self, stack_p: u64) -> (r: (u64, bool))
        requires
            old(self).wf(),
            old(self).processes.sched().time < usize::MAX,
            forall|i: int|
                0 <= i < old(self).processes.table().len() && crate::processes::is_due(
                    #[trigger] old(self).processes.table()[i],
                    (old(self).processes.sched().time + 1) as u64,
                ) ==> !old(self).processes.sched().device_queue@.contains((i + 1) as Pid),
        ensures
            final(self).wf(),
            final(self).processes.sched().time == old(self).processes.sched().time + 1,
            r.0 == final(self).processes.current_proc().spec_stack_pos(),
            r.1 == (old(self).processes.current_proc().spec_level() == SchedulingLevel::Device),
            final(self).processes.sched().device_queue@ == old(self).processes.sched().device_queue@
                + crate::processes::due_devices(
                old(self).processes.table(),
                (old(self).processes.sched().time + 1) as u64,
            ),
            final(self).processes.sched().sporadic_queue == old(self).processes.sched().sporadic_queue,
            final(self).processes.sched().periodic_order == old(self).processes.sched().periodic_order,
            final(self).processes.pool() == old(self).processes.pool(),
            final(self).processes.registry() == old(self).processes.registry(),
            final(self).processes.table().len() == old(self).processes.table().len(),
            forall|i: int|
                0 <= i < old(self).processes.table().len() ==> ((#[trigger] final(self).processes.table()[i]) is Some
                    <==> old(self).processes.table()[i] is Some),
            forall|i: int|
                0 <= i < old(self).processes.table().len() && i != old(self).processes.current_pid() - 1 && old(self).processes.table()[i] is Some
                    ==> ProcessesManager::same_proc_modulo_status(
                    old(self).processes.table()[i]->0,
                    (#[trigger] final(self).processes.table()[i])->0,
                ),
            old(self).processes.current_pid() == 0 ==> final(self).processes.idle().spec_stack_pos() == stack_p,
            old(self).processes.current_pid() != 0 ==> final(self).processes.live(old(self).processes.current_pid())
                && final(self).processes.proc(old(self).processes.current_pid()).spec_stack_pos() == stack_p,
            r.1 ==> final(self).processes.current_pid() == old(self).processes.current_pid() && r.0 == stack_p
                && final(self).processes.sched().periodic_index == old(self).processes.sched().periodic_index
                && final(self).processes.sched().periodic_time == old(self).processes.sched().periodic_time
                && final(self).processes.sched().periodic_yielded == old(self).processes.sched().periodic_yielded,
            !r.1 ==> {
                &&& (final(self).processes.sched().device_queue@.len() > 0 ==> final(self).processes.current_pid()
                    == final(self).processes.sched().device_queue@[0])
                &&& (final(self).processes.sched().device_queue@.len() == 0 ==> {
                    &&& final(self).processes.sched().periodic_index == old(self).processes.tick_next_slot_index(true)
                    &&& final(self).processes.sched().periodic_time == if old(self).processes.tick_slot_advances(true) {
                        old(self).processes.sched().periodic_order@[old(self).processes.tick_next_slot_index(true)].1 as int
                    } else {
                        old(self).processes.countdown_after(true)
                    }
                    &&& final(self).processes.sched().periodic_yielded == old(self).processes.tick_flag_after(true)
                    &&& final(self).processes.current_pid() == if old(self).processes.periodic_wins(true) {
                        if old(self).processes.tick_periodic_promotes(true) {
                            crate::processes::owner_index(
                                old(self).processes.table(),
                                old(self).processes.tick_next_slot_name(true),
                            ) + 1
                        } else {
                            old(self).processes.current_pid() as int
                        }
                    } else if old(self).processes.sporadic_len() > 0 {
                        old(self).processes.sched().sporadic_queue@[0] as int
                    } else {
                        0int
                    }
                })
            },
            final(self).semaphores == old(self).semaphores,
            final(self).fifos == old(self).fifos,
    {
        self.processes.next_tick_preempt_process(stack_p)
    }

    /// Dispatches a trapped syscall to the manager and returns the handle to
    /// resume, plus the stack range to unmap when the call was a
    /// termination. An unknown syscall number is a fatal caller error,
    /// excluded here.
    pub fn internal_syscall(&mut self, stack_p: u64, call_num: u64) -> (r: (u64, Option<
        StackBounds,
    >))
        requires
            old(self).wf(),
            old(self).processes.current_pid() != 0,
            call_num == 10 || call_num == 11,
        ensures
            final(self).wf(),
            r.0 == final(self).processes.current_proc().spec_stack_pos(),
            call_num == 10 ==> r.1 is None,
            call_num == 11 ==> r.1 == Some(
                old(self).processes.current_proc().spec_stack_bounds(),
            ),
    {
        let command = match SyscallCommand::from_u64(call_num) {
            Some(c) => c,
            None => {
                proof {
                    assert(false);
                }
                SyscallCommand::Yield
            },
        };
        match command {
            SyscallCommand::Yield => (self.os_yield(stack_p), None),
            SyscallCommand::Terminate => {
                let (resume, bounds) = self.os_terminate_current();
                (resume, Some(bounds))
            },
        }
    }

    /// Creates a semaphore; an identifier already in use is an expected
    /// failure.
    pub fn os_init_sem(&mut self, id: SemaphoreId, initial_count: i32) -> (r: Result<(), ()>)
        requires
            old(self).wf(),
        ensures
            final(self).wf(),
            r is Err <==> old(self).semaphores.has_sem(id),
            r is Err ==> *final(self) == *old(self),
            r is Ok ==> {
                &&& final(self).semaphores.has_sem(id)
                &&& final(self).semaphores.sem(id).spec_initial() == initial_count
                &&& final(self).semaphores.sem(id).spec_count() == initial_count
                &&& final(self).semaphores.sem(id).wait_set() == Seq::<Name>::empty()
                &&& forall|other: SemaphoreId|
                    other != id ==> final(self).semaphores.has_sem(other) == old(self).semaphores.has_sem(other)
                &&& forall|other: SemaphoreId|
                    other != id && old(self).semaphores.has_sem(other) ==> final(self).semaphores.sem(other) == old(self).semaphores.sem(other)
                &&& final(self).processes == old(self).processes
                &&& final(self).fifos == old(self).fifos
            },
    {
        self.semaphores.insert(id, initial_count)
    }

    /// Destroys a semaphore. A missing identifier is an expected failure;
    /// a semaphore that is not neutral must not be dropped: the unclean
    /// attempt is reported and the semaphore stays in place, so the
    /// synchronization bug surfaces instead of being silently discarded.
    pub fn os_drop_sem(&mut self, id: SemaphoreId) -> (r: Result<(), SemaphoreError>)
        requires
            old(self).wf(),
        ensures
            final(self).wf(),
            r == Err::<(), SemaphoreError>(SemaphoreError::Missing) <==> !old(self).semaphores.has_sem(id),
            r == Err::<(), SemaphoreError>(SemaphoreError::NotNeutral) <==> old(self).semaphores.has_sem(id) && !old(self).semaphores.sem(id).spec_is_neutral(),
            r is Ok <==> old(self).semaphores.has_sem(id) && old(self).semaphores.sem(id).spec_is_neutral(),
            r is Err ==> *final(self) == *old(self),
            r is Ok ==> {
                &&& !final(self).semaphores.has_sem(id)
                &&& final(self).semaphores.entries().len() == old(self).semaphores.entries().len() - 1
                &&& forall|other: SemaphoreId|
                    other != id ==> final(self).semaphores.has_sem(other) == old(self).semaphores.has_sem(other)
                &&& forall|other: SemaphoreId|
                    other != id && old(self).semaphores.has_sem(other) ==> final(self).semaphores.sem(other) == old(self).semaphores.sem(other)
                &&& final(self).processes == old(self).processes
                &&& final(self).fifos == old(self).fifos
            },
    {
        let neutral = match self.semaphores.get(id) {
            None => {
                return Err(SemaphoreError::Missing);
            },
            Some(out) => out.is_neutral(),
        };
        if neutral {
            match self.semaphores.take_out(id) {
                Some(_) => Ok(()),
                None => {
                    proof {
                        assert(false);
                    }
                    Err(SemaphoreError::Missing)
                },
            }
        } else {
            Err(SemaphoreError::NotNeutral)
        }
    }

    /// Non-blocking semaphore acquisition from the running process.
    /// `Ok(true)` means acquired; `Ok(false)` means the count was exhausted
    /// — a periodic caller is then registered in the wait set, and the
    /// caller must spin cooperatively: yield, then retry with
    /// `os_wait_retry` until it succeeds. Waiting twice on the same
    /// semaphore is a fatal caller error, excluded here.
    pub fn os_wait(&mut self, id: SemaphoreId) -> (r: Result<bool, ()>)
        requires
            old(self).wf(),
            old(self).semaphores.has_sem(id) && old(self).semaphores.sem(id).spec_count() <= 0
                && old(self).processes.current_proc().spec_level() == SchedulingLevel::Periodic
                ==> !old(self).semaphores.sem(id).wait_set().contains(
                old(self).processes.current_proc().spec_name(),
            ),
        ensures
            final(self).wf(),
            r is Err <==> !old(self).semaphores.has_sem(id),
            r is Err ==> *final(self) == *old(self),
            old(self).semaphores.has_sem(id) ==> r == Ok::<bool, ()>(
                old(self).semaphores.sem(id).spec_count() > 0,
            ),
            final(self).processes == old(self).processes,
            final(self).fifos == old(self).fifos,
            r == Ok::<bool, ()>(true) ==> {
                &&& old(self).semaphores.sem(id).spec_count() > 0
                &&& final(self).semaphores.sem(id).spec_count() == old(self).semaphores.sem(
                    id,
                ).spec_count() - 1
                &&& final(self).semaphores.sem(id).wait_set() == old(self).semaphores.sem(
                    id,
                ).wait_set()
            },
            r == Ok::<bool, ()>(false) ==> {
                &&& old(self).semaphores.sem(id).spec_count() <= 0
                &&& final(self).semaphores.sem(id).spec_count() == old(self).semaphores.sem(
                    id,
                ).spec_count()
                &&& (old(self).processes.current_proc().spec_level() == SchedulingLevel::Periodic
                    ==> final(self).semaphores.sem(id).wait_set() == old(self).semaphores.sem(
                    id,
                ).wait_set().push(old(self).processes.current_proc().spec_name()))
                &&& (old(self).processes.current_proc().spec_level() != SchedulingLevel::Periodic
                    ==> final(self).semaphores.sem(id).wait_set() == old(self).semaphores.sem(
                    id,
                ).wait_set())
            },
            r is Ok ==> {
                &&& final(self).semaphores.has_sem(id)
                &&& final(self).semaphores.sem(id).spec_initial() == old(self).semaphores.sem(
                    id,
                ).spec_initial()
                &&& forall|other: SemaphoreId|
                    other != id ==> final(self).semaphores.has_sem(other) == old(self).semaphores.has_sem(other)
                &&& forall|other: SemaphoreId|
                    other != id && old(self).semaphores.has_sem(other) ==> final(self).semaphores.sem(other) == old(self).semaphores.sem(other)
            },
    {
        match self.semaphores.take_out(id) {
            None => Err(()),
            Some(mut entry) => {
                if entry.wait() {
                    self.semaphores.put_back(id, entry);
                    Ok(true)
                } else {
                    // Only periodic processes register: they are the only
                    // tier that can yield mid-slot and be woken by a signal.
                    if self.processes.get_current_scheduling_level() == SchedulingLevel::Periodic {
                        let name = self.processes.get_current_process_name();
                        entry.add_to_wait_queue(name);
                    }
                    self.semaphores.put_back(id, entry);
                    Ok(false)
                }
            },
        }
    }

    /// One retry of a spinning waiter: a plain acquisition attempt, with no
    /// further registration.
    pub fn os_wait_retry(&mut self, id: SemaphoreId) -> (r: Result<bool, ()>)
        requires
            old(self).wf(),
        ensures
            final(self).wf(),
            r is Err <==> !old(self).semaphores.has_sem(id),
            r is Err ==> *final(self) == *old(self),
            old(self).semaphores.has_sem(id) ==> r == Ok::<bool, ()>(
                old(self).semaphores.sem(id).spec_count() > 0,
            ),
            final(self).processes == old(self).processes,
            final(self).fifos == old(self).fifos,
            r matches Ok(got) ==> {
                &&& got == (old(self).semaphores.sem(id).spec_count() > 0)
                &&& final(self).semaphores.sem(id).spec_count() == old(self).semaphores.sem(
                    id,
                ).spec_count() - (if got {
                    1int
                } else {
                    0int
                })
                &&& final(self).semaphores.sem(id).wait_set() == old(self).semaphores.sem(
                    id,
                ).wait_set()
                &&& final(self).semaphores.has_sem(id)
                &&& forall|other: SemaphoreId|
                    other != id ==> final(self).semaphores.has_sem(other) == old(self).semaphores.has_sem(other)
                &&& forall|other: SemaphoreId|
                    other != id && old(self).semaphores.has_sem(other) ==> final(self).semaphores.sem(other) == old(self).semaphores.sem(other)
            },
    {
        match self.semaphores.take_out(id) {
            None => Err(()),
            Some(mut entry) => {
                let got = entry.wait();
                self.semaphores.put_back(id, entry);
                Ok(got)
            },
        }
    }

    /// Signals a semaphore: increments the count and, when the owner of the
    /// active periodic slot is in this semaphore's wait set, removes it and
    /// clears its mid-yield state so the cascade picks it up. Matching on
    /// the active slot's name is deliberate and loses nothing: the manager's
    /// invariant shows only the owner of the active slot can be mid-yield,
    /// so no other waiter could be woken now anyway. Returns whether a
    /// waiter was woken — the signalling process should then yield so the
    /// woken process runs promptly.
    pub fn os_signal(&mut self, id: SemaphoreId) -> (r: Result<bool, ()>)
        requires
            old(self).wf(),
            old(self).semaphores.has_sem(id) ==> old(self).semaphores.sem(id).spec_count()
                < i32::MAX,
        ensures
            final(self).wf(),
            r is Err <==> !old(self).semaphores.has_sem(id),
            r is Err ==> *final(self) == *old(self),
            old(self).semaphores.has_sem(id) ==> r == Ok::<bool, ()>(
                old(self).semaphores.sem(id).wait_set().contains(
                    old(self).processes.active_slot_name(),
                ),
            ),
            final(self).fifos == old(self).fifos,
            r matches Ok(woke) ==> {
                &&& final(self).semaphores.sem(id).spec_count() == old(self).semaphores.sem(
                    id,
                ).spec_count() + 1
                &&& woke == old(self).semaphores.sem(id).wait_set().contains(
                    old(self).processes.active_slot_name(),
                )
                &&& (woke ==> !final(self).semaphores.sem(id).wait_set().contains(
                    old(self).processes.active_slot_name(),
                ) && final(self).processes.sched().periodic_yielded == false)
                &&& (!woke ==> final(self).semaphores.sem(id).wait_set() == old(self).semaphores.sem(id).wait_set() && final(self).processes == old(self).processes)
                &&& final(self).semaphores.has_sem(id)
                &&& forall|other: SemaphoreId|
                    other != id ==> final(self).semaphores.has_sem(other) == old(self).semaphores.has_sem(other)
                &&& forall|other: SemaphoreId|
                    other != id && old(self).semaphores.has_sem(other) ==> final(self).semaphores.sem(other) == old(self).semaphores.sem(other)
            },
    {
        match self.semaphores.take_out(id) {
            None => Err(()),
            Some(mut entry) => {
                entry.signal();
                let scheduled_name = self.processes.get_scheduled_name();
                let woke = entry.check_and_pop_if_exists(scheduled_name);
                if woke {
                    self.processes.unyield_current_periodic();
                }
                self.semaphores.put_back(id, entry);
                Ok(woke)
            },
        }
    }

    /// Opens a new FIFO channel and returns its key.
    pub fn os_init_fifo(&mut self) -> (r: FifoKey)
        requires
            old(self).wf(),
            old(self).fifos.spec_next_key() < FifoKey::MAX,
        ensures
            final(self).wf(),
            r == old(self).fifos.spec_next_key(),
            final(self).fifos.spec_next_key() == old(self).fifos.spec_next_key() + 1,
            final(self).fifos.has_fifo(r),
            final(self).fifos.fifo(r) == Seq::<u8>::empty(),
            !old(self).fifos.has_fifo(r),
            forall|other: FifoKey|
                other != r ==> final(self).fifos.has_fifo(other) == old(self).fifos.has_fifo(other),
            forall|other: FifoKey|
                other != r && old(self).fifos.has_fifo(other) ==> final(self).fifos.fifo(other)
                    == old(self).fifos.fifo(other),
            final(self).processes == old(self).processes,
            final(self).semaphores == old(self).semaphores,
    {
        self.fifos.os_init_fifo()
    }

    /// Appends bytes to a FIFO channel; see `FifoPool::os_write`.
    pub fn os_write(&mut self, key: FifoKey, data: &Vec<u8>) -> (r: Result<(), ()>)
        requires
            old(self).wf(),
            old(self).fifos.has_fifo(key) ==> old(self).fifos.fifo(key).len() + data@.len()
                <= usize::MAX,
        ensures
            final(self).wf(),
            r is Err <==> !old(self).fifos.has_fifo(key),
            r is Err ==> *final(self) == *old(self),
            r is Ok ==> {
                &&& final(self).fifos.fifo(key) == old(self).fifos.fifo(key) + data@
                &&& final(self).fifos.has_fifo(key)
                &&& final(self).fifos.spec_next_key() == old(self).fifos.spec_next_key()
                &&& forall|other: FifoKey|
                    other != key ==> final(self).fifos.has_fifo(other) == old(self).fifos.has_fifo(
                        other,
                    )
                &&& forall|other: FifoKey|
                    other != key && old(self).fifos.has_fifo(other) ==> final(self).fifos.fifo(
                        other,
                    ) == old(self).fifos.fifo(other)
            },
            final(self).processes == old(self).processes,
            final(self).semaphores == old(self).semaphores,
    {
        self.fifos.os_write(key, data)
    }

    /// Drains bytes from a FIFO channel into the front of `buf`; see
    /// `FifoPool::os_read`.
    pub fn os_read(&mut self, key: FifoKey, buf: &mut Vec<u8>) -> (r: Result<usize, ()>)
        requires
            old(self).wf(),
        ensures
            final(self).wf(),
            r is Err <==> !old(self).fifos.has_fifo(key),
            r is Err ==> *final(self) == *old(self) && final(buf)@ == old(buf)@,
            r matches Ok(count) ==> {
                &&& count == if old(buf)@.len() <= old(self).fifos.fifo(key).len() {
                    old(buf)@.len() as int
                } else {
                    old(self).fifos.fifo(key).len() as int
                }
                &&& final(self).fifos.fifo(key) == old(self).fifos.fifo(key).skip(count as int)
                &&& final(buf)@ == old(self).fifos.fifo(key).take(count as int) + old(buf)@.skip(
                    count as int,
                )
                &&& final(self).fifos.has_fifo(key)
                &&& final(self).fifos.spec_next_key() == old(self).fifos.spec_next_key()
                &&& forall|other: FifoKey|
                    other != key ==> final(self).fifos.has_fifo(other) == old(self).fifos.has_fifo(
                        other,
                    )
                &&& forall|other: FifoKey|
                    other != key && old(self).fifos.has_fifo(other) ==> final(self).fifos.fifo(
                        other,
                    ) == old(self).fifos.fifo(other)
            },
            final(buf)@.len() == old(buf)@.len(),
            final(self).processes == old(self).processes,
            final(self).semaphores == old(self).semaphores,
    {
        self.fifos.os_read(key, buf)
    }
}

} // verus!
