//! Process management: the process type, the scheduling-policy state and the
//! manager that owns the process table and drives every transition.

pub mod process;
pub mod scheduling;

use vstd::prelude::*;
use crate::memory::StackBounds;
use crate::processes::process::{Process, ProcessStatus};
use crate::processes::scheduling::Scheduler;
use crate::special_collections::{DynamicBitmap, IncrementingPool};

verus! {

/// Semantic tag of a process: the slot key for the periodic tier, the
/// activation-rate divisor for the device tier, caller-defined for sporadic.
pub type Name = u64;

/// Process identifier; 0 is reserved for the idle process forever.
pub type Pid = u64;

/// Fixed priority class of a process. `Idle` is never user-creatable.
#[derive(Clone, Copy, Debug, PartialEq, Eq, Structural)]
pub enum SchedulingLevel {
    Device,
    Periodic,
    Sporadic,
    Idle,
}

/// Expected failures of process creation, returned, never fatal.
#[derive(Clone, Copy, Debug, PartialEq, Eq, Structural)]
pub enum CreateError {
    /// A live periodic process already holds this name.
    NameTaken,
}

/// `q` is `p` with only its status replaced by `s`.
pub open spec fn same_except_status(p: Process, q: Process, s: ProcessStatus) -> bool {
    &&& q.spec_pid() == p.spec_pid()
    &&& q.spec_level() == p.spec_level()
    &&& q.spec_name() == p.spec_name()
    &&& q.spec_stack_bounds() == p.spec_stack_bounds()
    &&& q.spec_stack_pos() == p.spec_stack_pos()
    &&& q.spec_arg() == p.spec_arg()
    &&& q.spec_status() == s
}

/// `q` is `p` with only its suspended-execution handle replaced by `sp`.
pub open spec fn same_except_stack_pos(p: Process, q: Process, sp: u64) -> bool {
    &&& q.spec_pid() == p.spec_pid()
    &&& q.spec_level() == p.spec_level()
    &&& q.spec_name() == p.spec_name()
    &&& q.spec_stack_bounds() == p.spec_stack_bounds()
    &&& q.spec_stack_pos() == sp
    &&& q.spec_arg() == p.spec_arg()
    &&& q.spec_status() == p.spec_status()
}

/// Whether this table entry is a device process whose activation rate
/// divides the tick count, so the tick enqueues it.
pub open spec fn is_due(o: Option<Process>, time: u64) -> bool {
    o is Some && o->0.spec_level() == SchedulingLevel::Device && time % o->0.spec_name() == 0
}

/// Pids of the device processes due at `time`, in table order.
pub open spec fn due_devices(t: Seq<Option<Process>>, time: u64) -> Seq<Pid>
    decreases t.len(),
{
    if t.len() == 0 {
        Seq::<Pid>::empty()
    } else {
        due_devices(t.drop_last(), time) + if is_due(t.last(), time) {
            seq![t.last()->0.spec_pid()]
        } else {
            Seq::<Pid>::empty()
        }
    }
}

/// Some slot of `t` holds a live periodic process named `name`.
pub open spec fn has_owner(t: Seq<Option<Process>>, name: Name) -> bool {
    exists|i: int| is_owner_at(t, name, i)
}

pub open spec fn is_owner_at(t: Seq<Option<Process>>, name: Name, i: int) -> bool {
    &&& 0 <= i < t.len()
    &&& t[i] is Some
    &&& t[i]->0.spec_level() == SchedulingLevel::Periodic
    &&& t[i]->0.spec_name() == name
}

/// The slot of the live periodic process named `name`; meaningful only when
/// `has_owner` holds (and the manager keeps such names unique).
pub open spec fn owner_index(t: Seq<Option<Process>>, name: Name) -> int {
    choose|i: int| is_owner_at(t, name, i)
}

/// Orchestrates process creation and destruction, owns the process table,
/// name registry and pid pool, and drives the scheduler through every
/// transition.
pub struct ProcessesManager {
    processes_list: Vec<Option<Process>>,
    idle_process: Process,
    scheduler: Scheduler,
    currently_executing_process: Pid,
    pid_pool: IncrementingPool,
    name_registry: DynamicBitmap,
}

impl ProcessesManager {
    /// The process table; the slot at index `i` may hold the process with
    /// pid `i + 1`.
    pub closed spec fn table(&self) -> Seq<Option<Process>> {
        self.processes_list@
    }

    /// The scheduling-policy state.
    pub closed spec fn sched(&self) -> Scheduler {
        self.scheduler
    }

    /// The pool recycling pids of terminated processes.
    pub closed spec fn pool(&self) -> IncrementingPool {
        self.pid_pool
    }

    /// The bitmap of names held by live periodic processes.
    pub closed spec fn registry(&self) -> DynamicBitmap {
        self.name_registry
    }

    /// Pid of the process whose status is Running; 0 means the idle process.
    pub closed spec fn current_pid(&self) -> Pid {
        self.currently_executing_process
    }

    /// The idle singleton, which never occupies a table slot.
    pub closed spec fn idle(&self) -> Process {
        self.idle_process
    }

    /// `pid` names a process in the table.
    pub open spec fn live(&self, pid: Pid) -> bool {
        &&& 1 <= pid
    &&& pid - 1 < self.table().len()
        &&& self.table()[pid - 1] is Some
    }

    /// The table entry of a live pid.
    pub open spec fn proc(&self, pid: Pid) -> Process {
        self.table()[pid - 1]->0
    }

    /// The process that is running: a table entry or the idle singleton.
    pub open spec fn current_proc(&self) -> Process {
        if self.current_pid() == 0 {
            self.idle()
        } else {
            self.proc(self.current_pid())
        }
    }

    /// Name of the active periodic slot.
    pub open spec fn active_slot_name(&self) -> Name {
        self.sched().periodic_order@[self.sched().periodic_index as int].0
    }

    /// Every occupied slot holds the pid matching its index, never the idle
    /// tier, a non-zero rate divisor on the device tier, and a registrable
    /// name on the periodic tier.
    pub open spec fn table_ok(&self) -> bool {
        forall|i: int|
            0 <= i < self.table().len() && self.table()[i] is Some ==> {
                let p = (#[trigger] self.table()[i])->0;
                &&& p.spec_pid() == i + 1
                &&& p.spec_level() != SchedulingLevel::Idle
                &&& (p.spec_level() == SchedulingLevel::Device ==> p.spec_name() >= 1)
                &&& (p.spec_level() == SchedulingLevel::Periodic ==> p.spec_name() <= usize::MAX)
            }
    }

    pub open spec fn idle_ok(&self) -> bool {
        &&& self.idle().spec_pid() == 0
        &&& self.idle().spec_level() == SchedulingLevel::Idle
        &&& self.idle().spec_status() != ProcessStatus::Yielded
        &&& self.idle().spec_arg() == 0
    }

    /// The current pid points at the idle singleton or a live process.
    pub open spec fn current_exists(&self) -> bool {
        self.current_pid() == 0 || self.live(self.current_pid())
    }

    /// At most the current process is Running.
    pub open spec fn running_at_most_current(&self) -> bool {
        &&& forall|i: int|
            0 <= i < self.table().len() && self.table()[i] is Some && (#[trigger] self.table()[
                i])->0.spec_status() == ProcessStatus::Running ==> i + 1 == self.current_pid()
        &&& (self.idle().spec_status() == ProcessStatus::Running ==> self.current_pid() == 0)
    }

    /// The current process is Running: with `running_at_most_current`,
    /// exactly one live process (or the idle singleton) is Running.
    pub open spec fn current_running(&self) -> bool {
        self.current_proc().spec_status() == ProcessStatus::Running
    }

    /// The periodic table is non-empty with positive durations, its index in
    /// range and its countdown never exhausted between transitions.
    pub open spec fn sched_table_ok(&self) -> bool {
        &&& self.sched().periodic_order@.len() >= 1
        &&& self.sched().periodic_index < self.sched().periodic_order@.len()
        &&& forall|i: int|
            0 <= i < self.sched().periodic_order@.len() ==> (#[trigger] self.sched(
            ).periodic_order@[i]).1 >= 1
    }

    pub open spec fn countdown_ok(&self) -> bool {
        self.sched().periodic_time >= 1
    }

    /// Each ready queue holds distinct pids of live processes of its tier.
    pub open spec fn queues_ok(&self) -> bool {
        &&& forall|k: int|
            0 <= k < self.sched().device_queue@.len() ==> self.live(
                #[trigger] self.sched().device_queue@[k],
            ) && self.proc(self.sched().device_queue@[k]).spec_level() == SchedulingLevel::Device
        &&& forall|k: int, l: int|
            0 <= k < l < self.sched().device_queue@.len() ==> self.sched().device_queue@[k]
                != self.sched().device_queue@[l]
        &&& forall|k: int|
            0 <= k < self.sched().sporadic_queue@.len() ==> self.live(
                #[trigger] self.sched().sporadic_queue@[k],
            ) && self.proc(self.sched().sporadic_queue@[k]).spec_level()
                == SchedulingLevel::Sporadic
        &&& forall|k: int, l: int|
            0 <= k < l < self.sched().sporadic_queue@.len() ==> self.sched().sporadic_queue@[k]
                != self.sched().sporadic_queue@[l]
    }

    /// A running device or sporadic process stands at the front of its
    /// queue; a running periodic process owns the active slot.
    pub open spec fn front_ok(&self) -> bool {
        &&& (self.current_pid() != 0 && self.live(self.current_pid()) && self.proc(
            self.current_pid(),
        ).spec_level() == SchedulingLevel::Device ==> self.sched().device_queue@.len() > 0
            && self.sched().device_queue@[0] == self.current_pid())
        &&& (self.current_pid() != 0 && self.live(self.current_pid()) && self.proc(
            self.current_pid(),
        ).spec_level() == SchedulingLevel::Sporadic ==> self.sched().sporadic_queue@.len() > 0
            && self.sched().sporadic_queue@[0] == self.current_pid())
        &&& (self.current_pid() != 0 && self.live(self.current_pid()) && self.proc(
            self.current_pid(),
        ).spec_level() == SchedulingLevel::Periodic ==> self.proc(self.current_pid()).spec_name()
            == self.active_slot_name())
    }

    /// A name is registered exactly when one live periodic process holds it,
    /// and no two live periodic processes share a name.
    pub open spec fn names_ok(&self) -> bool {
        &&& forall|i: int|
            0 <= i < self.table().len() && self.table()[i] is Some && (#[trigger] self.table()[
                i])->0.spec_level() == SchedulingLevel::Periodic ==> self.registry().bit_set(
                self.table()[i]->0.spec_name() as nat,
            )
        &&& forall|n: nat|
            #[trigger] self.registry().bit_set(n) ==> has_owner(self.table(), n as Name) && n
                <= usize::MAX
        &&& forall|i: int, j: int|
            is_owner_at(self.table(), self.table()[i]->0.spec_name(), i) && is_owner_at(
                self.table(),
                self.table()[i]->0.spec_name(),
                j,
            ) ==> i == j
    }

    /// Only the owner of the active periodic slot can be mid-yield, and the
    /// scheduler's flag records that state.
    pub open spec fn yield_ok(&self) -> bool {
        &&& forall|i: int|
            0 <= i < self.table().len() && self.table()[i] is Some && (#[trigger] self.table()[
                i])->0.spec_status() == ProcessStatus::Yielded ==> self.table()[i]->0.spec_level()
                == SchedulingLevel::Periodic && self.table()[i]->0.spec_name()
                == self.active_slot_name() && self.sched().periodic_yielded
        &&& (self.sched().periodic_yielded ==> exists|i: int|
            is_owner_at(self.table(), self.active_slot_name(), i) && (#[trigger] self.table()[
                i])->0.spec_status() == ProcessStatus::Yielded)
    }

    /// Free pids are distinct, below the high-water mark, and point at
    /// cleared slots; every live pid lies below the high-water mark.
    pub open spec fn pool_ok(&self) -> bool {
        &&& self.pool().next_fresh() >= 1
        &&& forall|k: int|
            0 <= k < self.pool().free_list().len() ==> {
                let e = #[trigger] self.pool().free_list()[k];
                &&& 1 <= e < self.pool().next_fresh()
                &&& e - 1 < self.table().len()
                &&& self.table()[e - 1] is None
            }
        &&& forall|k: int, l: int|
            0 <= k < l < self.pool().free_list().len() ==> self.pool().free_list()[k]
                != self.pool().free_list()[l]
        &&& forall|i: int|
            0 <= i < self.table().len() && (#[trigger] self.table()[i]) is Some ==> i + 1 < self.pool(
            ).next_fresh()
    }

    /// Everything that holds of the manager between transitions except that
    /// the current process is Running and at its queue front: the weaker
    /// state in which the scheduling cascade runs.
    pub open spec fn inv_core(&self) -> bool {
        &&& self.table_ok()
        &&& self.idle_ok()
        &&& self.current_exists()
        &&& self.running_at_most_current()
        &&& self.sched_table_ok()
        &&& self.queues_ok()
        &&& self.names_ok()
        &&& self.yield_ok()
        &&& self.pool_ok()
    }

    /// A non-empty device ready queue means its front is the process
    /// running right now: device work never waits behind a lower tier.
    pub open spec fn device_queue_ok(&self) -> bool {
        self.sched().device_queue@.len() > 0 ==> self.current_pid()
            == self.sched().device_queue@[0]
    }

    /// The manager's full invariant between transitions.
    pub open spec fn inv(&self) -> bool {
        &&& self.inv_core()
        &&& self.current_running()
        &&& self.front_ok()
        &&& self.device_queue_ok()
        &&& self.countdown_ok()
    }

    pub fn new(periodic_order: Vec<(Name, usize)>) -> (r: ProcessesManager)
        requires
            periodic_order@.len() >= 1,
            forall|i: int| 0 <= i < periodic_order@.len() ==> (#[trigger] periodic_order@[i]).1 >= 1,
        ensures
            r.inv(),
            r.table().len() == 2,
            forall|i: int| 0 <= i < r.table().len() ==> r.table()[i] is None,
            r.current_pid() == 0,
            r.sched().time == 0,
            r.sched().periodic_order == periodic_order,
            r.sched().periodic_index == 0,
            r.sched().periodic_time == periodic_order@[0].1,
            r.sched().periodic_yielded == false,
            r.sched().device_queue@ == Seq::<Pid>::empty(),
            r.sched().sporadic_queue@ == Seq::<Pid>::empty(),
            r.pool().free_list() == Seq::<Pid>::empty(),
            r.pool().next_fresh() == 1,
            forall|n: nat| !r.registry().bit_set(n),
    {
        let mut processes_list: Vec<Option<Process>> = Vec::new();
        processes_list.push(None);
        processes_list.push(None);
        ProcessesManager {
            processes_list,
            currently_executing_process: 0,
            idle_process: Process::idle(),
            scheduler: Scheduler::new(periodic_order),
            pid_pool: IncrementingPool::new(1),
            name_registry: DynamicBitmap::new(),
        }
    }

    pub fn get_current_process_pid(&self) -> (r: Pid)
        ensures
            r == self.current_pid(),
    {
        self.currently_executing_process
    }

    /// The opaque argument of the running process.
    pub fn get_current_process_arg(&self) -> (r: i32)
        requires
            self.current_exists(),
        ensures
            r == self.current_proc().spec_arg(),
    {
        self.get_current_process().get_arg()
    }

    /// Tier of the running process.
    pub fn get_current_scheduling_level(&self) -> (r: SchedulingLevel)
        requires
            self.current_exists(),
        ensures
            r == self.current_proc().spec_level(),
    {
        self.get_current_process().get_process_scheduling_level()
    }

    /// Name of the running process.
    pub fn get_current_process_name(&self) -> (r: Name)
        requires
            self.current_exists(),
        ensures
            r == self.current_proc().spec_name(),
    {
        self.get_current_process().get_name()
    }

    /// Name of the active periodic slot.
    pub fn get_scheduled_name(&self) -> (r: Name)
        requires
            self.sched_table_ok(),
        ensures
            r == self.active_slot_name(),
    {
        self.scheduler.get_current_periodic_entry().0
    }

    pub fn get_process_with_pid(&self, pid: Pid) -> (r: Option<&Process>)
        requires
            pid >= 1,
        ensures
            match r {
                Some(p) => self.live(pid) && *p == self.proc(pid),
                None => !self.live(pid),
            },
    {
        if pid - 1 < self.processes_list.len() as u64 {
            match &self.processes_list[(pid - 1) as usize] {
                Some(p) => Some(p),
                None => None,
            }
        } else {
            None
        }
    }

    /// Replaces the status of a live process, or of the idle singleton when
    /// `pid` is 0, leaving everything else as it was.
    fn set_status_of_pid(&mut self, pid: Pid, status: ProcessStatus)
        requires
            pid == 0 || old(self).live(pid),
        ensures
            final(self).table().len() == old(self).table().len(),
            forall|i: int|
                0 <= i < old(self).table().len() && i != pid - 1 ==> final(self).table()[i] == old(self).table()[i],
            pid != 0 ==> final(self).live(pid) && same_except_status(
                old(self).proc(pid),
                final(self).proc(pid),
                status,
            ) && final(self).idle() == old(self).idle(),
            pid == 0 ==> final(self).table() == old(self).table() && same_except_status(
                old(self).idle(),
                final(self).idle(),
                status,
            ),
            final(self).sched() == old(self).sched(),
            final(self).pool() == old(self).pool(),
            final(self).registry() == old(self).registry(),
            final(self).current_pid() == old(self).current_pid(),
    {
        if pid == 0 {
            self.idle_process.set_process_status(status);
        } else {
            let n = self.processes_list.len();
            proof {
                assert(pid - 1 < n);
            }
            let idx: usize = (pid - 1) as usize;
            match &mut self.processes_list[idx] {
                Some(p) => p.set_process_status(status),
                None => {
                    proof {
                        assert(false);
                    }
                },
            }
        }
    }

    /// Stores the caller's suspended-execution handle into the current
    /// process, leaving everything else as it was.
    fn save_current_stack_pos(&mut self, stack_p: u64)
        requires
            old(self).current_exists(),
        ensures
            final(self).table().len() == old(self).table().len(),
            forall|i: int|
                0 <= i < old(self).table().len() && i != old(self).current_pid() - 1 ==> final(self).table()[i] == old(self).table()[i],
            old(self).current_pid() != 0 ==> final(self).live(old(self).current_pid())
                && same_except_stack_pos(
                old(self).current_proc(),
                final(self).proc(old(self).current_pid()),
                stack_p,
            ) && final(self).idle() == old(self).idle(),
            old(self).current_pid() == 0 ==> final(self).table() == old(self).table()
                && same_except_stack_pos(old(self).idle(), final(self).idle(), stack_p),
            final(self).sched() == old(self).sched(),
            final(self).pool() == old(self).pool(),
            final(self).registry() == old(self).registry(),
            final(self).current_pid() == old(self).current_pid(),
    {
        if self.currently_executing_process == 0 {
            self.idle_process.set_stack_pos(stack_p);
        } else {
            let n = self.processes_list.len();
            proof {
                assert(self.currently_executing_process - 1 < n);
            }
            let idx: usize = (self.currently_executing_process - 1) as usize;
            match &mut self.processes_list[idx] {
                Some(p) => p.set_stack_pos(stack_p),
                None => {
                    proof {
                        assert(false);
                    }
                },
            }
        }
    }

    /// Slot of the first live periodic process named `name`, if any.
    fn find_periodic_index(&self, name: Name) -> (r: Option<usize>)
        ensures
            match r {
                Some(i) => is_owner_at(self.table(), name, i as int),
                None => !has_owner(self.table(), name),
            },
    {
        let mut i: usize = 0;
        while i < self.processes_list.len()
            invariant
                i <= self.table().len(),
                forall|k: int| 0 <= k < i ==> !is_owner_at(self.table(), name, k),
            decreases self.table().len() - i,
        {
            match &self.processes_list[i] {
                Some(p) => {
                    if p.get_process_scheduling_level() == SchedulingLevel::Periodic
                        && p.get_name() == name {
                        return Some(i);
                    }
                },
                None => {},
            }
            i = i + 1;
        }
        proof {
            assert(!has_owner(self.table(), name));
        }
        None
    }

    /// Makes the idle singleton the running process; when `set_scheduled`,
    /// first demotes the current process if it was Running.
    fn switch_to_idle(&mut self, set_scheduled: bool)
        requires
            set_scheduled ==> old(self).current_exists(),
        ensures
            final(self).current_pid() == 0,
            same_except_status(old(self).idle(), final(self).idle(), ProcessStatus::Running),
            final(self).table().len() == old(self).table().len(),
            ({
                let cur = old(self).current_pid();
                if set_scheduled && cur != 0 && old(self).current_proc().spec_status()
                    == ProcessStatus::Running {
                    &&& forall|i: int|
                        0 <= i < old(self).table().len() && i != cur - 1 ==> final(self).table()[i]
                            == old(self).table()[i]
                    &&& final(self).live(cur)
                    &&& same_except_status(
                        old(self).proc(cur),
                        final(self).proc(cur),
                        ProcessStatus::Scheduled,
                    )
                } else {
                    final(self).table() == old(self).table()
                }
            }),
            final(self).sched() == old(self).sched(),
            final(self).pool() == old(self).pool(),
            final(self).registry() == old(self).registry(),
    {
        if set_scheduled {
            let cur = self.currently_executing_process;
            if self.get_current_process().get_process_status() == ProcessStatus::Running {
                self.set_status_of_pid(cur, ProcessStatus::Scheduled);
            }
        }
        self.currently_executing_process = 0;
        self.idle_process.set_process_status(ProcessStatus::Running);
    }

    /// When a device is ready, makes the front of the device queue Running
    /// (demoting the previous runner to Scheduled) and reports success;
    /// otherwise changes nothing.
    fn switch_to_device(&mut self) -> (r: bool)
        requires
            old(self).current_exists(),
            forall|k: int|
                0 <= k < old(self).sched().device_queue@.len() ==> old(self).live(
                    #[trigger] old(self).sched().device_queue@[k],
                ),
            old(self).current_pid() != 0 ==> !old(self).sched().device_queue@.contains(
                old(self).current_pid(),
            ),
        ensures
            r == (old(self).sched().device_queue@.len() > 0),
            !r ==> *final(self) == *old(self),
            r ==> ({
                let front = old(self).sched().device_queue@[0];
                let cur = old(self).current_pid();
                &&& final(self).current_pid() == front
                &&& final(self).live(front)
                &&& same_except_status(
                    old(self).proc(front),
                    final(self).proc(front),
                    ProcessStatus::Running,
                )
                &&& final(self).table().len() == old(self).table().len()
                &&& (cur == 0 ==> same_except_status(
                    old(self).idle(),
                    final(self).idle(),
                    ProcessStatus::Scheduled,
                ) && forall|i: int|
                    0 <= i < old(self).table().len() && i != front - 1 ==> final(self).table()[i]
                        == old(self).table()[i])
                &&& (cur != 0 ==> final(self).idle() == old(self).idle() && final(self).live(cur)
                    && same_except_status(
                    old(self).proc(cur),
                    final(self).proc(cur),
                    ProcessStatus::Scheduled,
                ) && forall|i: int|
                    0 <= i < old(self).table().len() && i != front - 1 && i != cur - 1 ==> final(self).table()[i] == old(self).table()[i])
                &&& final(self).sched() == old(self).sched()
                &&& final(self).pool() == old(self).pool()
                &&& final(self).registry() == old(self).registry()
            }),
    {
        if self.scheduler.device_queue.len() > 0 {
            let old_process = self.currently_executing_process;
            let new_pid = self.scheduler.device_queue[0];
            proof {
                assert(old(self).sched().device_queue@.contains(
                    old(self).sched().device_queue@[0],
                ));
            }
            self.set_status_of_pid(new_pid, ProcessStatus::Running);
            self.currently_executing_process = new_pid;
            self.set_status_of_pid(old_process, ProcessStatus::Scheduled);
            true
        } else {
            false
        }
    }

    /// When a sporadic process is ready, makes the front of the sporadic
    /// queue Running and reports success; the previous runner is demoted
    /// only if it was still Running and is not the front itself. Otherwise
    /// changes nothing.
    fn switch_to_sporadic(&mut self) -> (r: bool)
        requires
            old(self).current_exists(),
            forall|k: int|
                0 <= k < old(self).sched().sporadic_queue@.len() ==> old(self).live(
                    #[trigger] old(self).sched().sporadic_queue@[k],
                ),
        ensures
            r == (old(self).sporadic_len() > 0),
            !r ==> *final(self) == *old(self),
            r ==> ({
                let front = old(self).sched().sporadic_queue@[0];
                let cur = old(self).current_pid();
                &&& final(self).current_pid() == front
                &&& final(self).live(front)
                &&& same_except_status(
                    old(self).proc(front),
                    final(self).proc(front),
                    ProcessStatus::Running,
                )
                &&& final(self).table().len() == old(self).table().len()
                &&& (front == cur ==> final(self).idle() == old(self).idle() && forall|i: int|
                    0 <= i < old(self).table().len() && i != front - 1 ==> final(self).table()[i]
                        == old(self).table()[i])
                &&& (front != cur && !(old(self).current_proc().spec_status()
                    == ProcessStatus::Running) ==> final(self).idle() == old(self).idle()
                    && forall|i: int|
                    0 <= i < old(self).table().len() && i != front - 1 ==> final(self).table()[i]
                        == old(self).table()[i])
                &&& (front != cur && old(self).current_proc().spec_status()
                    == ProcessStatus::Running && cur == 0 ==> same_except_status(
                    old(self).idle(),
                    final(self).idle(),
                    ProcessStatus::Scheduled,
                ) && forall|i: int|
                    0 <= i < old(self).table().len() && i != front - 1 ==> final(self).table()[i]
                        == old(self).table()[i])
                &&& (front != cur && old(self).current_proc().spec_status()
                    == ProcessStatus::Running && cur != 0 ==> final(self).idle() == old(self).idle()
                    && final(self).live(cur) && same_except_status(
                    old(self).proc(cur),
                    final(self).proc(cur),
                    ProcessStatus::Scheduled,
                ) && forall|i: int|
                    0 <= i < old(self).table().len() && i != front - 1 && i != cur - 1 ==> final(self).table()[i] == old(self).table()[i])
                &&& final(self).sched() == old(self).sched()
                &&& final(self).pool() == old(self).pool()
                &&& final(self).registry() == old(self).registry()
            }),
    {
        if self.scheduler.sporadic_queue.len() > 0 {
            let new_pid = self.scheduler.sporadic_queue[0];
            proof {
                assert(old(self).sched().sporadic_queue@.contains(
                    old(self).sched().sporadic_queue@[0],
                ));
            }
            self.set_status_of_pid(new_pid, ProcessStatus::Running);
            if self.currently_executing_process != new_pid {
                let cur = self.currently_executing_process;
                if self.get_current_process().get_process_status() == ProcessStatus::Running {
                    self.set_status_of_pid(cur, ProcessStatus::Scheduled);
                }
                self.currently_executing_process = new_pid;
            }
            true
        } else {
            false
        }
    }

    /// Length of the sporadic ready queue.
    pub open spec fn sporadic_len(&self) -> nat {
        self.sched().sporadic_queue@.len()
    }

    /// Whether the slot advances once the countdown has run out, and the
    /// index, name and yielded flag that result; these mirror
    /// `Scheduler::check_and_change_periodic` on the manager's state.
    pub open spec fn slot_advances(&self) -> bool {
        self.sched().periodic_time == 0
    }

    pub open spec fn next_slot_index(&self) -> int {
        if self.slot_advances() {
            (self.sched().periodic_index + 1) as int % self.sched().periodic_order@.len() as int
        } else {
            self.sched().periodic_index as int
        }
    }

    pub open spec fn next_slot_name(&self) -> Name {
        self.sched().periodic_order@[self.next_slot_index()].0
    }

    pub open spec fn flag_after_check(&self) -> bool {
        if self.slot_advances() {
            false
        } else {
            self.sched().periodic_yielded
        }
    }

    /// The current process already owns the slot that will be active.
    pub open spec fn periodic_stays(&self) -> bool {
        &&& self.current_pid() != 0
        &&& self.proc(self.current_pid()).spec_level() == SchedulingLevel::Periodic
        &&& self.proc(self.current_pid()).spec_name() == self.next_slot_name()
    }

    /// A registered owner of the upcoming slot replaces the current process.
    pub open spec fn periodic_promotes(&self) -> bool {
        !self.periodic_stays() && self.registry().bit_set(self.next_slot_name() as nat)
    }

    /// Non-status fields of two table entries agree.
    pub open spec fn same_proc_modulo_status(p: Process, q: Process) -> bool {
        &&& q.spec_pid() == p.spec_pid()
        &&& q.spec_level() == p.spec_level()
        &&& q.spec_name() == p.spec_name()
        &&& q.spec_stack_bounds() == p.spec_stack_bounds()
        &&& q.spec_stack_pos() == p.spec_stack_pos()
        &&& q.spec_arg() == p.spec_arg()
    }

    /// `t2` is `t1` with at most process statuses changed.
    pub open spec fn table_statuses_only(t1: Seq<Option<Process>>, t2: Seq<Option<Process>>) -> bool {
        &&& t2.len() == t1.len()
        &&& forall|i: int|
            0 <= i < t1.len() ==> ((#[trigger] t2[i]) is Some <==> t1[i] is Some) && (t1[i] is Some
                ==> Self::same_proc_modulo_status(t1[i]->0, t2[i]->0))
    }

    /// Status changes never disturb which names are owned, so the name
    /// registry stays faithful to the table.
    proof fn lemma_names_ok_preserved(pre: ProcessesManager, post: ProcessesManager)
        requires
            pre.names_ok(),
            post.registry() == pre.registry(),
            post.table().len() == pre.table().len(),
            forall|i: int|
                0 <= i < pre.table().len() ==> ((#[trigger] post.table()[i]) is Some <==> pre.table()[
                    i] is Some) && (pre.table()[i] is Some ==> post.table()[i]->0.spec_level()
                    == pre.table()[i]->0.spec_level() && post.table()[i]->0.spec_name()
                    == pre.table()[i]->0.spec_name()),
        ensures
            post.names_ok(),
    {
        assert forall|n: nat| #[trigger] post.registry().bit_set(n) implies has_owner(
            post.table(),
            n as Name,
        ) && n <= usize::MAX by {
            assert(pre.registry().bit_set(n));
            let i = choose|i: int| #[trigger] is_owner_at(pre.table(), n as Name, i);
            assert(is_owner_at(post.table(), n as Name, i));
        }
        assert forall|i: int, j: int|
            is_owner_at(post.table(), post.table()[i]->0.spec_name(), i) && is_owner_at(
                post.table(),
                post.table()[i]->0.spec_name(),
                j,
            ) implies i == j by {
            assert(is_owner_at(pre.table(), pre.table()[i]->0.spec_name(), i));
            assert(is_owner_at(pre.table(), pre.table()[i]->0.spec_name(), j));
        }
    }

    /// Scheduling-relevant fields of two table entries agree; the stack
    /// range, handle and argument are free to differ.
    pub open spec fn proc_sched_eq(p: Process, q: Process) -> bool {
        &&& q.spec_pid() == p.spec_pid()
        &&& q.spec_level() == p.spec_level()
        &&& q.spec_name() == p.spec_name()
        &&& q.spec_status() == p.spec_status()
    }

    pub open spec fn table_sched_eq(t1: Seq<Option<Process>>, t2: Seq<Option<Process>>) -> bool {
        &&& t2.len() == t1.len()
        &&& forall|i: int|
            0 <= i < t1.len() ==> ((#[trigger] t2[i]) is Some <==> t1[i] is Some) && (t1[i] is Some
                ==> Self::proc_sched_eq(t1[i]->0, t2[i]->0))
    }

    /// A transition that leaves every scheduling-relevant field in place —
    /// whatever it does to stack handles and arguments — keeps the whole
    /// core invariant.
    proof fn lemma_core_semantic(pre: ProcessesManager, post: ProcessesManager)
        requires
            pre.inv_core(),
            Self::table_sched_eq(pre.table(), post.table()),
            post.idle().spec_pid() == pre.idle().spec_pid(),
            post.idle().spec_level() == pre.idle().spec_level(),
            post.idle().spec_status() == pre.idle().spec_status(),
            post.idle().spec_arg() == pre.idle().spec_arg(),
            post.sched().periodic_order == pre.sched().periodic_order,
            post.sched().periodic_index == pre.sched().periodic_index,
            post.sched().periodic_yielded == pre.sched().periodic_yielded,
            post.sched().device_queue == pre.sched().device_queue,
            post.sched().sporadic_queue == pre.sched().sporadic_queue,
            post.pool() == pre.pool(),
            post.registry() == pre.registry(),
            post.current_pid() == pre.current_pid(),
        ensures
            post.inv_core(),
    {
        assert forall|n: nat| #[trigger] post.registry().bit_set(n) implies has_owner(
            post.table(),
            n as Name,
        ) && n <= usize::MAX by {
            assert(pre.registry().bit_set(n));
            let i = choose|i: int| #[trigger] is_owner_at(pre.table(), n as Name, i);
            assert(is_owner_at(post.table(), n as Name, i));
        }
        assert forall|i: int, j: int|
            is_owner_at(post.table(), post.table()[i]->0.spec_name(), i) && is_owner_at(
                post.table(),
                post.table()[i]->0.spec_name(),
                j,
            ) implies i == j by {
            assert(is_owner_at(pre.table(), pre.table()[i]->0.spec_name(), i));
            assert(is_owner_at(pre.table(), pre.table()[i]->0.spec_name(), j));
        }
        if post.sched().periodic_yielded {
            let wi = choose|i: int|
                is_owner_at(pre.table(), pre.active_slot_name(), i) && (#[trigger] pre.table()[
                    i])->0.spec_status() == ProcessStatus::Yielded;
            assert(is_owner_at(post.table(), post.active_slot_name(), wi));
            assert(post.table()[wi]->0.spec_status() == ProcessStatus::Yielded);
        }
    }

    /// The second tier of the cascade. Consults (and possibly advances) the
    /// cyclic-executive slot, returns a mid-yield owner of an expired slot to
    /// Scheduled, and either keeps the current periodic owner Running,
    /// promotes the registered owner of the active slot, or reports that the
    /// periodic tier yields nothing this time.
    #[verifier::rlimit(100)]
    #[verifier::spinoff_prover]
    fn switch_to_periodic(&mut self) -> (r: bool)
        requires
            old(self).inv_core(),
            old(self).current_running(),
        ensures
            final(self).inv_core(),
            Self::table_statuses_only(old(self).table(), final(self).table()),
            final(self).pool() == old(self).pool(),
            final(self).registry() == old(self).registry(),
            final(self).sched().time == old(self).sched().time,
            final(self).sched().periodic_order == old(self).sched().periodic_order,
            final(self).sched().device_queue == old(self).sched().device_queue,
            final(self).sched().sporadic_queue == old(self).sched().sporadic_queue,
            final(self).sched().periodic_index == old(self).next_slot_index(),
            final(self).sched().periodic_time == if old(self).slot_advances() {
                old(self).sched().periodic_order@[old(self).next_slot_index()].1 as int
            } else {
                old(self).sched().periodic_time as int
            },
            final(self).sched().periodic_yielded == old(self).flag_after_check(),
            r == (!old(self).flag_after_check() && (old(self).periodic_stays() || old(self).periodic_promotes())),
            r ==> final(self).current_running() && final(self).current_pid() != 0 && final(self).live(final(self).current_pid()) && final(self).proc(
                final(self).current_pid(),
            ).spec_level() == SchedulingLevel::Periodic && final(self).proc(
                final(self).current_pid(),
            ).spec_name() == final(self).active_slot_name(),
            !r ==> final(self).current_pid() == old(self).current_pid() && final(self).current_proc().spec_status() == old(self).current_proc().spec_status(),
            final(self).current_pid() == if !old(self).flag_after_check() && old(self).periodic_promotes() {
                owner_index(old(self).table(), old(self).next_slot_name()) + 1
            } else {
                old(self).current_pid() as int
            },
            final(self).idle() == old(self).idle() || (!old(self).flag_after_check() && old(self).periodic_promotes() && old(self).current_pid() == 0 && same_except_status(
                old(self).idle(),
                final(self).idle(),
                ProcessStatus::Scheduled,
            )),
    {
        let ghost pre = *self;
        let previously_yielded = self.scheduler.periodic_yielded;
        let old_name = self.scheduler.get_current_periodic_entry().0;
        let (name, _next_periodic) = self.scheduler.check_and_change_periodic();
        if self.scheduler.periodic_yielded {
            return false;
        }
        if previously_yielded {
            // The expired slot's owner was mid-yield; slot re-entry returns
            // it to Scheduled.
            match self.find_periodic_index(old_name) {
                Some(i) => {
                    proof {
                        let t = pre.table();
                        let wi = choose|k: int|
                            is_owner_at(t, pre.active_slot_name(), k) && t[k]->0.spec_status()
                                == ProcessStatus::Yielded;
                        assert(is_owner_at(t, t[wi]->0.spec_name(), wi));
                        assert(is_owner_at(t, t[wi]->0.spec_name(), i as int));
                        assert(wi == i as int);
                    }
                    let pid = i as u64 + 1;
                    self.set_status_of_pid(pid, ProcessStatus::Scheduled);
                },
                None => {
                    proof {
                        let t = pre.table();
                        let wi = choose|k: int|
                            is_owner_at(t, pre.active_slot_name(), k) && t[k]->0.spec_status()
                                == ProcessStatus::Yielded;
                        assert(is_owner_at(t, old_name, wi));
                        assert(false);
                    }
                },
            }
        }
        let cur_level = self.get_current_process().get_process_scheduling_level();
        let cur_name = self.get_current_process().get_name();
        let cur_status = self.get_current_process().get_process_status();
        if cur_level == SchedulingLevel::Periodic && cur_name == name {
            proof {
                Self::lemma_names_ok_preserved(pre, *self);
            }
            return cur_status != ProcessStatus::Yielded;
        }
        if name <= usize::MAX as u64 && self.name_registry.check_bit(name as usize) {
            let cur = self.currently_executing_process;
            self.set_status_of_pid(cur, ProcessStatus::Scheduled);
            match self.find_periodic_index(name) {
                Some(i) => {
                    proof {
                        let t = pre.table();
                        let oi = owner_index(t, name);
                        assert(name as usize as nat == name as nat);
                        assert(pre.registry().bit_set(name as nat));
                        assert(has_owner(t, name));
                        assert(is_owner_at(t, name, oi));
                        assert(is_owner_at(t, t[oi]->0.spec_name(), oi));
                        assert(is_owner_at(t, t[oi]->0.spec_name(), i as int));
                        assert(oi == i as int);
                    }
                    let pid = i as u64 + 1;
                    self.set_status_of_pid(pid, ProcessStatus::Running);
                    self.currently_executing_process = pid;
                    proof {
                        Self::lemma_names_ok_preserved(pre, *self);
                    }
                    true
                },
                None => {
                    proof {
                        let t = pre.table();
                        let oi = owner_index(t, name);
                        assert(name as usize as nat == name as nat);
                        assert(pre.registry().bit_set(name as nat));
                        assert(has_owner(t, name));
                        assert(is_owner_at(t, name, oi));
                        assert(is_owner_at(self.table(), name, oi));
                        assert(false);
                    }
                    false
                },
            }
        } else {
            proof {
                Self::lemma_names_ok_preserved(pre, *self);
            }
            false
        }
    }

    /// Ticks left in the active slot once a tick-driven cascade has charged
    /// it, and the slot bookkeeping that follows from that; these lift the
    /// single-step scheduler spec over the optional charge.
    pub open spec fn countdown_after(&self, tick: bool) -> int {
        self.sched().periodic_time - (if tick {
            1int
        } else {
            0int
        })
    }

    pub open spec fn tick_slot_advances(&self, tick: bool) -> bool {
        self.countdown_after(tick) == 0
    }

    pub open spec fn tick_next_slot_index(&self, tick: bool) -> int {
        if self.tick_slot_advances(tick) {
            (self.sched().periodic_index + 1) as int % self.sched().periodic_order@.len() as int
        } else {
            self.sched().periodic_index as int
        }
    }

    pub open spec fn tick_next_slot_name(&self, tick: bool) -> Name {
        self.sched().periodic_order@[self.tick_next_slot_index(tick)].0
    }

    pub open spec fn tick_flag_after(&self, tick: bool) -> bool {
        if self.tick_slot_advances(tick) {
            false
        } else {
            self.sched().periodic_yielded
        }
    }

    pub open spec fn tick_periodic_stays(&self, tick: bool) -> bool {
        &&& self.current_pid() != 0
        &&& self.proc(self.current_pid()).spec_level() == SchedulingLevel::Periodic
        &&& self.proc(self.current_pid()).spec_name() == self.tick_next_slot_name(tick)
    }

    pub open spec fn tick_periodic_promotes(&self, tick: bool) -> bool {
        !self.tick_periodic_stays(tick) && self.registry().bit_set(
            self.tick_next_slot_name(tick) as nat,
        )
    }

    /// The periodic tier claims the processor in this cascade.
    pub open spec fn periodic_wins(&self, tick: bool) -> bool {
        !self.tick_flag_after(tick) && (self.tick_periodic_stays(tick)
            || self.tick_periodic_promotes(tick))
    }

    /// A transition that only rewrites statuses, without touching the
    /// queues, the slot bookkeeping, the registry, the pool or the set of
    /// mid-yield processes, keeps the whole core invariant.
    proof fn lemma_core_after_switch(pre: ProcessesManager, post: ProcessesManager)
        requires
            pre.inv_core(),
            Self::table_statuses_only(pre.table(), post.table()),
            Self::same_proc_modulo_status(pre.idle(), post.idle()),
            post.idle().spec_status() != ProcessStatus::Yielded,
            post.sched().periodic_order == pre.sched().periodic_order,
            post.sched().periodic_index == pre.sched().periodic_index,
            post.sched().periodic_yielded == pre.sched().periodic_yielded,
            post.sched().device_queue == pre.sched().device_queue,
            post.sched().sporadic_queue == pre.sched().sporadic_queue,
            post.pool() == pre.pool(),
            post.registry() == pre.registry(),
            post.current_exists(),
            post.running_at_most_current(),
            forall|i: int|
                0 <= i < pre.table().len() && pre.table()[i] is Some ==> ((#[trigger] pre.table()[
                    i])->0.spec_status() == ProcessStatus::Yielded <==> post.table()[
                    i]->0.spec_status() == ProcessStatus::Yielded),
        ensures
            post.inv_core(),
    {
        Self::lemma_names_ok_preserved(pre, post);
        if post.sched().periodic_yielded {
            let wi = choose|i: int|
                is_owner_at(pre.table(), pre.active_slot_name(), i) && (#[trigger] pre.table()[
                    i])->0.spec_status() == ProcessStatus::Yielded;
            assert(is_owner_at(post.table(), post.active_slot_name(), wi));
            assert(post.table()[wi]->0.spec_status() == ProcessStatus::Yielded);
        }
    }

    /// Runs the full scheduling cascade: device first, then the cyclic
    /// executive (charging the active slot by one tick when `tick` holds),
    /// then sporadic, then idle; the first tier that succeeds owns the
    /// processor.
    #[verifier::rlimit(100)]
    #[verifier::spinoff_prover]
    fn schedule_all_the_stuff(&mut self, tick: bool)
        requires
            old(self).inv_core(),
            old(self).current_running(),
            old(self).countdown_ok(),
            old(self).current_pid() != 0 ==> !old(self).sched().device_queue@.contains(
                old(self).current_pid(),
            ),
        ensures
            final(self).inv(),
            Self::table_statuses_only(old(self).table(), final(self).table()),
            Self::same_proc_modulo_status(old(self).idle(), final(self).idle()),
            final(self).sched().time == old(self).sched().time,
            final(self).sched().periodic_order == old(self).sched().periodic_order,
            final(self).sched().device_queue == old(self).sched().device_queue,
            final(self).sched().sporadic_queue == old(self).sched().sporadic_queue,
            final(self).pool() == old(self).pool(),
            final(self).registry() == old(self).registry(),
            old(self).sched().device_queue@.len() > 0 ==> {
                &&& final(self).current_pid() == old(self).sched().device_queue@[0]
                &&& final(self).sched().periodic_index == old(self).sched().periodic_index
                &&& final(self).sched().periodic_time == old(self).sched().periodic_time
                &&& final(self).sched().periodic_yielded == old(self).sched().periodic_yielded
            },
            old(self).sched().device_queue@.len() == 0 ==> {
                &&& final(self).sched().periodic_index == old(self).tick_next_slot_index(tick)
                &&& final(self).sched().periodic_time == if old(self).tick_slot_advances(tick) {
                    old(self).sched().periodic_order@[old(self).tick_next_slot_index(tick)].1 as int
                } else {
                    old(self).countdown_after(tick)
                }
                &&& final(self).sched().periodic_yielded == old(self).tick_flag_after(tick)
                &&& final(self).current_pid() == if old(self).periodic_wins(tick) {
                    if old(self).tick_periodic_promotes(tick) {
                        owner_index(old(self).table(), old(self).tick_next_slot_name(tick)) + 1
                    } else {
                        old(self).current_pid() as int
                    }
                } else if old(self).sporadic_len() > 0 {
                    old(self).sched().sporadic_queue@[0] as int
                } else {
                    0int
                }
            },
    {
        let ghost pre = *self;
        if !self.switch_to_device() {
            if tick {
                self.scheduler.periodic_time = self.scheduler.periodic_time - 1;
            }
            let ghost mid = *self;
            proof {
                assert(mid.table() == pre.table());
                assert(mid.registry() == pre.registry());
                assert(mid.names_ok());
                assert(mid.yield_ok());
                assert(mid.pool_ok());
            }
            if !self.switch_to_periodic() {
                let ghost after_p = *self;
                if !self.switch_to_sporadic() {
                    self.switch_to_idle(true);
                    proof {
                        Self::lemma_core_after_switch(after_p, *self);
                    }
                } else {
                    proof {
                        Self::lemma_core_after_switch(after_p, *self);
                    }
                }
            }
        } else {
            proof {
                Self::lemma_core_after_switch(pre, *self);
            }
        }
    }

    /// Pid that the pool will hand out next.
    pub open spec fn next_pid(&self) -> Pid {
        if self.pool().free_list().len() > 0 {
            self.pool().free_list().last()
        } else {
            self.pool().next_fresh()
        }
    }

    /// Creates a process around an already-reserved, primed stack and
    /// registers it with the scheduler. Rejects a periodic name that is
    /// already taken, with no other effect; a new sporadic process joins the
    /// back of the sporadic queue. The caller must have checked that a
    /// periodic name occurs in the cyclic-executive table — creating a
    /// process that could never be scheduled is a configuration error this
    /// kernel treats as fatal.
    pub fn create_new_process(
        &mut self,
        level: SchedulingLevel,
        name: Name,
        arg: i32,
        stack_bounds: StackBounds,
        stack_pointer: u64,
    ) -> (r: Result<Pid, CreateError>)
        requires
            old(self).inv(),
            level != SchedulingLevel::Idle,
            level == SchedulingLevel::Periodic ==> name <= usize::MAX && exists|i: int|
                0 <= i < old(self).sched().periodic_order@.len() && (#[trigger] old(self).sched().periodic_order@[i]).0 == name,
            level == SchedulingLevel::Device ==> name >= 1,
            old(self).pool().next_fresh() < usize::MAX,
        ensures
            final(self).inv(),
            r is Err <==> (level == SchedulingLevel::Periodic && old(self).registry().bit_set(
                name as nat,
            )),
            r is Err ==> *final(self) == *old(self) && r == Err::<Pid, CreateError>(
                CreateError::NameTaken,
            ),
            r matches Ok(pid) ==> {
                &&& pid == old(self).next_pid()
                &&& final(self).live(pid)
                &&& final(self).proc(pid).spec_pid() == pid
                &&& final(self).proc(pid).spec_level() == level
                &&& final(self).proc(pid).spec_status() == ProcessStatus::Scheduled
                &&& final(self).proc(pid).spec_name() == name
                &&& final(self).proc(pid).spec_stack_bounds() == stack_bounds
                &&& final(self).proc(pid).spec_stack_pos() == stack_pointer
                &&& final(self).proc(pid).spec_arg() == arg
                &&& final(self).table().len() == if old(self).table().len() >= pid {
                    old(self).table().len() as int
                } else {
                    pid as int
                }
                &&& forall|i: int|
                    0 <= i < old(self).table().len() && i != pid - 1 ==> final(self).table()[i]
                        == old(self).table()[i]
                &&& forall|i: int|
                    old(self).table().len() <= i < final(self).table().len() && i != pid - 1
                        ==> final(self).table()[i] is None
                &&& (old(self).pool().free_list().len() > 0 ==> final(self).pool().free_list()
                    == old(self).pool().free_list().drop_last() && final(self).pool().next_fresh()
                    == old(self).pool().next_fresh())
                &&& (old(self).pool().free_list().len() == 0 ==> final(self).pool().free_list()
                    == old(self).pool().free_list() && final(self).pool().next_fresh() == old(self).pool().next_fresh() + 1)
                &&& final(self).sched().device_queue == old(self).sched().device_queue
                &&& (level == SchedulingLevel::Sporadic ==> final(self).sched().sporadic_queue@
                    == old(self).sched().sporadic_queue@.push(pid))
                &&& (level != SchedulingLevel::Sporadic ==> final(self).sched().sporadic_queue
                    == old(self).sched().sporadic_queue)
                &&& (level == SchedulingLevel::Periodic ==> final(self).registry().bit_set(
                    name as nat,
                ) && forall|m: nat|
                    m != name as nat ==> final(self).registry().bit_set(m) == old(self).registry().bit_set(m))
                &&& (level != SchedulingLevel::Periodic ==> final(self).registry() == old(self).registry())
                &&& final(self).sched().time == old(self).sched().time
                &&& final(self).sched().periodic_order == old(self).sched().periodic_order
                &&& final(self).sched().periodic_index == old(self).sched().periodic_index
                &&& final(self).sched().periodic_time == old(self).sched().periodic_time
                &&& final(self).sched().periodic_yielded == old(self).sched().periodic_yielded
                &&& final(self).current_pid() == old(self).current_pid()
                &&& final(self).idle() == old(self).idle()
            },
    {
        let ghost pre = *self;
        match level {
            SchedulingLevel::Device => {},
            SchedulingLevel::Periodic => {
                // A name already registered means a live periodic process
                // holds it: reject with no side effect.
                if !self.name_registry.set_bit(name as usize) {
                    proof {
                        assert(name as usize as nat == name as nat);
                    }
                    return Err(CreateError::NameTaken);
                }
                proof {
                    assert(name as usize as nat == name as nat);
                }
            },
            SchedulingLevel::Sporadic => {},
            SchedulingLevel::Idle => {
                proof {
                    assert(false);
                }
                return Err(CreateError::NameTaken);
            },
        }
        let pid = self.pid_pool.get_free_elem();
        let process = Process::new(pid, level, name, arg, stack_bounds, stack_pointer);
        let idx = process.get_idx();
        let ghost mid = *self;
        while self.processes_list.len() < idx + 1
            invariant
                idx + 1 <= usize::MAX,
                self.processes_list@.len() >= mid.processes_list@.len(),
                self.processes_list@.len() == mid.processes_list@.len()
                    || self.processes_list@.len() <= idx + 1,
                forall|i: int|
                    0 <= i < mid.processes_list@.len() ==> self.processes_list@[i]
                        == mid.processes_list@[i],
                forall|i: int|
                    mid.processes_list@.len() <= i < self.processes_list@.len()
                        ==> self.processes_list@[i] is None,
                self.idle_process == mid.idle_process,
                self.scheduler == mid.scheduler,
                self.currently_executing_process == mid.currently_executing_process,
                self.pid_pool == mid.pid_pool,
                self.name_registry == mid.name_registry,
            decreases idx + 1 - self.processes_list.len(),
        {
            self.processes_list.push(None);
        }
        let out_pid = process.get_pid();
        if level == SchedulingLevel::Sporadic {
            self.scheduler.sporadic_queue.push_back(out_pid);
        }
        proof {
            let t = pre.table();
            if pre.pool().free_list().len() > 0 {
                let k = pre.pool().free_list().len() - 1;
                assert(pre.pool().free_list()[k] == pid);
                assert(t[pid - 1] is None);
            } else {
                assert(pid == pre.pool().next_fresh());
                if idx < t.len() {
                    if t[idx as int] is Some {
                        assert(idx + 1 < pre.pool().next_fresh());
                        assert(false);
                    }
                }
            }
            assert(self.processes_list@[idx as int] is None);
        }
        let ghost before_ins = self.processes_list@;
        self.processes_list[idx] = Some(process);
        proof {
            assert(self.processes_list@ =~= before_ins.update(idx as int, Some(process)));
            assert forall|i: int|
                0 <= i < self.table().len() && self.table()[i] is Some implies {
                let p = (#[trigger] self.table()[i])->0;
                &&& p.spec_pid() == i + 1
                &&& p.spec_level() != SchedulingLevel::Idle
                &&& (p.spec_level() == SchedulingLevel::Device ==> p.spec_name() >= 1)
                &&& (p.spec_level() == SchedulingLevel::Periodic ==> p.spec_name() <= usize::MAX)
            } by {
                if i == idx as int {
                    assert(self.table()[i] == Some(process));
                } else if i < pre.table().len() {
                    assert(self.table()[i] == pre.table()[i]);
                    assert(pre.table()[i] is Some ==> (pre.table()[i])->0.spec_pid() == i + 1);
                } else {
                    assert(self.table()[i] is None);
                }
            }
            assert forall|i: int|
                0 <= i < self.table().len() && self.table()[i] is Some && (#[trigger] self.table()[
                    i])->0.spec_status() == ProcessStatus::Running implies i + 1
                == self.current_pid() by {
                if i != idx as int && i < pre.table().len() {
                    assert(self.table()[i] == pre.table()[i]);
                }
            }
            assert forall|i: int|
                0 <= i < self.table().len() && self.table()[i] is Some && (#[trigger] self.table()[
                    i])->0.spec_level() == SchedulingLevel::Periodic implies self.registry(
            ).bit_set(self.table()[i]->0.spec_name() as nat) by {
                if i == idx as int {
                } else if i < pre.table().len() {
                    assert(self.table()[i] == pre.table()[i]);
                    assert(pre.registry().bit_set(pre.table()[i]->0.spec_name() as nat));
                }
            }
            assert forall|n: nat| #[trigger] self.registry().bit_set(n) implies has_owner(
                self.table(),
                n as Name,
            ) && n <= usize::MAX by {
                if level == SchedulingLevel::Periodic && n == name as nat {
                    assert(is_owner_at(self.table(), name, idx as int));
                } else {
                    assert(pre.registry().bit_set(n));
                    let wi = choose|i: int| #[trigger] is_owner_at(pre.table(), n as Name, i);
                    assert(pre.table()[wi] is Some);
                    assert(wi != idx as int);
                    assert(self.table()[wi] == pre.table()[wi]);
                    assert(is_owner_at(self.table(), n as Name, wi));
                }
            }
            assert forall|i: int, j: int|
                is_owner_at(self.table(), self.table()[i]->0.spec_name(), i) && is_owner_at(
                    self.table(),
                    self.table()[i]->0.spec_name(),
                    j,
                ) implies i == j by {
                let nm = self.table()[i]->0.spec_name();
                if i != idx as int && j != idx as int {
                    assert(self.table()[i] == pre.table()[i]);
                    assert(self.table()[j] == pre.table()[j]);
                    assert(is_owner_at(pre.table(), pre.table()[i]->0.spec_name(), i));
                    assert(is_owner_at(pre.table(), pre.table()[i]->0.spec_name(), j));
                } else if i == idx as int && j != idx as int {
                    assert(self.table()[j] == pre.table()[j]);
                    assert(is_owner_at(pre.table(), nm, j));
                    assert(pre.registry().bit_set(pre.table()[j]->0.spec_name() as nat));
                    assert(false);
                } else if j == idx as int && i != idx as int {
                    assert(self.table()[i] == pre.table()[i]);
                    assert(is_owner_at(pre.table(), nm, i));
                    assert(pre.registry().bit_set(pre.table()[i]->0.spec_name() as nat));
                    assert(false);
                }
            }
            if self.sched().periodic_yielded {
                let wi = choose|i: int|
                    is_owner_at(pre.table(), pre.active_slot_name(), i) && (#[trigger] pre.table()[
                        i])->0.spec_status() == ProcessStatus::Yielded;
                assert(wi != idx as int);
                assert(self.table()[wi] == pre.table()[wi]);
                assert(is_owner_at(self.table(), self.active_slot_name(), wi));
                assert(self.table()[wi]->0.spec_status() == ProcessStatus::Yielded);
            }
            assert forall|i: int|
                0 <= i < self.table().len() && self.table()[i] is Some && (#[trigger] self.table()[
                    i])->0.spec_status() == ProcessStatus::Yielded implies self.table()[
                i]->0.spec_level() == SchedulingLevel::Periodic && self.table()[i]->0.spec_name()
                == self.active_slot_name() && self.sched().periodic_yielded by {
                if i != idx as int && i < pre.table().len() {
                    assert(self.table()[i] == pre.table()[i]);
                }
            }
            assert forall|k: int|
                0 <= k < self.pool().free_list().len() implies {
                let e = #[trigger] self.pool().free_list()[k];
                &&& 1 <= e < self.pool().next_fresh()
                &&& e - 1 < self.table().len()
                &&& self.table()[e - 1] is None
            } by {
                if pre.pool().free_list().len() > 0 {
                    assert(self.pool().free_list() == pre.pool().free_list().drop_last());
                    assert(self.pool().free_list()[k] == pre.pool().free_list()[k]);
                    let e = pre.pool().free_list()[k];
                    assert(e != pid);
                    assert(self.table()[e - 1] == pre.table()[e - 1]);
                } else {
                    let e = pre.pool().free_list()[k];
                    assert(self.table()[e - 1] == pre.table()[e - 1]);
                }
            }
            assert forall|i: int|
                0 <= i < self.table().len() && (#[trigger] self.table()[i]) is Some implies i + 1
                < self.pool().next_fresh() by {
                if i != idx as int && i < pre.table().len() {
                    assert(self.table()[i] == pre.table()[i]);
                    assert(pre.table()[i] is Some);
                }
            }
        }
        Ok(out_pid)
    }

    /// Cooperative yield from the running process, which must not be the
    /// idle singleton. Saves the caller's suspended-execution handle, applies
    /// the tier-specific policy — a device leaves the front of its queue, a
    /// periodic process is marked mid-yield, a sporadic process goes to the
    /// back of the round-robin — and returns the handle of the process to
    /// resume.
    pub fn yield_current_process(&mut self, stack_p: u64) -> (r: u64)
        requires
            old(self).inv(),
            old(self).current_pid() != 0,
        ensures
            final(self).inv(),
            r == final(self).current_proc().spec_stack_pos(),
            final(self).live(old(self).current_pid()),
            final(self).proc(old(self).current_pid()).spec_stack_pos() == stack_p,
            final(self).proc(old(self).current_pid()).spec_pid() == old(self).current_pid(),
            final(self).proc(old(self).current_pid()).spec_level() == old(self).current_proc().spec_level(),
            final(self).proc(old(self).current_pid()).spec_name() == old(self).current_proc().spec_name(),
            final(self).proc(old(self).current_pid()).spec_stack_bounds() == old(self).current_proc().spec_stack_bounds(),
            final(self).proc(old(self).current_pid()).spec_arg() == old(self).current_proc().spec_arg(),
            final(self).table().len() == old(self).table().len(),
            forall|i: int|
                0 <= i < old(self).table().len() ==> ((#[trigger] final(self).table()[i]) is Some
                    <==> old(self).table()[i] is Some),
            forall|i: int|
                0 <= i < old(self).table().len() && i != old(self).current_pid() - 1 && old(self).table()[i] is Some ==> Self::same_proc_modulo_status(
                    old(self).table()[i]->0,
                    (#[trigger] final(self).table()[i])->0,
                ),
            final(self).pool() == old(self).pool(),
            final(self).registry() == old(self).registry(),
            final(self).sched().time == old(self).sched().time,
            final(self).sched().periodic_order == old(self).sched().periodic_order,
            old(self).current_proc().spec_level() == SchedulingLevel::Device ==> {
                &&& final(self).sched().device_queue@ == old(self).sched().device_queue@.subrange(
                    1,
                    old(self).sched().device_queue@.len() as int,
                )
                &&& final(self).sched().sporadic_queue == old(self).sched().sporadic_queue
                &&& final(self).sched().periodic_index == old(self).sched().periodic_index
                &&& final(self).sched().periodic_time == old(self).sched().periodic_time
                &&& final(self).sched().periodic_yielded == old(self).sched().periodic_yielded
                &&& (final(self).sched().device_queue@.len() > 0 ==> final(self).current_pid()
                    == final(self).sched().device_queue@[0])
            },
            old(self).current_proc().spec_level() == SchedulingLevel::Periodic ==> {
                &&& final(self).proc(old(self).current_pid()).spec_status()
                    == ProcessStatus::Yielded
                &&& final(self).sched().periodic_yielded == true
                &&& final(self).sched().device_queue == old(self).sched().device_queue
                &&& final(self).sched().sporadic_queue == old(self).sched().sporadic_queue
                &&& final(self).sched().periodic_index == old(self).sched().periodic_index
                &&& final(self).sched().periodic_time == old(self).sched().periodic_time
                &&& (old(self).sporadic_len() > 0 ==> final(self).current_pid() == old(self).sched().sporadic_queue@[0])
                &&& (old(self).sporadic_len() == 0 ==> final(self).current_pid() == 0)
            },
            old(self).current_proc().spec_level() == SchedulingLevel::Sporadic ==> {
                &&& final(self).sched().sporadic_queue@ == old(self).sched().sporadic_queue@.subrange(
                    1,
                    old(self).sched().sporadic_queue@.len() as int,
                ).push(old(self).current_pid())
                &&& final(self).current_pid() == final(self).sched().sporadic_queue@[0]
                &&& final(self).sched().device_queue == old(self).sched().device_queue
                &&& final(self).sched().periodic_index == old(self).sched().periodic_index
                &&& final(self).sched().periodic_time == old(self).sched().periodic_time
                &&& final(self).sched().periodic_yielded == old(self).sched().periodic_yielded
                &&& (old(self).sporadic_len() == 1 ==> final(self).current_pid() == old(self).current_pid())
                &&& (old(self).sporadic_len() > 1 ==> final(self).proc(
                    old(self).current_pid(),
                ).spec_status() == ProcessStatus::Scheduled)
            },
    {
        let ghost pre = *self;
        self.save_current_stack_pos(stack_p);
        let ghost saved = *self;
        let current_pid = self.currently_executing_process;
        let level = self.get_current_process().get_process_scheduling_level();
        match level {
            SchedulingLevel::Device => {
                // The running device must stand at the front of its queue.
                match self.scheduler.device_queue.pop_front() {
                    Some(popped) => {
                        proof {
                            assert(popped == current_pid);
                        }
                    },
                    None => {
                        proof {
                            assert(false);
                        }
                    },
                }
                proof {
                    Self::lemma_core_semantic(pre, saved);
                    let dq = saved.sched().device_queue@;
                    assert(self.sched().device_queue@ == dq.subrange(1, dq.len() as int));
                    assert forall|k: int|
                        0 <= k < self.sched().device_queue@.len() implies self.live(
                        #[trigger] self.sched().device_queue@[k],
                    ) && self.proc(self.sched().device_queue@[k]).spec_level()
                        == SchedulingLevel::Device by {
                        assert(self.sched().device_queue@[k] == dq[k + 1]);
                    }
                    assert forall|k: int, l: int|
                        0 <= k < l < self.sched().device_queue@.len() implies self.sched(
                    ).device_queue@[k] != self.sched().device_queue@[l] by {
                        assert(self.sched().device_queue@[k] == dq[k + 1]);
                        assert(self.sched().device_queue@[l] == dq[l + 1]);
                    }
                    assert(!self.sched().device_queue@.contains(current_pid)) by {
                        if self.sched().device_queue@.contains(current_pid) {
                            let k = choose|k: int|
                                0 <= k < self.sched().device_queue@.len()
                                    && self.sched().device_queue@[k] == current_pid;
                            assert(self.sched().device_queue@[k] == dq[k + 1]);
                            assert(dq[0] == current_pid);
                        }
                    }
                }
                self.schedule_all_the_stuff(false);
            },
            SchedulingLevel::Periodic => {
                proof {
                    Self::lemma_core_semantic(pre, saved);
                    if saved.sched().periodic_yielded {
                        let wi = choose|i: int|
                            is_owner_at(saved.table(), saved.active_slot_name(), i) && (
                            #[trigger] saved.table()[i])->0.spec_status() == ProcessStatus::Yielded;
                        assert(is_owner_at(
                            saved.table(),
                            saved.table()[current_pid - 1]->0.spec_name(),
                            wi,
                        ));
                        assert(is_owner_at(
                            saved.table(),
                            saved.table()[current_pid - 1]->0.spec_name(),
                            current_pid - 1,
                        ));
                        assert(false);
                    }
                    assert(saved.sched().device_queue@.len() == 0) by {
                        if saved.sched().device_queue@.len() > 0 {
                            assert(saved.sched().device_queue@[0] == current_pid);
                        }
                    }
                }
                self.set_status_of_pid(current_pid, ProcessStatus::Yielded);
                self.scheduler.periodic_yielded = true;
                let ghost mid = *self;
                proof {
                    Self::lemma_names_ok_preserved(saved, mid);
                    assert forall|i: int|
                        0 <= i < mid.table().len() && mid.table()[i] is Some && (
                        #[trigger] mid.table()[i])->0.spec_status() == ProcessStatus::Yielded
                        implies mid.table()[i]->0.spec_level() == SchedulingLevel::Periodic
                        && mid.table()[i]->0.spec_name() == mid.active_slot_name()
                        && mid.sched().periodic_yielded by {
                        if i != current_pid - 1 {
                            assert(mid.table()[i] == saved.table()[i]);
                        }
                    }
                    assert(is_owner_at(mid.table(), mid.active_slot_name(), current_pid - 1));
                    assert(mid.inv_core());
                }
                if !self.switch_to_sporadic() {
                    self.switch_to_idle(false);
                    proof {
                        Self::lemma_core_after_switch(mid, *self);
                    }
                } else {
                    proof {
                        Self::lemma_core_after_switch(mid, *self);
                    }
                }
            },
            SchedulingLevel::Sporadic => {
                proof {
                    Self::lemma_core_semantic(pre, saved);
                }
                self.set_status_of_pid(current_pid, ProcessStatus::Scheduled);
                let ghost demoted = *self;
                proof {
                    Self::lemma_names_ok_preserved(saved, demoted);
                }
                match self.scheduler.sporadic_queue.pop_front() {
                    Some(front) => {
                        self.scheduler.sporadic_queue.push_back(front);
                    },
                    None => {
                        proof {
                            assert(false);
                        }
                    },
                }
                let ghost mid = *self;
                proof {
                    let sq = demoted.sched().sporadic_queue@;
                    assert(mid.sched().sporadic_queue@ == sq.subrange(1, sq.len() as int).push(
                        sq[0],
                    ));
                    assert forall|k: int|
                        0 <= k < mid.sched().sporadic_queue@.len() implies mid.live(
                        #[trigger] mid.sched().sporadic_queue@[k],
                    ) && mid.proc(mid.sched().sporadic_queue@[k]).spec_level()
                        == SchedulingLevel::Sporadic by {
                        if k < sq.len() - 1 {
                            assert(mid.sched().sporadic_queue@[k] == sq[k + 1]);
                        } else {
                            assert(mid.sched().sporadic_queue@[k] == sq[0]);
                        }
                    }
                    assert forall|k: int, l: int|
                        0 <= k < l < mid.sched().sporadic_queue@.len() implies mid.sched(
                    ).sporadic_queue@[k] != mid.sched().sporadic_queue@[l] by {
                        if l < sq.len() - 1 {
                            assert(mid.sched().sporadic_queue@[k] == sq[k + 1]);
                            assert(mid.sched().sporadic_queue@[l] == sq[l + 1]);
                        } else {
                            assert(mid.sched().sporadic_queue@[k] == sq[k + 1]);
                            assert(mid.sched().sporadic_queue@[l] == sq[0]);
                        }
                    }
                    if mid.sched().periodic_yielded {
                        let wi = choose|i: int|
                            is_owner_at(demoted.table(), demoted.active_slot_name(), i) && (
                            #[trigger] demoted.table()[i])->0.spec_status()
                                == ProcessStatus::Yielded;
                        assert(is_owner_at(mid.table(), mid.active_slot_name(), wi));
                        assert(mid.table()[wi]->0.spec_status() == ProcessStatus::Yielded);
                    }
                    assert(mid.inv_core());
                    assert(saved.sched().device_queue@.len() == 0) by {
                        if saved.sched().device_queue@.len() > 0 {
                            assert(saved.sched().device_queue@[0] == current_pid);
                        }
                    }
                }
                self.switch_to_sporadic();
                proof {
                    Self::lemma_core_after_switch(mid, *self);
                }
            },
            SchedulingLevel::Idle => {
                proof {
                    assert(false);
                }
            },
        }
        self.get_current_process().get_stack_pos()
    }

    /// What the name registry holds once `pid`'s entry is gone: a periodic
    /// name is released, everything else keeps its bit.
    pub open spec fn registry_bit_after_end(&self, m: nat) -> bool {
        if self.current_proc().spec_level() == SchedulingLevel::Periodic && m
            == self.current_proc().spec_name() as nat {
            false
        } else {
            self.registry().bit_set(m)
        }
    }

    /// Terminates the running process: clears its table slot, releases its
    /// name or queue front per tier, returns its pid to the pool, and runs a
    /// full tick-charging cascade so a waiting process takes over within the
    /// same trap. Returns the resume handle of the next process together
    /// with the stack range of the terminated one, which the caller unmaps
    /// exactly once — the slot is empty afterwards, so nothing can hand the
    /// range out again.
    pub fn end_current_process(&mut self) -> (r: (u64, StackBounds))
        requires
            old(self).inv(),
            old(self).current_pid() != 0,
        ensures
            final(self).inv(),
            r.1 == old(self).current_proc().spec_stack_bounds(),
            r.0 == final(self).current_proc().spec_stack_pos(),
            final(self).table().len() == old(self).table().len(),
            final(self).table()[old(self).current_pid() - 1] is None,
            forall|i: int|
                0 <= i < old(self).table().len() && i != old(self).current_pid() - 1 ==> ((
                #[trigger] final(self).table()[i]) is Some <==> old(self).table()[i] is Some),
            forall|i: int|
                0 <= i < old(self).table().len() && i != old(self).current_pid() - 1 && old(self).table()[i] is Some ==> Self::same_proc_modulo_status(
                    old(self).table()[i]->0,
                    (#[trigger] final(self).table()[i])->0,
                ),
            final(self).pool().free_list() == old(self).pool().free_list().push(
                old(self).current_pid(),
            ),
            final(self).pool().next_fresh() == old(self).pool().next_fresh(),
            final(self).sched().time == old(self).sched().time,
            final(self).sched().periodic_order == old(self).sched().periodic_order,
            forall|m: nat|
                #[trigger] final(self).registry().bit_set(m) == old(self).registry_bit_after_end(m),
            old(self).current_proc().spec_level() == SchedulingLevel::Device ==> final(self).sched().device_queue@ == old(self).sched().device_queue@.subrange(
                1,
                old(self).sched().device_queue@.len() as int,
            ) && final(self).sched().sporadic_queue == old(self).sched().sporadic_queue,
            old(self).current_proc().spec_level() == SchedulingLevel::Sporadic ==> final(self).sched().sporadic_queue@ == old(self).sched().sporadic_queue@.subrange(
                1,
                old(self).sched().sporadic_queue@.len() as int,
            ) && final(self).sched().device_queue == old(self).sched().device_queue,
            old(self).current_proc().spec_level() == SchedulingLevel::Periodic ==> final(self).sched().sporadic_queue == old(self).sched().sporadic_queue && final(self).sched().device_queue == old(self).sched().device_queue,
            final(self).sched().device_queue@.len() > 0 ==> final(self).current_pid() == final(self).sched().device_queue@[0],
    {
        let ghost pre = *self;
        let current_pid = self.currently_executing_process;
        let n = self.processes_list.len();
        proof {
            assert(current_pid - 1 < n);
        }
        let idx = (current_pid - 1) as usize;
        let (lvl, nm, bounds) = match &self.processes_list[idx] {
            Some(p) => (p.get_process_scheduling_level(), p.get_name(), p.get_stack_bounds()),
            None => {
                proof {
                    assert(false);
                }
                (SchedulingLevel::Idle, 0u64, StackBounds::zero())
            },
        };
        let ghost before_clear = self.processes_list@;
        self.processes_list[idx] = None;
        proof {
            assert(self.processes_list@ =~= before_clear.update(idx as int, None::<Process>));
        }
        match lvl {
            SchedulingLevel::Device => {
                match self.scheduler.device_queue.pop_front() {
                    Some(popped) => {
                        proof {
                            assert(popped == current_pid);
                        }
                    },
                    None => {
                        proof {
                            assert(false);
                        }
                    },
                }
            },
            SchedulingLevel::Periodic => {
                self.name_registry.clear_bit(nm as usize);
                proof {
                    assert(nm as usize as nat == nm as nat);
                }
            },
            SchedulingLevel::Sporadic => {
                match self.scheduler.sporadic_queue.pop_front() {
                    Some(popped) => {
                        proof {
                            assert(popped == current_pid);
                        }
                    },
                    None => {
                        proof {
                            assert(false);
                        }
                    },
                }
            },
            SchedulingLevel::Idle => {
                proof {
                    assert(false);
                }
            },
        }
        self.pid_pool.return_elem(current_pid);
        self.switch_to_idle(false);
        let ghost mid = *self;
        proof {
            Self::lemma_end_mid_core(pre, mid, lvl, nm);
        }
        self.schedule_all_the_stuff(true);
        (self.get_current_process().get_stack_pos(), bounds)
    }

    /// After a termination has cleared the slot, released the tier resource
    /// and parked the processor on the idle singleton, the core invariant
    /// holds again.
    proof fn lemma_end_mid_core(
        pre: ProcessesManager,
        mid: ProcessesManager,
        lvl: SchedulingLevel,
        nm: Name,
    )
        requires
            pre.inv(),
            pre.current_pid() != 0,
            lvl == pre.current_proc().spec_level(),
            nm == pre.current_proc().spec_name(),
            mid.table() == pre.table().update(pre.current_pid() - 1, None::<Process>),
            mid.current_pid() == 0,
            mid.idle().spec_pid() == 0,
            mid.idle().spec_level() == SchedulingLevel::Idle,
            mid.idle().spec_status() == ProcessStatus::Running,
            mid.idle().spec_arg() == pre.idle().spec_arg(),
            mid.sched().periodic_order == pre.sched().periodic_order,
            mid.sched().periodic_index == pre.sched().periodic_index,
            mid.sched().periodic_time == pre.sched().periodic_time,
            mid.sched().periodic_yielded == pre.sched().periodic_yielded,
            lvl == SchedulingLevel::Device ==> mid.sched().device_queue@ == pre.sched(
            ).device_queue@.subrange(1, pre.sched().device_queue@.len() as int) && mid.sched(
            ).sporadic_queue == pre.sched().sporadic_queue && mid.registry() == pre.registry(),
            lvl == SchedulingLevel::Sporadic ==> mid.sched().sporadic_queue@ == pre.sched(
            ).sporadic_queue@.subrange(1, pre.sched().sporadic_queue@.len() as int) && mid.sched(
            ).device_queue == pre.sched().device_queue && mid.registry() == pre.registry(),
            lvl == SchedulingLevel::Periodic ==> mid.sched().sporadic_queue == pre.sched(
            ).sporadic_queue && mid.sched().device_queue == pre.sched().device_queue && (forall|
                m: nat,
            |
                #[trigger] mid.registry().bit_set(m) == if m == nm as nat {
                    false
                } else {
                    pre.registry().bit_set(m)
                }),
            mid.pool().free_list() == pre.pool().free_list().push(pre.current_pid()),
            mid.pool().next_fresh() == pre.pool().next_fresh(),
        ensures
            mid.inv_core(),
            mid.current_running(),
            mid.countdown_ok(),
            mid.sched().device_queue@.len() > 0 ==> !mid.sched().device_queue@.contains(0u64),
    {
        let cur = pre.current_pid();
        let t = pre.table();
        // the terminated entry cannot have been mid-yield or queued twice
        assert(t[cur - 1]->0.spec_status() == ProcessStatus::Running);
        assert forall|i: int|
            0 <= i < mid.table().len() && mid.table()[i] is Some && (#[trigger] mid.table()[
                i])->0.spec_level() == SchedulingLevel::Periodic implies mid.registry().bit_set(
            mid.table()[i]->0.spec_name() as nat,
        ) by {
            assert(mid.table()[i] == t[i]);
            assert(pre.registry().bit_set(t[i]->0.spec_name() as nat));
            if lvl == SchedulingLevel::Periodic && t[i]->0.spec_name() == nm {
                assert(is_owner_at(t, nm, i));
                assert(is_owner_at(t, nm, cur - 1));
                assert(is_owner_at(t, t[cur - 1]->0.spec_name(), cur - 1));
                assert(is_owner_at(t, t[cur - 1]->0.spec_name(), i));
                assert(false);
            }
        }
        assert forall|m: nat| #[trigger] mid.registry().bit_set(m) implies has_owner(
            mid.table(),
            m as Name,
        ) && m <= usize::MAX by {
            assert(pre.registry().bit_set(m));
            let wi = choose|i: int| #[trigger] is_owner_at(t, m as Name, i);
            if wi == cur - 1 {
                assert(lvl == SchedulingLevel::Periodic && m == nm as nat);
                assert(false);
            }
            assert(is_owner_at(mid.table(), m as Name, wi));
        }
        assert forall|i: int, j: int|
            is_owner_at(mid.table(), mid.table()[i]->0.spec_name(), i) && is_owner_at(
                mid.table(),
                mid.table()[i]->0.spec_name(),
                j,
            ) implies i == j by {
            assert(is_owner_at(t, t[i]->0.spec_name(), i));
            assert(is_owner_at(t, t[i]->0.spec_name(), j));
        }
        if mid.sched().periodic_yielded {
            let wi = choose|i: int|
                is_owner_at(t, pre.active_slot_name(), i) && (#[trigger] t[i])->0.spec_status()
                    == ProcessStatus::Yielded;
            assert(wi != cur - 1);
            assert(is_owner_at(mid.table(), mid.active_slot_name(), wi));
            assert(mid.table()[wi]->0.spec_status() == ProcessStatus::Yielded);
        }
        if lvl == SchedulingLevel::Device {
            let dq = pre.sched().device_queue@;
            assert forall|k: int|
                0 <= k < mid.sched().device_queue@.len() implies mid.live(
                #[trigger] mid.sched().device_queue@[k],
            ) && mid.proc(mid.sched().device_queue@[k]).spec_level() == SchedulingLevel::Device by {
                assert(mid.sched().device_queue@[k] == dq[k + 1]);
                assert(dq[k + 1] != cur);
            }
            assert forall|k: int, l: int|
                0 <= k < l < mid.sched().device_queue@.len() implies mid.sched().device_queue@[k]
                != mid.sched().device_queue@[l] by {
                assert(mid.sched().device_queue@[k] == dq[k + 1]);
                assert(mid.sched().device_queue@[l] == dq[l + 1]);
            }
        } else {
            assert(pre.sched().device_queue@.len() == 0) by {
                if pre.sched().device_queue@.len() > 0 {
                    assert(pre.sched().device_queue@[0] == cur);
                }
            }
        }
        if lvl == SchedulingLevel::Sporadic {
            let sq = pre.sched().sporadic_queue@;
            assert forall|k: int|
                0 <= k < mid.sched().sporadic_queue@.len() implies mid.live(
                #[trigger] mid.sched().sporadic_queue@[k],
            ) && mid.proc(mid.sched().sporadic_queue@[k]).spec_level()
                == SchedulingLevel::Sporadic by {
                assert(mid.sched().sporadic_queue@[k] == sq[k + 1]);
                assert(sq[k + 1] != cur);
            }
            assert forall|k: int, l: int|
                0 <= k < l < mid.sched().sporadic_queue@.len() implies mid.sched(
            ).sporadic_queue@[k] != mid.sched().sporadic_queue@[l] by {
                assert(mid.sched().sporadic_queue@[k] == sq[k + 1]);
                assert(mid.sched().sporadic_queue@[l] == sq[l + 1]);
            }
        } else {
            assert forall|k: int|
                0 <= k < mid.sched().sporadic_queue@.len() implies mid.live(
                #[trigger] mid.sched().sporadic_queue@[k],
            ) && mid.proc(mid.sched().sporadic_queue@[k]).spec_level()
                == SchedulingLevel::Sporadic by {
                assert(mid.sched().sporadic_queue@[k] == pre.sched().sporadic_queue@[k]);
                assert(pre.sched().sporadic_queue@[k] != cur);
            }
        }
        assert forall|k: int|
            0 <= k < mid.pool().free_list().len() implies {
            let e = #[trigger] mid.pool().free_list()[k];
            &&& 1 <= e < mid.pool().next_fresh()
            &&& e - 1 < mid.table().len()
            &&& mid.table()[e - 1] is None
        } by {
            if k < pre.pool().free_list().len() {
                assert(mid.pool().free_list()[k] == pre.pool().free_list()[k]);
            } else {
                assert(mid.pool().free_list()[k] == cur);
            }
        }
        assert forall|k: int, l: int|
            0 <= k < l < mid.pool().free_list().len() implies mid.pool().free_list()[k]
            != mid.pool().free_list()[l] by {
            if l < pre.pool().free_list().len() {
            } else {
                assert(mid.pool().free_list()[l] == cur);
                assert(mid.pool().free_list()[k] == pre.pool().free_list()[k]);
                assert(t[pre.pool().free_list()[k] - 1] is None);
            }
        }
    }

    /// Timer preemption: counts the tick, enqueues every device process
    /// whose rate divides the new tick count, saves the caller's handle into
    /// the running process, and — unless the running process is itself a
    /// device, which has then overrun its one-tick budget and simply
    /// continues — runs the tick-charging cascade. Returns the handle to
    /// resume and whether a device overrun was observed.
    pub fn next_tick_preempt_process(&mut self, stack_p: u64) -> (r: (u64, bool))
        requires
            old(self).inv(),
            old(self).sched().time < usize::MAX,
            forall|i: int|
                0 <= i < old(self).table().len() && is_due(
                    #[trigger] old(self).table()[i],
                    (old(self).sched().time + 1) as u64,
                ) ==> !old(self).sched().device_queue@.contains((i + 1) as Pid),
        ensures
            final(self).inv(),
            final(self).sched().time == old(self).sched().time + 1,
            final(self).sched().device_queue@ == old(self).sched().device_queue@ + due_devices(
                old(self).table(),
                (old(self).sched().time + 1) as u64,
            ),
            final(self).sched().sporadic_queue == old(self).sched().sporadic_queue,
            final(self).sched().periodic_order == old(self).sched().periodic_order,
            final(self).pool() == old(self).pool(),
            final(self).registry() == old(self).registry(),
            final(self).table().len() == old(self).table().len(),
            forall|i: int|
                0 <= i < old(self).table().len() ==> ((#[trigger] final(self).table()[i]) is Some
                    <==> old(self).table()[i] is Some),
            forall|i: int|
                0 <= i < old(self).table().len() && i != old(self).current_pid() - 1 && old(self).table()[i] is Some ==> Self::same_proc_modulo_status(
                    old(self).table()[i]->0,
                    (#[trigger] final(self).table()[i])->0,
                ),
            old(self).current_pid() == 0 ==> final(self).idle().spec_stack_pos() == stack_p
                && final(self).idle().spec_name() == old(self).idle().spec_name() && final(self).idle().spec_stack_bounds() == old(self).idle().spec_stack_bounds(),
            old(self).current_pid() != 0 ==> final(self).live(old(self).current_pid()) && final(self).proc(old(self).current_pid()).spec_stack_pos() == stack_p && final(self).proc(
                old(self).current_pid(),
            ).spec_pid() == old(self).current_pid() && final(self).proc(
                old(self).current_pid(),
            ).spec_level() == old(self).current_proc().spec_level() && final(self).proc(
                old(self).current_pid(),
            ).spec_name() == old(self).current_proc().spec_name() && final(self).proc(
                old(self).current_pid(),
            ).spec_stack_bounds() == old(self).current_proc().spec_stack_bounds() && final(self).proc(old(self).current_pid()).spec_arg() == old(self).current_proc().spec_arg(),
            r.1 == (old(self).current_proc().spec_level() == SchedulingLevel::Device),
            r.0 == final(self).current_proc().spec_stack_pos(),
            r.1 ==> final(self).current_pid() == old(self).current_pid() && r.0 == stack_p
                && final(self).sched().periodic_index == old(self).sched().periodic_index && final(self).sched().periodic_time == old(self).sched().periodic_time && final(self).sched().periodic_yielded == old(self).sched().periodic_yielded,
            !r.1 ==> {
                &&& (final(self).sched().device_queue@.len() > 0 ==> final(self).current_pid()
                    == final(self).sched().device_queue@[0])
                &&& (final(self).sched().device_queue@.len() == 0 ==> {
                    &&& final(self).sched().periodic_index == old(self).tick_next_slot_index(true)
                    &&& final(self).sched().periodic_time == if old(self).tick_slot_advances(
                        true,
                    ) {
                        old(self).sched().periodic_order@[old(self).tick_next_slot_index(
                            true,
                        )].1 as int
                    } else {
                        old(self).countdown_after(true)
                    }
                    &&& final(self).sched().periodic_yielded == old(self).tick_flag_after(true)
                    &&& final(self).current_pid() == if old(self).periodic_wins(true) {
                        if old(self).tick_periodic_promotes(true) {
                            owner_index(old(self).table(), old(self).tick_next_slot_name(true)) + 1
                        } else {
                            old(self).current_pid() as int
                        }
                    } else if old(self).sporadic_len() > 0 {
                        old(self).sched().sporadic_queue@[0] as int
                    } else {
                        0int
                    }
                })
            },
    {
        let ghost pre = *self;
        self.scheduler.time = self.scheduler.time + 1;
        let current_time: u64 = self.scheduler.time as u64;
        proof {
            assert(current_time == (pre.sched().time + 1) as u64);
        }
        let ghost t0 = pre.table();
        let mut i: usize = 0;
        while i < self.processes_list.len()
            invariant
                i <= self.processes_list@.len(),
                t0 == pre.table(),
                self.processes_list@ == t0,
                current_time == (pre.sched().time + 1) as u64,
                pre.inv(),
                forall|j: int|
                    0 <= j < t0.len() && is_due(#[trigger] t0[j], current_time) ==> !pre.sched(
                    ).device_queue@.contains((j + 1) as Pid),
                self.sched().device_queue@ == pre.sched().device_queue@ + due_devices(
                    t0.take(i as int),
                    current_time,
                ),
                forall|k: int|
                    0 <= k < self.sched().device_queue@.len() ==> self.live(
                        #[trigger] self.sched().device_queue@[k],
                    ) && self.proc(self.sched().device_queue@[k]).spec_level()
                        == SchedulingLevel::Device,
                forall|k: int, l: int|
                    0 <= k < l < self.sched().device_queue@.len() ==> self.sched().device_queue@[k]
                        != self.sched().device_queue@[l],
                forall|k: int|
                    pre.sched().device_queue@.len() <= k < self.sched().device_queue@.len()
                        ==> is_due(
                        t0[self.sched().device_queue@[k] - 1],
                        current_time,
                    ) && (#[trigger] self.sched().device_queue@[k]) - 1 < i,
                pre.sched().device_queue@.len() > 0 ==> self.sched().device_queue@[0] == pre.sched(
                ).device_queue@[0],
                self.sched().time == pre.sched().time + 1,
                self.sched().periodic_order == pre.sched().periodic_order,
                self.sched().periodic_index == pre.sched().periodic_index,
                self.sched().periodic_time == pre.sched().periodic_time,
                self.sched().periodic_yielded == pre.sched().periodic_yielded,
                self.sched().sporadic_queue == pre.sched().sporadic_queue,
                self.idle() == pre.idle(),
                self.current_pid() == pre.current_pid(),
                self.pool() == pre.pool(),
                self.registry() == pre.registry(),
            decreases self.processes_list@.len() - i,
        {
            let ghost qb = self.sched().device_queue@;
            match &self.processes_list[i] {
                Some(p) => {
                    if p.get_process_scheduling_level() == SchedulingLevel::Device {
                        let divisor = p.get_name();
                        proof {
                            assert(self.processes_list@[i as int] is Some);
                            assert(pre.table()[i as int] is Some);
                            assert((pre.table()[i as int])->0 == *p);
                            assert(p.spec_level() == SchedulingLevel::Device);
                            assert(divisor >= 1);
                        }
                        if current_time % divisor == 0 {
                            let due_pid = p.get_pid();
                            proof {
                                assert(due_pid == (i + 1) as Pid);
                            }
                            self.scheduler.device_queue.push_back(due_pid);
                            proof {
                                assert(is_due(t0[i as int], current_time));
                                assert(!pre.sched().device_queue@.contains((i + 1) as Pid));
                                assert forall|k: int, l: int|
                                    0 <= k < l < self.sched().device_queue@.len() implies self.sched(
                                ).device_queue@[k] != self.sched().device_queue@[l] by {
                                    if l == self.sched().device_queue@.len() - 1 {
                                        assert(self.sched().device_queue@[l] == (i + 1) as Pid);
                                        if k < pre.sched().device_queue@.len() {
                                            assert(pre.sched().device_queue@.contains(
                                                pre.sched().device_queue@[k],
                                            ));
                                        } else {
                                            assert(qb[k] - 1 < i);
                                            assert(self.sched().device_queue@[k] == qb[k]);
                                        }
                                    }
                                }
                            }
                        }
                    }
                },
                None => {},
            }
            proof {
                assert(t0.take(i + 1).drop_last() =~= t0.take(i as int));
                assert(t0.take(i + 1).last() == t0[i as int]);
                assert(self.sched().device_queue@ =~= pre.sched().device_queue@ + due_devices(
                    t0.take(i + 1),
                    current_time,
                ));
            }
            i = i + 1;
        }
        proof {
            assert(t0.take(t0.len() as int) =~= t0);
        }
        let ghost extended = *self;
        self.save_current_stack_pos(stack_p);
        let ghost saved = *self;
        proof {
            Self::lemma_core_semantic(extended, saved);
        }
        let level = self.get_current_process().get_process_scheduling_level();
        if level == SchedulingLevel::Device {
            // Device overrun: report it and let the same process continue.
            (self.get_current_process().get_stack_pos(), true)
        } else {
            proof {
                if saved.current_pid() != 0 {
                    assert(!saved.sched().device_queue@.contains(saved.current_pid())) by {
                        if saved.sched().device_queue@.contains(saved.current_pid()) {
                            let k = choose|k: int|
                                0 <= k < saved.sched().device_queue@.len() && saved.sched(
                                ).device_queue@[k] == saved.current_pid();
                            assert(saved.proc(saved.sched().device_queue@[k]).spec_level()
                                == SchedulingLevel::Device);
                        }
                    }
                }
            }
            self.schedule_all_the_stuff(true);
            (self.get_current_process().get_stack_pos(), false)
        }
    }

    /// When the owner of the active periodic slot is mid-yield, returns it
    /// to Scheduled and clears the scheduler's flag, so the cascade will
    /// pick it up again; otherwise does nothing. A semaphore signal calls
    /// this to wake a waiter promptly.
    pub fn unyield_current_periodic(&mut self)
        requires
            old(self).inv(),
        ensures
            final(self).inv(),
            !old(self).sched().periodic_yielded ==> *final(self) == *old(self),
            old(self).sched().periodic_yielded ==> {
                let oi = owner_index(old(self).table(), old(self).active_slot_name());
                &&& final(self).sched().periodic_yielded == false
                &&& final(self).table().len() == old(self).table().len()
                &&& same_except_status(
                    old(self).table()[oi]->0,
                    final(self).table()[oi]->0,
                    ProcessStatus::Scheduled,
                )
                &&& forall|i: int|
                    0 <= i < old(self).table().len() && i != oi ==> final(self).table()[i] == old(self).table()[i]
                &&& final(self).current_pid() == old(self).current_pid()
                &&& final(self).idle() == old(self).idle()
                &&& final(self).pool() == old(self).pool()
                &&& final(self).registry() == old(self).registry()
                &&& final(self).sched().time == old(self).sched().time
                &&& final(self).sched().periodic_order == old(self).sched().periodic_order
                &&& final(self).sched().periodic_index == old(self).sched().periodic_index
                &&& final(self).sched().periodic_time == old(self).sched().periodic_time
                &&& final(self).sched().device_queue == old(self).sched().device_queue
                &&& final(self).sched().sporadic_queue == old(self).sched().sporadic_queue
            },
    {
        let ghost pre = *self;
        let name = self.scheduler.get_current_periodic_entry().0;
        match self.find_periodic_index(name) {
            Some(i) => {
                let status = match &self.processes_list[i] {
                    Some(p) => p.get_process_status(),
                    None => {
                        proof {
                            assert(false);
                        }
                        ProcessStatus::Scheduled
                    },
                };
                if status == ProcessStatus::Yielded {
                    proof {
                        assert(pre.sched().periodic_yielded);
                        let oi = owner_index(pre.table(), name);
                        assert(is_owner_at(pre.table(), name, oi)) by {
                            assert(is_owner_at(pre.table(), name, i as int));
                        }
                        assert(is_owner_at(pre.table(), pre.table()[oi]->0.spec_name(), oi));
                        assert(is_owner_at(pre.table(), pre.table()[oi]->0.spec_name(), i as int));
                        assert(oi == i as int);
                    }
                    let pid = i as u64 + 1;
                    self.set_status_of_pid(pid, ProcessStatus::Scheduled);
                    self.scheduler.periodic_yielded = false;
                    proof {
                        Self::lemma_names_ok_preserved(pre, *self);
                        assert forall|j: int|
                            0 <= j < self.table().len() && self.table()[j] is Some && (
                            #[trigger] self.table()[j])->0.spec_status() == ProcessStatus::Yielded
                            implies self.table()[j]->0.spec_level() == SchedulingLevel::Periodic
                            && self.table()[j]->0.spec_name() == self.active_slot_name()
                            && self.sched().periodic_yielded by {
                            if j != i as int {
                                assert(self.table()[j] == pre.table()[j]);
                                assert(is_owner_at(pre.table(), name, j));
                                assert(is_owner_at(pre.table(), pre.table()[j]->0.spec_name(), j));
                                assert(is_owner_at(
                                    pre.table(),
                                    pre.table()[j]->0.spec_name(),
                                    i as int,
                                ));
                                assert(false);
                            }
                        }
                    }
                } else {
                    proof {
                        if pre.sched().periodic_yielded {
                            let wi = choose|k: int|
                                is_owner_at(pre.table(), pre.active_slot_name(), k) && (
                                #[trigger] pre.table()[k])->0.spec_status()
                                    == ProcessStatus::Yielded;
                            assert(is_owner_at(pre.table(), pre.table()[wi]->0.spec_name(), wi));
                            assert(is_owner_at(
                                pre.table(),
                                pre.table()[wi]->0.spec_name(),
                                i as int,
                            ));
                            assert(false);
                        }
                    }
                }
            },
            None => {
                proof {
                    if pre.sched().periodic_yielded {
                        let wi = choose|k: int|
                            is_owner_at(pre.table(), pre.active_slot_name(), k) && (
                            #[trigger] pre.table()[k])->0.spec_status() == ProcessStatus::Yielded;
                        assert(is_owner_at(pre.table(), name, wi));
                        assert(false);
                    }
                }
            },
        }
    }

    /// Exactly one process is Running at any observation point between
    /// transitions: the one the manager designates as current, with pid 0
    /// standing for the idle singleton. Every other live process is
    /// Scheduled or Yielded.
    pub proof fn lemma_unique_running(&self)
        requires
            self.inv(),
        ensures
            self.current_pid() == 0 ==> self.idle().spec_status() == ProcessStatus::Running,
            self.current_pid() != 0 ==> self.live(self.current_pid()) && self.proc(
                self.current_pid(),
            ).spec_status() == ProcessStatus::Running,
            forall|pid: Pid|
                self.live(pid) && pid != self.current_pid() ==> self.proc(pid).spec_status()
                    != ProcessStatus::Running,
            self.current_pid() != 0 ==> self.idle().spec_status() != ProcessStatus::Running,
    {
        assert forall|pid: Pid|
            self.live(pid) && pid != self.current_pid() implies self.proc(pid).spec_status()
            != ProcessStatus::Running by {
            assert(self.table()[pid - 1] is Some);
        }
    }

    /// Device priority: whenever the device ready queue is non-empty, the
    /// process running right now is exactly its front — a device process —
    /// so every scheduling decision taken from a well-formed state has
    /// already preferred device work over any periodic or sporadic
    /// candidate.
    pub proof fn lemma_device_priority(&self)
        requires
            self.inv(),
            self.sched().device_queue@.len() > 0,
        ensures
            self.current_pid() == self.sched().device_queue@[0],
            self.live(self.current_pid()),
            self.proc(self.current_pid()).spec_level() == SchedulingLevel::Device,
            self.proc(self.current_pid()).spec_status() == ProcessStatus::Running,
    {
        assert(self.live(self.sched().device_queue@[0]) && self.proc(
            self.sched().device_queue@[0],
        ).spec_level() == SchedulingLevel::Device);
    }

    /// The device ready queue, front first, as a plain vector.
    pub fn get_device_queue(&self) -> (r: Vec<Pid>)
        ensures
            r@ == self.sched().device_queue@,
    {
        let mut r: Vec<Pid> = Vec::new();
        let mut k: usize = 0;
        while k < self.scheduler.device_queue.len()
            invariant
                k <= self.sched().device_queue@.len(),
                r@ == self.sched().device_queue@.take(k as int),
            decreases self.sched().device_queue@.len() - k,
        {
            r.push(self.scheduler.device_queue[k]);
            proof {
                assert(r@ =~= self.sched().device_queue@.take(k + 1));
            }
            k = k + 1;
        }
        proof {
            assert(r@ =~= self.sched().device_queue@);
        }
        r
    }

    /// The sporadic ready queue, front first, as a plain vector.
    pub fn get_sporadic_queue(&self) -> (r: Vec<Pid>)
        ensures
            r@ == self.sched().sporadic_queue@,
    {
        let mut r: Vec<Pid> = Vec::new();
        let mut k: usize = 0;
        while k < self.scheduler.sporadic_queue.len()
            invariant
                k <= self.sched().sporadic_queue@.len(),
                r@ == self.sched().sporadic_queue@.take(k as int),
            decreases self.sched().sporadic_queue@.len() - k,
        {
            r.push(self.scheduler.sporadic_queue[k]);
            proof {
                assert(r@ =~= self.sched().sporadic_queue@.take(k + 1));
            }
            k = k + 1;
        }
        proof {
            assert(r@ =~= self.sched().sporadic_queue@);
        }
        r
    }

    /// Ticks seen so far.
    pub fn get_time(&self) -> (r: usize)
        ensures
            r == self.sched().time,
    {
        self.scheduler.time
    }

    /// Index of the active periodic slot.
    pub fn get_periodic_index(&self) -> (r: usize)
        ensures
            r == self.sched().periodic_index,
    {
        self.scheduler.periodic_index
    }

    /// Ticks left in the active periodic slot.
    pub fn get_periodic_time(&self) -> (r: usize)
        ensures
            r == self.sched().periodic_time,
    {
        self.scheduler.periodic_time
    }

    /// Whether `name` occurs in the cyclic-executive table. A periodic
    /// process whose name is absent could never be scheduled, so creating
    /// one is a fatal configuration error; callers check here first.
    pub fn periodic_name_in_order(&self, name: Name) -> (r: bool)
        ensures
            r == exists|i: int|
                0 <= i < self.sched().periodic_order@.len() && (#[trigger] self.sched(
                ).periodic_order@[i]).0 == name,
    {
        let mut i: usize = 0;
        while i < self.scheduler.periodic_order.len()
            invariant
                i <= self.sched().periodic_order@.len(),
                forall|k: int|
                    0 <= k < i ==> (#[trigger] self.sched().periodic_order@[k]).0 != name,
            decreases self.sched().periodic_order@.len() - i,
        {
            if self.scheduler.periodic_order[i].0 == name {
                return true;
            }
            i = i + 1;
        }
        proof {
            if exists|k: int|
                0 <= k < self.sched().periodic_order@.len() && (#[trigger] self.sched(
                ).periodic_order@[k]).0 == name {
                let k = choose|k: int|
                    0 <= k < self.sched().periodic_order@.len() && (#[trigger] self.sched(
                    ).periodic_order@[k]).0 == name;
            }
        }
        false
    }

    /// Whether the owner of the active periodic slot is mid-yield.
    pub fn get_periodic_yielded(&self) -> (r: bool)
        ensures
            r == self.sched().periodic_yielded,
    {
        self.scheduler.periodic_yielded
    }

    fn get_current_process(&self) -> (r: &Process)
        requires
            self.current_exists(),
        ensures
            *r == self.current_proc(),
    {
        if self.currently_executing_process == 0 {
            &self.idle_process
        } else {
            match self.get_process_with_pid(self.currently_executing_process) {
                Some(p) => p,
                None => &self.idle_process,
            }
        }
    }
}

} // verus!
