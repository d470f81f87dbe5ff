//! One schedulable unit of execution: identity, criticality tier, status,
//! owned stack range and the suspended-execution handle. Priming the stack
//! for a first run happens outside this crate; a process is built from the
//! resulting plain values.

use vstd::prelude::*;
use crate::memory::StackBounds;
use crate::processes::{Name, Pid, SchedulingLevel};

verus! {

#[derive(Clone, Copy, Debug, PartialEq, Eq, Structural)]
pub enum ProcessStatus {
    Yielded,
    Running,
    Scheduled,
}

#[derive(Clone, Debug)]
pub struct Process {
    pid: Pid,
    level: SchedulingLevel,
    status: ProcessStatus,
    name: Name,
    stack_bounds: StackBounds,
    stack_pointer: u64,
    arg: i32,
}

impl Process {
    pub closed spec fn spec_pid(&self) -> Pid {
        self.pid
    }

    pub closed spec fn spec_level(&self) -> SchedulingLevel {
        self.level
    }

    pub closed spec fn spec_status(&self) -> ProcessStatus {
        self.status
    }

    pub closed spec fn spec_name(&self) -> Name {
        self.name
    }

    pub closed spec fn spec_stack_bounds(&self) -> StackBounds {
        self.stack_bounds
    }

    /// The suspended-execution handle, meaningful only while not Running.
    pub closed spec fn spec_stack_pos(&self) -> u64 {
        self.stack_pointer
    }

    pub closed spec fn spec_arg(&self) -> i32 {
        self.arg
    }

    /// Builds a process around an already-reserved stack whose entry state
    /// was primed into `stack_pointer` by the context-switch collaborator.
    pub fn new(
        pid: Pid,
        level: SchedulingLevel,
        name: Name,
        arg: i32,
        stack_bounds: StackBounds,
        stack_pointer: u64,
    ) -> (r: Process)
        requires
            level != SchedulingLevel::Idle,
        ensures
            r.spec_pid() == pid,
            r.spec_level() == level,
            r.spec_status() == ProcessStatus::Scheduled,
            r.spec_name() == name,
            r.spec_stack_bounds() == stack_bounds,
            r.spec_stack_pos() == stack_pointer,
            r.spec_arg() == arg,
    {
        Process { pid, level, status: ProcessStatus::Scheduled, name, stack_bounds, stack_pointer, arg }
    }

    /// The fixed singleton run whenever nothing else is ready.
    pub fn idle() -> (r: Process)
        ensures
            r.spec_pid() == 0,
            r.spec_level() == SchedulingLevel::Idle,
            r.spec_status() == ProcessStatus::Running,
            r.spec_name() == 0,
            r.spec_stack_bounds().start == 0,
            r.spec_stack_bounds().end == 0,
            r.spec_stack_pos() == 0,
            r.spec_arg() == 0,
    {
        Process {
            pid: 0,
            level: SchedulingLevel::Idle,
            status: ProcessStatus::Running,
            name: 0,
            stack_bounds: StackBounds::zero(),
            stack_pointer: 0,
            arg: 0,
        }
    }

    /// Index of this process's slot in the process table.
    pub fn get_idx(&self) -> (r: usize)
        requires
            1 <= self.spec_pid() <= usize::MAX,
        ensures
            r == self.spec_pid() - 1,
    {
        (self.pid - 1) as usize
    }

    pub fn get_arg(&self) -> (r: i32)
        ensures
            r == self.spec_arg(),
    {
        self.arg
    }

    pub fn get_pid(&self) -> (r: Pid)
        ensures
            r == self.spec_pid(),
    {
        self.pid
    }

    pub fn get_name(&self) -> (r: Name)
        ensures
            r == self.spec_name(),
    {
        self.name
    }

    pub fn get_stack_pos(&self) -> (r: u64)
        ensures
            r == self.spec_stack_pos(),
    {
        self.stack_pointer
    }

    pub fn get_stack_bounds(&self) -> (r: StackBounds)
        ensures
            r == self.spec_stack_bounds(),
    {
        self.stack_bounds
    }

    pub fn set_stack_pos(&mut self, new_stack_ptr: u64)
        ensures
            final(self).spec_stack_pos() == new_stack_ptr,
            final(self).spec_pid() == old(self).spec_pid(),
            final(self).spec_level() == old(self).spec_level(),
            final(self).spec_status() == old(self).spec_status(),
            final(self).spec_name() == old(self).spec_name(),
            final(self).spec_stack_bounds() == old(self).spec_stack_bounds(),
            final(self).spec_arg() == old(self).spec_arg(),
    {
        self.stack_pointer = new_stack_ptr;
    }

    pub fn get_process_scheduling_level(&self) -> (r: SchedulingLevel)
        ensures
            r == self.spec_level(),
    {
        self.level
    }

    pub fn set_process_status(&mut self, new_status: ProcessStatus)
        ensures
            final(self).spec_status() == new_status,
            final(self).spec_pid() == old(self).spec_pid(),
            final(self).spec_level() == old(self).spec_level(),
            final(self).spec_name() == old(self).spec_name(),
            final(self).spec_stack_bounds() == old(self).spec_stack_bounds(),
            final(self).spec_stack_pos() == old(self).spec_stack_pos(),
            final(self).spec_arg() == old(self).spec_arg(),
    {
        self.status = new_status;
    }

    pub fn get_process_status(&self) -> (r: ProcessStatus)
        ensures
            r == self.spec_status(),
    {
        self.status
    }
}

} // verus!
