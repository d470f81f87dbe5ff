//! Pure scheduling-policy state: the global tick counter, the fixed periodic
//! `(name, duration)` table with the index and countdown of its active slot,
//! the periodic-yielded flag, and the two FIFO ready queues.

use vstd::prelude::*;
use std::collections::VecDeque;
use crate::processes::{Name, Pid};

verus! {

pub struct Scheduler {
    /// Ticks seen since the scheduler was built.
    pub time: usize,
    /// The repeating cyclic-executive table, immutable after construction.
    pub periodic_order: Vec<(Name, usize)>,
    /// Ticks left in the active slot.
    pub periodic_time: usize,
    /// Index of the active slot in `periodic_order`.
    pub periodic_index: usize,
    /// Whether the owner of the active slot has yielded mid-slot.
    pub periodic_yielded: bool,
    /// Ready device pids, front first.
    pub device_queue: VecDeque<Pid>,
    /// Ready sporadic pids, front first, rotated on yield.
    pub sporadic_queue: VecDeque<Pid>,
}

impl Scheduler {
    pub fn new(periodic_order: Vec<(Name, usize)>) -> (r: Scheduler)
        requires
            periodic_order@.len() > 0,
        ensures
            r.time == 0,
            r.periodic_order == periodic_order,
            r.periodic_time == periodic_order@[0].1,
            r.periodic_index == 0,
            r.periodic_yielded == false,
            r.device_queue@ == Seq::<Pid>::empty(),
            r.sporadic_queue@ == Seq::<Pid>::empty(),
    {
        let periodic_time = periodic_order[0].1;
        Scheduler {
            time: 0,
            periodic_order,
            periodic_time,
            periodic_index: 0,
            periodic_yielded: false,
            device_queue: VecDeque::new(),
            sporadic_queue: VecDeque::new(),
        }
    }

    /// When the active slot's countdown has run out, advances cyclically to
    /// the next table entry, reloads the countdown and clears the yielded
    /// flag; otherwise changes nothing. Returns the now-active slot's name
    /// and whether the slot changed.
    pub fn check_and_change_periodic(&mut self) -> (r: (Name, bool))
        requires
            old(self).periodic_order@.len() > 0,
            old(self).periodic_index < old(self).periodic_order@.len(),
        ensures
            old(self).periodic_time != 0 ==> r == (old(self).periodic_order@[
                old(self).periodic_index as int].0, false) && *final(self) == *old(self),
            old(self).periodic_time == 0 ==> {
                &&& final(self).periodic_index as int == (old(self).periodic_index + 1) as int
                    % old(self).periodic_order@.len() as int
                &&& final(self).periodic_time == old(self).periodic_order@[
                    final(self).periodic_index as int].1
                &&& final(self).periodic_yielded == false
                &&& r == (old(self).periodic_order@[final(self).periodic_index as int].0, true)
                &&& final(self).time == old(self).time
                &&& final(self).periodic_order == old(self).periodic_order
                &&& final(self).device_queue == old(self).device_queue
                &&& final(self).sporadic_queue == old(self).sporadic_queue
            },
    {
        if self.periodic_time != 0 {
            return (self.get_current_periodic_entry().0, false);
        }
        self.increment_periodic_index();
        let (name, time) = self.get_current_periodic_entry();
        self.periodic_time = time;
        self.periodic_yielded = false;
        (name, true)
    }

    fn increment_periodic_index(&mut self)
        requires
            old(self).periodic_order@.len() > 0,
            old(self).periodic_index < old(self).periodic_order@.len(),
        ensures
            final(self).periodic_index == (old(self).periodic_index + 1) as int % old(
                self,
            ).periodic_order@.len() as int,
            final(self).time == old(self).time,
            final(self).periodic_order == old(self).periodic_order,
            final(self).periodic_time == old(self).periodic_time,
            final(self).periodic_yielded == old(self).periodic_yielded,
            final(self).device_queue == old(self).device_queue,
            final(self).sporadic_queue == old(self).sporadic_queue,
    {
        let n = self.periodic_order.len();
        self.periodic_index = (self.periodic_index + 1) % n;
    }

    /// The `(name, duration)` entry of the active slot.
    pub fn get_current_periodic_entry(&self) -> (r: (Name, usize))
        requires
            self.periodic_index < self.periodic_order@.len(),
        ensures
            r == self.periodic_order@[self.periodic_index as int],
    {
        self.periodic_order[self.periodic_index]
    }
}

} // verus!
