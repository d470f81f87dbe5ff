//! A pool of integer identifiers: hands out fresh ever-increasing values and
//! accepts returned ones, which are reissued before any new value is minted.

use vstd::prelude::*;

verus! {

pub struct IncrementingPool {
    pool: Vec<u64>,
    current_max: u64,
}

impl IncrementingPool {
    /// Identifiers that were returned and are waiting to be reissued,
    /// most recently returned last.
    pub closed spec fn free_list(&self) -> Seq<u64> {
        self.pool@
    }

    /// The next identifier that will be minted once the free list is empty.
    pub closed spec fn next_fresh(&self) -> u64 {
        self.current_max
    }

    pub fn new(staring_point: u64) -> (r: IncrementingPool)
        ensures
            r.free_list() == Seq::<u64>::empty(),
            r.next_fresh() == staring_point,
    {
        IncrementingPool { pool: Vec::new(), current_max: staring_point }
    }

    pub fn get_free_elem(&mut self) -> (r: u64)
        requires
            old(self).next_fresh() < u64::MAX,
        ensures
            old(self).free_list().len() > 0 ==> {
                &&& r == old(self).free_list().last()
                &&& final(self).free_list() == old(self).free_list().drop_last()
                &&& final(self).next_fresh() == old(self).next_fresh()
            },
            old(self).free_list().len() == 0 ==> {
                &&& r == old(self).next_fresh()
                &&& final(self).free_list() == old(self).free_list()
                &&& final(self).next_fresh() == old(self).next_fresh() + 1
            },
    {
        if let Some(out) = self.pool.pop() {
            out
        } else {
            self.current_max = self.current_max + 1;
            self.current_max - 1
        }
    }

    pub fn return_elem(&mut self, elem: u64)
        ensures
            final(self).free_list() == old(self).free_list().push(elem),
            final(self).next_fresh() == old(self).next_fresh(),
    {
        self.pool.push(elem);
    }
}

} // verus!
