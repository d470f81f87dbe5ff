//! Byte-stream IPC: a process-wide pool of FIFO channels keyed by an
//! ever-increasing key. Writes append at the back, reads drain from the
//! front.

use vstd::prelude::*;

verus! {

pub type FifoKey = u32;

/// First key ever handed out.
pub const FIRST_FIFO_KEY: FifoKey = 1000;

pub struct FifoPool {
    fifos: Vec<(FifoKey, Vec<u8>)>,
    next_key: FifoKey,
}

impl FifoPool {
    pub closed spec fn entries(&self) -> Seq<(FifoKey, Seq<u8>)> {
        Seq::new(self.fifos@.len(), |i: int| (self.fifos@[i].0, self.fifos@[i].1@))
    }

    /// The key the pool will hand out next.
    pub closed spec fn spec_next_key(&self) -> FifoKey {
        self.next_key
    }

    pub open spec fn has_fifo(&self, key: FifoKey) -> bool {
        exists|k: int| 0 <= k < self.entries().len() && (#[trigger] self.entries()[k]).0 == key
    }

    pub open spec fn index_of(&self, key: FifoKey) -> int {
        choose|k: int| 0 <= k < self.entries().len() && (#[trigger] self.entries()[k]).0 == key
    }

    /// The bytes queued in the channel with `key`, front first.
    pub open spec fn fifo(&self, key: FifoKey) -> Seq<u8> {
        self.entries()[self.index_of(key)].1
    }

    /// Keys are unique and always below the next fresh key.
    pub open spec fn wf(&self) -> bool {
        &&& forall|k: int, l: int|
            0 <= k < l < self.entries().len() ==> (#[trigger] self.entries()[k]).0 != (
            #[trigger] self.entries()[l]).0
        &&& forall|k: int|
            0 <= k < self.entries().len() ==> (#[trigger] self.entries()[k]).0
                < self.spec_next_key()
    }

    pub fn new() -> (r: FifoPool)
        ensures
            r.wf(),
            r.entries() == Seq::<(FifoKey, Seq<u8>)>::empty(),
            r.spec_next_key() == FIRST_FIFO_KEY,
    {
        FifoPool { fifos: Vec::new(), next_key: FIRST_FIFO_KEY }
    }

    /// Hands out a key no channel has used yet.
    pub fn get_available_fifo_key(&mut self) -> (r: FifoKey)
        requires
            old(self).spec_next_key() < FifoKey::MAX,
        ensures
            r == old(self).spec_next_key(),
            final(self).spec_next_key() == old(self).spec_next_key() + 1,
            final(self).entries() == old(self).entries(),
            old(self).wf() ==> final(self).wf() && !old(self).has_fifo(r),
    {
        let key = self.next_key;
        self.next_key = self.next_key + 1;
        proof {
            if old(self).wf() && old(self).has_fifo(key) {
                let k = choose|k: int|
                    0 <= k < old(self).entries().len() && (#[trigger] old(self).entries()[k]).0
                        == key;
            }
        }
        key
    }

    /// Opens a new empty channel and returns its key.
    pub fn os_init_fifo(&mut self) -> (r: FifoKey)
        requires
            old(self).wf(),
            old(self).spec_next_key() < FifoKey::MAX,
        ensures
            final(self).wf(),
            r == old(self).spec_next_key(),
            final(self).spec_next_key() == old(self).spec_next_key() + 1,
            final(self).has_fifo(r),
            final(self).fifo(r) == Seq::<u8>::empty(),
            !old(self).has_fifo(r),
            forall|other: FifoKey|
                other != r ==> final(self).has_fifo(other) == old(self).has_fifo(other),
            forall|other: FifoKey|
                other != r && old(self).has_fifo(other) ==> final(self).fifo(other) == old(
                    self,
                ).fifo(other),
    {
        let ghost pre = *self;
        let key = self.get_available_fifo_key();
        let ghost mid = *self;
        self.fifos.push((key, Vec::new()));
        proof {
            Self::lemma_push_fifo(mid, *self, key);
        }
        key
    }

    proof fn lemma_push_fifo(pre: FifoPool, post: FifoPool, key: FifoKey)
        requires
            pre.wf(),
            !pre.has_fifo(key),
            key < pre.spec_next_key() || key < post.spec_next_key(),
            post.spec_next_key() >= pre.spec_next_key(),
            key < post.spec_next_key(),
            post.entries().len() == pre.entries().len() + 1,
            forall|k: int| 0 <= k < pre.entries().len() ==> post.entries()[k] == pre.entries()[k],
            post.entries().last().0 == key,
        ensures
            post.wf(),
            post.has_fifo(key),
            post.fifo(key) == post.entries().last().1,
            forall|other: FifoKey| other != key ==> post.has_fifo(other) == pre.has_fifo(other),
            forall|other: FifoKey|
                other != key && pre.has_fifo(other) ==> post.fifo(other) == pre.fifo(other),
    {
        let n = pre.entries().len() as int;
        assert forall|k: int, l: int|
            0 <= k < l < post.entries().len() implies (#[trigger] post.entries()[k]).0 != (
        #[trigger] post.entries()[l]).0 by {
            if l == n {
                assert(post.entries()[k] == pre.entries()[k]);
                if post.entries()[k].0 == key {
                    assert(pre.has_fifo(key));
                }
            }
        }
        assert forall|k: int|
            0 <= k < post.entries().len() implies (#[trigger] post.entries()[k]).0
            < post.spec_next_key() by {
            if k < n {
                assert(post.entries()[k] == pre.entries()[k]);
            }
        }
        assert(post.entries()[n].0 == key);
        assert(post.has_fifo(key));
        let ji = post.index_of(key);
        assert(post.entries()[ji].0 == key);
        assert(ji == n) by {
            if ji < n {
                assert(pre.entries()[ji].0 == key);
                assert(pre.has_fifo(key));
            }
        }
        assert forall|other: FifoKey|
            other != key implies post.has_fifo(other) == pre.has_fifo(other) by {
            if pre.has_fifo(other) {
                let j = choose|j: int|
                    0 <= j < pre.entries().len() && (#[trigger] pre.entries()[j]).0 == other;
                assert(post.entries()[j].0 == other);
            }
            if post.has_fifo(other) {
                let j = choose|j: int|
                    0 <= j < post.entries().len() && (#[trigger] post.entries()[j]).0 == other;
                assert(j != n);
                assert(pre.entries()[j].0 == other);
            }
        }
        assert forall|other: FifoKey|
            other != key && pre.has_fifo(other) implies post.fifo(other) == pre.fifo(other) by {
            let pj = pre.index_of(other);
            assert(pre.entries()[pj].0 == other);
            let qj = post.index_of(other);
            assert(post.has_fifo(other));
            assert(post.entries()[qj].0 == other);
            assert(qj != n);
            assert(pre.entries()[qj].0 == other);
            assert(pj == qj);
        }
    }

    fn find(&self, key: FifoKey) -> (r: Option<usize>)
        ensures
            match r {
                Some(k) => k < self.entries().len() && self.entries()[k as int].0 == key
                    && self.has_fifo(key),
                None => !self.has_fifo(key),
            },
    {
        let mut k: usize = 0;
        while k < self.fifos.len()
            invariant
                k <= self.entries().len(),
                forall|j: int| 0 <= j < k ==> (#[trigger] self.entries()[j]).0 != key,
            decreases self.entries().len() - k,
        {
            if self.fifos[k].0 == key {
                return Some(k);
            }
            k = k + 1;
        }
        proof {
            if self.has_fifo(key) {
                let j = choose|j: int|
                    0 <= j < self.entries().len() && (#[trigger] self.entries()[j]).0 == key;
            }
        }
        None
    }

    /// Appends `data` to the channel with `key`; an unknown key is an
    /// expected failure with nothing changed.
    pub fn os_write(&mut self, key: FifoKey, data: &Vec<u8>) -> (r: Result<(), ()>)
        requires
            old(self).wf(),
            old(self).has_fifo(key) ==> old(self).fifo(key).len() + data@.len() <= usize::MAX,
        ensures
            final(self).wf(),
            r is Err <==> !old(self).has_fifo(key),
            r is Err ==> *final(self) == *old(self),
            r is Ok ==> {
                &&& final(self).fifo(key) == old(self).fifo(key) + data@
                &&& final(self).has_fifo(key)
                &&& final(self).spec_next_key() == old(self).spec_next_key()
                &&& forall|other: FifoKey|
                    other != key ==> final(self).has_fifo(other) == old(self).has_fifo(other)
                &&& forall|other: FifoKey|
                    other != key && old(self).has_fifo(other) ==> final(self).fifo(other) == old(
                        self,
                    ).fifo(other)
            },
    {
        let ghost pre = *self;
        let k = match self.find(key) {
            Some(k) => k,
            None => {
                return Err(());
            },
        };
        proof {
            let ki = pre.index_of(key);
            assert(pre.entries()[ki].0 == key);
            assert(pre.entries()[k as int].0 == key);
            assert(ki == k as int);
        }
        let mut i: usize = 0;
        while i < data.len()
            invariant
                pre.wf(),
                i <= data@.len(),
                k < self.entries().len(),
                self.entries().len() == pre.entries().len(),
                self.spec_next_key() == pre.spec_next_key(),
                forall|j: int| 0 <= j < pre.entries().len() && j != k ==> self.entries()[j]
                    == pre.entries()[j],
                self.entries()[k as int].0 == key,
                self.entries()[k as int].1 == pre.entries()[k as int].1 + data@.take(i as int),
                pre.entries()[k as int].1.len() + data@.len() <= usize::MAX,
            decreases data@.len() - i,
        {
            let byte = data[i];
            self.fifos[k].1.push(byte);
            proof {
                assert(self.entries()[k as int].1 =~= pre.entries()[k as int].1 + data@.take(
                    i + 1,
                ));
            }
            i = i + 1;
        }
        proof {
            assert(data@.take(data@.len() as int) =~= data@);
            let ki = pre.index_of(key);
            assert(ki == k as int);
            assert forall|j: int, l: int|
                0 <= j < l < self.entries().len() implies (#[trigger] self.entries()[j]).0 != (
            #[trigger] self.entries()[l]).0 by {
                assert(self.entries()[j].0 == pre.entries()[j].0);
                assert(self.entries()[l].0 == pre.entries()[l].0);
            }
            assert forall|j: int|
                0 <= j < self.entries().len() implies (#[trigger] self.entries()[j]).0
                < self.spec_next_key() by {
                assert(self.entries()[j].0 == pre.entries()[j].0);
            }
            assert(self.has_fifo(key)) by {
                assert(self.entries()[k as int].0 == key);
            }
            let qi = self.index_of(key);
            assert(self.entries()[qi].0 == key);
            assert(qi == k as int);
            Self::lemma_same_keys(pre, *self, k as int);
        }
        Ok(())
    }

    /// With every key in place and only slot `k`'s contents changed, lookups
    /// of other keys are untouched.
    proof fn lemma_same_keys(pre: FifoPool, post: FifoPool, k: int)
        requires
            pre.wf(),
            post.entries().len() == pre.entries().len(),
            forall|j: int|
                0 <= j < pre.entries().len() ==> (#[trigger] post.entries()[j]).0 == pre.entries()[
                    j].0,
            forall|j: int|
                0 <= j < pre.entries().len() && j != k ==> post.entries()[j] == pre.entries()[j],
        ensures
            forall|other: FifoKey|
                post.has_fifo(other) == pre.has_fifo(other),
            forall|other: FifoKey|
                other != pre.entries()[k].0 && pre.has_fifo(other) ==> post.fifo(other) == pre.fifo(
                    other,
                ),
    {
        assert forall|other: FifoKey| post.has_fifo(other) == pre.has_fifo(other) by {
            if pre.has_fifo(other) {
                let j = choose|j: int|
                    0 <= j < pre.entries().len() && (#[trigger] pre.entries()[j]).0 == other;
                assert(post.entries()[j].0 == other);
            }
            if post.has_fifo(other) {
                let j = choose|j: int|
                    0 <= j < post.entries().len() && (#[trigger] post.entries()[j]).0 == other;
                assert(pre.entries()[j].0 == other);
            }
        }
        assert forall|other: FifoKey|
            other != pre.entries()[k].0 && pre.has_fifo(other) implies post.fifo(other) == pre.fifo(
            other,
        ) by {
            let pj = pre.index_of(other);
            assert(pre.entries()[pj].0 == other);
            let qj = post.index_of(other);
            assert(post.has_fifo(other));
            assert(post.entries()[qj].0 == other);
            assert(pre.entries()[qj].0 == other);
            assert(pj == qj);
            assert(pj != k);
        }
    }

    /// Reads from the channel with `key` into the front of `buf`: drains up
    /// to `buf.len()` bytes from the channel front and reports how many were
    /// read. An unknown key is an expected failure with nothing changed.
    pub fn os_read(&mut self, key: FifoKey, buf: &mut Vec<u8>) -> (r: Result<usize, ()>)
        requires
            old(self).wf(),
        ensures
            final(self).wf(),
            final(buf)@.len() == old(buf)@.len(),
            r is Err <==> !old(self).has_fifo(key),
            r is Err ==> *final(self) == *old(self) && final(buf)@ == old(buf)@,
            r matches Ok(count) ==> {
                &&& count == if old(buf)@.len() <= old(self).fifo(key).len() {
                    old(buf)@.len() as int
                } else {
                    old(self).fifo(key).len() as int
                }
                &&& final(self).fifo(key) == old(self).fifo(key).skip(count as int)
                &&& final(buf)@ == old(self).fifo(key).take(count as int) + old(buf)@.skip(
                    count as int,
                )
                &&& final(self).has_fifo(key)
                &&& final(self).spec_next_key() == old(self).spec_next_key()
                &&& forall|other: FifoKey|
                    other != key ==> final(self).has_fifo(other) == old(self).has_fifo(other)
                &&& forall|other: FifoKey|
                    other != key && old(self).has_fifo(other) ==> final(self).fifo(other) == old(
                        self,
                    ).fifo(other)
            },
    {
        let ghost pre = *self;
        let k = match self.find(key) {
            Some(k) => k,
            None => {
                return Err(());
            },
        };
        proof {
            let ki = pre.index_of(key);
            assert(pre.entries()[ki].0 == key);
            assert(pre.entries()[k as int].0 == key);
            assert(ki == k as int);
        }
        let mut idx: usize = 0;
        let result: usize;
        loop
            invariant
                pre.wf(),
                k < self.entries().len(),
                idx <= buf@.len(),
                buf@.len() == old(buf)@.len(),
                self.entries().len() == pre.entries().len(),
                self.spec_next_key() == pre.spec_next_key(),
                forall|j: int| 0 <= j < pre.entries().len() && j != k ==> self.entries()[j]
                    == pre.entries()[j],
                self.entries()[k as int].0 == key,
                idx <= pre.entries()[k as int].1.len(),
                self.entries()[k as int].1 == pre.entries()[k as int].1.skip(idx as int),
                buf@ == pre.entries()[k as int].1.take(idx as int) + old(buf)@.skip(idx as int),
            ensures
                self.entries().len() == pre.entries().len(),
                self.spec_next_key() == pre.spec_next_key(),
                forall|j: int| 0 <= j < pre.entries().len() && j != k ==> self.entries()[j]
                    == pre.entries()[j],
                self.entries()[k as int].0 == key,
                buf@.len() == old(buf)@.len(),
                result == if old(buf)@.len() <= pre.entries()[k as int].1.len() {
                    old(buf)@.len() as int
                } else {
                    pre.entries()[k as int].1.len() as int
                },
                self.entries()[k as int].1 == pre.entries()[k as int].1.skip(result as int),
                buf@ == pre.entries()[k as int].1.take(result as int) + old(buf)@.skip(
                    result as int,
                ),
            decreases buf@.len() - idx,
        {
            if idx >= buf.len() {
                result = idx;
                break ;
            }
            if self.fifos[k].1.len() == 0 {
                proof {
                    assert(pre.entries()[k as int].1.skip(idx as int) =~= Seq::<u8>::empty());
                    assert(pre.entries()[k as int].1.len() == idx);
                }
                result = idx;
                break ;
            }
            let c = self.fifos[k].1.remove(0);
            proof {
                assert(c == pre.entries()[k as int].1[idx as int]);
                assert(self.entries()[k as int].1 =~= pre.entries()[k as int].1.skip(idx + 1));
            }
            buf[idx] = c;
            proof {
                assert(buf@ =~= pre.entries()[k as int].1.take(idx + 1) + old(buf)@.skip(idx + 1));
            }
            idx = idx + 1;
        }
        proof {
            assert forall|j: int, l: int|
                0 <= j < l < self.entries().len() implies (#[trigger] self.entries()[j]).0 != (
            #[trigger] self.entries()[l]).0 by {
                assert(self.entries()[j].0 == pre.entries()[j].0);
                assert(self.entries()[l].0 == pre.entries()[l].0);
            }
            assert forall|j: int|
                0 <= j < self.entries().len() implies (#[trigger] self.entries()[j]).0
                < self.spec_next_key() by {
                assert(self.entries()[j].0 == pre.entries()[j].0);
            }
            assert(self.has_fifo(key)) by {
                assert(self.entries()[k as int].0 == key);
            }
            let qi = self.index_of(key);
            assert(self.entries()[qi].0 == key);
            assert(qi == k as int);
            Self::lemma_same_keys(pre, *self, k as int);
        }
        Ok(result)
    }
}

} // verus!
