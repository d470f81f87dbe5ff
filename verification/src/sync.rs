//! Counting semaphores for inter-process synchronization: an integer count,
//! its unchanged initial value for a later quiescence check, and a wait set
//! of blocked process names. A process-wide store keys semaphores by
//! identifier. Waiting is cooperative: a failed wait registers the caller,
//! who retries after yielding — there is no blocking wake-up queue.

use vstd::prelude::*;
use crate::processes::Name;

verus! {

pub type SemaphoreId = i64;

/// Expected failures of the semaphore entry points, returned, never fatal.
#[derive(Clone, Copy, Debug, PartialEq, Eq, Structural)]
pub enum SemaphoreError {
    /// No semaphore with the given identifier exists.
    Missing,
    /// The semaphore was dropped while not neutral: its count had not
    /// returned to the initial value, or names were still waiting.
    NotNeutral,
}

pub struct Semaphore {
    initial_count: i32,
    count: i32,
    queue: Vec<Name>,
}

impl Semaphore {
    /// The count the semaphore was created with.
    pub closed spec fn spec_initial(&self) -> i32 {
        self.initial_count
    }

    /// The current count; acquisitions succeed only while it is positive.
    pub closed spec fn spec_count(&self) -> i32 {
        self.count
    }

    /// Names of the periodic processes spinning on this semaphore.
    pub closed spec fn wait_set(&self) -> Seq<Name> {
        self.queue@
    }

    /// No name waits twice: a double registration is a caller logic error
    /// the kernel treats as fatal.
    pub open spec fn wf(&self) -> bool {
        forall|k: int, l: int|
            0 <= k < l < self.wait_set().len() ==> self.wait_set()[k] != self.wait_set()[l]
    }

    /// The count has returned to its initial value and nothing is waiting.
    pub open spec fn spec_is_neutral(&self) -> bool {
        self.spec_count() == self.spec_initial() && self.wait_set().len() == 0
    }

    pub fn new(count: i32) -> (r: Semaphore)
        ensures
            r.spec_initial() == count,
            r.spec_count() == count,
            r.wait_set() == Seq::<Name>::empty(),
            r.wf(),
    {
        Semaphore { initial_count: count, count, queue: Vec::new() }
    }

    pub fn is_neutral(&self) -> (r: bool)
        ensures
            r == self.spec_is_neutral(),
    {
        self.count == self.initial_count && self.queue.len() == 0
    }

    /// Non-blocking acquisition attempt: decrements a positive count and
    /// reports success, or reports failure with nothing changed.
    pub fn wait(&mut self) -> (r: bool)
        ensures
            r == (old(self).spec_count() > 0),
            r ==> final(self).spec_count() == old(self).spec_count() - 1 && final(self).spec_initial() == old(self).spec_initial() && final(self).wait_set() == old(self).wait_set(),
            !r ==> *final(self) == *old(self),
    {
        if self.count <= 0 {
            false
        } else {
            self.count = self.count - 1;
            true
        }
    }

    /// Registers a blocked process's name. Registering the same name twice
    /// is a fatal caller error, excluded here.
    pub fn add_to_wait_queue(&mut self, name: Name)
        requires
            !old(self).wait_set().contains(name),
        ensures
            final(self).wait_set() == old(self).wait_set().push(name),
            final(self).spec_count() == old(self).spec_count(),
            final(self).spec_initial() == old(self).spec_initial(),
            old(self).wf() ==> final(self).wf(),
    {
        self.queue.push(name);
        proof {
            if old(self).wf() {
                assert forall|k: int, l: int|
                    0 <= k < l < self.wait_set().len() implies self.wait_set()[k]
                    != self.wait_set()[l] by {
                    if l == self.wait_set().len() - 1 {
                        assert(old(self).wait_set().contains(old(self).wait_set()[k]));
                    }
                }
            }
        }
    }

    /// Removes `name` from the wait set if present, reporting whether it
    /// was there.
    pub fn check_and_pop_if_exists(&mut self, name: Name) -> (r: bool)
        requires
            old(self).wf(),
        ensures
            final(self).wf(),
            r == old(self).wait_set().contains(name),
            !r ==> *final(self) == *old(self),
            r ==> {
                &&& final(self).wait_set().len() == old(self).wait_set().len() - 1
                &&& !final(self).wait_set().contains(name)
                &&& forall|x: Name|
                    x != name ==> final(self).wait_set().contains(x) == old(self).wait_set().contains(x)
                &&& final(self).spec_count() == old(self).spec_count()
                &&& final(self).spec_initial() == old(self).spec_initial()
            },
    {
        let mut k: usize = 0;
        while k < self.queue.len()
            invariant
                old(self).wf(),
                *self == *old(self),
                k <= self.wait_set().len(),
                forall|j: int| 0 <= j < k ==> self.wait_set()[j] != name,
            decreases self.wait_set().len() - k,
        {
            if self.queue[k] == name {
                proof {
                    assert(self.wait_set().contains(name));
                }
                self.queue.remove(k);
                proof {
                    let pre = old(self).wait_set();
                    assert(self.wait_set() == pre.remove(k as int));
                    assert(!self.wait_set().contains(name)) by {
                        if self.wait_set().contains(name) {
                            let j = choose|j: int|
                                0 <= j < self.wait_set().len() && self.wait_set()[j] == name;
                            if j < k {
                                assert(pre[j] == name);
                            } else {
                                assert(pre[j + 1] == name);
                                assert(pre[k as int] == name);
                                assert((k as int) < j + 1);
                                assert(pre[k as int] != pre[j + 1]);
                            }
                        }
                    }
                    assert forall|x: Name| x != name implies self.wait_set().contains(x) == pre.contains(
                        x,
                    ) by {
                        if pre.contains(x) {
                            let j = choose|j: int| 0 <= j < pre.len() && pre[j] == x;
                            if j < k {
                                assert(self.wait_set()[j] == x);
                            } else {
                                assert(j != k);
                                assert(self.wait_set()[j - 1] == x);
                            }
                            assert(self.wait_set().contains(x));
                        }
                        if self.wait_set().contains(x) {
                            let j = choose|j: int|
                                0 <= j < self.wait_set().len() && self.wait_set()[j] == x;
                            if j < k {
                                assert(pre[j] == x);
                            } else {
                                assert(pre[j + 1] == x);
                            }
                            assert(pre.contains(x));
                        }
                    }
                    assert forall|a: int, b: int|
                        0 <= a < b < self.wait_set().len() implies self.wait_set()[a]
                        != self.wait_set()[b] by {
                        let pa = if a < k {
                            a
                        } else {
                            a + 1
                        };
                        let pb = if b < k {
                            b
                        } else {
                            b + 1
                        };
                        assert(self.wait_set()[a] == pre[pa]);
                        assert(self.wait_set()[b] == pre[pb]);
                        assert(pa < pb);
                        assert(pre[pa] != pre[pb]);
                    }
                }
                return true;
            }
            k = k + 1;
        }
        proof {
            assert(!self.wait_set().contains(name)) by {
                if self.wait_set().contains(name) {
                    let j = choose|j: int|
                        0 <= j < self.wait_set().len() && self.wait_set()[j] == name;
                }
            }
        }
        false
    }

    /// Increments the count; reports whether the semaphore is no longer
    /// oversubscribed (the new count is at least zero).
    pub fn signal(&mut self) -> (r: bool)
        requires
            old(self).spec_count() < i32::MAX,
        ensures
            final(self).spec_count() == old(self).spec_count() + 1,
            final(self).spec_initial() == old(self).spec_initial(),
            final(self).wait_set() == old(self).wait_set(),
            r == (old(self).spec_count() + 1 >= 0),
    {
        self.count = self.count + 1;
        self.count >= 0
    }
}

/// The process-wide registry of semaphores, keyed by identifier; created and
/// destroyed explicitly, never silently.
pub struct SemaphoreStore {
    sems: Vec<(SemaphoreId, Semaphore)>,
}

impl SemaphoreStore {
    pub closed spec fn entries(&self) -> Seq<(SemaphoreId, Semaphore)> {
        self.sems@
    }

    pub open spec fn has_sem(&self, id: SemaphoreId) -> bool {
        exists|k: int| 0 <= k < self.entries().len() && (#[trigger] self.entries()[k]).0 == id
    }

    /// Index of the semaphore with `id`; meaningful only when `has_sem`
    /// holds (identifiers are unique).
    pub open spec fn index_of(&self, id: SemaphoreId) -> int {
        choose|k: int| 0 <= k < self.entries().len() && (#[trigger] self.entries()[k]).0 == id
    }

    pub open spec fn sem(&self, id: SemaphoreId) -> Semaphore {
        self.entries()[self.index_of(id)].1
    }

    pub open spec fn wf(&self) -> bool {
        &&& forall|k: int, l: int|
            0 <= k < l < self.entries().len() ==> (#[trigger] self.entries()[k]).0 != (
            #[trigger] self.entries()[l]).0
        &&& forall|k: int| 0 <= k < self.entries().len() ==> (#[trigger] self.entries()[k]).1.wf()
    }

    pub fn new() -> (r: SemaphoreStore)
        ensures
            r.wf(),
            r.entries() == Seq::<(SemaphoreId, Semaphore)>::empty(),
    {
        SemaphoreStore { sems: Vec::new() }
    }

    /// Index of the semaphore with `id`, if any.
    fn find(&self, id: SemaphoreId) -> (r: Option<usize>)
        ensures
            match r {
                Some(k) => k < self.entries().len() && self.entries()[k as int].0 == id
                    && self.has_sem(id),
                None => !self.has_sem(id),
            },
    {
        let mut k: usize = 0;
        while k < self.sems.len()
            invariant
                k <= self.entries().len(),
                forall|j: int| 0 <= j < k ==> (#[trigger] self.entries()[j]).0 != id,
            decreases self.entries().len() - k,
        {
            if self.sems[k].0 == id {
                return Some(k);
            }
            k = k + 1;
        }
        proof {
            if self.has_sem(id) {
                let j = choose|j: int|
                    0 <= j < self.entries().len() && (#[trigger] self.entries()[j]).0 == id;
            }
        }
        None
    }

    /// Borrows the semaphore with `id`, if any, without touching the store.
    pub fn get(&self, id: SemaphoreId) -> (r: Option<&Semaphore>)
        requires
            self.wf(),
        ensures
            match r {
                Some(s) => self.has_sem(id) && *s == self.sem(id),
                None => !self.has_sem(id),
            },
    {
        match self.find(id) {
            None => None,
            Some(k) => {
                proof {
                    let ki = self.index_of(id);
                    assert(self.entries()[ki].0 == id);
                    assert(self.entries()[k as int].0 == id);
                    assert(ki == k as int);
                }
                Some(&self.sems[k].1)
            },
        }
    }

    /// Creates a semaphore under a fresh identifier; an identifier already
    /// in use is an expected failure with nothing changed.
    pub fn insert(&mut self, id: SemaphoreId, initial_count: i32) -> (r: Result<(), ()>)
        requires
            old(self).wf(),
        ensures
            final(self).wf(),
            r is Err <==> old(self).has_sem(id),
            r is Err ==> *final(self) == *old(self),
            r is Ok ==> {
                &&& final(self).entries().len() == old(self).entries().len() + 1
                &&& forall|k: int|
                    0 <= k < old(self).entries().len() ==> final(self).entries()[k] == old(self).entries()[k]
                &&& final(self).entries().last().0 == id
                &&& final(self).entries().last().1.spec_initial() == initial_count
                &&& final(self).entries().last().1.spec_count() == initial_count
                &&& final(self).entries().last().1.wait_set() == Seq::<Name>::empty()
                &&& final(self).has_sem(id)
                &&& final(self).sem(id) == final(self).entries().last().1
                &&& forall|other: SemaphoreId|
                    other != id ==> final(self).has_sem(other) == old(self).has_sem(other)
                &&& forall|other: SemaphoreId|
                    other != id && old(self).has_sem(other) ==> final(self).sem(other) == old(self).sem(other)
            },
    {
        match self.find(id) {
            Some(_) => Err(()),
            None => {
                let ghost pre = *self;
                self.sems.push((id, Semaphore::new(initial_count)));
                proof {
                    Self::lemma_push_entry(pre, *self, id);
                }
                Ok(())
            },
        }
    }

    proof fn lemma_push_entry(pre: SemaphoreStore, post: SemaphoreStore, id: SemaphoreId)
        requires
            pre.wf(),
            !pre.has_sem(id),
            post.entries().len() == pre.entries().len() + 1,
            forall|k: int| 0 <= k < pre.entries().len() ==> post.entries()[k] == pre.entries()[k],
            post.entries().last().0 == id,
            post.entries().last().1.wf(),
        ensures
            post.wf(),
            post.has_sem(id),
            post.sem(id) == post.entries().last().1,
            forall|other: SemaphoreId| other != id ==> post.has_sem(other) == pre.has_sem(other),
            forall|other: SemaphoreId|
                other != id && pre.has_sem(other) ==> post.sem(other) == pre.sem(other),
    {
        let n = pre.entries().len() as int;
        assert forall|k: int, l: int|
            0 <= k < l < post.entries().len() implies (#[trigger] post.entries()[k]).0 != (
        #[trigger] post.entries()[l]).0 by {
            if l == n {
                assert(post.entries()[k] == pre.entries()[k]);
                if post.entries()[k].0 == id {
                    assert(pre.has_sem(id));
                }
            }
        }
        assert(post.entries()[n].0 == id);
        assert(post.has_sem(id));
        let ji = post.index_of(id);
        assert(post.entries()[ji].0 == id);
        assert(ji == n) by {
            if ji < n {
                assert(pre.entries()[ji].0 == id);
                assert(pre.has_sem(id));
            }
        }
        assert forall|other: SemaphoreId|
            other != id implies post.has_sem(other) == pre.has_sem(other) by {
            if pre.has_sem(other) {
                let j = choose|j: int|
                    0 <= j < pre.entries().len() && (#[trigger] pre.entries()[j]).0 == other;
                assert(post.entries()[j].0 == other);
            }
            if post.has_sem(other) {
                let j = choose|j: int|
                    0 <= j < post.entries().len() && (#[trigger] post.entries()[j]).0 == other;
                assert(j != n);
                assert(pre.entries()[j].0 == other);
            }
        }
        assert forall|other: SemaphoreId|
            other != id && pre.has_sem(other) implies post.sem(other) == pre.sem(other) by {
            let pj = pre.index_of(other);
            assert(pre.entries()[pj].0 == other);
            let qj = post.index_of(other);
            assert(post.has_sem(other));
            assert(post.entries()[qj].0 == other);
            assert(qj != n);
            assert(pre.entries()[qj].0 == other);
            assert(pj == qj);
        }
    }

    /// Returns a semaphore taken out with `take_out` to the store.
    pub fn put_back(&mut self, id: SemaphoreId, sem: Semaphore)
        requires
            old(self).wf(),
            !old(self).has_sem(id),
            sem.wf(),
        ensures
            final(self).wf(),
            final(self).has_sem(id),
            final(self).sem(id) == sem,
            final(self).entries().len() == old(self).entries().len() + 1,
            forall|other: SemaphoreId|
                other != id ==> final(self).has_sem(other) == old(self).has_sem(other),
            forall|other: SemaphoreId|
                other != id && old(self).has_sem(other) ==> final(self).sem(other) == old(self).sem(other),
    {
        let ghost pre = *self;
        self.sems.push((id, sem));
        proof {
            Self::lemma_push_entry(pre, *self, id);
        }
    }

    /// Removes and returns the semaphore with `id`, if any.
    pub fn take_out(&mut self, id: SemaphoreId) -> (r: Option<Semaphore>)
        requires
            old(self).wf(),
        ensures
            final(self).wf(),
            r is Some <==> old(self).has_sem(id),
            r is None ==> *final(self) == *old(self),
            r matches Some(s) ==> {
                &&& s == old(self).sem(id)
                &&& s.wf()
                &&& !final(self).has_sem(id)
                &&& final(self).entries().len() == old(self).entries().len() - 1
                &&& forall|other: SemaphoreId|
                    other != id ==> final(self).has_sem(other) == old(self).has_sem(other)
                &&& forall|other: SemaphoreId|
                    other != id && old(self).has_sem(other) ==> final(self).sem(other) == old(self).sem(other)
            },
    {
        match self.find(id) {
            None => None,
            Some(k) => {
                let ghost pre = *self;
                let (_, s) = self.sems.remove(k);
                proof {
                    Self::lemma_remove_entry(pre, *self, id, k as int);
                }
                Some(s)
            },
        }
    }

    proof fn lemma_remove_entry(pre: SemaphoreStore, post: SemaphoreStore, id: SemaphoreId, k: int)
        requires
            pre.wf(),
            0 <= k < pre.entries().len(),
            pre.entries()[k].0 == id,
            post.entries() == pre.entries().remove(k),
        ensures
            post.wf(),
            !post.has_sem(id),
            forall|other: SemaphoreId|
                other != id ==> post.has_sem(other) == pre.has_sem(other),
            forall|other: SemaphoreId|
                other != id && pre.has_sem(other) ==> post.sem(other) == pre.sem(other),
            pre.sem(id) == pre.entries()[k].1,
    {
        assert(pre.has_sem(id));
        let ki = pre.index_of(id);
        assert(ki == k);
        assert(!post.has_sem(id)) by {
            if post.has_sem(id) {
                let j = choose|j: int|
                    0 <= j < post.entries().len() && (#[trigger] post.entries()[j]).0 == id;
                if j < k {
                    assert(pre.entries()[j].0 == id);
                } else {
                    assert(pre.entries()[j + 1].0 == id);
                }
            }
        }
        assert forall|other: SemaphoreId|
            other != id implies post.has_sem(other) == pre.has_sem(other) by {
            if pre.has_sem(other) {
                let j = choose|j: int|
                    0 <= j < pre.entries().len() && (#[trigger] pre.entries()[j]).0 == other;
                if j < k {
                    assert(post.entries()[j].0 == other);
                } else {
                    assert(post.entries()[j - 1].0 == other);
                }
            }
            if post.has_sem(other) {
                let j = choose|j: int|
                    0 <= j < post.entries().len() && (#[trigger] post.entries()[j]).0 == other;
                if j < k {
                    assert(pre.entries()[j].0 == other);
                } else {
                    assert(pre.entries()[j + 1].0 == other);
                }
            }
        }
        assert forall|other: SemaphoreId|
            other != id && pre.has_sem(other) implies post.sem(other) == pre.sem(other) by {
            let pj = pre.index_of(other);
            assert(pre.entries()[pj].0 == other);
            let qj = post.index_of(other);
            assert(post.has_sem(other));
            assert(post.entries()[qj].0 == other);
            let pq = if qj < k {
                qj
            } else {
                qj + 1
            };
            assert(post.entries()[qj] == pre.entries()[pq]);
            assert(pre.entries()[pq].0 == other);
            assert(pj == pq);
        }
    }
}

} // verus!
