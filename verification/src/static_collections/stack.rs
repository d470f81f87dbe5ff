//! A last-in-first-out stack of words with a capacity fixed at construction:
//! pushing past the capacity or popping from an empty stack is an explicit
//! error.

use vstd::prelude::*;
use crate::static_collections::StaticCollectionError;

verus! {

/// A bounded stack; `items` are the live contents, oldest first, never more
/// than `capacity` while the stack is well-formed.
pub trait Stack: Sized {
    spec fn items(&self) -> Seq<u64>;

    spec fn capacity(&self) -> nat;

    spec fn wf(&self) -> bool;

    /// Empties the stack, keeping its capacity.
    fn clear_stack(&mut self)
        requires
            old(self).wf(),
        ensures
            final(self).wf(),
            final(self).items() == Seq::<u64>::empty(),
            final(self).capacity() == old(self).capacity(),
    ;

    /// Pushes on top; a full stack is an error with nothing changed.
    fn push(&mut self, item: u64) -> (r: Result<(), StaticCollectionError>)
        requires
            old(self).wf(),
        ensures
            final(self).wf(),
            final(self).capacity() == old(self).capacity(),
            old(self).items().len() >= old(self).capacity() ==> r == Err::<
                (),
                StaticCollectionError,
            >(StaticCollectionError::OutOfRange) && final(self).items() == old(self).items(),
            old(self).items().len() < old(self).capacity() ==> r == Ok::<
                (),
                StaticCollectionError,
            >(()) && final(self).items() == old(self).items().push(item),
    ;

    /// Pops the top; an empty stack is an error with nothing changed.
    fn pop(&mut self) -> (r: Result<u64, StaticCollectionError>)
        requires
            old(self).wf(),
        ensures
            final(self).wf(),
            final(self).capacity() == old(self).capacity(),
            old(self).items().len() == 0 ==> r == Err::<u64, StaticCollectionError>(
                StaticCollectionError::OutOfRange,
            ) && final(self).items() == old(self).items(),
            old(self).items().len() > 0 ==> r == Ok::<u64, StaticCollectionError>(
                old(self).items().last(),
            ) && final(self).items() == old(self).items().drop_last(),
    ;
}

/// A `Stack` backed by a word vector whose length is the fixed capacity;
/// `size` counts the live elements.
pub struct FixedStack {
    stack: Vec<u64>,
    size: usize,
}

impl FixedStack {
    pub fn new(capacity: usize) -> (r: FixedStack)
        ensures
            r.items() == Seq::<u64>::empty(),
            r.capacity() == capacity,
            r.wf(),
    {
        let mut stack: Vec<u64> = Vec::new();
        let mut i: usize = 0;
        while i < capacity
            invariant
                i == stack@.len(),
                i <= capacity,
            decreases capacity - i,
        {
            stack.push(0u64);
            i = i + 1;
        }
        proof {
            assert(stack@.take(0) =~= Seq::<u64>::empty());
        }
        FixedStack { stack, size: 0 }
    }

    /// Number of live elements.
    pub fn get_size(&self) -> (r: usize)
        requires
            self.wf(),
        ensures
            r == self.items().len(),
    {
        self.size
    }
}

impl Stack for FixedStack {
    closed spec fn items(&self) -> Seq<u64> {
        self.stack@.take(self.size as int)
    }

    closed spec fn capacity(&self) -> nat {
        self.stack@.len()
    }

    closed spec fn wf(&self) -> bool {
        self.size <= self.stack@.len()
    }

    fn clear_stack(&mut self) {
        self.size = 0;
        proof {
            assert(self.items() =~= Seq::<u64>::empty());
        }
    }

    fn push(&mut self, item: u64) -> (r: Result<(), StaticCollectionError>) {
        let new_idx = self.size;
        if new_idx >= self.stack.len() {
            return Err(StaticCollectionError::OutOfRange);
        }
        self.stack[new_idx] = item;
        self.size = new_idx + 1;
        proof {
            assert(self.items() =~= old(self).items().push(item));
        }
        Ok(())
    }

    fn pop(&mut self) -> (r: Result<u64, StaticCollectionError>) {
        if self.size == 0 {
            return Err(StaticCollectionError::OutOfRange);
        }
        let item_idx = self.size - 1;
        self.size = item_idx;
        let out = self.stack[item_idx];
        proof {
            assert(self.items() =~= old(self).items().drop_last());
            assert(out == old(self).items().last());
        }
        Ok(out)
    }
}

} // verus!
