//! Bookkeeping core of a fixed-power-of-two block heap allocator: one free
//! list of block base addresses per size class. Carving a fresh heap, picking
//! a size class for a request, splitting a larger block and recycling a freed
//! one are all pure address arithmetic and are verified here; writing list
//! nodes into the managed memory itself is the caller's concern.

use vstd::prelude::*;

verus! {

/// Number of size classes: 8, 16, ..., 65536 bytes.
pub const NUM_BLOCK_SIZES: usize = 14;

/// Bytes in one block of size class `i`.
pub open spec fn block_size(i: int) -> u64 {
    8u64 << (i as u64)
}

fn block_size_at(i: usize) -> (r: u64)
    requires
        i < NUM_BLOCK_SIZES,
    ensures
        r == block_size(i as int),
{
    8u64 << (i as u64)
}

/// Base addresses carved from `[cur, end)` for blocks of `size` bytes,
/// ascending, greedily from `cur` while a whole block still fits.
pub open spec fn carve_level(cur: u64, end: u64, size: u64) -> Seq<u64>
    decreases end - cur,
    when size >= 1
{
    if cur + size <= end {
        seq![cur] + carve_level((cur + size) as u64, end, size)
    } else {
        seq![]
    }
}

/// Where carving `[cur, end)` with blocks of `size` bytes stops.
pub open spec fn carve_stop(cur: u64, end: u64, size: u64) -> u64
    decreases end - cur,
    when size >= 1
{
    if cur + size <= end {
        carve_stop((cur + size) as u64, end, size)
    } else {
        cur
    }
}

/// Where the cursor stands when class `level` starts carving: classes are
/// carved from the largest (13) down to 1, each continuing where the previous
/// stopped.
pub open spec fn carve_start(heap_start: u64, heap_end: u64, level: int) -> u64
    decreases NUM_BLOCK_SIZES - level,
{
    if level >= NUM_BLOCK_SIZES - 1 {
        heap_start
    } else {
        carve_stop(carve_start(heap_start, heap_end, level + 1), heap_end, block_size(level + 1))
    }
}

/// Index of the first size class at or after `i` (exclusive) whose free list
/// is non-empty.
pub open spec fn first_nonempty_above(lists: Seq<Seq<u64>>, i: int) -> Option<int>
    decreases lists.len() - i,
    when i >= 0
{
    if i + 1 >= lists.len() {
        None::<int>
    } else if lists[i + 1].len() > 0 {
        Some(i + 1)
    } else {
        first_nonempty_above(lists, i + 1)
    }
}

/// Smallest size class able to hold a request of `size` bytes at alignment
/// `align`, if one exists.
pub open spec fn spec_list_index(size: u64, align: u64) -> Option<usize>
    decreases 1int,
{
    spec_list_index_from(if size >= align {
        size
    } else {
        align
    }, 0)
}

pub open spec fn spec_list_index_from(required: u64, i: int) -> Option<usize>
    decreases NUM_BLOCK_SIZES - i,
    when 0 <= i
{
    if i >= NUM_BLOCK_SIZES {
        None::<usize>
    } else if block_size(i) >= required {
        Some(i as usize)
    } else {
        spec_list_index_from(required, i + 1)
    }
}

/// Smallest size class whose blocks hold `size` bytes at alignment `align`,
/// or `None` when the request is larger than the largest class.
pub fn list_index(size: u64, align: u64) -> (r: Option<usize>)
    ensures
        r == spec_list_index(size, align),
        r matches Some(i) ==> i < NUM_BLOCK_SIZES && block_size(i as int) >= size && block_size(
            i as int,
        ) >= align,
{
    let required_block_size = if size >= align {
        size
    } else {
        align
    };
    let mut i: usize = 0;
    while i < NUM_BLOCK_SIZES
        invariant
            i <= NUM_BLOCK_SIZES,
            spec_list_index(size, align) == spec_list_index_from(required_block_size, i as int),
            required_block_size == if size >= align {
                size
            } else {
                align
            },
        decreases NUM_BLOCK_SIZES - i,
    {
        if block_size_at(i) >= required_block_size {
            return Some(i);
        }
        i = i + 1;
    }
    None
}

/// Rounds `addr` up to the next multiple of `align`, which must be a power of
/// two: the result clears every bit below `align`, is at least `addr`, and is
/// less than one whole `align` above it — together, the smallest aligned
/// address at or above `addr`.
pub fn align_up(addr: u64, align: u64) -> (r: u64)
    requires
        align >= 1,
        align & ((align - 1) as u64) == 0,
        addr + align - 1 <= u64::MAX,
    ensures
        r & ((align - 1) as u64) == 0,
        addr <= r < addr + align,
{
    let r = (addr + (align - 1)) & !(align - 1);
    proof {
        let s = (addr + align - 1) as u64;
        assert(addr <= r && r <= s && r & ((align - 1) as u64) == 0) by (bit_vector)
            requires
                align >= 1,
                align & ((align - 1) as u64) == 0,
                addr + align - 1 <= u64::MAX,
                s == addr + align - 1,
                r == s & !((align - 1) as u64),
        ;
    }
    r
}

/// Block sizes double from one class to the next and stay small enough that
/// address arithmetic on them is easy to bound.
proof fn lemma_block_size_facts(k: u64, j: u64)
    by (bit_vector)
    requires
        k <= j,
        j <= 13,
    ensures
        8u64 << k <= 8u64 << j,
        8u64 << k >= 8,
        8u64 << j <= 65536,
        k < j ==> 2 * (8u64 << k) <= 8u64 << j,
{
}

/// What a `Some` answer from `first_nonempty_above` means for the lists.
pub proof fn lemma_first_nonempty_above(lists: Seq<Seq<u64>>, i: int)
    requires
        0 <= i,
    ensures
        match first_nonempty_above(lists, i) {
            Some(j) => i < j < lists.len() && lists[j].len() > 0 && forall|k: int|
                i < k < j ==> lists[k].len() == 0,
            None => forall|k: int| i < k < lists.len() ==> lists[k].len() == 0,
        },
    decreases lists.len() - i,
{
    if i + 1 >= lists.len() {
    } else if lists[i + 1].len() > 0 {
    } else {
        lemma_first_nonempty_above(lists, i + 1);
    }
}

pub struct FixedSizeBlockAllocator {
    list_heads: Vec<Vec<u64>>,
}

impl FixedSizeBlockAllocator {
    /// The free lists, one per size class; the last element of a list is the
    /// block handed out next.
    pub closed spec fn lists(&self) -> Seq<Seq<u64>> {
        Seq::new(self.list_heads@.len(), |i: int| self.list_heads@[i]@)
    }

    /// Every free block lies low enough that its whole extent fits in the
    /// address space.
    pub open spec fn blocks_in_range(&self) -> bool {
        forall|i: int, b: int|
            0 <= i < NUM_BLOCK_SIZES && 0 <= b < self.lists()[i].len() ==> #[trigger] self.lists(
            )[i][b] + block_size(i) <= u64::MAX
    }

    pub open spec fn wf(&self) -> bool {
        self.lists().len() == NUM_BLOCK_SIZES && self.blocks_in_range()
    }

    pub fn new() -> (r: FixedSizeBlockAllocator)
        ensures
            r.wf(),
            forall|i: int| 0 <= i < NUM_BLOCK_SIZES ==> r.lists()[i] == Seq::<u64>::empty(),
    {
        let mut list_heads: Vec<Vec<u64>> = Vec::new();
        let mut i: usize = 0;
        while i < NUM_BLOCK_SIZES
            invariant
                i == list_heads@.len(),
                i <= NUM_BLOCK_SIZES,
                forall|k: int| 0 <= k < i ==> list_heads@[k]@ == Seq::<u64>::empty(),
            decreases NUM_BLOCK_SIZES - i,
        {
            list_heads.push(Vec::new());
            i = i + 1;
        }
        FixedSizeBlockAllocator { list_heads }
    }

    /// Returns the first size class above `block_idx` with a free block, or
    /// `None` when every larger class is empty. Leaves the lists untouched.
    pub fn pop_first_larger_block_available(&mut self, block_idx: usize) -> (r: Option<usize>)
        requires
            old(self).wf(),
            block_idx < NUM_BLOCK_SIZES,
        ensures
            *final(self) == *old(self),
            match first_nonempty_above(old(self).lists(), block_idx as int) {
                Some(j) => r == Some(j as usize),
                None => r == None::<usize>,
            },
    {
        let mut idx: usize = block_idx + 1;
        while idx < NUM_BLOCK_SIZES
            invariant
                self == old(self),
                self.wf(),
                block_idx < idx <= NUM_BLOCK_SIZES,
                first_nonempty_above(self.lists(), block_idx as int) == first_nonempty_above(
                    self.lists(),
                    idx as int - 1,
                ),
            decreases NUM_BLOCK_SIZES - idx,
        {
            if self.list_heads[idx].len() > 0 {
                return Some(idx);
            }
            idx = idx + 1;
        }
        None
    }

    /// Splits the first free block of a class above `block_idx` down into
    /// `block_idx`-sized pieces, leaving one spare piece on every class in
    /// between, and returns the base of the piece handed out; `None` when no
    /// larger block exists.
    pub fn split_larger_block(&mut self, block_idx: usize) -> (r: Option<u64>)
        requires
            old(self).wf(),
            block_idx < NUM_BLOCK_SIZES,
        ensures
            final(self).wf(),
            match first_nonempty_above(old(self).lists(), block_idx as int) {
                None => r == None::<u64> && *final(self) == *old(self),
                Some(j) => {
                    let b = old(self).lists()[j].last();
                    &&& r == Some(b)
                    &&& final(self).lists()[j] == old(self).lists()[j].drop_last()
                    &&& forall|k: int|
                        block_idx <= k < j ==> final(self).lists()[k] == old(self).lists()[k].push(
                            (b + block_size(k)) as u64,
                        )
                    &&& forall|k: int|
                        0 <= k < NUM_BLOCK_SIZES && !(block_idx <= k <= j) ==> final(self).lists()[k]
                            == old(self).lists()[k]
                },
            },
    {
        let bigger_idx = match self.pop_first_larger_block_available(block_idx) {
            Some(j) => j,
            None => {
                return None;
            },
        };
        proof {
            lemma_first_nonempty_above(old(self).lists(), block_idx as int);
            assert(self.lists()[bigger_idx as int] == self.list_heads@[bigger_idx as int]@);
        }
        let b = match self.list_heads[bigger_idx].pop() {
            Some(b) => b,
            None => {
                proof {
                    assert(false);
                }
                return None;
            },
        };
        proof {
            let ghost ol = old(self).lists();
            assert(ol[bigger_idx as int][ol[bigger_idx as int].len() - 1] + block_size(
                bigger_idx as int,
            ) <= u64::MAX);
            assert(self.lists() =~~= ol.update(
                bigger_idx as int,
                ol[bigger_idx as int].drop_last(),
            ));
            lemma_block_size_facts(block_idx as u64, bigger_idx as u64);
        }
        let mut idx: usize = bigger_idx;
        while idx > block_idx
            invariant
                self.lists().len() == NUM_BLOCK_SIZES,
                self.list_heads@.len() == NUM_BLOCK_SIZES,
                block_idx <= idx <= bigger_idx < NUM_BLOCK_SIZES,
                old(self).lists()[bigger_idx as int].len() > 0,
                b == old(self).lists()[bigger_idx as int].last(),
                b + block_size(bigger_idx as int) <= u64::MAX,
                self.lists()[bigger_idx as int] == old(self).lists()[
                    bigger_idx as int].drop_last(),
                forall|k: int|
                    idx <= k < bigger_idx ==> self.lists()[k] == old(self).lists()[k].push(
                        (b + block_size(k)) as u64,
                    ),
                forall|k: int|
                    0 <= k < NUM_BLOCK_SIZES && !(idx <= k <= bigger_idx) ==> self.lists()[k] == old(
                        self,
                    ).lists()[k],
                self.blocks_in_range(),
            decreases idx,
        {
            idx = idx - 1;
            proof {
                lemma_block_size_facts(idx as u64, bigger_idx as u64);
                lemma_block_size_facts(idx as u64, (idx + 1) as u64);
            }
            let created = b + block_size_at(idx);
            let ghost pre = self.lists();
            self.list_heads[idx].push(created);
            proof {
                assert(self.lists() =~~= pre.update(idx as int, pre[idx as int].push(created)));
            }
        }
        Some(b)
    }

    /// Carves the heap `[heap_start, heap_start + heap_size)` into free
    /// blocks, greedily from the largest class down to class 1, each class
    /// continuing where the previous one stopped.
    pub fn init(&mut self, heap_start: u64, heap_size: u64)
        requires
            old(self).wf(),
            heap_start + heap_size + 65536 <= u64::MAX,
        ensures
            final(self).wf(),
            final(self).lists()[0] == old(self).lists()[0],
            forall|l: int|
                1 <= l < NUM_BLOCK_SIZES ==> final(self).lists()[l] == old(self).lists()[l]
                    + carve_level(
                    carve_start(heap_start, (heap_start + heap_size) as u64, l),
                    (heap_start + heap_size) as u64,
                    block_size(l),
                ),
    {
        let heap_end = heap_start + heap_size;
        let mut current = heap_start;
        let mut level: usize = NUM_BLOCK_SIZES - 1;
        while level >= 1
            invariant
                self.lists().len() == NUM_BLOCK_SIZES,
                self.list_heads@.len() == NUM_BLOCK_SIZES,
                self.blocks_in_range(),
                level < NUM_BLOCK_SIZES,
                heap_end == heap_start + heap_size,
                heap_end + 65536 <= u64::MAX,
                current <= heap_end,
                current == carve_start(heap_start, heap_end, level as int),
                forall|l: int|
                    level < l < NUM_BLOCK_SIZES ==> self.lists()[l] == old(self).lists()[l]
                        + carve_level(
                        carve_start(heap_start, heap_end, l),
                        heap_end,
                        block_size(l),
                    ),
                forall|l: int| 0 <= l <= level ==> self.lists()[l] == old(self).lists()[l],
            decreases level,
        {
            proof {
                lemma_block_size_facts(level as u64, 13);
            }
            let size = block_size_at(level);
            let ghost level_start = current;
            while current + size <= heap_end
                invariant
                    self.lists().len() == NUM_BLOCK_SIZES,
                    self.list_heads@.len() == NUM_BLOCK_SIZES,
                    self.blocks_in_range(),
                    1 <= level < NUM_BLOCK_SIZES,
                    size == block_size(level as int),
                    8 <= size <= 65536,
                    heap_end + 65536 <= u64::MAX,
                    level_start <= current <= heap_end,
                    carve_stop(level_start, heap_end, size) == carve_stop(current, heap_end, size),
                    old(self).lists()[level as int] + carve_level(level_start, heap_end, size)
                        == self.lists()[level as int] + carve_level(current, heap_end, size),
                    forall|l: int|
                        level < l < NUM_BLOCK_SIZES ==> self.lists()[l] == old(self).lists()[l]
                            + carve_level(
                            carve_start(heap_start, heap_end, l),
                            heap_end,
                            block_size(l),
                        ),
                    forall|l: int| 0 <= l < level ==> self.lists()[l] == old(self).lists()[l],
                decreases heap_end - current,
            {
                let ghost pre = self.lists();
                self.list_heads[level].push(current);
                proof {
                    assert(self.lists() =~~= pre.update(
                        level as int,
                        pre[level as int].push(current),
                    ));
                    assert(carve_level(current, heap_end, size) == seq![current] + carve_level(
                        (current + size) as u64,
                        heap_end,
                        size,
                    ));
                    assert(old(self).lists()[level as int] + carve_level(level_start, heap_end, size)
                        =~= self.lists()[level as int] + carve_level(
                        (current + size) as u64,
                        heap_end,
                        size,
                    ));
                }
                current = current + size;
            }
            proof {
                assert(carve_level(current, heap_end, size) =~= Seq::<u64>::empty());
                assert(old(self).lists()[level as int] + carve_level(level_start, heap_end, size)
                    =~= self.lists()[level as int]);
                assert(carve_stop(current, heap_end, size) == current);
            }
            level = level - 1;
        }
    }

    /// Hands out the base address of a free block whose class fits `size`
    /// bytes at alignment `align`: the head of that class's free list, or a
    /// piece split off the first larger block, or 0 when no memory is left.
    pub fn alloc_block(&mut self, size: u64, align: u64) -> (r: u64)
        requires
            old(self).wf(),
            spec_list_index(size, align) is Some,
        ensures
            final(self).wf(),
            match spec_list_index(size, align) {
                Some(i_us) => {
                    let i = i_us as int;
                    if old(self).lists()[i].len() > 0 {
                        &&& r == old(self).lists()[i].last()
                        &&& final(self).lists() == old(self).lists().update(
                            i,
                            old(self).lists()[i].drop_last(),
                        )
                    } else {
                        match first_nonempty_above(old(self).lists(), i) {
                            None => r == 0 && final(self).lists() == old(self).lists(),
                            Some(j) => {
                                let b = old(self).lists()[j].last();
                                &&& r == b
                                &&& final(self).lists()[j] == old(self).lists()[j].drop_last()
                                &&& forall|k: int|
                                    i <= k < j ==> final(self).lists()[k] == old(self).lists()[
                                        k].push((b + block_size(k)) as u64)
                                &&& forall|k: int|
                                    0 <= k < NUM_BLOCK_SIZES && !(i <= k <= j)
                                        ==> final(self).lists()[k] == old(self).lists()[k]
                            },
                        }
                    }
                },
                None => false,
            },
    {
        let index = match list_index(size, align) {
            Some(i) => i,
            None => {
                proof {
                    assert(false);
                }
                return 0;
            },
        };
        proof {
            assert(self.lists()[index as int] == self.list_heads@[index as int]@);
        }
        let ghost pre = self.lists();
        match self.list_heads[index].pop() {
            Some(node) => {
                proof {
                    assert(self.lists() =~~= pre.update(
                        index as int,
                        pre[index as int].drop_last(),
                    ));
                }
                node
            },
            None => {
                proof {
                    assert(pre[index as int] =~= Seq::<u64>::empty());
                    assert(self.lists() =~~= pre);
                }
                match self.split_larger_block(index) {
                    Some(block) => block,
                    None => 0,
                }
            },
        }
    }

    /// Returns a block to the free list of the class that fits `size` bytes
    /// at alignment `align`; the block becomes the next one handed out.
    pub fn dealloc_block(&mut self, ptr: u64, size: u64, align: u64)
        requires
            old(self).wf(),
            spec_list_index(size, align) is Some,
            forall|i_us: usize|
                spec_list_index(size, align) == Some(i_us) ==> ptr + block_size(i_us as int)
                    <= u64::MAX,
        ensures
            final(self).wf(),
            match spec_list_index(size, align) {
                Some(i_us) => final(self).lists() == old(self).lists().update(
                    i_us as int,
                    old(self).lists()[i_us as int].push(ptr),
                ),
                None => false,
            },
    {
        let index = match list_index(size, align) {
            Some(i) => i,
            None => {
                proof {
                    assert(false);
                }
                return ;
            },
        };
        let ghost pre = self.lists();
        self.list_heads[index].push(ptr);
        proof {
            assert(self.lists() =~~= pre.update(index as int, pre[index as int].push(ptr)));
        }
    }
}

} // verus!
