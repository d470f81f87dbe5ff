use rtcore::memory::allocator::{align_up, list_index, FixedSizeBlockAllocator, NUM_BLOCK_SIZES};
use rtcore::memory::{StackAllocator, PAGE_SIZE, STACK_REGION_BASE};

#[test]
fn list_index_picks_smallest_fitting_class() {
    assert_eq!(list_index(1, 1), Some(0)); // 8-byte class
    assert_eq!(list_index(8, 1), Some(0));
    assert_eq!(list_index(9, 1), Some(1)); // 16 bytes
    assert_eq!(list_index(17, 8), Some(2)); // 32 bytes
    assert_eq!(list_index(4, 64), Some(3)); // alignment dominates
    assert_eq!(list_index(65536, 8), Some(13));
    assert_eq!(list_index(65537, 8), None);
    assert_eq!(NUM_BLOCK_SIZES, 14);
}

#[test]
fn align_up_rounds_to_power_of_two() {
    assert_eq!(align_up(0, 8), 0);
    assert_eq!(align_up(1, 8), 8);
    assert_eq!(align_up(8, 8), 8);
    assert_eq!(align_up(9, 16), 16);
    assert_eq!(align_up(0x1001, 0x1000), 0x2000);
}

#[test]
fn init_carves_heap_from_largest_class_down() {
    let mut a = FixedSizeBlockAllocator::new();
    // A heap of exactly one largest block plus one 16-byte remainder.
    a.init(0x10_0000, 65536 + 16);
    // One 65536-byte block at the heap start.
    let big = a.alloc_block(65536, 8);
    assert_eq!(big, 0x10_0000);
    // The 16-byte remainder right behind it.
    let small = a.alloc_block(16, 8);
    assert_eq!(small, 0x10_0000 + 65536);
    // Nothing else was carved.
    assert_eq!(a.alloc_block(8, 8), 0);
}

#[test]
fn alloc_splits_larger_blocks_and_dealloc_recycles() {
    let mut a = FixedSizeBlockAllocator::new();
    a.init(0x20_0000, 65536);
    // A 16-byte request splits the single big block all the way down; the
    // handed-out piece is the base of the split block.
    let p = a.alloc_block(16, 8);
    assert_eq!(p, 0x20_0000);
    // The split left one spare piece on every class in between; the
    // neighbouring 16-byte buddy is handed out next.
    let q = a.alloc_block(16, 8);
    assert_eq!(q, 0x20_0000 + 16);
    a.dealloc_block(p, 16, 8);
    // A freed block is the next one handed out for its class.
    assert_eq!(a.alloc_block(16, 8), p);
}

#[test]
fn alloc_returns_null_when_no_memory_left() {
    let mut a = FixedSizeBlockAllocator::new();
    // Too small for even one 16-byte block: nothing is carved (the 8-byte
    // class is never carved directly).
    a.init(0x30_0000, 8);
    assert_eq!(a.alloc_block(8, 8), 0);
}

#[test]
fn stack_allocator_reserves_disjoint_ranges_with_guard_pages() {
    let mut sa = StackAllocator::new();
    let first = sa.alloc_stack(32);
    // One leading guard page, then 32 pages of stack.
    assert_eq!(first.start(), STACK_REGION_BASE + PAGE_SIZE);
    assert_eq!(first.end(), first.start() + 32 * PAGE_SIZE);
    let second = sa.alloc_stack(4);
    // The next range starts above the previous one, again behind a guard.
    assert_eq!(second.start(), first.end() + PAGE_SIZE);
    assert_eq!(second.end(), second.start() + 4 * PAGE_SIZE);
    assert!(second.start() % PAGE_SIZE == 0);
}
