use rtcore::special_collections::{DynamicBitmap, IncrementingPool};
use rtcore::static_collections::bitmap::{Bitmap, FixedBitmap};
use rtcore::static_collections::stack::{FixedStack, Stack};
use rtcore::static_collections::StaticCollectionError;

#[test]
fn test_bitmap_set() {
    let mut test_lock = DynamicBitmap::new();
    test_lock.clear_map();
    assert!(test_lock.set_bit(1));
    assert!(test_lock.set_bit(2));
    assert!(test_lock.set_bit(4));
    assert!(test_lock.set_bit(7));
    assert!(!test_lock.set_bit(4));
    assert!(!test_lock.set_bit(2));
    assert!(!test_lock.set_bit(1));
    assert!(!test_lock.set_bit(7));
    assert!(test_lock.set_bit(8));
    assert!(test_lock.set_bit(12));
    assert!(test_lock.set_bit(15));
    assert!(test_lock.set_bit(0));
    assert!(!test_lock.set_bit(8));
    assert!(!test_lock.set_bit(12));
    assert!(!test_lock.set_bit(15));
    assert!(!test_lock.set_bit(0));
}

#[test]
fn test_bitmap_set_clear() {
    let mut test_lock = DynamicBitmap::new();
    test_lock.clear_map();
    assert!(test_lock.set_bit(1));
    assert!(test_lock.set_bit(12));
    assert!(test_lock.set_bit(15));
    assert!(test_lock.set_bit(0));
    assert!(!test_lock.set_bit(1));
    assert!(!test_lock.set_bit(12));
    assert!(!test_lock.set_bit(15));
    assert!(!test_lock.set_bit(0));
    assert!(!test_lock.clear_bit(3));
    assert!(!test_lock.clear_bit(5));
    assert!(test_lock.clear_bit(1));
    assert!(test_lock.clear_bit(0));
    assert!(test_lock.clear_bit(12));
    assert!(test_lock.clear_bit(15));
    assert!(!test_lock.clear_bit(1));
    assert!(!test_lock.clear_bit(0));
    assert!(!test_lock.clear_bit(12));
    assert!(!test_lock.clear_bit(15));

    assert!(test_lock.set_bit(8));
    assert!(!test_lock.set_bit(8));

    assert!(test_lock.set_bit(1));
    assert!(test_lock.set_bit(12));
    assert!(test_lock.set_bit(15));
    assert!(test_lock.set_bit(0));
}

#[test]
fn dynamic_bitmap_check_and_fill() {
    let mut b = DynamicBitmap::new();
    assert!(!b.check_bit(0));
    assert!(!b.check_bit(31));
    b.set_bit(9);
    assert!(b.check_bit(9));
    assert!(!b.check_bit(8));
    assert!(!b.check_bit(10));
    b.fill_map();
    // fill_map raises every bit within the current two-byte width.
    for n in 0..16 {
        assert!(b.check_bit(n));
    }
    assert!(!b.check_bit(16));
    b.clear_map();
    for n in 0..16 {
        assert!(!b.check_bit(n));
    }
}

#[test]
fn incrementing_pool_reissues_returned_values_first() {
    let mut pool = IncrementingPool::new(1);
    assert_eq!(pool.get_free_elem(), 1);
    assert_eq!(pool.get_free_elem(), 2);
    assert_eq!(pool.get_free_elem(), 3);
    pool.return_elem(2);
    pool.return_elem(1);
    // Returned values come back before any new one is minted, most recently
    // returned first.
    assert_eq!(pool.get_free_elem(), 1);
    assert_eq!(pool.get_free_elem(), 2);
    assert_eq!(pool.get_free_elem(), 4);
}

#[test]
fn test_static_bitmap_set() {
    let mut test_lock = FixedBitmap::new(16);
    test_lock.clear_map();
    assert!(test_lock.set_bit(1).unwrap());
    assert!(test_lock.set_bit(2).unwrap());
    assert!(test_lock.set_bit(4).unwrap());
    assert!(test_lock.set_bit(7).unwrap());
    assert!(!test_lock.set_bit(4).unwrap());
    assert!(!test_lock.set_bit(2).unwrap());
    assert!(!test_lock.set_bit(1).unwrap());
    assert!(!test_lock.set_bit(7).unwrap());
    assert!(test_lock.set_bit(8).unwrap());
    assert!(test_lock.set_bit(12).unwrap());
    assert!(test_lock.set_bit(15).unwrap());
    assert!(test_lock.set_bit(0).unwrap());
    assert!(!test_lock.set_bit(8).unwrap());
    assert!(!test_lock.set_bit(12).unwrap());
    assert!(!test_lock.set_bit(15).unwrap());
    assert!(!test_lock.set_bit(0).unwrap());
}

#[test]
fn test_static_bitmap_set_clear() {
    let mut test_lock = FixedBitmap::new(16);
    test_lock.clear_map();
    assert!(test_lock.set_bit(1).unwrap());
    assert!(test_lock.set_bit(12).unwrap());
    assert!(test_lock.set_bit(15).unwrap());
    assert!(test_lock.set_bit(0).unwrap());
    assert!(!test_lock.set_bit(1).unwrap());
    assert!(!test_lock.set_bit(12).unwrap());
    assert!(!test_lock.set_bit(15).unwrap());
    assert!(!test_lock.set_bit(0).unwrap());
    assert!(!test_lock.clear_bit(3).unwrap());
    assert!(!test_lock.clear_bit(5).unwrap());
    assert!(test_lock.clear_bit(1).unwrap());
    assert!(test_lock.clear_bit(0).unwrap());
    assert!(test_lock.clear_bit(12).unwrap());
    assert!(test_lock.clear_bit(15).unwrap());
    assert!(!test_lock.clear_bit(1).unwrap());
    assert!(!test_lock.clear_bit(0).unwrap());
    assert!(!test_lock.clear_bit(12).unwrap());
    assert!(!test_lock.clear_bit(15).unwrap());

    assert!(test_lock.set_bit(8).unwrap());
    assert!(!test_lock.set_bit(8).unwrap());

    assert!(test_lock.set_bit(1).unwrap());
    assert!(test_lock.set_bit(12).unwrap());
    assert!(test_lock.set_bit(15).unwrap());
    assert!(test_lock.set_bit(0).unwrap());
}

#[test]
fn static_bitmap_rejects_out_of_range() {
    let mut b = FixedBitmap::new(16);
    assert_eq!(b.set_bit(16), Err(StaticCollectionError::OutOfRange));
    assert_eq!(b.clear_bit(99), Err(StaticCollectionError::OutOfRange));
}

#[test]
fn test_stack() {
    let mut test_lock = FixedStack::new(16);
    test_lock.clear_stack();
    test_lock.push(1).unwrap();
    test_lock.push(2).unwrap();
    test_lock.push(3).unwrap();
    assert_eq!(test_lock.pop().unwrap(), 3);
    assert_eq!(test_lock.pop().unwrap(), 2);
    assert_eq!(test_lock.pop().unwrap(), 1);
}

#[test]
fn stack_bounds_are_enforced() {
    let mut s = FixedStack::new(2);
    assert_eq!(s.pop(), Err(StaticCollectionError::OutOfRange));
    s.push(10).unwrap();
    s.push(20).unwrap();
    assert_eq!(s.get_size(), 2);
    assert_eq!(s.push(30), Err(StaticCollectionError::OutOfRange));
    assert_eq!(s.pop().unwrap(), 20);
    assert_eq!(s.pop().unwrap(), 10);
    assert_eq!(s.pop(), Err(StaticCollectionError::OutOfRange));
}

#[test]
fn static_collection_error_describes_itself() {
    assert_eq!(StaticCollectionError::OutOfRange.describe(), "Out of index range");
}
