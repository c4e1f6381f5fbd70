use trapeze::odd_range_pool::{to_all, to_odd, OddRangePool};
use trapeze::range_pool::RangePool;

#[test]
fn basic() {
    let mut pool = RangePool::ranged(..);

    assert_eq!(pool.request_id(1), Some(1));
    assert_eq!(pool.request_id(3), Some(3));
    assert_eq!(pool.request_id(5), Some(5));
    assert_eq!(pool.request_id(7), Some(7));
}

#[test]
fn request_twice_fails() {
    let mut pool = RangePool::ranged(..);
    assert_eq!(pool.request_id(9), Some(9));
    assert_eq!(pool.request_id(9), None);
}

#[test]
fn new_id_gives_smallest_free() {
    let mut pool = RangePool::ranged(0..=10);
    assert_eq!(pool.request_id(0), Some(0));
    assert_eq!(pool.request_id(2), Some(2));
    assert_eq!(pool.new_id(), Some(1));
    assert_eq!(pool.new_id(), Some(3));
    assert_eq!(pool.return_id(0), Ok(()));
    assert_eq!(pool.new_id(), Some(0));
}

#[test]
fn exhausted_pool() {
    let mut pool = RangePool::ranged(5..7);
    assert_eq!(pool.new_id(), Some(5));
    assert_eq!(pool.new_id(), Some(6));
    assert_eq!(pool.new_id(), None);
}

#[test]
fn return_free_id_is_error() {
    let mut pool = RangePool::ranged(..);
    assert_eq!(pool.return_id(4), Err(4));
    assert_eq!(pool.request_id(4), Some(4));
    assert_eq!(pool.return_id(4), Ok(()));
    assert_eq!(pool.return_id(4), Err(4));
}

#[test]
fn return_merges_ranges() {
    let mut pool = RangePool::ranged(0..=4);
    for id in 0..=4u32 {
        assert_eq!(pool.request_id(id), Some(id));
    }
    assert_eq!(pool.new_id(), None);
    assert_eq!(pool.return_id(3), Ok(()));
    assert_eq!(pool.return_id(1), Ok(()));
    assert_eq!(pool.return_id(2), Ok(()));
    assert_eq!(pool.new_id(), Some(1));
    assert_eq!(pool.new_id(), Some(2));
    assert_eq!(pool.new_id(), Some(3));
    assert_eq!(pool.new_id(), None);
}

#[test]
fn largest_id() {
    let mut pool = RangePool::ranged(..);
    assert_eq!(pool.request_id(u32::MAX), Some(u32::MAX));
    assert_eq!(pool.request_id(u32::MAX), None);
    assert_eq!(pool.return_id(u32::MAX), Ok(()));
    assert_eq!(pool.request_id(u32::MAX), Some(u32::MAX));
}

#[test]
fn odd_pool_hands_out_odd_ids() {
    let mut pool = OddRangePool::default();
    assert_eq!(pool.new_id(), Some(1));
    assert_eq!(pool.new_id(), Some(3));
    assert_eq!(pool.new_id(), Some(5));
    assert_eq!(pool.return_id(3), Ok(()));
    assert_eq!(pool.new_id(), Some(3));
    assert_eq!(pool.new_id(), Some(7));
}

#[test]
fn odd_pool_skips_requested_ids() {
    let mut pool = OddRangePool::default();
    assert_eq!(pool.request_id(1), Some(1));
    assert_eq!(pool.request_id(2), Some(2));
    assert_eq!(pool.request_id(2), None);
    assert_eq!(pool.new_id(), Some(3));
    assert_eq!(pool.return_id(1), Ok(()));
    assert_eq!(pool.return_id(1), Err(1));
    assert_eq!(pool.new_id(), Some(1));
}

#[test]
fn odd_pool_never_repeats_outstanding_ids() {
    let mut pool = OddRangePool::default();
    let mut seen = Vec::new();
    for _ in 0..50 {
        let id = pool.new_id().unwrap();
        assert_eq!(id % 2, 1);
        assert!(!seen.contains(&id));
        seen.push(id);
    }
    assert_eq!(pool.return_id(seen[10]), Ok(()));
    assert_eq!(pool.new_id(), Some(seen[10]));
}

#[test]
fn odd_index_conversion() {
    assert_eq!(to_odd(7), Some(3));
    assert_eq!(to_odd(8), None);
    assert_eq!(to_all(3), 7);
    assert_eq!(to_all(0x7fff_ffff), u32::MAX);
}
