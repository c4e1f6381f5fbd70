use trapeze::id_pool::{route_frame, IdPool, Route};

#[test]
fn claimed_ids_are_exclusive() {
    let mut pool: IdPool<u64> = IdPool::new();
    assert!(pool.claim(1, 10));
    assert!(!pool.claim(1, 11));
    assert_eq!(pool.get(1), Some(&10));
    assert!(pool.claim(3, 30));
    assert!(pool.release(1));
    assert!(!pool.release(1));
    assert!(pool.claim(1, 12));
    assert_eq!(pool.get(1), Some(&12));
}

#[test]
fn frames_route_to_owner_or_stray() {
    let mut pool: IdPool<u64> = IdPool::new();
    assert!(pool.claim(5, 2));
    assert_eq!(route_frame(&pool, 5), Route::Stream(2));
    assert_eq!(route_frame(&pool, 7), Route::Stray);
    pool.recycle(&vec![5, 9]);
    assert_eq!(route_frame(&pool, 5), Route::Stray);
    assert_eq!(pool.get(5), None);
}
