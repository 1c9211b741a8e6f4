use php_safe_core::allocator::SafeAllocator;
use php_safe_core::mem_pool::MemPool;
use php_safe_core::mem_pool::SLAB_CAPACITY;

#[test]
fn prewarmed_tier_serves_distinct_addresses_then_misses() {
    let mut a = SafeAllocator::new();
    // Pre-warm tier index 1 (32-byte objects) with 4 slots.
    a.prefill(1, 4);
    let (hits0, misses0, depth0) = a.tier_stats(1);
    assert_eq!(hits0, 0);
    assert_eq!(misses0, 0);
    assert_eq!(depth0, 4);

    let p1 = a.allocate(32);
    let p2 = a.allocate(32);
    let p3 = a.allocate(32);
    let p4 = a.allocate(32);
    assert!(p1 != 0 && p2 != 0 && p3 != 0 && p4 != 0);
    assert!(p1 != p2 && p1 != p3 && p1 != p4);
    assert!(p2 != p3 && p2 != p4 && p3 != p4);
    let (hits, misses, depth) = a.tier_stats(1);
    assert_eq!(hits, 4);
    assert_eq!(misses, 0);
    assert_eq!(depth, 0);

    // The fifth request misses the stack but is still served via fallback.
    let p5 = a.allocate(32);
    assert!(p5 != 0);
    assert!(p5 != p1 && p5 != p2 && p5 != p3 && p5 != p4);
    let (_, misses, depth) = a.tier_stats(1);
    assert_eq!(misses, 1);
    assert_eq!(depth, 0);

    // Freeing the first four brings the stack depth back to 4.
    a.dealloc(p1, 32);
    a.dealloc(p2, 32);
    a.dealloc(p3, 32);
    a.dealloc(p4, 32);
    let (_, _, depth) = a.tier_stats(1);
    assert_eq!(depth, 4);
}

#[test]
fn round_trip_reuses_the_same_address() {
    let mut a = SafeAllocator::new();
    a.prefill(0, 2);
    let (_, _, depth0) = a.tier_stats(0);
    let p = a.allocate(10);
    assert!(p != 0);
    a.dealloc(p, 10);
    let (_, _, depth1) = a.tier_stats(0);
    assert_eq!(depth0, depth1);
    let q = a.allocate(10);
    assert_eq!(p, q);
}

#[test]
fn tier_selection_rounds_up_and_large_requests_bypass() {
    assert_eq!(SafeAllocator::tier_index(0), Some(0));
    assert_eq!(SafeAllocator::tier_index(16), Some(0));
    assert_eq!(SafeAllocator::tier_index(17), Some(1));
    assert_eq!(SafeAllocator::tier_index(2048), Some(7));
    assert_eq!(SafeAllocator::tier_index(2049), None);

    let mut a = SafeAllocator::new();
    let (_, _, sys0) = a.stats();
    assert_eq!(sys0, 0);
    let big = a.allocate(4096);
    assert!(big != 0);
    let (total, _, sys) = a.stats();
    assert_eq!(total, 1);
    assert_eq!(sys, 1);
    a.dealloc(big, 4096);
}

#[test]
fn counters_track_pool_and_system_paths() {
    let mut a = SafeAllocator::new();
    a.prefill(0, 1);
    let p = a.allocate(8);
    let q = a.allocate(8);
    assert!(p != 0 && q != 0 && p != q);
    let (total, pool_hits, sys) = a.stats();
    assert_eq!(total, 2);
    // Both requests were serviced through the tier, the second by fallback.
    assert_eq!(pool_hits, 2);
    assert_eq!(sys, 0);
}

#[test]
fn zero_sized_request_gets_a_usable_handle() {
    let mut a = SafeAllocator::new();
    let p = a.allocate(0);
    assert!(p != 0);
    a.dealloc(p, 0);
    let (_, _, depth) = a.tier_stats(0);
    assert_eq!(depth, 1);
}

#[test]
fn null_dealloc_is_a_no_op() {
    let mut a = SafeAllocator::new();
    a.dealloc(0, 64);
    let (total, _, _) = a.stats();
    assert_eq!(total, 0);
}

#[test]
fn realloc_moves_to_a_fresh_block_and_frees_the_old() {
    let mut a = SafeAllocator::new();
    let p = a.allocate(100);
    assert!(p != 0);
    let q = a.realloc(p, 100, 300);
    assert!(q != 0);
    assert!(q != p);
    // The old 128-byte block is back on its tier's stack.
    let (_, _, depth128) = a.tier_stats(3);
    assert_eq!(depth128, 1);
}

#[test]
fn alloc_zeroed_books_like_alloc() {
    let mut a = SafeAllocator::new();
    let p = a.alloc_zeroed(50);
    assert!(p != 0);
    let (total, pool_hits, _) = a.stats();
    assert_eq!(total, 1);
    assert_eq!(pool_hits, 1);
}

#[test]
fn prefill_all_fills_every_tier() {
    let mut a = SafeAllocator::new();
    a.prefill_all();
    for ti in 0..8 {
        let (_, _, depth) = a.tier_stats(ti);
        assert_eq!(depth, 2048);
    }
}

#[test]
fn exhaustion_is_surfaced_as_a_null_address() {
    // A request the modeled system allocator cannot grant comes back as
    // the null address; the caller must check.
    let mut a = SafeAllocator::new();
    let p = a.allocate(usize::MAX);
    assert_eq!(p, 0);
    let (total, _, sys) = a.stats();
    assert_eq!(total, 1);
    assert_eq!(sys, 1);
}

#[test]
fn bounded_pool_exhaustion_is_null_too() {
    let mut p = MemPool::new();
    assert_eq!(p.allocate(usize::MAX), 0);
}

#[test]
fn bounded_pool_reuses_and_spills() {
    let mut p = MemPool::new();
    let st = p.stats();
    assert_eq!(st.total_allocs, 0);
    assert_eq!(st.tiers.len(), 6);
    assert_eq!(st.tiers[0].size, 32);
    assert_eq!(st.tiers[0].free_slots, SLAB_CAPACITY);

    let x = p.allocate(20);
    assert!(x != 0);
    let st = p.stats();
    assert_eq!(st.total_allocs, 1);
    assert_eq!(st.tiers[0].allocs, 1);
    assert_eq!(st.tiers[0].reuses, 1);
    assert_eq!(st.tiers[0].free_slots, SLAB_CAPACITY - 1);

    // A free onto an unfull slab is recycled.
    p.free(x, 20);
    let st = p.stats();
    assert_eq!(st.tiers[0].free_slots, SLAB_CAPACITY);

    // A free onto a full slab is spilled, leaving the stack at its cap.
    p.free(x, 20);
    let st = p.stats();
    assert_eq!(st.tiers[0].free_slots, SLAB_CAPACITY);
}

#[test]
fn bounded_pool_large_requests_bypass_the_slabs() {
    let mut p = MemPool::new();
    assert_eq!(MemPool::tier_index(1024), Some(5));
    assert_eq!(MemPool::tier_index(1025), None);
    let big = p.allocate(100000);
    assert!(big != 0);
    let st = p.stats();
    for t in &st.tiers {
        assert_eq!(t.allocs, 0);
    }
    p.free(big, 100000);
    p.free(0, 64);
}
