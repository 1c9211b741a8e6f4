use php_safe_core::rc_guard::RcGuard;
use php_safe_core::stats;

#[test]
fn increments_and_decrements_track_the_counter() {
    let mut g = RcGuard::new();
    let mut st = stats::init();
    g.track_counter(0x1000, 0);
    assert_eq!(g.addref(&mut st, 0x1000), 1);
    assert_eq!(g.addref(&mut st, 0x1000), 2);
    assert_eq!(g.addref(&mut st, 0x1000), 3);
    assert_eq!(g.delref(&mut st, 0x1000, 0x2000), 2);
    assert_eq!(g.counter_value(0x1000), Some(2));
    assert_eq!(st.rc_intercepts, 0);
}

#[test]
fn decrement_to_zero_then_again_is_refused() {
    // Counter at 1: the first decrement reaches 0 and registers the
    // object as freed; the second is refused with the sentinel and the
    // intercept tally grows by exactly one.
    let mut g = RcGuard::new();
    let mut st = stats::init();
    g.track_counter(0x1000, 1);
    assert_eq!(g.delref(&mut st, 0x1000, 0x2000), 0);
    assert!(g.is_freed(0x2000));
    assert_eq!(st.rc_intercepts, 0);
    assert_eq!(g.delref(&mut st, 0x1000, 0x2000), u32::MAX);
    assert_eq!(st.rc_intercepts, 1);
}

#[test]
fn decrement_at_zero_is_refused_and_registers() {
    let mut g = RcGuard::new();
    let mut st = stats::init();
    g.track_counter(0x1000, 0);
    assert_eq!(g.delref(&mut st, 0x1000, 0x3000), 0);
    assert!(g.is_freed(0x3000));
    assert_eq!(g.counter_value(0x1000), Some(0));
    assert_eq!(st.rc_intercepts, 1);
}

#[test]
fn increment_on_freed_counter_address_returns_zero() {
    // Free an object whose address is the counter's own address; a later
    // increment on that address is refused before any read and the
    // counter word is left untouched.
    let mut g = RcGuard::new();
    let mut st = stats::init();
    g.track_counter(0x4000, 1);
    assert_eq!(g.delref(&mut st, 0x4000, 0x4000), 0);
    assert!(g.is_freed(0x4000));
    assert_eq!(g.addref(&mut st, 0x4000), 0);
    assert_eq!(g.counter_value(0x4000), Some(0));
    assert_eq!(st.rc_intercepts, 1);
}

#[test]
fn increment_at_the_overflow_cap_is_refused() {
    let mut g = RcGuard::new();
    let mut st = stats::init();
    g.track_counter(0x5000, 1000000);
    assert_eq!(g.addref(&mut st, 0x5000), 1000000);
    assert_eq!(g.counter_value(0x5000), Some(1000000));
    assert_eq!(st.rc_intercepts, 1);
    // One below the cap still increments.
    g.track_counter(0x6000, 999999);
    assert_eq!(g.addref(&mut st, 0x6000), 1000000);
    assert_eq!(st.rc_intercepts, 1);
}

#[test]
fn null_addresses_are_ignored() {
    let mut g = RcGuard::new();
    let mut st = stats::init();
    assert_eq!(g.addref(&mut st, 0), 0);
    assert_eq!(g.delref(&mut st, 0, 0x1234), 0);
    assert_eq!(st.rc_intercepts, 0);
}

#[test]
fn registry_is_cleared_wholesale_at_its_cap() {
    // Repeated refused decrements on distinct objects fill the registry
    // up to its cap of 100000 entries; the insert that would exceed the
    // cap clears the whole registry instead of growing it.
    let mut g = RcGuard::new();
    let mut st = stats::init();
    g.track_counter(0x10, 0);
    for k in 0..100_000u64 {
        let obj = 0x1_0000 + k as usize;
        assert_eq!(g.delref(&mut st, 0x10, obj), 0);
    }
    assert!(g.is_freed(0x1_0000));
    assert!(g.is_freed(0x1_0000 + 99_999));
    // One more refusal would leave 100001 entries: wholesale clear.
    assert_eq!(g.delref(&mut st, 0x10, 0x9_0000_0000), 0);
    assert!(!g.is_freed(0x1_0000));
    assert!(!g.is_freed(0x9_0000_0000));
    assert_eq!(st.rc_intercepts, 100_001);
}

#[test]
fn decrement_on_freed_object_is_refused_without_reading() {
    let mut g = RcGuard::new();
    let mut st = stats::init();
    g.track_counter(0x1000, 5);
    g.track_counter(0x7000, 1);
    assert_eq!(g.delref(&mut st, 0x7000, 0x8000), 0);
    assert!(g.is_freed(0x8000));
    // The same object address through a different counter is refused too.
    assert_eq!(g.delref(&mut st, 0x1000, 0x8000), u32::MAX);
    assert_eq!(g.counter_value(0x1000), Some(5));
    assert_eq!(st.rc_intercepts, 1);
}
