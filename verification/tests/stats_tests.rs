use php_safe_core::decimal::u64_to_string;
use php_safe_core::stats;
use php_safe_core::stats::snapshot_truncated;

#[test]
fn counters_start_at_zero_and_count() {
    let mut s = stats::init();
    assert_eq!(s.rc_intercepts, 0);
    assert_eq!(s.cmd_blocks, 0);
    assert_eq!(s.file_blocks, 0);
    assert_eq!(s.rate_blocks, 0);
    assert_eq!(s.sensitive_blocks, 0);
    s.inc_rc_intercept();
    s.inc_cmd_block();
    s.inc_cmd_block();
    s.inc_file_block();
    s.inc_rate_block();
    s.inc_sensitive_block();
    let c = s.get();
    assert_eq!(c.rc_intercepts, 1);
    assert_eq!(c.cmd_blocks, 2);
    assert_eq!(c.file_blocks, 1);
    assert_eq!(c.rate_blocks, 1);
    assert_eq!(c.sensitive_blocks, 1);
}

#[test]
fn json_snapshot_is_exact() {
    let mut s = stats::init();
    assert_eq!(
        s.to_json(),
        "{\"rc_intercepts\":0,\"cmd_blocks\":0,\"file_blocks\":0,\"rate_blocks\":0,\"sensitive_blocks\":0}"
    );
    s.inc_rc_intercept();
    s.inc_rate_block();
    s.inc_rate_block();
    assert_eq!(
        s.to_json(),
        "{\"rc_intercepts\":1,\"cmd_blocks\":0,\"file_blocks\":0,\"rate_blocks\":2,\"sensitive_blocks\":0}"
    );
}

#[test]
fn decimal_rendering_is_exact() {
    assert_eq!(u64_to_string(0), "0");
    assert_eq!(u64_to_string(7), "7");
    assert_eq!(u64_to_string(10), "10");
    assert_eq!(u64_to_string(1234567890), "1234567890");
    assert_eq!(u64_to_string(u64::MAX), "18446744073709551615");
}

#[test]
fn snapshot_truncation_never_overflows() {
    let data: Vec<u8> = vec![b'a', b'b', b'c', b'd'];
    // Room for everything: data plus the terminator.
    let full = snapshot_truncated(&data, 16);
    assert_eq!(full, vec![b'a', b'b', b'c', b'd', 0]);
    // A tight buffer truncates, keeping the terminator.
    let tight = snapshot_truncated(&data, 3);
    assert_eq!(tight, vec![b'a', b'b', 0]);
    // A one-byte buffer holds only the terminator.
    let one = snapshot_truncated(&data, 1);
    assert_eq!(one, vec![0]);
    // An empty buffer gets nothing.
    let none = snapshot_truncated(&data, 0);
    assert!(none.is_empty());
}
