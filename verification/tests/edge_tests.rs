use php_safe_core::edge_guard;
use php_safe_core::edge_guard::compare_snapshot;
use php_safe_core::edge_guard::sha256;
use php_safe_core::edge_guard::to_hex;

fn digest_hex(data: &[u8]) -> String {
    let v: Vec<u8> = data.to_vec();
    to_hex(&sha256(&v))
}

#[test]
fn sha256_matches_known_vectors() {
    assert_eq!(
        digest_hex(b""),
        "e3b0c44298fc1c149afbf4c8996fb92427ae41e4649b934ca495991b7852b855"
    );
    assert_eq!(
        digest_hex(b"abc"),
        "ba7816bf8f01cfea414140de5dae2223b00361a396177a9cb410ff61f20015ad"
    );
    assert_eq!(
        digest_hex(b"abcdbcdecdefdefgefghfghighijhijkijkljklmklmnlmnomnopnopq"),
        "248d6a61d20638b8e5c026930c3e6039a33ce45964ff2167f6ecedd419db06c1"
    );
    // A message longer than one block exercises the multi-block path.
    let long: Vec<u8> = vec![b'a'; 200];
    assert_eq!(
        to_hex(&sha256(&long)),
        "c2a908d98f5df987ade41b5fce213067efbcc21ef2240212a41e54b5e7c28ae5"
    );
}

#[test]
fn hex_rendering_is_exact() {
    let v: Vec<u8> = vec![0x00, 0xff, 0x1a];
    assert_eq!(to_hex(&v), "00ff1a");
    let empty: Vec<u8> = Vec::new();
    assert_eq!(to_hex(&empty), "");
}

fn snap(entries: &[(&str, &str)]) -> Vec<(String, String)> {
    entries.iter().map(|(p, h)| (p.to_string(), h.to_string())).collect()
}

#[test]
fn unchanged_snapshots_compare_clean() {
    let a = snap(&[("/var/www/a.php", "h1"), ("/var/www/b.php", "h2")]);
    let b = snap(&[("/var/www/a.php", "h1"), ("/var/www/b.php", "h2")]);
    assert_eq!(compare_snapshot(&a, &b), (0, 0));
}

#[test]
fn changed_fingerprint_counts_as_tampered() {
    let a = snap(&[("/var/www/a.php", "h1"), ("/var/www/b.php", "h2")]);
    let b = snap(&[("/var/www/a.php", "HX"), ("/var/www/b.php", "h2")]);
    assert_eq!(compare_snapshot(&a, &b), (1, 0));
}

#[test]
fn unknown_path_counts_as_new_file() {
    let a = snap(&[("/var/www/a.php", "h1")]);
    let b = snap(&[("/var/www/a.php", "h1"), ("/var/www/new.php", "h9")]);
    assert_eq!(compare_snapshot(&a, &b), (0, 1));
}

#[test]
fn deleted_path_is_neither_tampered_nor_new() {
    let a = snap(&[("/var/www/a.php", "h1"), ("/var/www/b.php", "h2")]);
    let b = snap(&[("/var/www/a.php", "h1")]);
    assert_eq!(compare_snapshot(&a, &b), (0, 0));
}

#[test]
fn edge_guard_accumulates_scan_results() {
    let mut g = edge_guard::init();
    assert!(g.running);
    assert_eq!(g.tamper_count(), 0);
    assert_eq!(g.new_file_count(), 0);
    g.record_scan(2, 1);
    g.record_scan(1, 0);
    assert_eq!(g.tamper_count(), 3);
    assert_eq!(g.new_file_count(), 1);
    g.shutdown();
    assert!(!g.running);
}
