//! Unified call-in security checks: command, path, output and rate
//! predicates behind the stable entry points the protected worker calls,
//! each recording its refusals in the statistics counters.

use vstd::prelude::*;
use crate::rate_limiter;
use crate::rate_limiter::RateEntry;
use crate::rate_limiter::RateLimiter;
use crate::rate_limiter::spec_rate_check;
use crate::stats::Stats;
use crate::stats::bumped;
use crate::textscan::chars_of;
use crate::textscan::contains_folded;
use crate::textscan::contains_plain;
use crate::textscan::is_substr;
use crate::textscan::is_suffix;
use crate::textscan::lower_seq;
use crate::textscan::suffix_plain;

verus! {

/// The command mentions one of the blocklisted programs or phrases,
/// compared ASCII case-insensitively.
pub open spec fn sec_cmd_blocked(s: Seq<char>) -> bool {
    ||| is_substr("curl"@, lower_seq(s))
    ||| is_substr("wget"@, lower_seq(s))
    ||| is_substr("nc"@, lower_seq(s))
    ||| is_substr("ncat"@, lower_seq(s))
    ||| is_substr("netcat"@, lower_seq(s))
    ||| is_substr("bash"@, lower_seq(s))
    ||| is_substr("sh -c"@, lower_seq(s))
    ||| is_substr("python"@, lower_seq(s))
    ||| is_substr("perl"@, lower_seq(s))
    ||| is_substr("ruby"@, lower_seq(s))
    ||| is_substr("base64"@, lower_seq(s))
    ||| is_substr("/bin/sh"@, lower_seq(s))
    ||| is_substr("/bin/bash"@, lower_seq(s))
}

/// The path mentions a shielded location or ends in key material.
pub open spec fn sec_path_blocked(s: Seq<char>) -> bool {
    ||| is_substr("/etc/passwd"@, s)
    ||| is_substr("/etc/shadow"@, s)
    ||| is_substr("/etc/sudoers"@, s)
    ||| is_substr("/root/.ssh"@, s)
    ||| is_substr("/proc/self/environ"@, s)
    ||| is_substr(".env"@, s)
    ||| is_substr("/.git"@, s)
    ||| is_substr("wp-config.php"@, s)
    ||| is_suffix(".pem"@, s)
    ||| is_suffix(".key"@, s)
    ||| is_suffix(".p12"@, s)
    ||| is_suffix(".pfx"@, s)
    ||| is_suffix(".id_rsa"@, s)
}

/// The output mentions one of the sensitive phrases, as written.
pub open spec fn sec_output_sensitive(s: Seq<char>) -> bool {
    ||| is_substr("Stack trace"@, s)
    ||| is_substr("Stack Trace"@, s)
    ||| is_substr("#0 /"@, s)
    ||| is_substr("#1 /"@, s)
    ||| is_substr("SQLSTATE"@, s)
    ||| is_substr("DB_PASSWORD"@, s)
    ||| is_substr("DB_HOST"@, s)
    ||| is_substr("APP_KEY"@, s)
    ||| is_substr("/var/www"@, s)
    ||| is_substr("/home/"@, s)
    ||| is_substr("password"@, s)
    ||| is_substr("secret"@, s)
}

/// The state behind the call-in surface: the rate limiter's table.
pub struct Security {
    rate: RateLimiter,
}

impl View for Security {
    type V = Map<u64, RateEntry>;

    closed spec fn view(&self) -> Map<u64, RateEntry> {
        self.rate@
    }
}

/// A fresh security state with an empty rate table.
pub fn init() -> (s: Security)
    ensures
        s@ == Map::<u64, RateEntry>::empty(),
{
    Security { rate: rate_limiter::init() }
}

/// Decide whether a shell command is blocked, counting a blocked one.
pub fn check_cmd(stats: &mut Stats, cmd: &str) -> (b: bool)
    ensures
        b == sec_cmd_blocked(cmd@),
        *final(stats) == (Stats {
            cmd_blocks: if b {
                bumped(old(stats).cmd_blocks)
            } else {
                old(stats).cmd_blocks
            },
            ..*old(stats)
        }),
{
    let cs = chars_of(cmd);
    if contains_folded(&cs, "curl") || contains_folded(&cs, "wget") || contains_folded(&cs, "nc")
        || contains_folded(&cs, "ncat") || contains_folded(&cs, "netcat") || contains_folded(
        &cs,
        "bash",
    ) || contains_folded(&cs, "sh -c") || contains_folded(&cs, "python") || contains_folded(
        &cs,
        "perl",
    ) || contains_folded(&cs, "ruby") || contains_folded(&cs, "base64") || contains_folded(
        &cs,
        "/bin/sh",
    ) || contains_folded(&cs, "/bin/bash") {
        stats.inc_cmd_block();
        return true;
    }
    false
}

/// Decide whether a file path is blocked, counting a blocked one.
pub fn check_path(stats: &mut Stats, path: &str) -> (b: bool)
    ensures
        b == sec_path_blocked(path@),
        *final(stats) == (Stats {
            file_blocks: if b {
                bumped(old(stats).file_blocks)
            } else {
                old(stats).file_blocks
            },
            ..*old(stats)
        }),
{
    let cs = chars_of(path);
    if contains_plain(&cs, "/etc/passwd") || contains_plain(&cs, "/etc/shadow") || contains_plain(
        &cs,
        "/etc/sudoers",
    ) || contains_plain(&cs, "/root/.ssh") || contains_plain(&cs, "/proc/self/environ")
        || contains_plain(&cs, ".env") || contains_plain(&cs, "/.git") || contains_plain(
        &cs,
        "wp-config.php",
    ) || suffix_plain(&cs, ".pem") || suffix_plain(&cs, ".key") || suffix_plain(&cs, ".p12")
        || suffix_plain(&cs, ".pfx") || suffix_plain(&cs, ".id_rsa") {
        stats.inc_file_block();
        return true;
    }
    false
}

/// Decide whether output content is sensitive, counting a filtered one.
pub fn filter_output(stats: &mut Stats, content: &str) -> (b: bool)
    ensures
        b == sec_output_sensitive(content@),
        *final(stats) == (Stats {
            sensitive_blocks: if b {
                bumped(old(stats).sensitive_blocks)
            } else {
                old(stats).sensitive_blocks
            },
            ..*old(stats)
        }),
{
    let cs = chars_of(content);
    if contains_plain(&cs, "Stack trace") || contains_plain(&cs, "Stack Trace") || contains_plain(
        &cs,
        "#0 /",
    ) || contains_plain(&cs, "#1 /") || contains_plain(&cs, "SQLSTATE") || contains_plain(
        &cs,
        "DB_PASSWORD",
    ) || contains_plain(&cs, "DB_HOST") || contains_plain(&cs, "APP_KEY") || contains_plain(
        &cs,
        "/var/www",
    ) || contains_plain(&cs, "/home/") || contains_plain(&cs, "password") || contains_plain(
        &cs,
        "secret",
    ) {
        stats.inc_sensitive_block();
        return true;
    }
    false
}

impl Security {
    /// Record one request by `client` at time `now` and decide whether it
    /// is rate-limited, counting a blocked one.
    pub fn rate_check(&mut self, stats: &mut Stats, client: u64, now: u64) -> (blocked: bool)
        ensures
            final(self)@ == spec_rate_check(old(self)@, client, now).0,
            blocked == spec_rate_check(old(self)@, client, now).1,
            *final(stats) == (Stats {
                rate_blocks: if blocked {
                    bumped(old(stats).rate_blocks)
                } else {
                    old(stats).rate_blocks
                },
                ..*old(stats)
            }),
    {
        self.rate.check(stats, client, now)
    }
}

} // verus!
