//! Command-injection guard: decides whether a program path or shell
//! command handed to a process-spawn entry point must be refused.
//!
//! The shim that owns the real entry points asks `is_blocked` and, on a
//! hit, fails the call with a permission error instead of forwarding it.

use vstd::prelude::*;
use crate::textscan::chars_of;
use crate::textscan::contains_folded;
use crate::textscan::is_prefix;
use crate::textscan::is_substr;
use crate::textscan::lower_seq;
use crate::textscan::prefix_folded;

verus! {

/// The command begins with one of the trusted program paths.
pub open spec fn cmd_allowed(s: Seq<char>) -> bool {
    ||| is_prefix("/usr/bin/sendmail"@, lower_seq(s))
    ||| is_prefix("/usr/sbin/sendmail"@, lower_seq(s))
    ||| is_prefix("/usr/bin/convert"@, lower_seq(s))
    ||| is_prefix("/usr/bin/gs"@, lower_seq(s))
}

/// The command mentions one of the blocklisted programs or phrases.
pub open spec fn cmd_blocklisted(s: Seq<char>) -> bool {
    ||| is_substr("curl"@, lower_seq(s))
    ||| is_substr("wget"@, lower_seq(s))
    ||| is_substr("nc"@, lower_seq(s))
    ||| is_substr("ncat"@, lower_seq(s))
    ||| is_substr("netcat"@, lower_seq(s))
    ||| is_substr("bash"@, lower_seq(s))
    ||| is_substr("sh"@, lower_seq(s))
    ||| is_substr("zsh"@, lower_seq(s))
    ||| is_substr("python"@, lower_seq(s))
    ||| is_substr("perl"@, lower_seq(s))
    ||| is_substr("ruby"@, lower_seq(s))
    ||| is_substr("base64"@, lower_seq(s))
    ||| is_substr("dd"@, lower_seq(s))
    ||| is_substr("chmod"@, lower_seq(s))
    ||| is_substr("chown"@, lower_seq(s))
    ||| is_substr("rm -rf"@, lower_seq(s))
    ||| is_substr("/bin/sh"@, lower_seq(s))
    ||| is_substr("/bin/bash"@, lower_seq(s))
    ||| is_substr("/usr/bin/python"@, lower_seq(s))
}

/// A command is blocked when no trusted prefix matches and a blocklisted
/// phrase occurs, compared ASCII case-insensitively.
pub open spec fn cmd_blocked(s: Seq<char>) -> bool {
    !cmd_allowed(s) && cmd_blocklisted(s)
}

/// Decide whether a command must be refused.
pub fn is_blocked(cmd: &str) -> (b: bool)
    ensures
        b == cmd_blocked(cmd@),
{
    let cs = chars_of(cmd);
    if prefix_folded(&cs, "/usr/bin/sendmail") || prefix_folded(&cs, "/usr/sbin/sendmail")
        || prefix_folded(&cs, "/usr/bin/convert") || prefix_folded(&cs, "/usr/bin/gs") {
        return false;
    }
    if contains_folded(&cs, "curl") || contains_folded(&cs, "wget") || contains_folded(&cs, "nc")
        || contains_folded(&cs, "ncat") || contains_folded(&cs, "netcat") || contains_folded(
        &cs,
        "bash",
    ) || contains_folded(&cs, "sh") || contains_folded(&cs, "zsh") || contains_folded(
        &cs,
        "python",
    ) || contains_folded(&cs, "perl") || contains_folded(&cs, "ruby") || contains_folded(
        &cs,
        "base64",
    ) || contains_folded(&cs, "dd") || contains_folded(&cs, "chmod") || contains_folded(
        &cs,
        "chown",
    ) || contains_folded(&cs, "rm -rf") || contains_folded(&cs, "/bin/sh") || contains_folded(
        &cs,
        "/bin/bash",
    ) || contains_folded(&cs, "/usr/bin/python") {
        return true;
    }
    false
}

} // verus!
