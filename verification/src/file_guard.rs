//! File-access guard: decides whether a read of a path must be refused,
//! shielding credential stores, configuration and key material.
//!
//! The shim that owns the real open entry point consults `is_blocked` for
//! read-only opens and, on a hit, fails the call with an access error.

use vstd::prelude::*;
use crate::textscan::chars_of;
use crate::textscan::contains_plain;
use crate::textscan::is_prefix;
use crate::textscan::is_substr;
use crate::textscan::is_suffix;
use crate::textscan::prefix_plain;
use crate::textscan::suffix_plain;

verus! {

/// The path lies under one of the prefixes the worker may always read.
pub open spec fn path_allowed(s: Seq<char>) -> bool {
    ||| is_prefix("/var/www"@, s)
    ||| is_prefix("/usr/share/php"@, s)
    ||| is_prefix("/tmp"@, s)
    ||| is_prefix("/proc/self/fd"@, s)
}

/// The path mentions one of the shielded locations.
pub open spec fn path_blocklisted(s: Seq<char>) -> bool {
    ||| is_substr("/etc/passwd"@, s)
    ||| is_substr("/etc/shadow"@, s)
    ||| is_substr("/etc/sudoers"@, s)
    ||| is_substr("/root/.ssh"@, s)
    ||| is_substr("/proc/self/environ"@, s)
    ||| is_substr("/.env"@, s)
    ||| is_substr("/.git"@, s)
    ||| is_substr("/wp-config.php"@, s)
    ||| is_substr("/config/database"@, s)
}

/// The path ends in one of the shielded key-material extensions.
pub open spec fn path_ext_blocked(s: Seq<char>) -> bool {
    ||| is_suffix(".pem"@, s)
    ||| is_suffix(".key"@, s)
    ||| is_suffix(".p12"@, s)
    ||| is_suffix(".pfx"@, s)
    ||| is_suffix(".id_rsa"@, s)
    ||| is_suffix(".id_dsa"@, s)
}

/// A path is blocked when no allowed prefix matches and it either mentions
/// a shielded location or ends in a shielded extension.
pub open spec fn path_blocked(s: Seq<char>) -> bool {
    !path_allowed(s) && (path_blocklisted(s) || path_ext_blocked(s))
}

/// Decide whether a read of `path` must be refused.
pub fn is_blocked(path: &str) -> (b: bool)
    ensures
        b == path_blocked(path@),
{
    let cs = chars_of(path);
    if prefix_plain(&cs, "/var/www") || prefix_plain(&cs, "/usr/share/php") || prefix_plain(
        &cs,
        "/tmp",
    ) || prefix_plain(&cs, "/proc/self/fd") {
        return false;
    }
    if contains_plain(&cs, "/etc/passwd") || contains_plain(&cs, "/etc/shadow") || contains_plain(
        &cs,
        "/etc/sudoers",
    ) || contains_plain(&cs, "/root/.ssh") || contains_plain(&cs, "/proc/self/environ")
        || contains_plain(&cs, "/.env") || contains_plain(&cs, "/.git") || contains_plain(
        &cs,
        "/wp-config.php",
    ) || contains_plain(&cs, "/config/database") {
        return true;
    }
    if suffix_plain(&cs, ".pem") || suffix_plain(&cs, ".key") || suffix_plain(&cs, ".p12")
        || suffix_plain(&cs, ".pfx") || suffix_plain(&cs, ".id_rsa") || suffix_plain(
        &cs,
        ".id_dsa",
    ) {
        return true;
    }
    false
}

} // verus!
