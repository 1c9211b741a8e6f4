//! Sensitive-output guard: decides whether a buffer written to the
//! worker's standard streams leaks stack traces, paths or credentials.
//!
//! The shim that owns the real write entry point consults `is_sensitive`
//! and, on a hit, writes a fixed safe notice instead of the buffer.

use vstd::prelude::*;
use crate::textscan::chars_of;
use crate::textscan::contains_plain;
use crate::textscan::is_substr;

verus! {

/// The output mentions one of the sensitive phrases, as written.
pub open spec fn output_sensitive(s: Seq<char>) -> bool {
    ||| is_substr("Stack trace"@, s)
    ||| is_substr("Stack Trace"@, s)
    ||| is_substr("#0 /"@, s)
    ||| is_substr("#1 /"@, s)
    ||| is_substr("SQLSTATE"@, s)
    ||| is_substr("mysql_connect"@, s)
    ||| is_substr("pg_connect"@, s)
    ||| is_substr("/var/www"@, s)
    ||| is_substr("/home/"@, s)
    ||| is_substr("/usr/local"@, s)
    ||| is_substr("DB_PASSWORD"@, s)
    ||| is_substr("DB_HOST"@, s)
    ||| is_substr("APP_KEY"@, s)
    ||| is_substr("secret"@, s)
    ||| is_substr("password"@, s)
}

/// Decide whether an output buffer must be replaced by the safe notice.
pub fn is_sensitive(content: &str) -> (b: bool)
    ensures
        b == output_sensitive(content@),
{
    let cs = chars_of(content);
    if contains_plain(&cs, "Stack trace") || contains_plain(&cs, "Stack Trace") || contains_plain(
        &cs,
        "#0 /",
    ) || contains_plain(&cs, "#1 /") || contains_plain(&cs, "SQLSTATE") || contains_plain(
        &cs,
        "mysql_connect",
    ) || contains_plain(&cs, "pg_connect") || contains_plain(&cs, "/var/www") || contains_plain(
        &cs,
        "/home/",
    ) || contains_plain(&cs, "/usr/local") || contains_plain(&cs, "DB_PASSWORD")
        || contains_plain(&cs, "DB_HOST") || contains_plain(&cs, "APP_KEY") || contains_plain(
        &cs,
        "secret",
    ) || contains_plain(&cs, "password") {
        return true;
    }
    false
}

} // verus!
