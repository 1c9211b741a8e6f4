//! Upload guard: decides whether an uploaded file is a threat, by its
//! extension, by an executable magic prefix, or by webshell code patterns
//! inside its content. The background sweep that walks the upload
//! directories feeds paths and contents to `is_threat` and quarantines
//! hits; this module holds the decision and the guard's counters.

use vstd::prelude::*;
use crate::bytescan::bytes_of_chars;
use crate::bytescan::contains_bytes_folded;
use crate::bytescan::is_prefix_bytes;
use crate::bytescan::is_substr_bytes;
use crate::bytescan::lower_bytes;
use crate::bytescan::prefix_bytes;
use crate::stats::bump_counter;
use crate::stats::bumped;
use crate::textscan::chars_of;
use crate::textscan::is_suffix;
use crate::textscan::lower_seq;
use crate::textscan::suffix_folded;

verus! {

/// Largest content size the deep scan looks at.
pub const MAX_SCAN_SIZE: usize = 10 * 1024 * 1024;

/// The magic prefix of an executable image.
pub open spec fn elf_magic() -> Seq<u8> {
    seq![0x7fu8, 0x45u8, 0x4cu8, 0x46u8]
}

/// The path ends in an extension that the worker must never serve,
/// compared ASCII case-insensitively.
pub open spec fn dangerous_ext(s: Seq<char>) -> bool {
    ||| is_suffix(".php"@, lower_seq(s))
    ||| is_suffix(".php3"@, lower_seq(s))
    ||| is_suffix(".php4"@, lower_seq(s))
    ||| is_suffix(".php5"@, lower_seq(s))
    ||| is_suffix(".php7"@, lower_seq(s))
    ||| is_suffix(".phtml"@, lower_seq(s))
    ||| is_suffix(".pht"@, lower_seq(s))
    ||| is_suffix(".shtml"@, lower_seq(s))
    ||| is_suffix(".shtm"@, lower_seq(s))
    ||| is_suffix(".cgi"@, lower_seq(s))
    ||| is_suffix(".pl"@, lower_seq(s))
    ||| is_suffix(".py"@, lower_seq(s))
    ||| is_suffix(".rb"@, lower_seq(s))
    ||| is_suffix(".sh"@, lower_seq(s))
    ||| is_suffix(".bash"@, lower_seq(s))
    ||| is_suffix(".asp"@, lower_seq(s))
    ||| is_suffix(".aspx"@, lower_seq(s))
    ||| is_suffix(".jsp"@, lower_seq(s))
    ||| is_suffix(".jspx"@, lower_seq(s))
}

/// One webshell pattern occurs in the lower-cased content.
pub open spec fn webshell_pattern(c: Seq<u8>) -> bool {
    ||| is_substr_bytes(bytes_of_chars("<?php"@), lower_bytes(c))
    ||| is_substr_bytes(bytes_of_chars("<?="@), lower_bytes(c))
    ||| is_substr_bytes(bytes_of_chars("eval("@), lower_bytes(c))
    ||| is_substr_bytes(bytes_of_chars("base64_decode("@), lower_bytes(c))
    ||| is_substr_bytes(bytes_of_chars("system("@), lower_bytes(c))
    ||| is_substr_bytes(bytes_of_chars("exec("@), lower_bytes(c))
    ||| is_substr_bytes(bytes_of_chars("passthru("@), lower_bytes(c))
    ||| is_substr_bytes(bytes_of_chars("shell_exec("@), lower_bytes(c))
    ||| is_substr_bytes(bytes_of_chars("popen("@), lower_bytes(c))
    ||| is_substr_bytes(bytes_of_chars("proc_open("@), lower_bytes(c))
    ||| is_substr_bytes(bytes_of_chars("assert("@), lower_bytes(c))
    ||| is_substr_bytes(bytes_of_chars("preg_replace("@), lower_bytes(c))
    ||| is_substr_bytes(bytes_of_chars("create_function("@), lower_bytes(c))
    ||| is_substr_bytes(bytes_of_chars("call_user_func("@), lower_bytes(c))
    ||| is_substr_bytes(bytes_of_chars("$_get["@), lower_bytes(c))
    ||| is_substr_bytes(bytes_of_chars("$_post["@), lower_bytes(c))
    ||| is_substr_bytes(bytes_of_chars("$_request["@), lower_bytes(c))
    ||| is_substr_bytes(bytes_of_chars("$_files["@), lower_bytes(c))
    ||| is_substr_bytes(bytes_of_chars("base64_encode("@), lower_bytes(c))
    ||| is_substr_bytes(bytes_of_chars("gzinflate("@), lower_bytes(c))
    ||| is_substr_bytes(bytes_of_chars("str_rot13("@), lower_bytes(c))
}

/// Why a file was judged a threat.
#[derive(Clone, Copy, PartialEq, Eq, Structural, Debug)]
pub enum ThreatKind {
    DangerousExt,
    ElfBinary,
    WebshellPattern,
}

/// What the content scan decides: contents above the scan cap are
/// skipped; an executable image or a webshell pattern is a threat.
pub open spec fn content_threat(c: Seq<u8>) -> Option<ThreatKind> {
    if c.len() > MAX_SCAN_SIZE {
        None
    } else if is_prefix_bytes(elf_magic(), c) {
        Some(ThreatKind::ElfBinary)
    } else if webshell_pattern(c) {
        Some(ThreatKind::WebshellPattern)
    } else {
        None
    }
}

/// What the whole check decides: a dangerous extension first, then the
/// content scan.
pub open spec fn threat_of(path: Seq<char>, c: Seq<u8>) -> Option<ThreatKind> {
    if dangerous_ext(path) {
        Some(ThreatKind::DangerousExt)
    } else {
        content_threat(c)
    }
}

/// Decide whether a file's extension alone condemns it.
pub fn is_dangerous_ext(path: &str) -> (b: bool)
    ensures
        b == dangerous_ext(path@),
{
    let cs = chars_of(path);
    if suffix_folded(&cs, ".php") || suffix_folded(&cs, ".php3") || suffix_folded(&cs, ".php4")
        || suffix_folded(&cs, ".php5") || suffix_folded(&cs, ".php7") || suffix_folded(
        &cs,
        ".phtml",
    ) || suffix_folded(&cs, ".pht") || suffix_folded(&cs, ".shtml") || suffix_folded(
        &cs,
        ".shtm",
    ) || suffix_folded(&cs, ".cgi") || suffix_folded(&cs, ".pl") || suffix_folded(&cs, ".py")
        || suffix_folded(&cs, ".rb") || suffix_folded(&cs, ".sh") || suffix_folded(&cs, ".bash")
        || suffix_folded(&cs, ".asp") || suffix_folded(&cs, ".aspx") || suffix_folded(
        &cs,
        ".jsp",
    ) || suffix_folded(&cs, ".jspx") {
        return true;
    }
    false
}

/// Scan file content for an executable image or webshell patterns.
pub fn scan_content(content: &Vec<u8>) -> (r: Option<ThreatKind>)
    ensures
        r == content_threat(content@),
{
    if content.len() > MAX_SCAN_SIZE {
        return None;
    }
    let mut magic: Vec<u8> = Vec::new();
    magic.push(0x7f);
    magic.push(0x45);
    magic.push(0x4c);
    magic.push(0x46);
    proof {
        assert(magic@ =~= elf_magic());
    }
    if prefix_bytes(content, &magic) {
        return Some(ThreatKind::ElfBinary);
    }
    if contains_bytes_folded(content, "<?php") || contains_bytes_folded(content, "<?=")
        || contains_bytes_folded(content, "eval(") || contains_bytes_folded(
        content,
        "base64_decode(",
    ) || contains_bytes_folded(content, "system(") || contains_bytes_folded(content, "exec(")
        || contains_bytes_folded(content, "passthru(") || contains_bytes_folded(
        content,
        "shell_exec(",
    ) || contains_bytes_folded(content, "popen(") || contains_bytes_folded(content, "proc_open(")
        || contains_bytes_folded(content, "assert(") || contains_bytes_folded(
        content,
        "preg_replace(",
    ) || contains_bytes_folded(content, "create_function(") || contains_bytes_folded(
        content,
        "call_user_func(",
    ) || contains_bytes_folded(content, "$_get[") || contains_bytes_folded(content, "$_post[")
        || contains_bytes_folded(content, "$_request[") || contains_bytes_folded(
        content,
        "$_files[",
    ) || contains_bytes_folded(content, "base64_encode(") || contains_bytes_folded(
        content,
        "gzinflate(",
    ) || contains_bytes_folded(content, "str_rot13(") {
        return Some(ThreatKind::WebshellPattern);
    }
    None
}

/// Judge one file by its path and content.
pub fn is_threat(path: &str, content: &Vec<u8>) -> (r: Option<ThreatKind>)
    ensures
        r == threat_of(path@, content@),
{
    if is_dangerous_ext(path) {
        return Some(ThreatKind::DangerousExt);
    }
    scan_content(content)
}

/// The upload guard's own state: whether the sweep runs, and how many
/// threats it removed.
pub struct UploadGuard {
    pub running: bool,
    pub blocked: u64,
}

/// A fresh guard, marked running.
pub fn init() -> (g: UploadGuard)
    ensures
        g.running,
        g.blocked == 0,
{
    UploadGuard { running: true, blocked: 0 }
}

impl UploadGuard {
    /// Stop the background sweep.
    pub fn shutdown(&mut self)
        ensures
            !final(self).running,
            final(self).blocked == old(self).blocked,
    {
        self.running = false;
    }

    /// Record one removed threat.
    pub fn record_blocked(&mut self)
        ensures
            final(self).blocked == bumped(old(self).blocked),
            final(self).running == old(self).running,
    {
        bump_counter(&mut self.blocked);
    }

    /// How many threats the sweep removed.
    pub fn blocked_count(&self) -> (n: u64)
        ensures
            n == self.blocked,
    {
        self.blocked
    }
}

} // verus!
