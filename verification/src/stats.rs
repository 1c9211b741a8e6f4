//! Monotonically increasing counters recording interception events, with a
//! compact JSON snapshot.

use vstd::prelude::*;
use vstd::string::StringExecFns;
use crate::decimal::dec_chars;
use crate::decimal::u64_to_string;

verus! {

/// The interception-event counters.
#[derive(Clone, Copy)]
pub struct Stats {
    pub rc_intercepts: u64,
    pub cmd_blocks: u64,
    pub file_blocks: u64,
    pub rate_blocks: u64,
    pub sensitive_blocks: u64,
}

/// One more recorded event: the counter grows by one until it reaches its
/// maximum, where it stays rather than wrapping back to zero.
pub open spec fn bumped(c: u64) -> u64 {
    if c == u64::MAX {
        c
    } else {
        (c + 1) as u64
    }
}

/// The JSON rendering of a counter snapshot: one object with the five
/// counters as named integer fields.
pub open spec fn json_view(s: Stats) -> Seq<char> {
    "{\"rc_intercepts\":"@ + dec_chars(s.rc_intercepts as nat)
        + ",\"cmd_blocks\":"@ + dec_chars(s.cmd_blocks as nat)
        + ",\"file_blocks\":"@ + dec_chars(s.file_blocks as nat)
        + ",\"rate_blocks\":"@ + dec_chars(s.rate_blocks as nat)
        + ",\"sensitive_blocks\":"@ + dec_chars(s.sensitive_blocks as nat)
        + "}"@
}

/// A fresh set of counters, all zero.
pub fn init() -> (s: Stats)
    ensures
        s.rc_intercepts == 0,
        s.cmd_blocks == 0,
        s.file_blocks == 0,
        s.rate_blocks == 0,
        s.sensitive_blocks == 0,
{
    Stats {
        rc_intercepts: 0,
        cmd_blocks: 0,
        file_blocks: 0,
        rate_blocks: 0,
        sensitive_blocks: 0,
    }
}

/// What lands in a caller-supplied buffer of `buf_len` bytes: the data,
/// truncated to leave room for one terminating zero byte; nothing at all
/// into an empty buffer.
pub open spec fn truncated_snapshot(data: Seq<u8>, buf_len: int) -> Seq<u8> {
    if buf_len <= 0 {
        Seq::<u8>::empty()
    } else {
        let c = if data.len() <= buf_len - 1 {
            data.len() as int
        } else {
            buf_len - 1
        };
        data.subrange(0, c) + seq![0u8]
    }
}

/// The snapshot bytes for a buffer of `buf_len` bytes: a prefix of the
/// data, truncated, never overflowing, with a terminating zero byte.
pub fn snapshot_truncated(data: &Vec<u8>, buf_len: usize) -> (out: Vec<u8>)
    ensures
        out@ == truncated_snapshot(data@, buf_len as int),
        out@.len() <= buf_len,
{
    let mut out: Vec<u8> = Vec::new();
    if buf_len == 0 {
        proof {
            assert(out@ =~= truncated_snapshot(data@, buf_len as int));
        }
        return out;
    }
    let c = if data.len() <= buf_len - 1 {
        data.len()
    } else {
        buf_len - 1
    };
    let mut i: usize = 0;
    while i < c
        invariant
            i <= c,
            c <= data@.len(),
            out@.len() == i,
            forall|j: int| 0 <= j < i ==> out@[j] == data@[j],
        decreases c - i,
    {
        out.push(data[i]);
        i = i + 1;
    }
    out.push(0);
    proof {
        assert(out@ =~= truncated_snapshot(data@, buf_len as int));
    }
    out
}

pub fn bump_counter(c: &mut u64)
    ensures
        *final(c) == bumped(*old(c)),
{
    if *c < u64::MAX {
        *c = *c + 1;
    }
}

impl Stats {
    /// Record one reference-count interception.
    pub fn inc_rc_intercept(&mut self)
        ensures
            *final(self) == (Stats { rc_intercepts: bumped(old(self).rc_intercepts), ..*old(self) }),
    {
        bump_counter(&mut self.rc_intercepts);
    }

    /// Record one blocked command.
    pub fn inc_cmd_block(&mut self)
        ensures
            *final(self) == (Stats { cmd_blocks: bumped(old(self).cmd_blocks), ..*old(self) }),
    {
        bump_counter(&mut self.cmd_blocks);
    }

    /// Record one blocked file access.
    pub fn inc_file_block(&mut self)
        ensures
            *final(self) == (Stats { file_blocks: bumped(old(self).file_blocks), ..*old(self) }),
    {
        bump_counter(&mut self.file_blocks);
    }

    /// Record one rate-limited request.
    pub fn inc_rate_block(&mut self)
        ensures
            *final(self) == (Stats { rate_blocks: bumped(old(self).rate_blocks), ..*old(self) }),
    {
        bump_counter(&mut self.rate_blocks);
    }

    /// Record one filtered sensitive output.
    pub fn inc_sensitive_block(&mut self)
        ensures
            *final(self) == (Stats {
                sensitive_blocks: bumped(old(self).sensitive_blocks),
                ..*old(self)
            }),
    {
        bump_counter(&mut self.sensitive_blocks);
    }

    /// A copy of the current counter values.
    pub fn get(&self) -> (s: Stats)
        ensures
            s == *self,
    {
        *self
    }

    /// The counters as one compact JSON object.
    pub fn to_json(&self) -> (r: String)
        ensures
            r@ == json_view(*self),
    {
        let mut r = String::from_str("{\"rc_intercepts\":");
        r.append(u64_to_string(self.rc_intercepts).as_str());
        r.append(",\"cmd_blocks\":");
        r.append(u64_to_string(self.cmd_blocks).as_str());
        r.append(",\"file_blocks\":");
        r.append(u64_to_string(self.file_blocks).as_str());
        r.append(",\"rate_blocks\":");
        r.append(u64_to_string(self.rate_blocks).as_str());
        r.append(",\"sensitive_blocks\":");
        r.append(u64_to_string(self.sensitive_blocks).as_str());
        r.append("}");
        r
    }
}

} // verus!
