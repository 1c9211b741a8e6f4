//! Sliding-window rate limiter: counts requests per client inside a fixed
//! window and blocks a client that exceeds the cap.
//!
//! Clients are opaque integer identifiers; the caller supplies the current
//! time, so the decision is a pure function of state, client and clock.

use std::collections::HashMap;
use vstd::prelude::*;
use crate::stats::Stats;
use crate::stats::bumped;

verus! {

broadcast use vstd::std_specs::hash::group_hash_axioms;

/// Length of one window in seconds.
pub const WINDOW_SECS: u64 = 60;

/// Requests allowed inside one window.
pub const MAX_REQUESTS: u32 = 300;

/// Cap on tracked clients; beyond it the whole table is cleared.
pub const MAX_ENTRIES: usize = 10000;

/// One client's window: requests counted and when the window opened.
pub struct RateEntry {
    pub count: u32,
    pub window_start: u64,
}

/// The window that opened at `start` is over at `now`. A clock that
/// jumped backwards also counts as over, so the window simply restarts.
pub open spec fn window_expired(now: u64, start: u64) -> bool {
    now < start || now - start >= WINDOW_SECS
}

/// The transition of `check`: clear the table at its cap, restart the
/// client's window if it is over, else count the request and block once
/// the count exceeds the cap.
pub open spec fn spec_rate_check(m: Map<u64, RateEntry>, client: u64, now: u64) -> (
    Map<u64, RateEntry>,
    bool,
) {
    let m0 = if m.len() >= MAX_ENTRIES {
        Map::<u64, RateEntry>::empty()
    } else {
        m
    };
    let e = if m0.contains_key(client) {
        m0[client]
    } else {
        RateEntry { count: 0, window_start: now }
    };
    if window_expired(now, e.window_start) {
        (m0.insert(client, RateEntry { count: 1, window_start: now }), false)
    } else {
        let c = if e.count == u32::MAX {
            e.count
        } else {
            (e.count + 1) as u32
        };
        (m0.insert(client, RateEntry { count: c, window_start: e.window_start }), c > MAX_REQUESTS)
    }
}

/// The per-client request table.
pub struct RateLimiter {
    table: HashMap<u64, RateEntry>,
}

impl View for RateLimiter {
    type V = Map<u64, RateEntry>;

    closed spec fn view(&self) -> Map<u64, RateEntry> {
        self.table@
    }
}

/// A fresh limiter with no tracked clients.
pub fn init() -> (r: RateLimiter)
    ensures
        r@ == Map::<u64, RateEntry>::empty(),
{
    RateLimiter { table: HashMap::new() }
}

impl RateLimiter {
    /// Record one request by `client` at time `now` and decide whether it
    /// is blocked; a blocked request is counted in the statistics.
    pub fn check(&mut self, stats: &mut Stats, client: u64, now: u64) -> (blocked: bool)
        ensures
            final(self)@ == spec_rate_check(old(self)@, client, now).0,
            blocked == spec_rate_check(old(self)@, client, now).1,
            *final(stats) == (Stats {
                rate_blocks: if blocked {
                    bumped(old(stats).rate_blocks)
                } else {
                    old(stats).rate_blocks
                },
                ..*old(stats)
            }),
    {
        if self.table.len() >= MAX_ENTRIES {
            self.table.clear();
        }
        let e = match self.table.get(&client) {
            Some(e) => RateEntry { count: e.count, window_start: e.window_start },
            None => RateEntry { count: 0, window_start: now },
        };
        if now < e.window_start || now - e.window_start >= WINDOW_SECS {
            self.table.insert(client, RateEntry { count: 1, window_start: now });
            false
        } else {
            let c = if e.count == u32::MAX {
                e.count
            } else {
                e.count + 1
            };
            self.table.insert(client, RateEntry { count: c, window_start: e.window_start });
            if c > MAX_REQUESTS {
                stats.inc_rate_block();
                true
            } else {
                false
            }
        }
    }
}

} // verus!
