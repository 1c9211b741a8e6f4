//! Reference-count safety guard: validates increments and decrements of
//! externally owned 32-bit counters against a freed-address registry, to
//! detect use-after-free, double-free and counter-overflow conditions.
//!
//! Counter and object addresses are opaque integers; the words of the
//! counters the guard has been handed are modeled in an explicit map, and
//! a freed check always precedes any read of a counter word.

use std::collections::HashMap;
use vstd::prelude::*;
use crate::stats::Stats;
use crate::stats::bumped;

verus! {

broadcast use vstd::std_specs::hash::group_hash_axioms;

/// Largest sane counter value; at or above it an increment is refused.
pub const RC_MAX_SANE: u32 = 1000000;

/// Cap on the freed-address registry; beyond it the registry is cleared
/// wholesale rather than evicted entry by entry.
pub const FREED_CAP: usize = 100000;

/// Mathematical view of the guard: the modeled counter words and the
/// freed-address registry with its markers.
#[verifier::ext_equal]
pub struct RcModel {
    pub mem: Map<usize, u32>,
    pub freed: Map<usize, u32>,
}

/// Outcome of one guard operation: the new model, the returned count, and
/// whether the operation was refused and counted as an interception.
#[verifier::ext_equal]
pub struct RcStep {
    pub model: RcModel,
    pub ret: u32,
    pub intercepted: bool,
}

/// The transition of `addref`. The freed check comes first, so a counter
/// registered as freed is refused with 0 before its word is ever read; an
/// increment at or above the sane cap is refused with the current value.
pub open spec fn spec_addref(m: RcModel, addr: usize) -> RcStep {
    if addr == 0 {
        RcStep { model: m, ret: 0, intercepted: false }
    } else if m.freed.contains_key(addr) {
        RcStep { model: m, ret: 0, intercepted: true }
    } else {
        let cur = m.mem[addr];
        if cur >= RC_MAX_SANE {
            RcStep { model: m, ret: cur, intercepted: true }
        } else {
            RcStep {
                model: RcModel { mem: m.mem.insert(addr, (cur + 1) as u32), ..m },
                ret: (cur + 1) as u32,
                intercepted: false,
            }
        }
    }
}

/// The registry after registering `obj` with marker `mark`: the insert,
/// unless it would push the registry past its cap, in which case the
/// whole registry is cleared instead of evicting entry by entry.
pub open spec fn register_freed(freed: Map<usize, u32>, obj: usize, mark: u32) -> Map<usize, u32> {
    let f1 = freed.insert(obj, mark);
    if f1.len() > FREED_CAP {
        Map::<usize, u32>::empty()
    } else {
        f1
    }
}

/// The transition of `delref`. An object already registered as freed is
/// refused with the sentinel maximum; a decrement finding the counter at
/// zero is refused with 0 and registers the object; a decrement reaching
/// zero registers the object. Either registration clears the registry
/// wholesale if the insert would push it past its cap.
pub open spec fn spec_delref(m: RcModel, addr: usize, obj: usize) -> RcStep {
    if addr == 0 {
        RcStep { model: m, ret: 0, intercepted: false }
    } else if m.freed.contains_key(obj) {
        RcStep { model: m, ret: u32::MAX, intercepted: true }
    } else {
        let cur = m.mem[addr];
        if cur == 0 {
            RcStep {
                model: RcModel { freed: register_freed(m.freed, obj, 0), ..m },
                ret: 0,
                intercepted: true,
            }
        } else {
            let newv = (cur - 1) as u32;
            let mem2 = m.mem.insert(addr, newv);
            if newv == 0 && obj != 0 {
                RcStep {
                    model: RcModel { mem: mem2, freed: register_freed(m.freed, obj, 1) },
                    ret: 0,
                    intercepted: false,
                }
            } else {
                RcStep { model: RcModel { mem: mem2, ..m }, ret: newv, intercepted: false }
            }
        }
    }
}

/// What `addref` needs of the model: when the freed check will pass, the
/// counter's word must be one the guard has been handed.
pub open spec fn addref_ok(m: RcModel, addr: usize) -> bool {
    addr != 0 && !m.freed.contains_key(addr) ==> m.mem.contains_key(addr)
}

/// What `delref` needs of the model, in the same way.
pub open spec fn delref_ok(m: RcModel, addr: usize, obj: usize) -> bool {
    addr != 0 && !m.freed.contains_key(obj) ==> m.mem.contains_key(addr)
}

/// The reference-count guard.
pub struct RcGuard {
    counters: HashMap<usize, u32>,
    freed: HashMap<usize, u32>,
}

impl View for RcGuard {
    type V = RcModel;

    closed spec fn view(&self) -> RcModel {
        RcModel { mem: self.counters@, freed: self.freed@ }
    }
}

impl RcGuard {
    /// A fresh guard: no tracked counters, empty registry.
    pub fn new() -> (g: RcGuard)
        ensures
            g@.mem == Map::<usize, u32>::empty(),
            g@.freed == Map::<usize, u32>::empty(),
    {
        RcGuard { counters: HashMap::new(), freed: HashMap::new() }
    }

    /// Hand the guard the current word of a caller-owned counter.
    pub fn track_counter(&mut self, addr: usize, value: u32)
        requires
            addr != 0,
        ensures
            final(self)@ == (RcModel { mem: old(self)@.mem.insert(addr, value), ..old(self)@ }),
    {
        self.counters.insert(addr, value);
    }

    /// Whether an address is registered as freed.
    pub fn is_freed(&self, addr: usize) -> (b: bool)
        ensures
            b == self@.freed.contains_key(addr),
    {
        self.freed.contains_key(&addr)
    }

    /// The modeled word of a tracked counter.
    pub fn counter_value(&self, addr: usize) -> (r: Option<u32>)
        ensures
            r == (if self@.mem.contains_key(addr) {
                Some(self@.mem[addr])
            } else {
                None::<u32>
            }),
    {
        match self.counters.get(&addr) {
            Some(v) => Some(*v),
            None => None,
        }
    }

    /// Guarded increment: refuse on a freed counter address (before any
    /// read), refuse at the overflow cap, otherwise bump the counter and
    /// return its new value.
    pub fn addref(&mut self, stats: &mut Stats, addr: usize) -> (r: u32)
        requires
            addref_ok(old(self)@, addr),
        ensures
            final(self)@ == spec_addref(old(self)@, addr).model,
            r == spec_addref(old(self)@, addr).ret,
            *final(stats) == (Stats {
                rc_intercepts: if spec_addref(old(self)@, addr).intercepted {
                    bumped(old(stats).rc_intercepts)
                } else {
                    old(stats).rc_intercepts
                },
                ..*old(stats)
            }),
    {
        if addr == 0 {
            return 0;
        }
        if self.freed.contains_key(&addr) {
            stats.inc_rc_intercept();
            return 0;
        }
        let cur = match self.counters.get(&addr) {
            Some(v) => *v,
            None => 0,
        };
        if cur >= RC_MAX_SANE {
            stats.inc_rc_intercept();
            return cur;
        }
        let newv = cur + 1;
        self.counters.insert(addr, newv);
        newv
    }

    /// Guarded decrement: refuse with the sentinel maximum on an object
    /// already registered as freed, refuse a decrement past zero, and
    /// register the object when the count reaches zero.
    pub fn delref(&mut self, stats: &mut Stats, addr: usize, obj: usize) -> (r: u32)
        requires
            delref_ok(old(self)@, addr, obj),
        ensures
            final(self)@ == spec_delref(old(self)@, addr, obj).model,
            r == spec_delref(old(self)@, addr, obj).ret,
            *final(stats) == (Stats {
                rc_intercepts: if spec_delref(old(self)@, addr, obj).intercepted {
                    bumped(old(stats).rc_intercepts)
                } else {
                    old(stats).rc_intercepts
                },
                ..*old(stats)
            }),
    {
        if addr == 0 {
            return 0;
        }
        if self.freed.contains_key(&obj) {
            stats.inc_rc_intercept();
            return u32::MAX;
        }
        let cur = match self.counters.get(&addr) {
            Some(v) => *v,
            None => 0,
        };
        if cur == 0 {
            stats.inc_rc_intercept();
            self.freed.insert(obj, 0);
            if self.freed.len() > FREED_CAP {
                self.freed.clear();
            }
            return 0;
        }
        let newv = cur - 1;
        self.counters.insert(addr, newv);
        if newv == 0 && obj != 0 {
            self.freed.insert(obj, 1);
            if self.freed.len() > FREED_CAP {
                self.freed.clear();
            }
        }
        newv
    }
}

/// One guard operation, for stating laws over whole histories.
pub enum RcOp {
    Inc { addr: usize },
    Dec { addr: usize, obj: usize },
}

/// Apply one operation to the model.
pub open spec fn apply_rc_op(m: RcModel, op: RcOp) -> RcModel {
    match op {
        RcOp::Inc { addr } => spec_addref(m, addr).model,
        RcOp::Dec { addr, obj } => spec_delref(m, addr, obj).model,
    }
}

/// Apply a whole history of operations, oldest first.
pub open spec fn apply_rc_ops(m: RcModel, ops: Seq<RcOp>) -> RcModel
    decreases ops.len(),
{
    if ops.len() == 0 {
        m
    } else {
        apply_rc_ops(apply_rc_op(m, ops[0]), ops.drop_first())
    }
}

/// One operation meets the guard's precondition in the given model.
pub open spec fn rc_op_ok(m: RcModel, op: RcOp) -> bool {
    match op {
        RcOp::Inc { addr } => addref_ok(m, addr),
        RcOp::Dec { addr, obj } => delref_ok(m, addr, obj),
    }
}

/// Every operation of a history meets the guard's precondition at the
/// model it is applied to.
pub open spec fn rc_ops_ok(m: RcModel, ops: Seq<RcOp>) -> bool
    decreases ops.len(),
{
    ops.len() > 0 ==> rc_op_ok(m, ops[0]) && rc_ops_ok(apply_rc_op(m, ops[0]), ops.drop_first())
}

/// Counter bounds: starting from a model whose counters all lie within the
/// sane cap — a fresh counter starts at 0 — no history of increments and
/// decrements on tracked counters can push any counter below zero (the
/// values are unsigned and a decrement at zero is refused) or above the
/// overflow cap.
pub proof fn lemma_rc_bounded(m: RcModel, ops: Seq<RcOp>)
    requires
        rc_ops_ok(m, ops),
        forall|a: usize| #[trigger] m.mem.contains_key(a) ==> m.mem[a] <= RC_MAX_SANE,
    ensures
        forall|a: usize| #[trigger]
            apply_rc_ops(m, ops).mem.contains_key(a) ==> apply_rc_ops(m, ops).mem[a]
                <= RC_MAX_SANE,
    decreases ops.len(),
{
    if ops.len() > 0 {
        let m1 = apply_rc_op(m, ops[0]);
        assert forall|a: usize| #[trigger] m1.mem.contains_key(a) implies m1.mem[a]
            <= RC_MAX_SANE by {
            if m.mem.contains_key(a) {
                assert(m.mem[a] <= RC_MAX_SANE);
            }
        }
        lemma_rc_bounded(m1, ops.drop_first());
        assert(apply_rc_ops(m, ops) == apply_rc_ops(m1, ops.drop_first()));
        assert forall|a: usize| #[trigger] apply_rc_ops(m, ops).mem.contains_key(a) implies
            apply_rc_ops(m, ops).mem[a] <= RC_MAX_SANE by {
            assert(apply_rc_ops(m1, ops.drop_first()).mem.contains_key(a));
        }
    }
}

/// A decrement that finds the counter already at zero is refused: it
/// returns 0, leaves every counter word untouched, registers the object's
/// address as freed, and is counted as an interception. Like every
/// registration, the insert is exact only while the registry stays below
/// its cap; at the cap it is cleared wholesale.
pub proof fn lemma_underflow_refused(m: RcModel, addr: usize, obj: usize)
    requires
        addr != 0,
        !m.freed.contains_key(obj),
        m.mem.contains_key(addr),
        m.mem[addr] == 0,
        m.freed.dom().finite(),
        m.freed.len() + 1 <= FREED_CAP,
    ensures
        spec_delref(m, addr, obj).ret == 0,
        spec_delref(m, addr, obj).intercepted,
        spec_delref(m, addr, obj).model.mem == m.mem,
        spec_delref(m, addr, obj).model.freed == m.freed.insert(obj, 0),
{
    let f1 = m.freed.insert(obj, 0);
    assert(f1.dom() =~= m.freed.dom().insert(obj));
    assert(f1.len() == m.freed.len() + 1);
}

/// Double-free detection: a decrement taking a counter from 1 to 0
/// registers the object, and a second decrement of the same pair is then
/// refused with the sentinel maximum instead of wrapping, and counted.
/// Needs the registry to stay below its cap, else the first registration
/// may be lost to the wholesale clearing.
pub proof fn lemma_double_free_detected(m: RcModel, addr: usize, obj: usize)
    requires
        addr != 0,
        obj != 0,
        !m.freed.contains_key(obj),
        m.mem.contains_key(addr),
        m.mem[addr] == 1,
        m.freed.dom().finite(),
        m.freed.len() + 1 <= FREED_CAP,
    ensures
        spec_delref(m, addr, obj).ret == 0,
        spec_delref(m, addr, obj).model.freed.contains_key(obj),
        spec_delref(spec_delref(m, addr, obj).model, addr, obj).ret == u32::MAX,
        spec_delref(spec_delref(m, addr, obj).model, addr, obj).intercepted,
    {
    let f1 = m.freed.insert(obj, 1);
    assert(f1.dom() =~= m.freed.dom().insert(obj));
    assert(f1.len() == m.freed.len() + 1);
}

/// Use-after-free detection: an increment on a counter address registered
/// as freed returns 0 and leaves the model — in particular the counter's
/// word — untouched; the refusal is counted as an interception.
pub proof fn lemma_use_after_free_refused(m: RcModel, addr: usize)
    requires
        addr != 0,
        m.freed.contains_key(addr),
    ensures
        spec_addref(m, addr).ret == 0,
        spec_addref(m, addr).intercepted,
        spec_addref(m, addr).model == m,
{
}

/// Overflow guard: an increment on a counter at or above the sane cap
/// returns the current value unchanged, mutates nothing, and records one
/// interception.
pub proof fn lemma_overflow_refused(m: RcModel, addr: usize)
    requires
        addr != 0,
        !m.freed.contains_key(addr),
        m.mem.contains_key(addr),
        m.mem[addr] >= RC_MAX_SANE,
    ensures
        spec_addref(m, addr).ret == m.mem[addr],
        spec_addref(m, addr).intercepted,
        spec_addref(m, addr).model == m,
{
}

} // verus!
