//! Tiered slab allocator, unbounded variant: one free-slot stack per size
//! class, growing without a cap, with a modeled system allocator behind it.
//!
//! Addresses are opaque integers. The modeled system allocator hands out
//! fresh, pairwise disjoint blocks from a bump counter; a ghost map records
//! the backing block size of every address ever minted, and a ghost set
//! records which addresses are currently issued to callers. All contracts
//! and laws are stated over `AllocModel`, the mathematical view of the pool.

use vstd::prelude::*;
use crate::stats::bumped;

verus! {

/// Number of slots `prefill_all` pushes onto each tier.
pub const SLOTS_PER_TIER: usize = 2048;

/// Bytes `prefill_all` draws from the modeled system allocator:
/// `SLOTS_PER_TIER` blocks of each tier size (their sum is 4080).
pub const PREFILL_BYTES: usize = 2048 * 4080;

/// The ascending object sizes of the eight tiers.
pub open spec fn tier_sizes() -> Seq<usize> {
    seq![16usize, 32usize, 64usize, 128usize, 256usize, 512usize, 1024usize, 2048usize]
}

/// The smallest tier whose object size holds `size`, or 8 when `size`
/// exceeds the largest tier and must go to the system allocator.
pub open spec fn spec_tier_index(size: usize) -> int {
    if size <= 16 {
        0
    } else if size <= 32 {
        1
    } else if size <= 64 {
        2
    } else if size <= 128 {
        3
    } else if size <= 256 {
        4
    } else if size <= 512 {
        5
    } else if size <= 1024 {
        6
    } else if size <= 2048 {
        7
    } else {
        8
    }
}

/// Mathematical view of one tier: its object size, its free-slot stack
/// (top at the end), and its hit and miss counters.
#[verifier::ext_equal]
pub struct TierModel {
    pub obj_size: usize,
    pub free: Seq<usize>,
    pub hits: u64,
    pub misses: u64,
}

/// Mathematical view of the whole pool.
///
/// `next` is the first address the modeled system allocator has not handed
/// out yet; `blocks` maps every address ever minted to its block size;
/// `live` holds the addresses currently issued to callers.
#[verifier::ext_equal]
pub struct AllocModel {
    pub tiers: Seq<TierModel>,
    pub next: usize,
    pub blocks: Map<usize, usize>,
    pub live: Set<usize>,
    pub total_allocs: u64,
    pub pool_hits: u64,
    pub sys_allocs: u64,
}

/// `p` is a well-formed free slot of a tier with object size `sz`:
/// it was minted with exactly that block size and is not issued.
pub open spec fn slot_ok(m: AllocModel, p: usize, sz: usize) -> bool {
    &&& m.blocks.contains_key(p)
    &&& m.blocks[p] == sz
    &&& !m.live.contains(p)
}

/// Every slot on tier `i`'s free stack is well formed.
pub open spec fn tier_slots_ok(m: AllocModel, i: int) -> bool {
    forall|j: int|
        0 <= j < m.tiers[i].free.len() ==> slot_ok(
            m,
            #[trigger] m.tiers[i].free[j],
            m.tiers[i].obj_size,
        )
}

/// The pool invariant: eight tiers with the fixed tier sizes; every minted
/// block is a nonzero address lying below the bump cursor; free slots are
/// well formed and duplicate-free; issued addresses were minted.
pub open spec fn wf(m: AllocModel) -> bool {
    &&& m.tiers.len() == 8
    &&& forall|i: int| 0 <= i < 8 ==> (#[trigger] m.tiers[i]).obj_size == tier_sizes()[i]
    &&& m.next >= 1
    &&& forall|a: usize| #[trigger] m.blocks.contains_key(a)
        ==> 1 <= a && m.blocks[a] >= 1 && a + m.blocks[a] <= m.next
    &&& forall|i: int| 0 <= i < 8 ==> #[trigger] tier_slots_ok(m, i)
    &&& forall|i: int| 0 <= i < 8 ==> (#[trigger] m.tiers[i]).free.no_duplicates()
    &&& forall|a: usize| #[trigger] m.live.contains(a) ==> m.blocks.contains_key(a)
}

/// One grant from the modeled system allocator: the next `size` addresses,
/// or the null address 0 when the address space is exhausted.
pub open spec fn mint(m: AllocModel, size: usize) -> (AllocModel, usize) {
    if m.next + size <= usize::MAX {
        (
            AllocModel {
                next: (m.next + size) as usize,
                blocks: m.blocks.insert(m.next, size),
                ..m
            },
            m.next,
        )
    } else {
        (m, 0usize)
    }
}

/// The transition of `allocate`: pop the selected tier's stack on a hit;
/// mint a block of exactly the tier's object size on a miss; mint a block
/// of exactly the requested size when no tier fits.
pub open spec fn spec_alloc(m: AllocModel, size: usize) -> (AllocModel, usize) {
    let ti = spec_tier_index(size);
    let m0 = AllocModel { total_allocs: bumped(m.total_allocs), ..m };
    if ti < 8 {
        let t = m0.tiers[ti];
        if t.free.len() > 0 {
            let r = t.free.last();
            let t2 = TierModel { free: t.free.drop_last(), hits: bumped(t.hits), ..t };
            (
                AllocModel {
                    tiers: m0.tiers.update(ti, t2),
                    pool_hits: bumped(m0.pool_hits),
                    live: m0.live.insert(r),
                    ..m0
                },
                r,
            )
        } else {
            let t2 = TierModel { misses: bumped(t.misses), ..t };
            let m1 = AllocModel { tiers: m0.tiers.update(ti, t2), ..m0 };
            let granted = mint(m1, t.obj_size);
            if granted.1 != 0 {
                (
                    AllocModel {
                        pool_hits: bumped(granted.0.pool_hits),
                        live: granted.0.live.insert(granted.1),
                        ..granted.0
                    },
                    granted.1,
                )
            } else {
                // A failed grant falls through to the system allocator,
                // which is exhausted too; the attempt is still counted.
                (AllocModel { sys_allocs: bumped(granted.0.sys_allocs), ..granted.0 }, 0usize)
            }
        }
    } else {
        let m1 = AllocModel { sys_allocs: bumped(m0.sys_allocs), ..m0 };
        let granted = mint(m1, size);
        if granted.1 != 0 {
            (AllocModel { live: granted.0.live.insert(granted.1), ..granted.0 }, granted.1)
        } else {
            granted
        }
    }
}

/// The transition of `dealloc`: push the address back onto its tier's
/// stack, or hand an oversize block back to the system allocator; either
/// way the address stops being issued. The null address is a no-op.
pub open spec fn spec_dealloc(m: AllocModel, addr: usize, size: usize) -> AllocModel {
    if addr == 0 {
        m
    } else {
        let ti = spec_tier_index(size);
        if ti < 8 {
            let t = m.tiers[ti];
            let t2 = TierModel { free: t.free.push(addr), ..t };
            AllocModel { tiers: m.tiers.update(ti, t2), live: m.live.remove(addr), ..m }
        } else {
            AllocModel { live: m.live.remove(addr), ..m }
        }
    }
}

/// What a caller must guarantee before `dealloc(addr, size)`: the address
/// is currently issued and its block size matches the tier that `size`
/// selects (or `size` itself for an oversize block).
pub open spec fn dealloc_ok(m: AllocModel, addr: usize, size: usize) -> bool {
    addr != 0 ==> {
        &&& m.live.contains(addr)
        &&& m.blocks.contains_key(addr)
        &&& if spec_tier_index(size) < 8 {
            m.blocks[addr] == tier_sizes()[spec_tier_index(size)]
        } else {
            m.blocks[addr] == size
        }
    }
}

/// `k` consecutive `allocate` calls of the same size, with the addresses they
/// returned in order.
pub open spec fn alloc_n(m: AllocModel, size: usize, k: nat) -> (AllocModel, Seq<usize>)
    decreases k,
{
    if k == 0 {
        (m, Seq::empty())
    } else {
        let prev = alloc_n(m, size, (k - 1) as nat);
        let step = spec_alloc(prev.0, size);
        (step.0, prev.1.push(step.1))
    }
}

/// `allocate` preserves the pool invariant; a non-null result is a freshly
/// issued address whose backing block covers the request and is exactly the
/// selected tier's object size (or exactly the request when no tier fits).
pub proof fn lemma_alloc_wf(m: AllocModel, size: usize)
    requires
        wf(m),
    ensures
        wf(spec_alloc(m, size).0),
        spec_alloc(m, size).0.next >= m.next,
        forall|a: usize| #[trigger] m.blocks.contains_key(a)
            ==> spec_alloc(m, size).0.blocks.contains_key(a) && spec_alloc(m, size).0.blocks[a]
                == m.blocks[a],
        spec_alloc(m, size).1 != 0 ==> {
            let m2 = spec_alloc(m, size).0;
            let r = spec_alloc(m, size).1;
            &&& !m.live.contains(r)
            &&& m2.live =~= m.live.insert(r)
            &&& m2.blocks.contains_key(r)
            &&& m2.blocks[r] >= size
            &&& (spec_tier_index(size) < 8 ==> m2.blocks[r] == tier_sizes()[spec_tier_index(
                size,
            )])
            &&& (spec_tier_index(size) == 8 ==> m2.blocks[r] == size)
        },
        spec_alloc(m, size).1 == 0 ==> spec_alloc(m, size).0.live == m.live,
{
    let ti = spec_tier_index(size);
    let m2 = spec_alloc(m, size).0;
    let r = spec_alloc(m, size).1;
    if ti < 8 {
        let t = m.tiers[ti];
        assert(tier_slots_ok(m, ti));
        if t.free.len() > 0 {
            let top = t.free.last();
            assert(slot_ok(m, t.free[t.free.len() - 1], t.obj_size));
            assert(m2.tiers[ti].free =~= t.free.drop_last());
            assert forall|i: int| 0 <= i < 8 implies #[trigger] tier_slots_ok(m2, i) by {
                assert(tier_slots_ok(m, i));
                assert forall|j: int| 0 <= j < m2.tiers[i].free.len() implies slot_ok(
                    m2,
                    #[trigger] m2.tiers[i].free[j],
                    m2.tiers[i].obj_size,
                ) by {
                    if i == ti {
                        assert(m2.tiers[i].free[j] == m.tiers[i].free[j]);
                        assert(slot_ok(m, m.tiers[i].free[j], m.tiers[i].obj_size));
                        assert(m.tiers[i].free.no_duplicates());
                        assert(m.tiers[i].free[j] != top);
                    } else {
                        assert(slot_ok(m, m.tiers[i].free[j], m.tiers[i].obj_size));
                        assert(m.tiers[i].free[j] != top) by {
                            assert(m.blocks[m.tiers[i].free[j]] == m.tiers[i].obj_size);
                            assert(m.blocks[top] == m.tiers[ti].obj_size);
                            assert(m.tiers[i].obj_size == tier_sizes()[i]);
                            assert(m.tiers[ti].obj_size == tier_sizes()[ti]);
                        }
                    }
                }
            }
            assert(forall|i: int|
                0 <= i < 8 ==> (#[trigger] m2.tiers[i]).free.no_duplicates()) by {
                assert(t.free.drop_last() =~= t.free.subrange(0, t.free.len() - 1));
            }
            assert(size <= t.obj_size);
        } else {
            let m1 = AllocModel {
                tiers: m.tiers.update(
                    ti,
                    TierModel { misses: bumped(t.misses), ..t },
                ),
                total_allocs: bumped(m.total_allocs),
                ..m
            };
            lemma_wf_counters(m, m1);
            lemma_mint_wf(m1, t.obj_size, m);
            assert(size <= t.obj_size);
            let granted = mint(m1, t.obj_size);
            if granted.1 != 0 {
                let with_live = AllocModel { live: granted.0.live.insert(granted.1), ..granted.0 };
                lemma_wf_counters(with_live, m2);
            } else {
                lemma_wf_counters(granted.0, m2);
            }
        }
    } else {
        let m1 = AllocModel {
            sys_allocs: bumped(m.sys_allocs),
            total_allocs: bumped(m.total_allocs),
            ..m
        };
        lemma_wf_counters(m, m1);
        lemma_mint_wf(m1, size, m);
        let granted = mint(m1, size);
        if granted.1 != 0 {
            let with_live = AllocModel { live: granted.0.live.insert(granted.1), ..granted.0 };
            lemma_wf_counters(with_live, m2);
        }
    }
}

/// The invariant only reads each tier's free stack and object size; it
/// survives any change to the counters alone.
proof fn lemma_wf_counters(m: AllocModel, m1: AllocModel)
    requires
        wf(m),
        m1.tiers.len() == 8,
        forall|i: int| 0 <= i < 8 ==> (#[trigger] m1.tiers[i]).free == m.tiers[i].free,
        forall|i: int| 0 <= i < 8 ==> (#[trigger] m1.tiers[i]).obj_size == m.tiers[i].obj_size,
        m1.next == m.next,
        m1.blocks == m.blocks,
        m1.live == m.live,
    ensures
        wf(m1),
{
    assert forall|i: int| 0 <= i < 8 implies #[trigger] tier_slots_ok(m1, i) by {
        assert(tier_slots_ok(m, i));
        assert forall|j: int| 0 <= j < m1.tiers[i].free.len() implies slot_ok(
            m1,
            #[trigger] m1.tiers[i].free[j],
            m1.tiers[i].obj_size,
        ) by {
            assert(slot_ok(m, m.tiers[i].free[j], m.tiers[i].obj_size));
        }
    }
}

/// Minting preserves the invariant: the granted address is fresh (not
/// minted before, so on no free stack and not issued), and inserting it
/// into `live` keeps the invariant too.
proof fn lemma_mint_wf(m1: AllocModel, size: usize, orig: AllocModel)
    requires
        wf(m1),
        size >= 1,
        m1.live == orig.live,
        m1.blocks == orig.blocks,
    ensures
        wf(mint(m1, size).0),
        mint(m1, size).0.next >= m1.next,
        mint(m1, size).1 != 0 ==> {
            let g = mint(m1, size).0;
            let a = mint(m1, size).1;
            &&& !m1.blocks.contains_key(a)
            &&& !m1.live.contains(a)
            &&& g.blocks.contains_key(a)
            &&& g.blocks[a] == size
            &&& g.blocks =~= m1.blocks.insert(a, size)
            &&& wf(AllocModel { live: g.live.insert(a), ..g })
            &&& (forall|i: int| 0 <= i < 8 ==> #[trigger] g.tiers[i] == m1.tiers[i])
        },
        mint(m1, size).1 == 0 ==> mint(m1, size).0 == m1,
{
    if m1.next + size <= usize::MAX {
        let a = mint(m1, size).1;
        let g = mint(m1, size).0;
        assert(a == m1.next);
        assert(!m1.blocks.contains_key(a));
        assert(!m1.live.contains(a));
        assert forall|i: int| 0 <= i < 8 implies #[trigger] tier_slots_ok(g, i) by {
            assert(tier_slots_ok(m1, i));
            assert forall|j: int| 0 <= j < g.tiers[i].free.len() implies slot_ok(
                g,
                #[trigger] g.tiers[i].free[j],
                g.tiers[i].obj_size,
            ) by {
                assert(slot_ok(m1, m1.tiers[i].free[j], m1.tiers[i].obj_size));
                assert(m1.tiers[i].free[j] != a);
            }
        }
        let gl = AllocModel { live: g.live.insert(a), ..g };
        assert forall|i: int| 0 <= i < 8 implies #[trigger] tier_slots_ok(gl, i) by {
            assert(tier_slots_ok(m1, i));
            assert forall|j: int| 0 <= j < gl.tiers[i].free.len() implies slot_ok(
                gl,
                #[trigger] gl.tiers[i].free[j],
                gl.tiers[i].obj_size,
            ) by {
                assert(slot_ok(m1, m1.tiers[i].free[j], m1.tiers[i].obj_size));
                assert(m1.tiers[i].free[j] != a);
            }
        }
    }
}

/// `dealloc` preserves the pool invariant when its precondition holds; the
/// selected tier's stack gains exactly the returned address on top, and the
/// address stops being issued.
pub proof fn lemma_dealloc_wf(m: AllocModel, addr: usize, size: usize)
    requires
        wf(m),
        dealloc_ok(m, addr, size),
    ensures
        wf(spec_dealloc(m, addr, size)),
        spec_dealloc(m, addr, size).blocks == m.blocks,
        spec_dealloc(m, addr, size).next == m.next,
        addr != 0 ==> spec_dealloc(m, addr, size).live =~= m.live.remove(addr),
        addr != 0 && spec_tier_index(size) < 8 ==> spec_dealloc(m, addr, size).tiers[
            spec_tier_index(size)
        ].free =~= m.tiers[spec_tier_index(size)].free.push(addr),
{
    if addr != 0 {
        let ti = spec_tier_index(size);
        let m2 = spec_dealloc(m, addr, size);
        if ti < 8 {
            let t = m.tiers[ti];
            assert(tier_slots_ok(m, ti));
            assert forall|i: int| 0 <= i < 8 implies #[trigger] tier_slots_ok(m2, i) by {
                assert(tier_slots_ok(m, i));
                assert forall|j: int| 0 <= j < m2.tiers[i].free.len() implies slot_ok(
                    m2,
                    #[trigger] m2.tiers[i].free[j],
                    m2.tiers[i].obj_size,
                ) by {
                    if i == ti && j == m2.tiers[i].free.len() - 1 {
                        assert(m2.tiers[i].free[j] == addr);
                    } else {
                        assert(slot_ok(m, m.tiers[i].free[j], m.tiers[i].obj_size));
                    }
                }
            }
            assert forall|i: int| 0 <= i < 8 implies (#[trigger] m2.tiers[i]).free.no_duplicates()
                by {
                if i == ti {
                    assert forall|j: int| 0 <= j < t.free.len() implies #[trigger] t.free[j]
                        != addr by {
                        assert(slot_ok(m, t.free[j], t.obj_size));
                        assert(m.live.contains(addr));
                    }
                    let f2 = m2.tiers[ti].free;
                    assert(f2 =~= t.free.push(addr));
                    assert forall|j1: int, j2: int|
                        0 <= j1 < f2.len() && 0 <= j2 < f2.len() && j1 != j2 implies f2[j1]
                        != f2[j2] by {
                        if j1 == f2.len() - 1 {
                            assert(f2[j1] == addr && f2[j2] == t.free[j2]);
                        } else if j2 == f2.len() - 1 {
                            assert(f2[j2] == addr && f2[j1] == t.free[j1]);
                        } else {
                            assert(f2[j1] == t.free[j1] && f2[j2] == t.free[j2]);
                            assert(t.free.no_duplicates());
                        }
                    }
                    assert(f2.no_duplicates());
                } else {
                    assert(m2.tiers[i].free == m.tiers[i].free);
                }
            }
        } else {
            assert forall|i: int| 0 <= i < 8 implies #[trigger] tier_slots_ok(m2, i) by {
                assert(tier_slots_ok(m, i));
                assert forall|j: int| 0 <= j < m2.tiers[i].free.len() implies slot_ok(
                    m2,
                    #[trigger] m2.tiers[i].free[j],
                    m2.tiers[i].obj_size,
                ) by {
                    assert(slot_ok(m, m.tiers[i].free[j], m.tiers[i].obj_size));
                }
            }
        }
    }
}

/// Pushing onto a tier's stack a minted, un-issued address of the tier's
/// exact object size that is not already on the stack keeps the invariant.
proof fn lemma_push_slot(m: AllocModel, ti: int, a: usize)
    requires
        wf(m),
        0 <= ti < 8,
        slot_ok(m, a, m.tiers[ti].obj_size),
        forall|j: int| 0 <= j < m.tiers[ti].free.len() ==> #[trigger] m.tiers[ti].free[j] != a,
    ensures
        wf(
            AllocModel {
                tiers: m.tiers.update(
                    ti,
                    TierModel { free: m.tiers[ti].free.push(a), ..m.tiers[ti] },
                ),
                ..m
            },
        ),
{
    let t = m.tiers[ti];
    let m2 = AllocModel {
        tiers: m.tiers.update(ti, TierModel { free: t.free.push(a), ..t }),
        ..m
    };
    assert forall|i: int| 0 <= i < 8 implies #[trigger] tier_slots_ok(m2, i) by {
        assert(tier_slots_ok(m, i));
        assert forall|j: int| 0 <= j < m2.tiers[i].free.len() implies slot_ok(
            m2,
            #[trigger] m2.tiers[i].free[j],
            m2.tiers[i].obj_size,
        ) by {
            if i == ti && j == m2.tiers[i].free.len() - 1 {
                assert(m2.tiers[i].free[j] == a);
            } else {
                assert(slot_ok(m, m.tiers[i].free[j], m.tiers[i].obj_size));
            }
        }
    }
    assert forall|i: int| 0 <= i < 8 implies (#[trigger] m2.tiers[i]).free.no_duplicates() by {
        if i == ti {
            let f2 = m2.tiers[ti].free;
            assert(f2 =~= t.free.push(a));
            assert forall|j1: int, j2: int|
                0 <= j1 < f2.len() && 0 <= j2 < f2.len() && j1 != j2 implies f2[j1] != f2[j2] by {
                if j1 == f2.len() - 1 {
                    assert(f2[j1] == a && f2[j2] == t.free[j2]);
                } else if j2 == f2.len() - 1 {
                    assert(f2[j2] == a && f2[j1] == t.free[j1]);
                } else {
                    assert(f2[j1] == t.free[j1] && f2[j2] == t.free[j2]);
                    assert(t.free.no_duplicates());
                }
            }
            assert(f2.no_duplicates());
        } else {
            assert(m2.tiers[i].free == m.tiers[i].free);
        }
    }
}

/// One tier's free-slot stack with its hit and miss counters.
pub struct TierStack {
    obj_size: usize,
    free: Vec<usize>,
    hits: u64,
    misses: u64,
}

impl View for TierStack {
    type V = TierModel;

    closed spec fn view(&self) -> TierModel {
        TierModel { obj_size: self.obj_size, free: self.free@, hits: self.hits, misses: self.misses }
    }
}

impl TierStack {
    /// An empty tier for objects of `obj_size` bytes.
    pub fn new(obj_size: usize) -> (t: TierStack)
        ensures
            t@ == (TierModel { obj_size, free: Seq::<usize>::empty(), hits: 0u64, misses: 0u64 }),
    {
        let t = TierStack { obj_size, free: Vec::new(), hits: 0, misses: 0 };
        proof {
            assert(t@.free =~= Seq::<usize>::empty());
        }
        t
    }

    /// Push a free slot; the stack grows without bound in this variant.
    pub fn push(&mut self, addr: usize)
        ensures
            final(self)@ == (TierModel { free: old(self)@.free.push(addr), ..old(self)@ }),
    {
        self.free.push(addr);
    }

    /// Pop the most recently pushed slot, counting a hit; on an empty
    /// stack count a miss and return nothing.
    pub fn pop(&mut self) -> (r: Option<usize>)
        ensures
            old(self)@.free.len() > 0 ==> r == Some(old(self)@.free.last()) && final(self)@ == (
            TierModel {
                free: old(self)@.free.drop_last(),
                hits: bumped(old(self)@.hits),
                ..old(self)@
            }),
            old(self)@.free.len() == 0 ==> r == None::<usize> && final(self)@ == (TierModel {
                misses: bumped(old(self)@.misses),
                ..old(self)@
            }),
    {
        let popped = self.free.pop();
        match popped {
            Some(a) => {
                crate::stats::bump_counter(&mut self.hits);
                Some(a)
            }
            None => {
                crate::stats::bump_counter(&mut self.misses);
                None
            }
        }
    }

    /// Return a slot to the pool; this unbounded variant always recycles.
    pub fn free_to_pool(&mut self, addr: usize) -> (ok: bool)
        ensures
            ok,
            final(self)@ == (TierModel { free: old(self)@.free.push(addr), ..old(self)@ }),
    {
        self.push(addr);
        true
    }
}

/// The tiered pool: eight tiers, the modeled system allocator's bump
/// cursor, ghost bookkeeping of minted blocks and issued addresses, and
/// the pool-wide counters.
pub struct SafeAllocator {
    tiers: Vec<TierStack>,
    next_addr: usize,
    blocks: Ghost<Map<usize, usize>>,
    live: Ghost<Set<usize>>,
    total_allocs: u64,
    pool_hits: u64,
    sys_allocs: u64,
}

impl View for SafeAllocator {
    type V = AllocModel;

    closed spec fn view(&self) -> AllocModel {
        AllocModel {
            tiers: self.tiers@.map(|i: int, t: TierStack| t@),
            next: self.next_addr,
            blocks: self.blocks@,
            live: self.live@,
            total_allocs: self.total_allocs,
            pool_hits: self.pool_hits,
            sys_allocs: self.sys_allocs,
        }
    }
}

impl SafeAllocator {
    /// A fresh pool: all tiers empty, nothing minted, all counters zero.
    pub fn new() -> (a: SafeAllocator)
        ensures
            wf(a@),
            a@.next == 1,
            a@.blocks == Map::<usize, usize>::empty(),
            a@.live == Set::<usize>::empty(),
            a@.total_allocs == 0 && a@.pool_hits == 0 && a@.sys_allocs == 0,
            forall|i: int|
                0 <= i < 8 ==> (#[trigger] a@.tiers[i]).free.len() == 0 && a@.tiers[i].hits == 0
                    && a@.tiers[i].misses == 0,
    {
        let mut tiers: Vec<TierStack> = Vec::new();
        tiers.push(TierStack::new(16));
        tiers.push(TierStack::new(32));
        tiers.push(TierStack::new(64));
        tiers.push(TierStack::new(128));
        tiers.push(TierStack::new(256));
        tiers.push(TierStack::new(512));
        tiers.push(TierStack::new(1024));
        tiers.push(TierStack::new(2048));
        let a = SafeAllocator {
            tiers,
            next_addr: 1,
            blocks: Ghost(Map::empty()),
            live: Ghost(Set::empty()),
            total_allocs: 0,
            pool_hits: 0,
            sys_allocs: 0,
        };
        proof {
            assert(a@.tiers.len() == 8);
            assert forall|i: int| 0 <= i < 8 implies (#[trigger] a@.tiers[i]).obj_size
                == tier_sizes()[i] && a@.tiers[i].free.len() == 0 && a@.tiers[i].hits == 0
                && a@.tiers[i].misses == 0 by {
                assert(a@.tiers[i] == a.tiers@[i]@);
            }
            assert forall|i: int| 0 <= i < 8 implies #[trigger] tier_slots_ok(a@, i) by {
                assert(a@.tiers[i].free.len() == 0);
            }
        }
        a
    }

    /// The smallest tier that holds `size`, or none above the largest tier.
    pub fn tier_index(size: usize) -> (r: Option<usize>)
        ensures
            r == (if spec_tier_index(size) < 8 {
                Some(spec_tier_index(size) as usize)
            } else {
                None::<usize>
            }),
    {
        if size <= 16 {
            Some(0)
        } else if size <= 32 {
            Some(1)
        } else if size <= 64 {
            Some(2)
        } else if size <= 128 {
            Some(3)
        } else if size <= 256 {
            Some(4)
        } else if size <= 512 {
            Some(5)
        } else if size <= 1024 {
            Some(6)
        } else if size <= 2048 {
            Some(7)
        } else {
            None
        }
    }

    /// One grant from the modeled system allocator.
    fn fresh_block(&mut self, size: usize) -> (r: usize)
        requires
            size >= 1,
        ensures
            final(self)@ == mint(old(self)@, size).0,
            r == mint(old(self)@, size).1,
    {
        let ghost m0 = self@;
        if size <= usize::MAX - self.next_addr {
            let a = self.next_addr;
            self.next_addr = self.next_addr + size;
            proof {
                self.blocks@ = self.blocks@.insert(a, size);
            }
            assert(self@ =~= mint(m0, size).0);
            a
        } else {
            assert(self@ =~= mint(m0, size).0);
            0
        }
    }

    /// Service a request: pop the selected tier's stack, fall back to a
    /// fresh block of the tier's exact object size on a miss, or mint a
    /// block of exactly `size` above the largest tier. Returns the null
    /// address 0 only when the modeled system allocator is exhausted.
    pub fn allocate(&mut self, size: usize) -> (r: usize)
        requires
            wf(old(self)@),
        ensures
            wf(final(self)@),
            final(self)@ == spec_alloc(old(self)@, size).0,
            r == spec_alloc(old(self)@, size).1,
            r != 0 ==> !old(self)@.live.contains(r) && final(self)@.live == old(
                self,
            )@.live.insert(r) && final(self)@.blocks.contains_key(r) && final(self)@.blocks[r]
                >= size,
            r != 0 && spec_tier_index(size) < 8 ==> final(self)@.blocks[r] == tier_sizes()[
                spec_tier_index(size)
            ],
            r != 0 && spec_tier_index(size) == 8 ==> final(self)@.blocks[r] == size,
            r == 0 ==> final(self)@.live == old(self)@.live,
    {
        let ghost m = self@;
        proof {
            lemma_alloc_wf(m, size);
        }
        crate::stats::bump_counter(&mut self.total_allocs);
        let ghost m0 = AllocModel { total_allocs: bumped(m.total_allocs), ..m };
        assert(self@ =~= m0);
        match Self::tier_index(size) {
            Some(ti) => {
                let ghost sti = spec_tier_index(size);
                let tref = &mut self.tiers[ti];
                let popped = tref.pop();
                proof {
                    assert(self@.tiers =~= m0.tiers.update(sti, self.tiers@[sti]@));
                }
                match popped {
                    Some(a) => {
                        crate::stats::bump_counter(&mut self.pool_hits);
                        proof {
                            self.live@ = self.live@.insert(a);
                            assert(self@ =~= spec_alloc(m, size).0);
                        }
                        a
                    }
                    None => {
                        let obj = self.tiers[ti].obj_size;
                        proof {
                            assert(obj == tier_sizes()[sti]);
                            assert(obj >= 1);
                        }
                        let a = self.fresh_block(obj);
                        if a != 0 {
                            crate::stats::bump_counter(&mut self.pool_hits);
                            proof {
                                self.live@ = self.live@.insert(a);
                                assert(self@ =~= spec_alloc(m, size).0);
                            }
                        } else {
                            crate::stats::bump_counter(&mut self.sys_allocs);
                            assert(self@ =~= spec_alloc(m, size).0);
                        }
                        a
                    }
                }
            }
            None => {
                crate::stats::bump_counter(&mut self.sys_allocs);
                let ghost m1 = self@;
                assert(m1 =~= (AllocModel { sys_allocs: bumped(m0.sys_allocs), ..m0 }));
                proof {
                    assert(size >= 1);
                }
                let a = self.fresh_block(size);
                if a != 0 {
                    proof {
                        self.live@ = self.live@.insert(a);
                        assert(self@ =~= spec_alloc(m, size).0);
                    }
                } else {
                    assert(self@ =~= spec_alloc(m, size).0);
                }
                a
            }
        }
    }

    /// Return a block: push it back onto its tier's stack, or hand an
    /// oversize block back to the system allocator. The null address is
    /// accepted and ignored.
    pub fn dealloc(&mut self, addr: usize, size: usize)
        requires
            wf(old(self)@),
            dealloc_ok(old(self)@, addr, size),
        ensures
            wf(final(self)@),
            final(self)@ == spec_dealloc(old(self)@, addr, size),
    {
        let ghost m = self@;
        proof {
            lemma_dealloc_wf(m, addr, size);
        }
        if addr == 0 {
            return ;
        }
        match Self::tier_index(size) {
            Some(ti) => {
                let ghost sti = spec_tier_index(size);
                let tref = &mut self.tiers[ti];
                let _ = tref.free_to_pool(addr);
                proof {
                    assert(self@.tiers =~= m.tiers.update(sti, self.tiers@[sti]@));
                    self.live@ = self.live@.remove(addr);
                    assert(self@ =~= spec_dealloc(m, addr, size));
                }
            }
            None => {
                proof {
                    self.live@ = self.live@.remove(addr);
                    assert(self@ =~= spec_dealloc(m, addr, size));
                }
            }
        }
    }

    /// Service a request whose memory the caller sees zeroed; the pool
    /// bookkeeping is exactly that of `alloc`.
    pub fn alloc_zeroed(&mut self, size: usize) -> (r: usize)
        requires
            wf(old(self)@),
        ensures
            wf(final(self)@),
            final(self)@ == spec_alloc(old(self)@, size).0,
            r == spec_alloc(old(self)@, size).1,
    {
        self.allocate(size)
    }

    /// Move a block to a new size: always allocate fresh at the new size,
    /// let the caller copy the lesser of the two sizes, and free the old
    /// block; on exhaustion the old block is left untouched.
    pub fn realloc(&mut self, addr: usize, old_size: usize, new_size: usize) -> (r: usize)
        requires
            wf(old(self)@),
            addr != 0,
            dealloc_ok(old(self)@, addr, old_size),
        ensures
            wf(final(self)@),
            r == spec_alloc(old(self)@, new_size).1,
            r != 0 ==> final(self)@ == spec_dealloc(
                spec_alloc(old(self)@, new_size).0,
                addr,
                old_size,
            ),
            r == 0 ==> final(self)@ == spec_alloc(old(self)@, new_size).0,
    {
        let ghost m = self@;
        proof {
            lemma_alloc_wf(m, new_size);
        }
        let new_ptr = self.allocate(new_size);
        if new_ptr != 0 {
            proof {
                assert(dealloc_ok(self@, addr, old_size));
            }
            self.dealloc(addr, old_size);
        }
        new_ptr
    }

    /// The pool-wide counters: total requests, pool-serviced requests, and
    /// direct system allocations.
    pub fn stats(&self) -> (t: (u64, u64, u64))
        ensures
            t.0 == self@.total_allocs,
            t.1 == self@.pool_hits,
            t.2 == self@.sys_allocs,
    {
        (self.total_allocs, self.pool_hits, self.sys_allocs)
    }

    /// One tier's counters and free-stack depth: hits, misses, depth.
    pub fn tier_stats(&self, ti: usize) -> (t: (u64, u64, usize))
        requires
            wf(self@),
            ti < 8,
        ensures
            t.0 == self@.tiers[ti as int].hits,
            t.1 == self@.tiers[ti as int].misses,
            t.2 == self@.tiers[ti as int].free.len(),
    {
        let tier = &self.tiers[ti];
        proof {
            assert(self@.tiers[ti as int] == self.tiers@[ti as int]@);
        }
        (tier.hits, tier.misses, tier.free.len())
    }

    /// Pre-warm tier `ti` with `count` fresh slots drawn from the modeled
    /// system allocator, leaving every counter untouched.
    pub fn prefill(&mut self, ti: usize, count: usize)
        requires
            wf(old(self)@),
            ti < 8,
            old(self)@.next + count * tier_sizes()[ti as int] <= usize::MAX,
        ensures
            wf(final(self)@),
            final(self)@.tiers[ti as int].free.len() == old(self)@.tiers[ti as int].free.len()
                + count,
            final(self)@.tiers[ti as int].obj_size == old(self)@.tiers[ti as int].obj_size,
            final(self)@.tiers[ti as int].hits == old(self)@.tiers[ti as int].hits,
            final(self)@.tiers[ti as int].misses == old(self)@.tiers[ti as int].misses,
            forall|i: int|
                0 <= i < 8 && i != ti ==> final(self)@.tiers[i] == old(self)@.tiers[i],
            final(self)@.live == old(self)@.live,
            final(self)@.next == old(self)@.next + count * tier_sizes()[ti as int],
            final(self)@.total_allocs == old(self)@.total_allocs,
            final(self)@.pool_hits == old(self)@.pool_hits,
            final(self)@.sys_allocs == old(self)@.sys_allocs,
            forall|a: usize| #[trigger]
                old(self)@.blocks.contains_key(a) ==> final(self)@.blocks.contains_key(a)
                    && final(self)@.blocks[a] == old(self)@.blocks[a],
    {
        let ghost m = self@;
        let obj = self.tiers[ti].obj_size;
        proof {
            assert(m.tiers[ti as int] == self.tiers@[ti as int]@);
            assert(obj == tier_sizes()[ti as int]);
            assert(obj >= 1);
        }
        let mut i: usize = 0;
        while i < count
            invariant
                wf(self@),
                ti < 8,
                i <= count,
                obj == tier_sizes()[ti as int],
                obj >= 1,
                m.next + count * obj <= usize::MAX,
                self@.next == m.next + i * obj,
                self@.tiers[ti as int].free.len() == m.tiers[ti as int].free.len() + i,
                self@.tiers[ti as int].obj_size == m.tiers[ti as int].obj_size,
                self@.tiers[ti as int].hits == m.tiers[ti as int].hits,
                self@.tiers[ti as int].misses == m.tiers[ti as int].misses,
                forall|j: int| 0 <= j < 8 && j != ti ==> self@.tiers[j] == m.tiers[j],
                self@.live == m.live,
                self@.total_allocs == m.total_allocs,
                self@.pool_hits == m.pool_hits,
                self@.sys_allocs == m.sys_allocs,
                forall|a: usize| #[trigger]
                    m.blocks.contains_key(a) ==> self@.blocks.contains_key(a) && self@.blocks[a]
                        == m.blocks[a],
            decreases count - i,
        {
            proof {
                assert((i + 1) * obj == i * obj + obj) by (nonlinear_arith);
                assert((i + 1) * obj <= count * obj) by (nonlinear_arith)
                    requires
                        i + 1 <= count,
                        obj >= 1,
                ;
            }
            let ghost mb = self@;
            proof {
                lemma_mint_wf(mb, obj, mb);
            }
            let a = self.fresh_block(obj);
            proof {
                assert(a != 0);
            }
            let ghost g = self@;
            proof {
                assert(tier_slots_ok(mb, ti as int));
                assert forall|j: int| 0 <= j < g.tiers[ti as int].free.len() implies #[trigger] g.tiers[ti as int].free[j] != a by {
                    assert(slot_ok(mb, mb.tiers[ti as int].free[j], mb.tiers[ti as int].obj_size));
                    assert(!mb.blocks.contains_key(a));
                }
                assert(slot_ok(g, a, g.tiers[ti as int].obj_size));
                lemma_push_slot(g, ti as int, a);
            }
            let tref = &mut self.tiers[ti];
            tref.push(a);
            proof {
                assert(self@.tiers =~= g.tiers.update(
                    ti as int,
                    TierModel {
                        free: g.tiers[ti as int].free.push(a),
                        ..g.tiers[ti as int]
                    },
                ));
                assert(self@ =~= (AllocModel {
                    tiers: g.tiers.update(
                        ti as int,
                        TierModel {
                            free: g.tiers[ti as int].free.push(a),
                            ..g.tiers[ti as int]
                        },
                    ),
                    ..g
                }));
            }
            i = i + 1;
        }
    }

    /// Pre-warm every tier with `SLOTS_PER_TIER` slots.
    pub fn prefill_all(&mut self)
        requires
            wf(old(self)@),
            old(self)@.next + PREFILL_BYTES <= usize::MAX,
        ensures
            wf(final(self)@),
            forall|i: int|
                0 <= i < 8 ==> (#[trigger] final(self)@.tiers[i]).free.len() == old(
                    self,
                )@.tiers[i].free.len() + SLOTS_PER_TIER,
            forall|i: int|
                0 <= i < 8 ==> (#[trigger] final(self)@.tiers[i]).hits == old(self)@.tiers[i].hits
                    && final(self)@.tiers[i].misses == old(self)@.tiers[i].misses,
            final(self)@.live == old(self)@.live,
            final(self)@.total_allocs == old(self)@.total_allocs,
            final(self)@.pool_hits == old(self)@.pool_hits,
            final(self)@.sys_allocs == old(self)@.sys_allocs,
    {
        self.prefill(0, SLOTS_PER_TIER);
        self.prefill(1, SLOTS_PER_TIER);
        self.prefill(2, SLOTS_PER_TIER);
        self.prefill(3, SLOTS_PER_TIER);
        self.prefill(4, SLOTS_PER_TIER);
        self.prefill(5, SLOTS_PER_TIER);
        self.prefill(6, SLOTS_PER_TIER);
        self.prefill(7, SLOTS_PER_TIER);
    }
}

/// Tier correctness: a non-null address returned for a request of `size`
/// is backed by a block at least `size` large and exactly the selected
/// tier's object size — or exactly `size` when the request bypasses the
/// pool because it exceeds the largest tier.
pub proof fn lemma_tier_correctness(m: AllocModel, size: usize)
    requires
        wf(m),
        spec_alloc(m, size).1 != 0,
    ensures
        spec_alloc(m, size).0.blocks.contains_key(spec_alloc(m, size).1),
        size <= spec_alloc(m, size).0.blocks[spec_alloc(m, size).1],
        spec_tier_index(size) < 8 ==> spec_alloc(m, size).0.blocks[spec_alloc(m, size).1]
            == tier_sizes()[spec_tier_index(size)],
        spec_tier_index(size) == 8 ==> spec_alloc(m, size).0.blocks[spec_alloc(m, size).1] == size,
{
    lemma_alloc_wf(m, size);
}

/// No double-issue: with `k` requests of one size against a pool whose
/// selected tier holds at least `k` pre-warmed slots and no intervening
/// free, the pool serves `k` pairwise distinct addresses from that stack,
/// counts `k` hits and no miss — and once the stack is drained, the very
/// next request of that size records a miss.
pub proof fn lemma_no_double_issue(m: AllocModel, size: usize, k: nat)
    requires
        wf(m),
        spec_tier_index(size) < 8,
        k <= m.tiers[spec_tier_index(size)].free.len(),
        m.tiers[spec_tier_index(size)].hits + k <= u64::MAX,
    ensures
        ({
            let ti = spec_tier_index(size);
            let mk = alloc_n(m, size, k).0;
            let rs = alloc_n(m, size, k).1;
            &&& wf(mk)
            &&& rs.len() == k
            &&& forall|j: int|
                0 <= j < k ==> rs[j] == m.tiers[ti].free[m.tiers[ti].free.len() - 1 - j]
            &&& rs.no_duplicates()
            &&& mk.tiers[ti].free =~= m.tiers[ti].free.subrange(
                0,
                m.tiers[ti].free.len() - k,
            )
            &&& mk.tiers[ti].obj_size == m.tiers[ti].obj_size
            &&& mk.tiers[ti].hits == m.tiers[ti].hits + k
            &&& mk.tiers[ti].misses == m.tiers[ti].misses
            &&& mk.next == m.next
            &&& mk.blocks == m.blocks
            &&& (k == m.tiers[ti].free.len() ==> spec_alloc(mk, size).0.tiers[ti].misses
                == bumped(m.tiers[ti].misses))
        }),
    decreases k,
{
    let ti = spec_tier_index(size);
    let f = m.tiers[ti].free;
    if k == 0 {
        assert(alloc_n(m, size, 0).1 =~= Seq::<usize>::empty());
        assert(m.tiers[ti].free =~= f.subrange(0, f.len() as int));
    } else {
        lemma_no_double_issue(m, size, (k - 1) as nat);
        let prev = alloc_n(m, size, (k - 1) as nat);
        let mk1 = prev.0;
        assert(mk1.tiers[ti].free =~= f.subrange(0, f.len() - (k - 1)));
        assert(mk1.tiers[ti].free.len() == f.len() - (k - 1) >= 1);
        lemma_alloc_wf(mk1, size);
        let step = spec_alloc(mk1, size);
        assert(step.1 == mk1.tiers[ti].free.last());
        assert(mk1.tiers[ti].free.last() == f[f.len() - k]);
        assert(step.0.tiers[ti].free =~= mk1.tiers[ti].free.drop_last());
        assert(step.0.tiers[ti].free =~= f.subrange(0, f.len() - k));
        let rs = alloc_n(m, size, k).1;
        assert(rs =~= prev.1.push(step.1));
        assert forall|j: int| 0 <= j < k implies rs[j] == f[f.len() - 1 - j] by {
            if j < k - 1 {
                assert(rs[j] == prev.1[j]);
            } else {
                assert(rs[j] == step.1);
            }
        }
        assert forall|j1: int, j2: int|
            0 <= j1 < rs.len() && 0 <= j2 < rs.len() && j1 != j2 implies rs[j1] != rs[j2] by {
            assert(rs[j1] == f[f.len() - 1 - j1]);
            assert(rs[j2] == f[f.len() - 1 - j2]);
            assert(f.no_duplicates());
        }
        assert(rs.no_duplicates());
    }
}

/// Round trip: freeing the block just served from a tier's stack restores
/// that stack exactly, so its depth is unchanged net — and the next
/// request of the same size is served the very same address again.
pub proof fn lemma_round_trip(m: AllocModel, size: usize)
    requires
        wf(m),
        spec_tier_index(size) < 8,
        m.tiers[spec_tier_index(size)].free.len() > 0,
    ensures
        ({
            let ti = spec_tier_index(size);
            let step = spec_alloc(m, size);
            let m2 = spec_dealloc(step.0, step.1, size);
            &&& step.1 == m.tiers[ti].free.last()
            &&& step.1 != 0
            &&& wf(m2)
            &&& m2.tiers[ti].free =~= m.tiers[ti].free
            &&& spec_alloc(m2, size).1 == step.1
        }),
{
    let ti = spec_tier_index(size);
    let f = m.tiers[ti].free;
    let step = spec_alloc(m, size);
    let r = step.1;
    assert(tier_slots_ok(m, ti));
    assert(slot_ok(m, f[f.len() - 1], m.tiers[ti].obj_size));
    assert(r == f.last());
    assert(r != 0);
    lemma_alloc_wf(m, size);
    assert(dealloc_ok(step.0, r, size));
    lemma_dealloc_wf(step.0, r, size);
    let m2 = spec_dealloc(step.0, r, size);
    assert(m2.tiers[ti].free =~= f.drop_last().push(r));
    assert(m2.tiers[ti].free =~= f);
    assert(m2.tiers[ti].free.len() > 0);
    assert(spec_alloc(m2, size).1 == m2.tiers[ti].free.last());
}

} // verus!
