//! Tiered slab allocator, bounded variant: each tier's free-slot stack is
//! pre-allocated at a fixed capacity; frees beyond the cap spill back to
//! the system allocator instead of growing the pool.
//!
//! As in the unbounded variant, addresses are opaque integers and the
//! system allocator is modeled by a bump cursor.

use vstd::prelude::*;

verus! {

/// Slots pre-allocated per slab, and the cap on recycled slots.
pub const SLAB_CAPACITY: usize = 4096;

/// The ascending object sizes of the six tiers.
pub open spec fn mem_tier_sizes() -> Seq<usize> {
    seq![32usize, 64usize, 128usize, 256usize, 512usize, 1024usize]
}

/// The smallest tier whose object size holds `size`, or 6 when `size`
/// exceeds the largest tier.
pub open spec fn mem_tier_index(size: usize) -> int {
    if size <= 32 {
        0
    } else if size <= 64 {
        1
    } else if size <= 128 {
        2
    } else if size <= 256 {
        3
    } else if size <= 512 {
        4
    } else if size <= 1024 {
        5
    } else {
        6
    }
}

/// One more recorded event, saturating at the counter's maximum.
pub open spec fn bumped_usize(c: usize) -> usize {
    if c == usize::MAX {
        c
    } else {
        (c + 1) as usize
    }
}

fn bump_usize(c: &mut usize)
    ensures
        *final(c) == bumped_usize(*old(c)),
{
    if *c < usize::MAX {
        *c = *c + 1;
    }
}

/// Mathematical view of one bounded slab.
#[verifier::ext_equal]
pub struct SlabModel {
    pub tier: usize,
    pub stack: Seq<usize>,
    pub next: usize,
    pub alloc_count: usize,
    pub reuse_count: usize,
}

/// A bounded slab is well formed when its stack respects the cap.
pub open spec fn wf_slab(s: SlabModel) -> bool {
    &&& s.stack.len() <= SLAB_CAPACITY
    &&& s.tier >= 1
    &&& s.next >= 1
}

/// One fixed-capacity free-slot stack with its counters and its own
/// modeled system-allocator cursor for fallback grants.
pub struct Slab {
    tier: usize,
    stack: Vec<usize>,
    next_addr: usize,
    alloc_count: usize,
    reuse_count: usize,
}

impl View for Slab {
    type V = SlabModel;

    closed spec fn view(&self) -> SlabModel {
        SlabModel {
            tier: self.tier,
            stack: self.stack@,
            next: self.next_addr,
            alloc_count: self.alloc_count,
            reuse_count: self.reuse_count,
        }
    }
}

impl Slab {
    /// A slab for objects of `tier` bytes, pre-populated with
    /// `SLAB_CAPACITY` fresh slots starting at address `base`: slot `i`
    /// is the block at `base + i * tier`, so the pre-warmed slots are
    /// nonzero, pairwise distinct, and spaced exactly one tier apart.
    pub fn new(tier: usize, base: usize) -> (s: Slab)
        requires
            tier >= 1,
            base >= 1,
            base + SLAB_CAPACITY * tier <= usize::MAX,
        ensures
            wf_slab(s@),
            s@.tier == tier,
            s@.stack.len() == SLAB_CAPACITY,
            forall|i: int|
                0 <= i < SLAB_CAPACITY ==> #[trigger] s@.stack[i] == base + i * tier,
            s@.next == base + SLAB_CAPACITY * tier,
            s@.alloc_count == 0,
            s@.reuse_count == 0,
    {
        let mut stack: Vec<usize> = Vec::new();
        let mut next: usize = base;
        let mut i: usize = 0;
        while i < SLAB_CAPACITY
            invariant
                i <= SLAB_CAPACITY,
                stack@.len() == i,
                tier >= 1,
                base >= 1,
                next == base + i * tier,
                forall|j: int| 0 <= j < i ==> #[trigger] stack@[j] == base + j * tier,
                base + SLAB_CAPACITY * tier <= usize::MAX,
            decreases SLAB_CAPACITY - i,
        {
            proof {
                assert((i + 1) * tier == i * tier + tier) by (nonlinear_arith);
                assert((i + 1) * tier <= SLAB_CAPACITY * tier) by (nonlinear_arith)
                    requires
                        i + 1 <= SLAB_CAPACITY,
                        tier >= 1,
                ;
            }
            stack.push(next);
            next = next + tier;
            i = i + 1;
        }
        Slab { tier, stack, next_addr: next, alloc_count: 0, reuse_count: 0 }
    }

    /// Pop the top recycled slot, counting one reuse; empty-handed on an
    /// exhausted stack.
    pub fn pop(&mut self) -> (r: Option<usize>)
        ensures
            old(self)@.stack.len() > 0 ==> r == Some(old(self)@.stack.last()) && final(self)@ == (
            SlabModel {
                stack: old(self)@.stack.drop_last(),
                reuse_count: bumped_usize(old(self)@.reuse_count),
                ..old(self)@
            }),
            old(self)@.stack.len() == 0 ==> r == None::<usize> && final(self)@ == old(self)@,
    {
        match self.stack.pop() {
            Some(a) => {
                bump_usize(&mut self.reuse_count);
                Some(a)
            }
            None => None,
        }
    }

    /// Push a slot back; refused once the stack has reached its cap.
    pub fn push(&mut self, addr: usize) -> (ok: bool)
        ensures
            old(self)@.stack.len() < SLAB_CAPACITY ==> ok && final(self)@ == (SlabModel {
                stack: old(self)@.stack.push(addr),
                ..old(self)@
            }),
            old(self)@.stack.len() >= SLAB_CAPACITY ==> !ok && final(self)@ == old(self)@,
    {
        if self.stack.len() < SLAB_CAPACITY {
            self.stack.push(addr);
            true
        } else {
            false
        }
    }

    /// Serve one request: a recycled slot if one is left, else a fresh
    /// block of exactly `tier` bytes, or the null address 0 on exhaustion.
    pub fn allocate(&mut self) -> (r: usize)
        requires
            wf_slab(old(self)@),
        ensures
            wf_slab(final(self)@),
            final(self)@.tier == old(self)@.tier,
            old(self)@.stack.len() > 0 ==> r == old(self)@.stack.last() && final(self)@ == (
            SlabModel {
                stack: old(self)@.stack.drop_last(),
                reuse_count: bumped_usize(old(self)@.reuse_count),
                alloc_count: bumped_usize(old(self)@.alloc_count),
                ..old(self)@
            }),
            old(self)@.stack.len() == 0 && old(self)@.next + old(self)@.tier <= usize::MAX ==> r
                == old(self)@.next && final(self)@ == (SlabModel {
                next: (old(self)@.next + old(self)@.tier) as usize,
                alloc_count: bumped_usize(old(self)@.alloc_count),
                ..old(self)@
            }),
            old(self)@.stack.len() == 0 && old(self)@.next + old(self)@.tier > usize::MAX ==> r
                == 0 && final(self)@ == (SlabModel {
                alloc_count: bumped_usize(old(self)@.alloc_count),
                ..old(self)@
            }),
    {
        bump_usize(&mut self.alloc_count);
        match self.pop() {
            Some(a) => a,
            None => {
                if self.tier <= usize::MAX - self.next_addr {
                    let a = self.next_addr;
                    self.next_addr = self.next_addr + self.tier;
                    a
                } else {
                    0
                }
            }
        }
    }

    /// Return a slot: recycled while the stack is below its cap, spilled
    /// back to the system allocator once it is full.
    pub fn free(&mut self, addr: usize)
        ensures
            old(self)@.stack.len() < SLAB_CAPACITY ==> final(self)@ == (SlabModel {
                stack: old(self)@.stack.push(addr),
                ..old(self)@
            }),
            old(self)@.stack.len() >= SLAB_CAPACITY ==> final(self)@ == old(self)@,
    {
        let _ = self.push(addr);
    }
}

/// Per-tier statistics row.
pub struct TierStat {
    pub size: usize,
    pub allocs: usize,
    pub reuses: usize,
    pub free_slots: usize,
}

/// Pool-wide statistics: totals plus one row per tier.
pub struct PoolStats {
    pub total_allocs: usize,
    pub total_reuses: usize,
    pub tiers: Vec<TierStat>,
}

/// Mathematical view of the bounded pool.
#[verifier::ext_equal]
pub struct PoolModel {
    pub slabs: Seq<SlabModel>,
    pub next: usize,
    pub total_allocs: usize,
    pub total_reuses: usize,
}

/// Where each slab's pre-warmed address range starts in a fresh pool
/// (slab `i` holds `SLAB_CAPACITY` blocks of its tier size from here);
/// index 6 is the end of the last range, where the oversize cursor of a
/// fresh pool stands.
pub open spec fn mem_slab_base(i: int) -> usize {
    if i <= 0 {
        1
    } else if i == 1 {
        (1 + 4096 * 32) as usize
    } else if i == 2 {
        (1 + 4096 * 96) as usize
    } else if i == 3 {
        (1 + 4096 * 224) as usize
    } else if i == 4 {
        (1 + 4096 * 480) as usize
    } else if i == 5 {
        (1 + 4096 * 992) as usize
    } else {
        (1 + 4096 * 2016) as usize
    }
}

/// The bounded pool invariant: six well-formed slabs with the fixed tier
/// sizes, plus the cursor for oversize grants.
pub open spec fn wf_pool(m: PoolModel) -> bool {
    &&& m.slabs.len() == 6
    &&& forall|i: int| 0 <= i < 6 ==> (#[trigger] m.slabs[i]).tier == mem_tier_sizes()[i]
    &&& forall|i: int| 0 <= i < 6 ==> wf_slab(#[trigger] m.slabs[i])
    &&& m.next >= 1
}

/// The bounded pool: one slab per tier and a cursor for oversize grants.
pub struct MemPool {
    slabs: Vec<Slab>,
    next_addr: usize,
    pub total_allocs: usize,
    pub total_reuses: usize,
}

impl View for MemPool {
    type V = PoolModel;

    closed spec fn view(&self) -> PoolModel {
        PoolModel {
            slabs: self.slabs@.map(|i: int, s: Slab| s@),
            next: self.next_addr,
            total_allocs: self.total_allocs,
            total_reuses: self.total_reuses,
        }
    }
}

impl MemPool {
    /// A pool with every slab pre-populated to its full capacity: slab
    /// `i`'s slot `j` is the block at `mem_slab_base(i) + j * tier`, so
    /// every pre-warmed slot is nonzero, backed by a block of exactly its
    /// slab's tier size, and distinct from every other slot in the pool.
    pub fn new() -> (p: MemPool)
        ensures
            wf_pool(p@),
            forall|i: int| 0 <= i < 6 ==> (#[trigger] p@.slabs[i]).stack.len() == SLAB_CAPACITY,
            forall|i: int, j: int|
                0 <= i < 6 && 0 <= j < SLAB_CAPACITY ==> #[trigger] p@.slabs[i].stack[j]
                    == mem_slab_base(i) + j * mem_tier_sizes()[i],
            forall|i: int, j: int|
                0 <= i < 6 && 0 <= j < SLAB_CAPACITY ==> 1 <= #[trigger] p@.slabs[i].stack[j]
                    < mem_slab_base(i + 1),
            forall|i: int, j1: int, j2: int|
                0 <= i < 6 && 0 <= j1 < SLAB_CAPACITY && 0 <= j2 < SLAB_CAPACITY && j1 != j2
                    ==> #[trigger] p@.slabs[i].stack[j1] != #[trigger] p@.slabs[i].stack[j2],
            p@.next == mem_slab_base(6),
            forall|i: int|
                0 <= i < 6 ==> (#[trigger] p@.slabs[i]).alloc_count == 0 && p@.slabs[i].reuse_count
                    == 0,
            p@.total_allocs == 0,
            p@.total_reuses == 0,
    {
        let mut slabs: Vec<Slab> = Vec::new();
        let s0 = Slab::new(32, 1);
        let b1 = 1 + SLAB_CAPACITY * 32;
        slabs.push(s0);
        let s1 = Slab::new(64, b1);
        let b2 = b1 + SLAB_CAPACITY * 64;
        slabs.push(s1);
        let s2 = Slab::new(128, b2);
        let b3 = b2 + SLAB_CAPACITY * 128;
        slabs.push(s2);
        let s3 = Slab::new(256, b3);
        let b4 = b3 + SLAB_CAPACITY * 256;
        slabs.push(s3);
        let s4 = Slab::new(512, b4);
        let b5 = b4 + SLAB_CAPACITY * 512;
        slabs.push(s4);
        let s5 = Slab::new(1024, b5);
        let b6 = b5 + SLAB_CAPACITY * 1024;
        slabs.push(s5);
        let p = MemPool { slabs, next_addr: b6, total_allocs: 0, total_reuses: 0 };
        proof {
            assert(p@.slabs.len() == 6);
            assert forall|i: int| 0 <= i < 6 implies (#[trigger] p@.slabs[i]).tier
                == mem_tier_sizes()[i] && wf_slab(p@.slabs[i]) && p@.slabs[i].stack.len()
                == SLAB_CAPACITY && p@.slabs[i].alloc_count == 0 && p@.slabs[i].reuse_count
                == 0 by {
                assert(p@.slabs[i] == p.slabs@[i]@);
            }
            assert forall|i: int, j: int|
                0 <= i < 6 && 0 <= j < SLAB_CAPACITY implies #[trigger] p@.slabs[i].stack[j]
                == mem_slab_base(i) + j * mem_tier_sizes()[i] by {
                assert(p@.slabs[i] == p.slabs@[i]@);
            }
            assert forall|i: int, j: int|
                0 <= i < 6 && 0 <= j < SLAB_CAPACITY implies 1 <= #[trigger] p@.slabs[i].stack[j]
                < mem_slab_base(i + 1) by {
                let t = mem_tier_sizes()[i];
                assert(p@.slabs[i].stack[j] == mem_slab_base(i) + j * t);
                assert(0 <= j * t && (j + 1) * t <= SLAB_CAPACITY * t) by (nonlinear_arith)
                    requires
                        0 <= j,
                        j + 1 <= SLAB_CAPACITY,
                        t >= 1,
                ;
                assert((j + 1) * t == j * t + t) by (nonlinear_arith);
            }
            assert forall|i: int, j1: int, j2: int|
                0 <= i < 6 && 0 <= j1 < SLAB_CAPACITY && 0 <= j2 < SLAB_CAPACITY && j1 != j2
                implies #[trigger] p@.slabs[i].stack[j1] != #[trigger] p@.slabs[i].stack[j2] by {
                let t = mem_tier_sizes()[i];
                assert(p@.slabs[i].stack[j1] == mem_slab_base(i) + j1 * t);
                assert(p@.slabs[i].stack[j2] == mem_slab_base(i) + j2 * t);
                assert(j1 * t != j2 * t) by (nonlinear_arith)
                    requires
                        j1 != j2,
                        t >= 1,
                ;
            }
        }
        p
    }

    /// The smallest tier that holds `size`, or none above the largest tier.
    pub fn tier_index(size: usize) -> (r: Option<usize>)
        ensures
            r == (if mem_tier_index(size) < 6 {
                Some(mem_tier_index(size) as usize)
            } else {
                None::<usize>
            }),
    {
        if size <= 32 {
            Some(0)
        } else if size <= 64 {
            Some(1)
        } else if size <= 128 {
            Some(2)
        } else if size <= 256 {
            Some(3)
        } else if size <= 512 {
            Some(4)
        } else if size <= 1024 {
            Some(5)
        } else {
            None
        }
    }

    /// Serve a request from the matching slab, or mint an oversize block
    /// directly from the modeled system allocator.
    pub fn allocate(&mut self, size: usize) -> (r: usize)
        requires
            wf_pool(old(self)@),
        ensures
            wf_pool(final(self)@),
            final(self)@.total_allocs == bumped_usize(old(self)@.total_allocs),
            mem_tier_index(size) < 6 ==> {
                let ti = mem_tier_index(size);
                let s = old(self)@.slabs[ti];
                &&& (s.stack.len() > 0 ==> r == s.stack.last() && final(self)@.slabs[ti].stack
                    == s.stack.drop_last() && final(self)@.slabs[ti].reuse_count == bumped_usize(
                    s.reuse_count,
                ) && final(self)@.slabs[ti].next == s.next)
                &&& (s.stack.len() == 0 && s.next + s.tier <= usize::MAX ==> r == s.next && final(self)@.slabs[ti].next == s.next + s.tier)
                &&& (s.stack.len() == 0 && s.next + s.tier > usize::MAX ==> r == 0)
                &&& (s.stack.len() == 0 ==> final(self)@.slabs[ti].stack == s.stack && final(self)@.slabs[ti].reuse_count == s.reuse_count)
                &&& final(self)@.slabs[ti].tier == s.tier
                &&& final(self)@.slabs[ti].alloc_count == bumped_usize(s.alloc_count)
                &&& final(self)@.total_reuses == (if final(self)@.slabs[ti].reuse_count > 0 {
                    bumped_usize(old(self)@.total_reuses)
                } else {
                    old(self)@.total_reuses
                })
                &&& final(self)@.next == old(self)@.next
                &&& (forall|i: int|
                    0 <= i < 6 && i != ti ==> final(self)@.slabs[i] == old(self)@.slabs[i])
            },
            mem_tier_index(size) == 6 ==> {
                &&& (old(self)@.next + size <= usize::MAX ==> r == old(self)@.next
                    && final(self)@.next == old(self)@.next + size)
                &&& (old(self)@.next + size > usize::MAX ==> r == 0 && final(self)@.next == old(self)@.next)
                &&& final(self)@.slabs == old(self)@.slabs
                &&& final(self)@.total_reuses == old(self)@.total_reuses
            },
    {
        let ghost m = self@;
        bump_usize(&mut self.total_allocs);
        match Self::tier_index(size) {
            Some(ti) => {
                let ghost sti = mem_tier_index(size);
                let sref = &mut self.slabs[ti];
                proof {
                    assert(sref@ == m.slabs[sti]);
                    assert(wf_slab(sref@));
                }
                let r = sref.allocate();
                let reused = self.slabs[ti].reuse_count;
                if reused > 0 {
                    bump_usize(&mut self.total_reuses);
                }
                proof {
                    assert(self@.slabs =~= m.slabs.update(sti, self.slabs@[sti]@));
                    assert forall|i: int| 0 <= i < 6 implies wf_slab(
                        #[trigger] self@.slabs[i],
                    ) by {
                        if i != sti {
                            assert(self@.slabs[i] == m.slabs[i]);
                        }
                    }
                }
                r
            }
            None => {
                if size <= usize::MAX - self.next_addr {
                    let a = self.next_addr;
                    self.next_addr = self.next_addr + size;
                    proof {
                        assert(self@.slabs =~= m.slabs);
                    }
                    a
                } else {
                    proof {
                        assert(self@.slabs =~= m.slabs);
                    }
                    0
                }
            }
        }
    }

    /// Return a block to its slab; oversize blocks go back to the system
    /// allocator, and the null address is ignored.
    pub fn free(&mut self, addr: usize, size: usize)
        requires
            wf_pool(old(self)@),
        ensures
            wf_pool(final(self)@),
            final(self)@.total_allocs == old(self)@.total_allocs,
            final(self)@.total_reuses == old(self)@.total_reuses,
            final(self)@.next == old(self)@.next,
            addr != 0 && mem_tier_index(size) < 6 ==> {
                let ti = mem_tier_index(size);
                let s = old(self)@.slabs[ti];
                &&& (s.stack.len() < SLAB_CAPACITY ==> final(self)@.slabs[ti].stack
                    == s.stack.push(addr))
                &&& (s.stack.len() >= SLAB_CAPACITY ==> final(self)@.slabs[ti] == s)
                &&& (forall|i: int|
                    0 <= i < 6 && i != ti ==> final(self)@.slabs[i] == old(self)@.slabs[i])
            },
            addr == 0 || mem_tier_index(size) == 6 ==> final(self)@ == old(self)@,
    {
        let ghost m = self@;
        if addr == 0 {
            proof {
                assert(self@ =~= m);
            }
            return ;
        }
        match Self::tier_index(size) {
            Some(ti) => {
                let ghost sti = mem_tier_index(size);
                let sref = &mut self.slabs[ti];
                proof {
                    assert(sref@ == m.slabs[sti]);
                    assert(wf_slab(sref@));
                }
                sref.free(addr);
                proof {
                    assert(self@.slabs =~= m.slabs.update(sti, self.slabs@[sti]@));
                    assert forall|i: int| 0 <= i < 6 implies wf_slab(
                        #[trigger] self@.slabs[i],
                    ) by {
                        if i != sti {
                            assert(self@.slabs[i] == m.slabs[i]);
                        } else {
                            assert(self@.slabs[i] == self.slabs@[sti]@);
                        }
                    }
                }
            }
            None => {
                proof {
                    assert(self@ =~= m);
                }
            }
        }
    }

    /// A statistics snapshot: the totals and one row per tier.
    pub fn stats(&self) -> (st: PoolStats)
        requires
            wf_pool(self@),
        ensures
            st.total_allocs == self@.total_allocs,
            st.total_reuses == self@.total_reuses,
            st.tiers@.len() == 6,
            forall|i: int|
                0 <= i < 6 ==> {
                    let row = #[trigger] st.tiers@[i];
                    &&& row.size == self@.slabs[i].tier
                    &&& row.allocs == self@.slabs[i].alloc_count
                    &&& row.reuses == self@.slabs[i].reuse_count
                    &&& row.free_slots == self@.slabs[i].stack.len()
                },
    {
        let mut tiers: Vec<TierStat> = Vec::new();
        let mut i: usize = 0;
        while i < 6
            invariant
                wf_pool(self@),
                i <= 6,
                tiers@.len() == i,
                forall|j: int|
                    0 <= j < i ==> {
                        let row = #[trigger] tiers@[j];
                        &&& row.size == self@.slabs[j].tier
                        &&& row.allocs == self@.slabs[j].alloc_count
                        &&& row.reuses == self@.slabs[j].reuse_count
                        &&& row.free_slots == self@.slabs[j].stack.len()
                    },
            decreases 6 - i,
        {
            let s = &self.slabs[i];
            proof {
                assert(self@.slabs[i as int] == self.slabs@[i as int]@);
            }
            let row = TierStat {
                size: s.tier,
                allocs: s.alloc_count,
                reuses: s.reuse_count,
                free_slots: s.stack.len(),
            };
            tiers.push(row);
            i = i + 1;
        }
        PoolStats { total_allocs: self.total_allocs, total_reuses: self.total_reuses, tiers }
    }
}

} // verus!
