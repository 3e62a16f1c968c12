//! Bump allocation in an arena with a strict memory limit.
//!
//! Addresses are numbers: the arena itself belongs to the caller. A circuit
//! breaker opens when the arena is exhausted or nearly so, and stays open.

use vstd::prelude::*;

verus! {

/// Memory limit: 6.5 GB in bytes.
pub const MEMORY_LIMIT_BYTES: u64 = 6_500_000_000;

/// Usage above which the circuit breaker opens: 95 percent of the limit.
pub const BREAKER_THRESHOLD: u64 = 6_175_000_000;

/// Cache line size for padding.
pub const CACHE_LINE_SIZE: usize = 64;

/// Size of the arena.
pub const ARENA_SIZE: u64 = MEMORY_LIMIT_BYTES;

/// Bump allocator.
#[derive(Debug)]
pub struct BumpAllocator {
    /// Start of the memory arena.
    pub start: u64,
    /// Current allocation address (grows upward).
    pub bump: u64,
    /// End of the memory arena.
    pub end: u64,
    /// Keeps the addresses on a cache line of their own.
    pub pad0: [u8; 56],
    /// Allocations since the last reset.
    pub alloc_count: u64,
    /// Bytes in use.
    pub current: u64,
    /// Most bytes that were ever in use.
    pub peak: u64,
    /// Whether allocation is refused.
    pub breaker: bool,
    /// Fills the cache line.
    pub pad1: [u8; 56],
}

/// First address from `a` on that is a multiple of `align`.
pub open spec fn align_up(a: int, align: int) -> int {
    if a % align == 0 {
        a
    } else {
        a + (align - a % align)
    }
}

/// An aligned address is a multiple of the alignment, and none closer to the
/// given address is.
pub proof fn lemma_align_up(a: int, align: int)
    requires
        0 <= a,
        0 < align,
    ensures
        align_up(a, align) % align == 0,
        a <= align_up(a, align) < a + align,
{
    let m = a % align;
    vstd::arithmetic::div_mod::lemma_mod_bound(a, align);
    if m != 0 {
        vstd::arithmetic::div_mod::lemma_fundamental_div_mod(a, align);
        let q = a / align + 1;
        assert(a + (align - m) == q * align) by (nonlinear_arith)
            requires
                a == align * (a / align) + m,
                q == a / align + 1,
        ;
        vstd::arithmetic::div_mod::lemma_mod_multiples_basic(q, align);
    }
}

impl BumpAllocator {
    /// The bump address lies in the arena, and the counters agree with it.
    pub open spec fn wf(&self) -> bool {
        &&& self.start <= self.bump <= self.end
        &&& self.current == self.bump - self.start
        &&& self.current <= self.peak
    }

    /// Create a bump allocator without an arena.
    pub fn new() -> (r: Self)
        ensures
            r.wf(),
            r.start == 0,
            r.bump == 0,
            r.end == 0,
            r.alloc_count == 0,
            r.current == 0,
            r.peak == 0,
            !r.breaker,
            r.pad0@ == Seq::new(56, |i: int| 0u8),
            r.pad1@ == Seq::new(56, |i: int| 0u8),
    {
        let r = BumpAllocator {
            start: 0,
            bump: 0,
            end: 0,
            pad0: [0u8;56],
            alloc_count: 0,
            current: 0,
            peak: 0,
            breaker: false,
            pad1: [0u8;56],
        };
        assert(r.pad0@ =~= Seq::new(56, |i: int| 0u8));
        assert(r.pad1@ =~= Seq::new(56, |i: int| 0u8));
        r
    }

    /// Take over an arena.
    pub fn init(&mut self, arena_start: u64, arena_size: u64)
        requires
            old(self).wf(),
            old(self).current == 0,
            arena_start + arena_size <= u64::MAX,
        ensures
            final(self).wf(),
            *final(self) == (BumpAllocator {
                start: arena_start,
                bump: arena_start,
                end: (arena_start + arena_size) as u64,
                ..*old(self)
            }),
    {
        self.start = arena_start;
        self.end = arena_start + arena_size;
        self.bump = arena_start;
    }

    /// Address that an allocation would get.
    pub open spec fn placed(&self, align: u64) -> int {
        align_up(self.bump as int, align as int)
    }

    /// Whether an allocation would be served.
    pub open spec fn serves(&self, size: u64, align: u64) -> bool {
        !self.breaker && self.placed(align) + size <= self.end
    }

    /// Allocate `size` bytes at a multiple of `align`. Nothing is given when the
    /// breaker is open, nor when the arena has no room: that opens the breaker.
    /// So does usage above the threshold.
    pub fn allocate(&mut self, size: u64, align: u64) -> (r: Option<u64>)
        requires
            old(self).wf(),
            align > 0,
            !old(self).breaker ==> old(self).bump + align - 1 <= u64::MAX && old(self).placed(align)
                + size <= u64::MAX,
        ensures
            final(self).wf(),
            r == if old(self).serves(size, align) {
                Some(old(self).placed(align) as u64)
            } else {
                None::<u64>
            },
            r is Some ==> {
                let used = old(self).placed(align) + size - old(self).start;
                &&& r->0 % align == 0
                &&& old(self).bump <= r->0
                &&& *final(self) == (BumpAllocator {
                    bump: (old(self).placed(align) + size) as u64,
                    alloc_count: old(self).alloc_count.wrapping_add(1),
                    current: used as u64,
                    peak: (if used > old(self).peak {
                        used
                    } else {
                        old(self).peak as int
                    }) as u64,
                    breaker: used > BREAKER_THRESHOLD,
                    ..*old(self)
                })
            },
            r is None ==> *final(self) == (BumpAllocator { breaker: true, ..*old(self) }),
            r is Some ==> final(self).bump == r->0 + size,
            r is Some ==> (final(self).breaker <==> final(self).bump - final(self).start
                > 6_175_000_000),
    {
        if self.breaker {
            return None;
        }
        proof {
            lemma_align_up(self.bump as int, align as int);
        }
        let over: u64 = self.bump % align;
        let aligned: u64 = if over == 0 {
            self.bump
        } else {
            self.bump + (align - over)
        };
        let new_bump: u64 = aligned + size;
        if new_bump > self.end {
            self.breaker = true;
            return None;
        }
        self.bump = new_bump;
        let used: u64 = new_bump - self.start;
        self.current = used;
        if used > self.peak {
            self.peak = used;
        }
        self.alloc_count = self.alloc_count.wrapping_add(1);
        if used > BREAKER_THRESHOLD {
            self.breaker = true;
        }
        Some(aligned)
    }

    /// Give memory back: nothing happens, memory is reclaimed on reset.
    pub fn deallocate(&mut self, _ptr: u64, _size: u64, _align: u64)
        ensures
            *final(self) == *old(self),
    {
    }

    /// Reclaim the whole arena. The breaker and the peak stay.
    pub fn reset(&mut self)
        requires
            old(self).wf(),
        ensures
            final(self).wf(),
            *final(self) == (BumpAllocator {
                bump: old(self).start,
                current: 0,
                alloc_count: 0,
                ..*old(self)
            }),
    {
        self.bump = self.start;
        self.current = 0;
        self.alloc_count = 0;
    }

    /// Current memory usage in bytes.
    pub fn current_usage(&self) -> (r: u64)
        ensures
            r == self.current,
    {
        self.current
    }

    /// Peak memory usage in bytes.
    pub fn peak_usage(&self) -> (r: u64)
        ensures
            r == self.peak,
    {
        self.peak
    }

    /// Check if the circuit breaker is tripped.
    pub fn is_circuit_breaker_tripped(&self) -> (r: bool)
        ensures
            r == self.breaker,
    {
        self.breaker
    }
}

/// Set the allocator up on an arena of the standard size. `arena` is where the
/// arena starts, if the system provided one.
pub fn initialize_allocator(allocator: &mut BumpAllocator, arena: Option<u64>) -> (r: Result<
    (),
    &'static str,
>)
    requires
        old(allocator).wf(),
        old(allocator).current == 0,
        arena is Some ==> arena->0 + ARENA_SIZE <= u64::MAX,
    ensures
        final(allocator).wf(),
        match r {
            Ok(_) => !old(allocator).breaker && arena is Some && *final(allocator) == (
            BumpAllocator {
                start: arena->0,
                bump: arena->0,
                end: (arena->0 + ARENA_SIZE) as u64,
                ..*old(allocator)
            }),
            Err(e) => *final(allocator) == *old(allocator) && if old(allocator).breaker {
                e == "Allocator already initialized or circuit breaker tripped"
            } else {
                arena is None && e == "Failed to allocate memory arena"
            },
        },
        r is Ok ==> final(allocator).end - final(allocator).start == 6_500_000_000,
{
    if allocator.breaker {
        return Err("Allocator already initialized or circuit breaker tripped");
    }
    match arena {
        None => Err("Failed to allocate memory arena"),
        Some(start) => {
            allocator.init(start, ARENA_SIZE);
            Ok(())
        },
    }
}

/// Current memory usage, for monitoring.
pub fn get_memory_usage(allocator: &BumpAllocator) -> (r: u64)
    ensures
        r == allocator.current,
{
    allocator.current_usage()
}

/// Peak memory usage, for monitoring.
pub fn get_peak_memory_usage(allocator: &BumpAllocator) -> (r: u64)
    ensures
        r == allocator.peak,
{
    allocator.peak_usage()
}

/// Check if the circuit breaker is active.
pub fn is_circuit_breaker_active(allocator: &BumpAllocator) -> (r: bool)
    ensures
        r == allocator.breaker,
{
    allocator.is_circuit_breaker_tripped()
}

/// Bump address after a run of served allocations, each a size and an alignment.
pub open spec fn bumped(bump: int, asks: Seq<(u64, u64)>) -> int
    decreases asks.len(),
{
    if asks.len() == 0 {
        bump
    } else {
        align_up(bumped(bump, asks.drop_last()), asks.last().1 as int) + asks.last().0
    }
}

/// Address that a run of served allocations gives to the one at position `i`.
pub open spec fn address(bump: int, asks: Seq<(u64, u64)>, i: int) -> int {
    align_up(bumped(bump, asks.take(i)), asks[i].1 as int)
}

/// Allocations never overlap: each ends before the next one begins, and all of
/// them lie between the first and the last bump address.
pub proof fn lemma_allocations_disjoint(bump: int, asks: Seq<(u64, u64)>, i: int, j: int)
    requires
        0 <= bump,
        0 <= i < j < asks.len(),
        forall|k: int| 0 <= k < asks.len() ==> (#[trigger] asks[k]).1 > 0,
    ensures
        bump <= address(bump, asks, i),
        address(bump, asks, i) + asks[i].0 <= address(bump, asks, j),
        address(bump, asks, j) + asks[j].0 <= bumped(bump, asks),
{
    lemma_bumped_grows(bump, asks, i + 1, j);
    lemma_bumped_grows(bump, asks, 0, i);
    lemma_bumped_grows(bump, asks, j + 1, asks.len() as int);
    assert(asks.take(0) =~= Seq::<(u64, u64)>::empty());
    assert(asks.take(asks.len() as int) =~= asks);
    assert(asks.take(i + 1).drop_last() =~= asks.take(i));
    assert(asks.take(j + 1).drop_last() =~= asks.take(j));
    assert(bumped(bump, asks.take(0)) == bump);
    lemma_align_up(bumped(bump, asks.take(i)), asks[i].1 as int);
    lemma_align_up(bumped(bump, asks.take(j)), asks[j].1 as int);
}

/// The bump address never goes back.
proof fn lemma_bumped_grows(bump: int, asks: Seq<(u64, u64)>, i: int, j: int)
    requires
        0 <= bump,
        0 <= i <= j <= asks.len(),
        forall|k: int| 0 <= k < asks.len() ==> (#[trigger] asks[k]).1 > 0,
    ensures
        bump <= bumped(bump, asks.take(i)) <= bumped(bump, asks.take(j)),
    decreases i, j,
{
    if i < j {
        lemma_bumped_grows(bump, asks, i, j - 1);
        assert(asks.take(j).drop_last() =~= asks.take(j - 1));
        lemma_align_up(bumped(bump, asks.take(j - 1)), asks[j - 1].1 as int);
    } else if i > 0 {
        lemma_bumped_grows(bump, asks, i - 1, i - 1);
        assert(asks.take(i).drop_last() =~= asks.take(i - 1));
        lemma_align_up(bumped(bump, asks.take(i - 1)), asks[i - 1].1 as int);
    }
}

/// An allocation goes to the lowest address at or above the mark that is a multiple of
/// the alignment, and it is served whenever the breaker is at rest and any such address
/// leaves room for it below the end of the arena.
pub proof fn lemma_lowest_aligned_address(a: BumpAllocator, size: u64, align: u64, addr: int)
    requires
        align > 0,
        addr >= a.bump,
        addr % (align as int) == 0,
    ensures
        a.bump <= a.placed(align) <= addr,
        a.placed(align) % (align as int) == 0,
        !a.breaker && addr + size <= a.end ==> a.serves(size, align),
        a.serves(size, align) ==> !a.breaker && a.placed(align) + size <= a.end,
{
    let (b, n) = (a.bump as int, align as int);
    lemma_align_up(b, n);
    let p = a.placed(align);
    if addr < p {
        vstd::arithmetic::div_mod::lemma_fundamental_div_mod(addr, n);
        vstd::arithmetic::div_mod::lemma_fundamental_div_mod(p, n);
        let (q, t) = (addr / n, p / n);
        assert(false) by (nonlinear_arith)
            requires
                n > 0,
                addr == n * q,
                p == n * t,
                addr < p,
                p < addr + n,
        ;
    }
}

/// Every address handed out in a run of requests is a multiple of its alignment.
pub proof fn lemma_addresses_are_aligned(bump: int, asks: Seq<(u64, u64)>, i: int)
    requires
        0 <= bump,
        0 <= i < asks.len(),
        forall|k: int| 0 <= k < asks.len() ==> (#[trigger] asks[k]).1 > 0,
    ensures
        address(bump, asks, i) % (asks[i].1 as int) == 0,
        bumped(bump, asks.take(i + 1)) == address(bump, asks, i) + asks[i].0,
{
    lemma_bumped_grows(bump, asks, 0, i);
    lemma_bumped_grows(bump, asks, i, i);
    lemma_align_up(bumped(bump, asks.take(i)), asks[i].1 as int);
    assert(asks.take(i + 1).drop_last() =~= asks.take(i));
}

} // verus!
