//! Allocation of huge pages from one mapped range.

use vstd::prelude::*;

verus! {

/// Size of a huge page.
pub const HUGE_PAGE_SIZE: u64 = 2_097_152;

/// Huge page allocator.
#[derive(Debug, Clone, Copy)]
pub struct HugeTlbAllocator {
    /// Allocator is in use.
    pub active: bool,
    /// Pages given out.
    pub allocated_pages: usize,
    /// Pages of the range.
    pub max_pages: usize,
    /// Address of the range; zero if nothing is mapped.
    pub base: u64,
    /// Bytes asked for so far.
    pub current_offset: u64,
}

/// Bytes that an allocation takes: whole pages.
pub open spec fn whole_pages(size: int) -> int {
    (size + HUGE_PAGE_SIZE - 1) / HUGE_PAGE_SIZE as int * HUGE_PAGE_SIZE
}

impl HugeTlbAllocator {
    /// Allocator without a range.
    pub fn new(max_pages: usize) -> (r: Self)
        ensures
            r == (HugeTlbAllocator {
                active: false,
                allocated_pages: 0,
                max_pages,
                base: 0,
                current_offset: 0,
            }),
    {
        HugeTlbAllocator { active: false, allocated_pages: 0, max_pages, base: 0, current_offset: 0 }
    }

    /// Use the allocator.
    pub fn activate(&mut self)
        ensures
            *final(self) == (HugeTlbAllocator { active: true, ..*old(self) }),
    {
        self.active = true;
    }

    /// Check if the allocator is in use.
    pub fn is_active(&self) -> (r: bool)
        ensures
            r == self.active,
    {
        self.active
    }

    /// Memory can be asked for.
    pub open spec fn ready(&self) -> bool {
        self.active && self.base != 0
    }

    /// An allocation lies within the range.
    pub open spec fn fits(&self, size: int) -> bool {
        self.current_offset + whole_pages(size) <= self.max_pages * HUGE_PAGE_SIZE
    }

    /// Allocate whole pages. Gives their address, or nothing if the allocator is not
    /// ready or the range is used up.
    pub fn allocate(&mut self, size: u64) -> (r: Option<u64>)
        requires
            old(self).ready() ==> {
                &&& old(self).current_offset + whole_pages(size as int) <= u64::MAX
                &&& old(self).base + old(self).current_offset <= u64::MAX
            },
        ensures
            r == if old(self).ready() && old(self).fits(size as int) {
                Some((old(self).base + old(self).current_offset) as u64)
            } else {
                None
            },
            *final(self) == if old(self).ready() {
                HugeTlbAllocator {
                    current_offset: (old(self).current_offset + whole_pages(size as int)) as u64,
                    ..*old(self)
                }
            } else {
                *old(self)
            },
    {
        if !self.is_active() || self.base == 0 {
            return None;
        }
        let aligned: u64 = ((size as u128 + HUGE_PAGE_SIZE as u128 - 1) / HUGE_PAGE_SIZE as u128
            * HUGE_PAGE_SIZE as u128) as u64;
        let offset: u64 = self.current_offset;
        self.current_offset = offset + aligned;
        if (offset + aligned) as u128 > self.max_pages as u128 * HUGE_PAGE_SIZE as u128 {
            return None;
        }
        Some(self.base + offset)
    }
}

/// An allocation takes at least its size, less than a page more, and whole pages.
pub proof fn lemma_whole_pages(size: int)
    requires
        0 <= size,
    ensures
        size <= whole_pages(size) < size + HUGE_PAGE_SIZE,
        whole_pages(size) % HUGE_PAGE_SIZE as int == 0,
{
}

/// Two allocations in a row do not overlap, and both lie within the range.
pub proof fn lemma_allocations_disjoint(a: HugeTlbAllocator, first: int, second: int)
    requires
        0 <= first,
        0 <= second,
        ({
            let b = HugeTlbAllocator {
                current_offset: (a.current_offset + whole_pages(first)) as u64,
                ..a
            };
            &&& a.current_offset + whole_pages(first) <= u64::MAX
            &&& a.fits(first)
            &&& b.fits(second)
        }),
    ensures
        ({
            let at = a.base + a.current_offset;
            let next = a.base + a.current_offset + whole_pages(first);
            &&& at + first <= next
            &&& next + second <= a.base + a.max_pages * HUGE_PAGE_SIZE
        }),
{
}

/// A request takes the fewest pages of two mebibytes that hold it.
pub proof fn lemma_fewest_pages(size: int, pages: int)
    requires
        0 <= size <= pages * 2_097_152,
    ensures
        whole_pages(size) <= pages * 2_097_152,
        whole_pages(size) % 2_097_152 == 0,
        whole_pages(size) >= size,
{
    lemma_whole_pages(size);
    let q = (size + 2_097_151) / 2_097_152;
    assert(whole_pages(size) == q * 2_097_152);
}

/// A request is served from an allocator that is active and mapped, as long as its pages
/// stay within the limit.
pub proof fn lemma_served_within_limit(a: HugeTlbAllocator, size: int)
    ensures
        a.ready() <==> a.active && a.base != 0,
        a.fits(size) <==> a.current_offset + whole_pages(size) <= a.max_pages * 2_097_152,
{
}

} // verus!
