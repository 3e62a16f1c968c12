//! Placement of threads on cores.
//!
//! The system calls are made by the caller, which says what they gave.

use vstd::prelude::*;
use crate::gateways::fix_protocol_engine::digits::dec;
use crate::text::{trim, trimmed};

verus! {

broadcast use vstd::array::group_array_axioms;

/// Maximum number of cores.
pub const MAX_CPUS: usize = 256;

/// Set of cores.
#[derive(Debug, Clone, Copy)]
pub struct CpuSet {
    /// One bit for each core.
    pub bits: [u64; 4],
}

/// Bit `b` of a word is set.
pub open spec fn bit(word: u64, b: int) -> bool {
    word & (1u64 << (b as u64)) != 0
}

/// Setting a bit sets it, and leaves the others.
proof fn lemma_set_bit(w: u64, b: u64)
    requires
        b < 64,
    ensures
        forall|c: int| 0 <= c < 64 ==> #[trigger] bit(w | (1u64 << b), c) == (c == b || bit(w, c)),
{
    assert forall|c: int| 0 <= c < 64 implies #[trigger] bit(w | (1u64 << b), c) == (c == b || bit(
        w,
        c,
    )) by {
        let d = c as u64;
        assert(((w | (1u64 << b)) & (1u64 << d) != 0) == (d == b || w & (1u64 << d) != 0))
            by (bit_vector)
            requires
                b < 64,
                d < 64,
        ;
    }
}

/// Clearing a bit clears it, and leaves the others.
proof fn lemma_clear_bit(w: u64, b: u64)
    requires
        b < 64,
    ensures
        forall|c: int| 0 <= c < 64 ==> #[trigger] bit(w & !(1u64 << b), c) == (c != b && bit(w, c)),
{
    assert forall|c: int| 0 <= c < 64 implies #[trigger] bit(w & !(1u64 << b), c) == (c != b && bit(
        w,
        c,
    )) by {
        let d = c as u64;
        assert(((w & !(1u64 << b)) & (1u64 << d) != 0) == (d != b && w & (1u64 << d) != 0))
            by (bit_vector)
            requires
                b < 64,
                d < 64,
        ;
    }
}

impl CpuSet {
    /// A core is in the set.
    pub open spec fn has(&self, cpu_id: int) -> bool {
        0 <= cpu_id < MAX_CPUS && bit(self.bits@[cpu_id / 64], cpu_id % 64)
    }

    /// Empty set.
    pub fn new() -> (r: Self)
        ensures
            forall|c: int| !(#[trigger] r.has(c)),
    {
        let r = CpuSet { bits: [0u64;4] };
        proof {
            assert forall|c: int| !(#[trigger] r.has(c)) by {
                if 0 <= c < MAX_CPUS {
                    let d = (c % 64) as u64;
                    assert(0u64 & (1u64 << d) == 0) by (bit_vector);
                }
            }
        }
        r
    }

    /// Set of a single core; empty for an unknown core.
    pub fn single(cpu_id: usize) -> (r: Self)
        ensures
            forall|c: int| #[trigger] r.has(c) == (c == cpu_id && cpu_id < MAX_CPUS),
    {
        let mut set = Self::new();
        set.set(cpu_id);
        set
    }

    /// Put a core into the set. An unknown core changes nothing.
    pub fn set(&mut self, cpu_id: usize)
        ensures
            forall|c: int| #[trigger]
                final(self).has(c) == (old(self).has(c) || c == cpu_id && cpu_id < MAX_CPUS),
    {
        if cpu_id < MAX_CPUS {
            let idx: usize = cpu_id / 64;
            let b: u64 = (cpu_id % 64) as u64;
            proof {
                lemma_set_bit(self.bits@[idx as int], b);
            }
            self.bits[idx] = self.bits[idx] | (1u64 << b);
        }
    }

    /// Take a core out of the set. An unknown core changes nothing.
    pub fn clear(&mut self, cpu_id: usize)
        ensures
            forall|c: int| #[trigger] final(self).has(c) == (old(self).has(c) && c != cpu_id),
    {
        if cpu_id < MAX_CPUS {
            let idx: usize = cpu_id / 64;
            let b: u64 = (cpu_id % 64) as u64;
            proof {
                lemma_clear_bit(self.bits@[idx as int], b);
            }
            self.bits[idx] = self.bits[idx] & !(1u64 << b);
        }
    }

    /// Check if a core is in the set.
    pub fn is_set(&self, cpu_id: usize) -> (r: bool)
        ensures
            r == self.has(cpu_id as int),
    {
        if cpu_id >= MAX_CPUS {
            return false;
        }
        let idx: usize = cpu_id / 64;
        let b: u64 = (cpu_id % 64) as u64;
        self.bits[idx] & (1u64 << b) != 0
    }

    /// Words of the set, for a system call.
    pub fn as_ptr(&self) -> (r: &[u64])
        ensures
            r@ == self.bits@,
    {
        self.bits.as_slice()
    }

    /// Size in bytes: one bit for each core.
    pub fn size() -> (r: usize)
        ensures
            r == MAX_CPUS / 8,
    {
        MAX_CPUS / 8
    }
}

impl Default for CpuSet {
    fn default() -> (r: Self)
        ensures
            forall|c: int| !(#[trigger] r.has(c)),
    {
        Self::new()
    }
}

/// Whether a core is online, given what the system notes of it, if anything: it notes
/// "1". Core zero always is where the system notes nothing.
pub fn is_cpu_online(cpu_id: usize, content: Option<&[u8]>) -> (r: bool)
    ensures
        r == match content {
            Some(text) => trimmed(text@) == seq![49u8],
            None => cpu_id == 0,
        },
{
    match content {
        Some(text) => {
            let (from, to) = trim(text);
            let ghost s = text@.subrange(from as int, to as int);
            if to - from == 1 && text[from] == 49 {
                assert(s =~= seq![49u8]);
                true
            } else {
                assert(s.len() != 1 || s[0] != 49);
                false
            }
        },
        None => cpu_id == 0,
    }
}

/// Placement of a thread.
#[derive(Debug)]
pub struct CorePinner {
    /// Cores that any thread may use.
    pub available_cpus: CpuSet,
    /// Cores reserved for critical threads.
    pub isolated_cpus: CpuSet,
    /// Core that the thread is pinned to; `MAX_CPUS` if it is not.
    pub current_cpu: usize,
    /// Thread is pinned.
    pub is_active: bool,
}

impl CorePinner {
    /// Pinning is active exactly if a core is noted, and no core is both available
    /// and isolated.
    pub open spec fn wf(&self) -> bool {
        &&& self.is_active == (self.current_cpu < MAX_CPUS)
        &&& forall|c: int| !(#[trigger] self.available_cpus.has(c) && self.isolated_cpus.has(c))
    }

    /// Placement on the cores that are online.
    pub fn new(online: &CpuSet) -> (r: Self)
        ensures
            r.wf(),
            r.available_cpus == *online,
            forall|c: int| !(#[trigger] r.isolated_cpus.has(c)),
            r.current_cpu == MAX_CPUS,
            !r.is_active,
    {
        CorePinner {
            available_cpus: *online,
            isolated_cpus: CpuSet::new(),
            current_cpu: MAX_CPUS,
            is_active: false,
        }
    }

    /// Reserve cores for critical threads.
    pub fn isolate_cpus(&mut self, cpu_ids: &[usize])
        requires
            old(self).wf(),
        ensures
            final(self).wf(),
            forall|c: int| #[trigger]
                final(self).isolated_cpus.has(c) == (old(self).isolated_cpus.has(c) || listed(
                    cpu_ids@,
                    c,
                ) && 0 <= c < MAX_CPUS),
            forall|c: int| #[trigger]
                final(self).available_cpus.has(c) == (old(self).available_cpus.has(c) && !listed(
                    cpu_ids@,
                    c,
                )),
            *final(self) == (CorePinner {
                isolated_cpus: final(self).isolated_cpus,
                available_cpus: final(self).available_cpus,
                ..*old(self)
            }),
    {
        let n: usize = cpu_ids.len();
        let mut i: usize = 0;
        while i < n
            invariant
                i <= n == cpu_ids@.len(),
                self.wf(),
                forall|c: int| #[trigger]
                    self.isolated_cpus.has(c) == (old(self).isolated_cpus.has(c) || listed(
                        cpu_ids@.take(i as int),
                        c,
                    ) && 0 <= c < MAX_CPUS),
                forall|c: int| #[trigger]
                    self.available_cpus.has(c) == (old(self).available_cpus.has(c) && !listed(
                        cpu_ids@.take(i as int),
                        c,
                    )),
                *self == (CorePinner {
                    isolated_cpus: self.isolated_cpus,
                    available_cpus: self.available_cpus,
                    ..*old(self)
                }),
            decreases n - i,
        {
            let cpu_id: usize = cpu_ids[i];
            proof {
                assert forall|c: int| #[trigger]
                    listed(cpu_ids@.take(i + 1), c) == (listed(cpu_ids@.take(i as int), c) || c
                        == cpu_id) by {
                    lemma_listed(cpu_ids@, i as int, c);
                }
            }
            self.isolated_cpus.set(cpu_id);
            self.available_cpus.clear(cpu_id);
            i = i + 1;
        }
        assert(cpu_ids@.take(n as int) =~= cpu_ids@);
    }

    /// A thread may be pinned to a core.
    pub open spec fn spec_can_pin(&self, cpu_id: int) -> bool {
        self.available_cpus.has(cpu_id) || self.isolated_cpus.has(cpu_id)
    }

    /// Check if a thread may be pinned to a core.
    pub fn can_pin(&self, cpu_id: usize) -> (r: bool)
        ensures
            r == self.spec_can_pin(cpu_id as int),
    {
        self.available_cpus.is_set(cpu_id) || self.isolated_cpus.is_set(cpu_id)
    }

    /// Placement after an attempt to pin to a core.
    pub open spec fn pinned(self, cpu_id: usize, done: bool) -> Self {
        if done {
            CorePinner { current_cpu: cpu_id, is_active: true, ..self }
        } else {
            self
        }
    }

    /// Pin the thread to a core, where `bound` says whether the system did so.
    /// Fails if the core cannot be used.
    pub fn pin_current(&mut self, cpu_id: usize, bound: bool) -> (r: bool)
        requires
            old(self).wf(),
        ensures
            final(self).wf(),
            r == (old(self).spec_can_pin(cpu_id as int) && bound),
            *final(self) == old(self).pinned(cpu_id, r),
    {
        if !self.can_pin(cpu_id) {
            return false;
        }
        if bound {
            self.current_cpu = cpu_id;
            self.is_active = true;
        }
        bound
    }

    /// Pin the thread to a reserved core, where `bound` says whether the system did
    /// so. Fails if the core is not reserved.
    pub fn pin_to_isolated(&mut self, cpu_id: usize, bound: bool) -> (r: bool)
        requires
            old(self).wf(),
        ensures
            final(self).wf(),
            r == (old(self).isolated_cpus.has(cpu_id as int) && bound),
            *final(self) == old(self).pinned(cpu_id, r),
    {
        if !self.isolated_cpus.is_set(cpu_id) {
            return false;
        }
        self.pin_current(cpu_id, bound)
    }

    /// Let the system place the thread.
    pub fn unpin_current(&mut self)
        requires
            old(self).wf(),
        ensures
            final(self).wf(),
            *final(self) == (CorePinner { current_cpu: MAX_CPUS, is_active: false, ..*old(self) }),
    {
        self.current_cpu = MAX_CPUS;
        self.is_active = false;
    }

    /// Core that the thread is pinned to.
    pub fn current_cpu(&self) -> (r: Option<usize>)
        ensures
            r == if self.current_cpu < MAX_CPUS {
                Some(self.current_cpu)
            } else {
                None
            },
    {
        if self.current_cpu < MAX_CPUS {
            Some(self.current_cpu)
        } else {
            None
        }
    }

    /// Check if the thread is pinned.
    pub fn is_pinned(&self) -> (r: bool)
        ensures
            r == self.is_active,
    {
        self.is_active
    }

    /// Cores that any thread may use, in order.
    pub fn available_cpus(&self) -> (r: Vec<usize>)
        ensures
            r@ == members(self.available_cpus, MAX_CPUS as nat),
    {
        list(&self.available_cpus)
    }

    /// Reserved cores, in order.
    pub fn isolated_cpus(&self) -> (r: Vec<usize>)
        ensures
            r@ == members(self.isolated_cpus, MAX_CPUS as nat),
    {
        list(&self.isolated_cpus)
    }
}

/// A core is in a list.
pub open spec fn listed(cpu_ids: Seq<usize>, c: int) -> bool {
    exists|i: int| 0 <= i < cpu_ids.len() && #[trigger] cpu_ids[i] == c
}

/// A list with one more core.
proof fn lemma_listed(cpu_ids: Seq<usize>, i: int, c: int)
    requires
        0 <= i < cpu_ids.len(),
    ensures
        listed(cpu_ids.take(i + 1), c) == (listed(cpu_ids.take(i), c) || c == cpu_ids[i]),
{
    let now = cpu_ids.take(i + 1);
    let before = cpu_ids.take(i);
    if listed(now, c) {
        let j = choose|j: int| 0 <= j < now.len() && #[trigger] now[j] == c;
        if j < i {
            assert(before[j] == c);
        }
    }
    if listed(before, c) {
        let j = choose|j: int| 0 <= j < before.len() && #[trigger] before[j] == c;
        assert(now[j] == c);
    }
    if c == cpu_ids[i] {
        assert(now[i] == c);
    }
}

/// Cores of a set below `n`, in order.
pub open spec fn members(set: CpuSet, n: nat) -> Seq<usize>
    decreases n,
{
    if n == 0 {
        Seq::empty()
    } else if set.has(n - 1) {
        members(set, (n - 1) as nat).push((n - 1) as usize)
    } else {
        members(set, (n - 1) as nat)
    }
}

/// Cores of a set, in order.
fn list(set: &CpuSet) -> (r: Vec<usize>)
    ensures
        r@ == members(*set, MAX_CPUS as nat),
{
    let mut cpus: Vec<usize> = Vec::new();
    let mut i: usize = 0;
    while i < MAX_CPUS
        invariant
            i <= MAX_CPUS,
            cpus@ == members(*set, i as nat),
        decreases MAX_CPUS - i,
    {
        if set.is_set(i) {
            cpus.push(i);
        }
        i = i + 1;
    }
    cpus
}

/// A core that is reserved is not available to other threads, and can still be
/// pinned to.
pub proof fn lemma_isolated_is_reserved(p: CorePinner, c: int)
    requires
        p.wf(),
        p.isolated_cpus.has(c),
    ensures
        !p.available_cpus.has(c),
        p.spec_can_pin(c),
{
    assert(!(p.available_cpus.has(c) && p.isolated_cpus.has(c)));
}

/// All cores from `from` to `to` are in a set.
pub open spec fn all_in(set: CpuSet, from: int, to: int) -> bool {
    forall|c: int| from <= c <= to ==> #[trigger] set.has(c)
}

/// Runs of a set among the cores below `n`, in order.
pub open spec fn runs(set: CpuSet, n: nat) -> Seq<(usize, usize)>
    decreases n,
{
    if n == 0 {
        Seq::empty()
    } else {
        let before = runs(set, (n - 1) as nat);
        if !set.has(n - 1) {
            before
        } else if before.len() > 0 && before.last().1 == n - 2 {
            before.update(before.len() - 1, (before.last().0, (n - 1) as usize))
        } else {
            before.push(((n - 1) as usize, (n - 1) as usize))
        }
    }
}

/// A core lies in one of the ranges.
pub open spec fn covered(ranges: Seq<(usize, usize)>, c: int) -> bool {
    exists|i: int| 0 <= i < ranges.len() && #[trigger] ranges[i].0 <= c <= ranges[i].1
}

/// The runs of a set hold its cores and no others, cannot be made longer, and stand
/// in order.
pub proof fn lemma_runs(set: CpuSet, n: nat)
    requires
        n <= MAX_CPUS,
    ensures
        ({
            let ranges = runs(set, n);
            &&& forall|i: int|
                0 <= i < ranges.len() ==> {
                    let range = #[trigger] ranges[i];
                    &&& range.0 <= range.1 < n
                    &&& all_in(set, range.0 as int, range.1 as int)
                    &&& !set.has(range.0 - 1)
                    &&& range.1 + 1 < n ==> !set.has(range.1 + 1)
                }
            &&& forall|i: int, j: int|
                0 <= i < j < ranges.len() ==> (#[trigger] ranges[i]).1 < (#[trigger] ranges[j]).0
            &&& forall|c: int| 0 <= c < n && set.has(c) ==> #[trigger] covered(ranges, c)
        }),
    decreases n,
{
    if n > 0 {
        lemma_runs(set, (n - 1) as nat);
        let before = runs(set, (n - 1) as nat);
        let ranges = runs(set, n);
        if set.has(n - 1) {
            if !(before.len() > 0 && before.last().1 == n - 2) && n > 1 && set.has(n - 2) {
                assert(covered(before, n - 2));
                let k = choose|k: int|
                    0 <= k < before.len() && #[trigger] before[k].0 <= n - 2 <= before[k].1;
                assert(k == before.len() - 1);
            }
            assert forall|c: int| 0 <= c < n && set.has(c) implies #[trigger] covered(
                ranges,
                c,
            ) by {
                if c < n - 1 {
                    assert(covered(before, c));
                    let k = choose|k: int|
                        0 <= k < before.len() && #[trigger] before[k].0 <= c <= before[k].1;
                    assert(ranges[k].0 <= c <= ranges[k].1);
                } else {
                    let k = ranges.len() - 1;
                    assert(ranges[k].0 <= c <= ranges[k].1);
                }
            }
            assert forall|i: int| 0 <= i < ranges.len() implies all_in(
                set,
                (#[trigger] ranges[i]).0 as int,
                ranges[i].1 as int,
            ) by {
                if i < before.len() {
                    assert(all_in(set, before[i].0 as int, before[i].1 as int));
                }
            }
        }
    }
}

/// Runs of a set of cores, in order.
pub fn cpu_ranges(set: &CpuSet) -> (r: Vec<(usize, usize)>)
    ensures
        r@ == runs(*set, MAX_CPUS as nat),
{
    let mut ranges: Vec<(usize, usize)> = Vec::new();
    let mut i: usize = 0;
    while i < MAX_CPUS
        invariant
            i <= MAX_CPUS,
            ranges@ == runs(*set, i as nat),
        decreases MAX_CPUS - i,
    {
        if set.is_set(i) {
            proof {
                lemma_runs(*set, i as nat);
            }
            let n: usize = ranges.len();
            if n > 0 && ranges[n - 1].1 + 1 == i {
                let start: usize = ranges[n - 1].0;
                ranges.set(n - 1, (start, i));
            } else {
                ranges.push((i, i));
            }
        }
        i = i + 1;
    }
    ranges
}

/// Decimal digits of a number.
pub open spec fn decimal(n: nat) -> Seq<u8>
    decreases n,
{
    if n < 10 {
        seq![(48 + n) as u8]
    } else {
        decimal(n / 10).push((48 + n % 10) as u8)
    }
}

/// Append the decimal digits of a number.
fn push_decimal(out: &mut Vec<u8>, n: usize)
    ensures
        final(out)@ == old(out)@ + decimal(n as nat),
    decreases n,
{
    if n >= 10 {
        push_decimal(out, n / 10);
    }
    out.push((48 + n % 10) as u8);
    assert(out@ =~= old(out)@ + decimal(n as nat));
}

/// Text of a range: `4` or `4-7`.
pub open spec fn range_text(range: (usize, usize)) -> Seq<u8> {
    if range.0 == range.1 {
        decimal(range.0 as nat)
    } else {
        decimal(range.0 as nat) + seq![45u8] + decimal(range.1 as nat)
    }
}

/// Text of ranges, with commas between them.
pub open spec fn ranges_text(ranges: Seq<(usize, usize)>) -> Seq<u8>
    decreases ranges.len(),
{
    if ranges.len() == 0 {
        Seq::empty()
    } else if ranges.len() == 1 {
        range_text(ranges[0])
    } else {
        ranges_text(ranges.drop_last()) + seq![44u8] + range_text(ranges.last())
    }
}

/// Text of a set of cores as the system takes it: its runs, with commas between
/// them.
pub fn cpu_list(set: &CpuSet) -> (r: Vec<u8>)
    ensures
        r@ == ranges_text(runs(*set, MAX_CPUS as nat)),
{
    let ranges = cpu_ranges(set);
    let mut out: Vec<u8> = Vec::new();
    let mut i: usize = 0;
    while i < ranges.len()
        invariant
            i <= ranges@.len(),
            ranges@ == runs(*set, MAX_CPUS as nat),
            out@ == ranges_text(ranges@.take(i as int)),
        decreases ranges@.len() - i,
    {
        let (start, end) = ranges[i];
        assert(ranges@.take(i + 1).drop_last() =~= ranges@.take(i as int));
        if i > 0 {
            out.push(44);
        }
        let ghost lead = out@;
        push_decimal(&mut out, start);
        if start != end {
            out.push(45);
            push_decimal(&mut out, end);
        }
        assert(out@ =~= lead + range_text((start, end)));
        assert(out@ =~= ranges_text(ranges@.take(i + 1)));
        i = i + 1;
    }
    assert(ranges@.take(i as int) =~= ranges@);
    out
}

/// Processor `c` is bit `c` of the mask, counted from the lowest bit of the first of its
/// four words.
pub proof fn lemma_processor_is_its_bit(set: CpuSet, c: int)
    requires
        0 <= c < 256,
    ensures
        set.has(c) <==> (set.bits@[c / 64] >> ((c % 64) as u64)) & 1 == 1,
{
    let w = set.bits@[c / 64];
    let b = (c % 64) as u64;
    assert((w & (1u64 << b) != 0) == ((w >> b) & 1 == 1)) by (bit_vector)
        requires
            b < 64,
    ;
}

/// A thread may go to a processor that is available or isolated, and to no other. Going
/// there makes it the current one; being refused changes nothing.
pub proof fn lemma_pinned_where_allowed(p: CorePinner, cpu_id: usize)
    ensures
        p.spec_can_pin(cpu_id as int) <==> p.available_cpus.has(cpu_id as int)
            || p.isolated_cpus.has(cpu_id as int),
        p.pinned(cpu_id, true).current_cpu == cpu_id && p.pinned(cpu_id, true).is_active,
        p.pinned(cpu_id, true).available_cpus == p.available_cpus,
        p.pinned(cpu_id, true).isolated_cpus == p.isolated_cpus,
        p.pinned(cpu_id, false) == p,
{
}

/// The processors of a set are listed each once and in ascending order.
pub proof fn lemma_members_ascend(set: CpuSet, n: nat)
    requires
        n <= 256,
    ensures
        forall|i: int, j: int|
            0 <= i < j < members(set, n).len() ==> #[trigger] members(set, n)[i] < #[trigger] members(
                set,
                n,
            )[j],
        forall|i: int|
            0 <= i < members(set, n).len() ==> #[trigger] members(set, n)[i] < n && set.has(
                members(set, n)[i] as int,
            ),
        forall|c: usize| c < n && #[trigger] set.has(c as int) ==> members(set, n).contains(c),
    decreases n,
{
    if n > 0 {
        let before = members(set, (n - 1) as nat);
        lemma_members_ascend(set, (n - 1) as nat);
        assert forall|c: usize| c < n && #[trigger] set.has(c as int) implies members(
            set,
            n,
        ).contains(c) by {
            if c < n - 1 {
                assert(before.contains(c));
                let k = choose|k: int| 0 <= k < before.len() && before[k] == c;
                assert(members(set, n)[k] == c);
            } else {
                assert(members(set, n)[before.len() as int] == c);
            }
        }
    }
}

/// A number is written in decimal digits that stand for it, without a zero in front.
pub proof fn lemma_decimal_stands_for_number(n: nat)
    ensures
        dec(decimal(n)) == n,
        forall|i: int| 0 <= i < decimal(n).len() ==> 48 <= #[trigger] decimal(n)[i] <= 57,
        decimal(n).len() >= 1,
        n > 0 ==> decimal(n)[0] != 48,
    decreases n,
{
    if n < 10 {
        assert(decimal(n).drop_last() =~= Seq::<u8>::empty());
        assert(dec(decimal(n).drop_last()) == 0);
    } else {
        lemma_decimal_stands_for_number(n / 10);
        assert(decimal(n).drop_last() =~= decimal(n / 10));
        assert(decimal(n)[0] == decimal(n / 10)[0]);
    }
}

/// Ranges are written one behind the other with commas between. One of a single processor
/// is its number, any other its first and its last with a dash between.
pub proof fn lemma_ranges_are_joined(ranges: Seq<(usize, usize)>, a: usize, b: usize)
    ensures
        ranges_text(Seq::<(usize, usize)>::empty()).len() == 0,
        ranges.len() == 0 && a == b ==> ranges_text(ranges.push((a, b))) == decimal(a as nat),
        ranges.len() == 0 && a != b ==> ranges_text(ranges.push((a, b))) == decimal(a as nat)
            + seq![45u8] + decimal(b as nat),
        ranges.len() > 0 && a == b ==> ranges_text(ranges.push((a, b))) == ranges_text(ranges)
            + seq![44u8] + decimal(a as nat),
        ranges.len() > 0 && a != b ==> ranges_text(ranges.push((a, b))) == ranges_text(ranges)
            + seq![44u8] + (decimal(a as nat) + seq![45u8] + decimal(b as nat)),
{
    assert(ranges.push((a, b)).drop_last() =~= ranges);
}

} // verus!
