//! Logical vector clock and causality ordering across venues.

use std::cmp::Ordering;
use vstd::prelude::*;

verus! {

/// Maximum number of venues.
pub const MAX_VENUES: usize = 16;

/// Entries of the causality matrix.
pub const CLOCK_MATRIX_SIZE: usize = 256;

/// One logical clock per venue, and a global sequence number.
pub struct VectorClock {
    pub clocks: [u64; 16],
    pub venue_count: usize,
    pub global_seq: u64,
}

/// Last timestamp at which each venue saw an event of each other venue.
pub struct CausalityMatrix {
    /// Row `from`, column `to` stands at `from * MAX_VENUES + to`.
    pub matrix: [u64; 256],
    /// Last timestamp recorded for each venue.
    pub last_update: [u64; 16],
}

/// Logical and physical time of one event.
#[derive(Debug)]
pub struct EventTimestamp {
    pub logical_ts: u64,
    /// Nanoseconds since the epoch.
    pub physical_ts: u64,
    pub venue_id: usize,
    /// Sequence number within the venue.
    pub seq_num: u64,
}

impl Default for VectorClock {
    fn default() -> (r: Self)
        ensures
            r.wf(),
            r.clocks@ == Seq::new(16, |i: int| 0u64),
            r.venue_count == 0,
            r.global_seq == 0,
    {
        let r = VectorClock { clocks: [0u64; 16], venue_count: 0, global_seq: 0 };
        assert(r.clocks@ =~= Seq::new(16, |i: int| 0u64));
        r
    }
}

impl Default for CausalityMatrix {
    fn default() -> (r: Self)
        ensures
            r.matrix@ == Seq::new(256, |i: int| 0u64),
            r.last_update@ == Seq::new(16, |i: int| 0u64),
    {
        let r = CausalityMatrix { matrix: [0u64; 256], last_update: [0u64; 16] };
        assert(r.matrix@ =~= Seq::new(256, |i: int| 0u64));
        assert(r.last_update@ =~= Seq::new(16, |i: int| 0u64));
        r
    }
}

impl Default for EventTimestamp {
    fn default() -> (r: Self)
        ensures
            r == (EventTimestamp { logical_ts: 0, physical_ts: 0, venue_id: 0, seq_num: 0 }),
    {
        EventTimestamp { logical_ts: 0, physical_ts: 0, venue_id: 0, seq_num: 0 }
    }
}

/// Sum of the first `n` clocks.
pub open spec fn clock_sum(clocks: Seq<u64>, n: int) -> int
    decreases n,
{
    if n <= 0 {
        0
    } else {
        clock_sum(clocks, n - 1) + clocks[n - 1]
    }
}

proof fn lemma_clock_sum_monotonic(clocks: Seq<u64>, a: int, b: int)
    requires
        0 <= a <= b,
    ensures
        0 <= clock_sum(clocks, a) <= clock_sum(clocks, b),
    decreases b,
{
    if a < b {
        lemma_clock_sum_monotonic(clocks, a, b - 1);
    } else if a > 0 {
        lemma_clock_sum_monotonic(clocks, a - 1, b - 1);
    }
}

/// Advancing one clock by one advances the sum by one.
pub proof fn lemma_tick_counts(clocks: Seq<u64>, n: int, v: int)
    requires
        0 <= v < n <= clocks.len(),
        clocks[v] < u64::MAX,
    ensures
        clock_sum(clocks.update(v, (clocks[v] + 1) as u64), n) == clock_sum(clocks, n) + 1,
    decreases n,
{
    let ticked = clocks.update(v, (clocks[v] + 1) as u64);
    if v == n - 1 {
        lemma_sum_prefix(clocks, ticked, n - 1);
    } else {
        lemma_tick_counts(clocks, n - 1, v);
    }
}

proof fn lemma_sum_prefix(a: Seq<u64>, b: Seq<u64>, n: int)
    requires
        n <= a.len(),
        n <= b.len(),
        forall|i: int| 0 <= i < n ==> a[i] == b[i],
    ensures
        clock_sum(a, n) == clock_sum(b, n),
    decreases n,
{
    if n > 0 {
        lemma_sum_prefix(a, b, n - 1);
    }
}

impl VectorClock {
    /// The venues in use have clocks.
    pub open spec fn wf(&self) -> bool {
        self.venue_count <= MAX_VENUES
    }

    /// Clock of a venue after it received a message stamped `remote`.
    pub open spec fn merged(local: u64, remote: u64) -> int {
        crate::fixed::max(local as int, remote as int) + 1
    }

    /// Use `venue_count` venues and reset their clocks.
    pub fn init(&mut self, venue_count: usize)
        requires
            venue_count <= MAX_VENUES,
        ensures
            final(self).wf(),
            final(self).venue_count == venue_count,
            final(self).global_seq == 0,
            final(self).clocks@ == Seq::new(venue_count as nat, |i: int| 0u64) + old(self).clocks@.skip(venue_count as int),
    {
        self.venue_count = venue_count;
        let mut i: usize = 0;
        while i < venue_count
            invariant
                i <= venue_count <= MAX_VENUES,
                self.venue_count == venue_count,
                forall|j: int| 0 <= j < i ==> self.clocks@[j] == 0,
                forall|j: int| i <= j < 16 ==> self.clocks@[j] == old(self).clocks@[j],
            decreases venue_count - i,
        {
            self.clocks[i] = 0;
            i = i + 1;
        }
        self.global_seq = 0;
        assert(self.clocks@ =~= Seq::new(venue_count as nat, |i: int| 0u64) + old(self).clocks@.skip(venue_count as int));
    }

    /// Advance the clock of a venue and return it; zero for an unknown venue.
    pub fn tick(&mut self, venue_id: usize) -> (r: u64)
        requires
            old(self).wf(),
            venue_id < old(self).venue_count ==> old(self).clocks@[venue_id as int] < u64::MAX,
        ensures
            final(self).wf(),
            venue_id >= old(self).venue_count ==> r == 0 && *final(self) == *old(self),
            venue_id < old(self).venue_count ==> {
                &&& r == old(self).clocks@[venue_id as int] + 1
                &&& final(self).clocks@ == old(self).clocks@.update(venue_id as int, r)
                &&& final(self).venue_count == old(self).venue_count
                &&& final(self).global_seq == old(self).global_seq.wrapping_add(1)
            },
    {
        if venue_id >= self.venue_count {
            return 0;
        }
        let new_val: u64 = self.clocks[venue_id] + 1;
        self.clocks[venue_id] = new_val;
        self.global_seq = self.global_seq.wrapping_add(1);
        new_val
    }

    /// Merge a remote clock into that of a venue: one more than the later of
    /// the two. Zero for an unknown venue.
    pub fn receive(&mut self, venue_id: usize, remote_clock: u64) -> (r: u64)
        requires
            old(self).wf(),
            venue_id < old(self).venue_count ==> Self::merged(
                old(self).clocks@[venue_id as int],
                remote_clock,
            ) <= u64::MAX,
        ensures
            final(self).wf(),
            venue_id >= old(self).venue_count ==> r == 0 && *final(self) == *old(self),
            venue_id < old(self).venue_count ==> {
                &&& r == Self::merged(old(self).clocks@[venue_id as int], remote_clock)
                &&& r > remote_clock
                &&& r > old(self).clocks@[venue_id as int]
                &&& final(self).clocks@ == old(self).clocks@.update(venue_id as int, r)
                &&& final(self).venue_count == old(self).venue_count
                &&& final(self).global_seq == old(self).global_seq.wrapping_add(1)
            },
    {
        if venue_id >= self.venue_count {
            return 0;
        }
        let local: u64 = self.clocks[venue_id];
        let new_val: u64 = if remote_clock > local {
            remote_clock + 1
        } else {
            local + 1
        };
        self.clocks[venue_id] = new_val;
        self.global_seq = self.global_seq.wrapping_add(1);
        new_val
    }

    /// Clock of a venue, zero for an unknown one.
    pub fn get_clock(&self, venue_id: usize) -> (r: u64)
        requires
            self.wf(),
        ensures
            r == if venue_id < self.venue_count {
                self.clocks@[venue_id as int]
            } else {
                0
            },
    {
        if venue_id >= self.venue_count {
            return 0;
        }
        self.clocks[venue_id]
    }

    /// Global sequence number.
    pub fn get_global_seq(&self) -> (r: u64)
        ensures
            r == self.global_seq,
    {
        self.global_seq
    }

    /// Clocks of up to four venues.
    pub fn simd_compare_venues<const N: usize>(&self, venue_ids: [usize; N]) -> (r: [u64; N])
        requires
            N <= 4,
            forall|i: int| 0 <= i < N ==> (#[trigger] venue_ids@[i]) < MAX_VENUES,
        ensures
            forall|i: int|
                0 <= i < N ==> #[trigger] r@[i] == self.clocks@[venue_ids@[i] as int],
    {
        let mut result = [0u64; N];
        let mut i: usize = 0;
        while i < N
            invariant
                i <= N,
                forall|j: int| 0 <= j < N ==> (#[trigger] venue_ids@[j]) < MAX_VENUES,
                forall|j: int|
                    0 <= j < i ==> #[trigger] result@[j] == self.clocks@[venue_ids@[j] as int],
            decreases N - i,
        {
            assert(venue_ids@[i as int] < MAX_VENUES);
            result[i] = self.clocks[venue_ids[i]];
            i = i + 1;
        }
        result
    }

    /// Event A happened before event B: its clock is smaller, on the same
    /// venue and across venues.
    pub fn happened_before(
        &self,
        clock_a: u64,
        clock_b: u64,
        venue_a: usize,
        venue_b: usize,
    ) -> (r: bool)
        ensures
            r == (clock_a < clock_b),
    {
        clock_a < clock_b
    }

    /// Sum of the clocks of all venues.
    pub fn total_ticks(&self) -> (r: u64)
        requires
            self.wf(),
            clock_sum(self.clocks@, self.venue_count as int) <= u64::MAX,
        ensures
            r == clock_sum(self.clocks@, self.venue_count as int),
    {
        let mut sum: u64 = 0;
        let mut i: usize = 0;
        while i < self.venue_count
            invariant
                i <= self.venue_count <= MAX_VENUES,
                sum == clock_sum(self.clocks@, i as int),
                clock_sum(self.clocks@, self.venue_count as int) <= u64::MAX,
            decreases self.venue_count - i,
        {
            proof {
                lemma_clock_sum_monotonic(self.clocks@, i + 1, self.venue_count as int);
            }
            sum = sum + self.clocks[i];
            i = i + 1;
        }
        sum
    }
}

/// A sequence of numbers does not descend.
pub open spec fn ascending(s: Seq<u64>) -> bool {
    forall|i: int, j: int| 0 <= i < j < s.len() ==> s[i] <= s[j]
}

proof fn lemma_swap_keeps_multiset(s: Seq<u64>, i: int, j: int)
    requires
        0 <= i < j < s.len(),
    ensures
        s.update(i, s[j]).update(j, s[i]).to_multiset() == s.to_multiset(),
{
    broadcast use vstd::seq_lib::group_to_multiset_ensures;

    let a = s.update(i, s[j]);
    let t = a.update(j, s[i]);
    vstd::seq_lib::to_multiset_update(s, i, s[j]);
    vstd::seq_lib::to_multiset_update(a, j, s[i]);
    assert(s.to_multiset().count(s[i]) > 0) by {
        assert(s.contains(s[i]));
    }
    assert(t.to_multiset() =~= s.to_multiset());
}

impl CausalityMatrix {
    /// Record that `from_venue` saw an event of `to_venue` at `timestamp`.
    /// Unknown venues are ignored.
    pub fn record_causality(&mut self, from_venue: usize, to_venue: usize, timestamp: u64)
        ensures
            from_venue >= MAX_VENUES || to_venue >= MAX_VENUES ==> *final(self) == *old(self),
            from_venue < MAX_VENUES && to_venue < MAX_VENUES ==> {
                &&& final(self).matrix@ == old(self).matrix@.update(
                    from_venue * MAX_VENUES + to_venue,
                    timestamp,
                )
                &&& final(self).last_update@ == old(self).last_update@.update(
                    from_venue as int,
                    timestamp,
                )
            },
    {
        if from_venue >= MAX_VENUES || to_venue >= MAX_VENUES {
            return ;
        }
        let idx: usize = from_venue * MAX_VENUES + to_venue;
        self.matrix[idx] = timestamp;
        self.last_update[from_venue] = timestamp;
    }

    /// Last timestamp recorded for a pair of venues, zero for unknown ones.
    pub fn get_causality(&self, from_venue: usize, to_venue: usize) -> (r: u64)
        ensures
            r == if from_venue < MAX_VENUES && to_venue < MAX_VENUES {
                self.matrix@[from_venue * MAX_VENUES + to_venue]
            } else {
                0
            },
    {
        if from_venue >= MAX_VENUES || to_venue >= MAX_VENUES {
            return 0;
        }
        self.matrix[from_venue * MAX_VENUES + to_venue]
    }

    /// The timestamps of up to four events in ascending order.
    pub fn simd_causality_sort<const N: usize>(
        &self,
        timestamps: &[u64; N],
        venue_ids: &[usize; N],
    ) -> (r: [u64; N])
        requires
            N <= 4,
        ensures
            ascending(r@),
            r@.to_multiset() == timestamps@.to_multiset(),
    {
        let mut ts: [u64; N] = *timestamps;
        let mut i: usize = 0;
        while i < N
            invariant
                i <= N,
                ts@.to_multiset() == timestamps@.to_multiset(),
                forall|a: int, b: int| 0 <= a < i && a < b < N ==> ts@[a] <= ts@[b],
            decreases N - i,
        {
            let mut j: usize = i + 1;
            while j < N
                invariant
                    i < j <= N,
                    ts@.to_multiset() == timestamps@.to_multiset(),
                    forall|a: int, b: int| 0 <= a < i && a < b < N ==> ts@[a] <= ts@[b],
                    forall|b: int| i < b < j ==> ts@[i as int] <= ts@[b],
                decreases N - j,
            {
                if ts[j] < ts[i] {
                    proof {
                        lemma_swap_keeps_multiset(ts@, i as int, j as int);
                    }
                    let low: u64 = ts[j];
                    let high: u64 = ts[i];
                    ts[i] = low;
                    ts[j] = high;
                }
                j = j + 1;
            }
            i = i + 1;
        }
        ts
    }

    /// `timestamp` is older than the last one recorded for the venue.
    pub fn detect_out_of_order(&self, venue_id: usize, timestamp: u64) -> (r: bool)
        ensures
            r == (venue_id < MAX_VENUES && timestamp < self.last_update@[venue_id as int]),
    {
        if venue_id >= MAX_VENUES {
            return false;
        }
        timestamp < self.last_update[venue_id]
    }

    /// Copy the row of a venue; an unknown venue leaves `output` as it is.
    pub fn get_venue_row(&self, venue_id: usize, output: &mut [u64; 16])
        ensures
            final(output)@ == if venue_id < MAX_VENUES {
                self.matrix@.subrange(venue_id * MAX_VENUES, venue_id * MAX_VENUES + MAX_VENUES)
            } else {
                old(output)@
            },
    {
        if venue_id >= MAX_VENUES {
            return ;
        }
        let base: usize = venue_id * MAX_VENUES;
        let mut i: usize = 0;
        while i < MAX_VENUES
            invariant
                i <= MAX_VENUES,
                base == venue_id * MAX_VENUES,
                venue_id < MAX_VENUES,
                forall|j: int| 0 <= j < i ==> output@[j] == self.matrix@[base + j],
            decreases MAX_VENUES - i,
        {
            output[i] = self.matrix[base + i];
            i = i + 1;
        }
        assert(output@ =~= self.matrix@.subrange(
            venue_id * MAX_VENUES,
            venue_id * MAX_VENUES + MAX_VENUES,
        ));
    }
}

impl EventTimestamp {
    /// Timestamp of one event.
    pub fn new(logical_ts: u64, physical_ts: u64, venue_id: usize, seq_num: u64) -> (r: Self)
        ensures
            r == (EventTimestamp { logical_ts, physical_ts, venue_id, seq_num }),
    {
        EventTimestamp { logical_ts, physical_ts, venue_id, seq_num }
    }

    /// Replace all fields.
    pub fn update(&mut self, logical_ts: u64, physical_ts: u64, venue_id: usize, seq_num: u64)
        ensures
            *final(self) == (EventTimestamp { logical_ts, physical_ts, venue_id, seq_num }),
    {
        self.logical_ts = logical_ts;
        self.physical_ts = physical_ts;
        self.venue_id = venue_id;
        self.seq_num = seq_num;
    }

    /// Logical timestamp.
    pub fn logical(&self) -> (r: u64)
        ensures
            r == self.logical_ts,
    {
        self.logical_ts
    }

    /// Physical timestamp.
    pub fn physical(&self) -> (r: u64)
        ensures
            r == self.physical_ts,
    {
        self.physical_ts
    }

    /// Venue.
    pub fn venue(&self) -> (r: usize)
        ensures
            r == self.venue_id,
    {
        self.venue_id
    }

    /// Sequence number within the venue.
    pub fn seq(&self) -> (r: u64)
        ensures
            r == self.seq_num,
    {
        self.seq_num
    }

    /// This event comes before `other`: by logical time, then by physical
    /// time.
    pub open spec fn before(&self, other: &EventTimestamp) -> bool {
        self.logical_ts < other.logical_ts || (self.logical_ts == other.logical_ts
            && self.physical_ts < other.physical_ts)
    }

    /// Order of two events.
    pub fn compare(&self, other: &EventTimestamp) -> (r: Ordering)
        ensures
            r == Ordering::Less <==> self.before(other),
            r == Ordering::Greater <==> other.before(self),
            r == Ordering::Equal <==> self.logical_ts == other.logical_ts && self.physical_ts
                == other.physical_ts,
    {
        if self.logical_ts < other.logical_ts {
            Ordering::Less
        } else if self.logical_ts > other.logical_ts {
            Ordering::Greater
        } else if self.physical_ts < other.physical_ts {
            Ordering::Less
        } else if self.physical_ts > other.physical_ts {
            Ordering::Greater
        } else {
            Ordering::Equal
        }
    }
}

/// The event order is transitive, and no event comes before itself.
pub proof fn lemma_event_order(a: EventTimestamp, b: EventTimestamp, c: EventTimestamp)
    ensures
        !a.before(&a),
        a.before(&b) && b.before(&c) ==> a.before(&c),
        !(a.before(&b) && b.before(&a)),
{
}

/// A clock that receives another goes one beyond the later of the two.
pub proof fn lemma_merged_is_later(local: u64, remote: u64)
    ensures
        local >= remote ==> VectorClock::merged(local, remote) == local + 1,
        local <= remote ==> VectorClock::merged(local, remote) == remote + 1,
{
}

/// Events are ordered by logical time first, and by physical time among those of one
/// logical time.
pub proof fn lemma_logical_time_first(a: EventTimestamp, b: EventTimestamp)
    ensures
        a.logical_ts < b.logical_ts ==> a.before(&b) && !b.before(&a),
        a.logical_ts == b.logical_ts ==> a.before(&b) == (a.physical_ts < b.physical_ts),
{
}

/// The sum of the clocks grows with each clock.
pub proof fn lemma_clock_sum_adds(clocks: Seq<u64>, n: int)
    requires
        0 <= n < clocks.len(),
    ensures
        clock_sum(clocks, 0) == 0,
        clock_sum(clocks, n + 1) == clock_sum(clocks, n) + clocks[n],
{
}

} // verus!
