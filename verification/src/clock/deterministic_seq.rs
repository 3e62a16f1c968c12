//! Deterministic event sequencer that resolves out-of-order arrivals.
//!
//! Each venue numbers its events. The event that is expected next is executed
//! at once, later ones wait in a reorder buffer, earlier ones are discarded.

use crate::fixed::{bit_mask, max, min, pack_flags};
use crate::ring::{lemma_places_differ, lemma_ring_push, ring};
use vstd::prelude::*;

verus! {

/// Slots of the reorder buffer.
pub const SEQ_BUFFER_SIZE: usize = 4096;

/// Maximum venues.
pub const MAX_VENUES: usize = 16;

/// Entries that a search of the reorder buffer looks at.
pub const SEARCH_LIMIT: u64 = 64;

/// Buffered events that one call releases at most.
pub const RELEASE_LIMIT: u64 = 8;

/// Sequencer over up to sixteen venues.
pub struct DeterministicSequencer {
    /// Sequence number expected next, per venue.
    pub expected_seq: [u64; 16],
    pub processed_count: u64,
    /// Events that arrived early.
    pub ooo_count: u64,
}

/// Event waiting in the reorder buffer.
#[derive(Clone, Copy, Debug)]
pub struct DelayBufferEntry {
    pub venue_id: u8,
    pub seq_num: u64,
    pub timestamp: u64,
    /// Reference to the payload.
    pub payload_ptr: u64,
    /// One while the event waits, zero once it was taken out.
    pub valid: u8,
}

/// Circular reorder buffer.
pub struct ReorderBuffer {
    pub entries: [DelayBufferEntry; 4096],
    /// Number of events inserted.
    pub head: u64,
    /// Number of events taken out or given up.
    pub tail: u64,
    /// Events that wait.
    pub count: u64,
}

/// Entry that holds no event.
pub open spec fn blank_entry() -> DelayBufferEntry {
    DelayBufferEntry { venue_id: 0, seq_num: 0, timestamp: 0, payload_ptr: 0, valid: 0 }
}

impl Default for DelayBufferEntry {
    fn default() -> (r: Self)
        ensures
            r == blank_entry(),
    {
        DelayBufferEntry { venue_id: 0, seq_num: 0, timestamp: 0, payload_ptr: 0, valid: 0 }
    }
}

impl Default for DeterministicSequencer {
    fn default() -> (r: Self)
        ensures
            r.expected_seq@ == Seq::new(16, |i: int| 0u64),
            r.processed_count == 0,
            r.ooo_count == 0,
    {
        let r = DeterministicSequencer { expected_seq: [0u64; 16], processed_count: 0, ooo_count: 0 };
        assert(r.expected_seq@ =~= Seq::new(16, |i: int| 0u64));
        r
    }
}

impl Default for ReorderBuffer {
    fn default() -> (r: Self)
        ensures
            r.wf(),
            r@ == (BufferState { held: Seq::empty() }),
            r.head == 0,
    {
        let blank = DelayBufferEntry {
            venue_id: 0,
            seq_num: 0,
            timestamp: 0,
            payload_ptr: 0,
            valid: 0,
        };
        let r = ReorderBuffer { entries: [blank; 4096], head: 0, tail: 0, count: 0 };
        assert(r@.held =~= Seq::<DelayBufferEntry>::empty());
        r
    }
}

/// What a reorder buffer stands for: the events that wait, oldest first.
#[verifier::ext_equal]
pub struct BufferState {
    pub held: Seq<DelayBufferEntry>,
}

impl BufferState {
    /// The `i`-th entry is the given event.
    pub open spec fn matches_at(self, i: int, venue_id: u8, seq_num: u64) -> bool {
        self.held[i].venue_id == venue_id && self.held[i].seq_num == seq_num
    }

    /// Entries that a search looks at.
    pub open spec fn window(self) -> int {
        min(self.held.len() as int, SEARCH_LIMIT as int)
    }

    /// Position of the first matching entry at or behind position `i`; `window`
    /// where there is none.
    pub open spec fn find_from(self, i: int, venue_id: u8, seq_num: u64) -> int
        decreases self.window() - i,
    {
        if i >= self.window() {
            self.window()
        } else if self.matches_at(i, venue_id, seq_num) {
            i
        } else {
            self.find_from(i + 1, venue_id, seq_num)
        }
    }

    /// Position of the first matching entry.
    pub open spec fn find(self, venue_id: u8, seq_num: u64) -> int {
        self.find_from(0, venue_id, seq_num)
    }

    /// The search finds a matching entry.
    pub open spec fn has(self, venue_id: u8, seq_num: u64) -> bool {
        self.find(venue_id, seq_num) < self.window()
    }

    /// Payload of the first matching entry.
    pub open spec fn payload(self, venue_id: u8, seq_num: u64) -> u64 {
        self.held[self.find(venue_id, seq_num)].payload_ptr
    }

    /// Buffer without the first matching entry.
    pub open spec fn removed(self, venue_id: u8, seq_num: u64) -> BufferState {
        if self.has(venue_id, seq_num) {
            BufferState { held: self.held.remove(self.find(venue_id, seq_num)) }
        } else {
            self
        }
    }

    /// An insertion is refused.
    pub open spec fn is_full(self) -> bool {
        self.held.len() >= SEQ_BUFFER_SIZE
    }

    /// Buffer with one more event.
    pub open spec fn inserted(self, entry: DelayBufferEntry) -> BufferState {
        BufferState { held: self.held.push(entry) }
    }

    /// Number of consecutive events from `expected` on that a release of at
    /// most `n` events takes out.
    pub open spec fn released(self, venue_id: u8, expected: int, n: nat) -> nat
        decreases n,
    {
        if n > 0 && self.has(venue_id, expected as u64) {
            1 + self.removed(venue_id, expected as u64).released(
                venue_id,
                expected + 1,
                (n - 1) as nat,
            )
        } else {
            0
        }
    }

    /// Buffer after a release of at most `n` events.
    pub open spec fn after_release(self, venue_id: u8, expected: int, n: nat) -> BufferState
        decreases n,
    {
        if n > 0 && self.has(venue_id, expected as u64) {
            self.removed(venue_id, expected as u64).after_release(
                venue_id,
                expected + 1,
                (n - 1) as nat,
            )
        } else {
            self
        }
    }
}

proof fn lemma_find_bounds(b: BufferState, i: int, venue_id: u8, seq_num: u64)
    requires
        0 <= i,
        0 <= b.window(),
    ensures
        b.find_from(i, venue_id, seq_num) <= b.window(),
        i <= b.window() ==> i <= b.find_from(i, venue_id, seq_num),
        b.find_from(i, venue_id, seq_num) < b.window() ==> b.matches_at(
            b.find_from(i, venue_id, seq_num),
            venue_id,
            seq_num,
        ),
    decreases b.window() - i,
{
    if i < b.window() && !b.matches_at(i, venue_id, seq_num) {
        lemma_find_bounds(b, i + 1, venue_id, seq_num);
    }
}

proof fn lemma_find_hit(b: BufferState, i: int, k: int, venue_id: u8, seq_num: u64)
    requires
        0 <= i <= k < b.window(),
        b.matches_at(k, venue_id, seq_num),
    ensures
        b.find_from(i, venue_id, seq_num) <= k,
    decreases k - i,
{
    if i < k && !b.matches_at(i, venue_id, seq_num) {
        lemma_find_hit(b, i + 1, k, venue_id, seq_num);
    }
}

proof fn lemma_released_bound(b: BufferState, venue_id: u8, expected: int, n: nat)
    ensures
        b.released(venue_id, expected, n) <= n,
    decreases n,
{
    if n > 0 && b.has(venue_id, expected as u64) {
        lemma_released_bound(
            b.removed(venue_id, expected as u64),
            venue_id,
            expected + 1,
            (n - 1) as nat,
        );
    }
}

/// Slot of the `k`-th entry behind `tail`.
spec fn place(tail: int, k: int) -> int {
    (tail + k) % 4096
}

/// The entries `held` behind `tail`, of which those after the `j`-th up to the `i`-th
/// have moved up by one place.
spec fn moved(
    slots: Seq<DelayBufferEntry>,
    tail: int,
    held: Seq<DelayBufferEntry>,
    i: int,
    j: int,
) -> bool {
    &&& slots.len() == 4096
    &&& forall|k: int|
        0 <= k < held.len() ==> #[trigger] slots[place(tail, k)] == if j < k <= i {
            held[k - 1]
        } else {
            held[k]
        }
}

/// One more entry moves up.
proof fn lemma_move(
    slots: Seq<DelayBufferEntry>,
    tail: int,
    held: Seq<DelayBufferEntry>,
    i: int,
    j: int,
)
    requires
        moved(slots, tail, held, i, j),
        0 <= tail,
        0 < j <= i < held.len() <= 4096,
    ensures
        moved(slots.update(place(tail, j), slots[place(tail, j - 1)]), tail, held, i, j - 1),
{
    let t = slots.update(place(tail, j), slots[place(tail, j - 1)]);
    assert forall|k: int| 0 <= k < held.len() implies #[trigger] t[place(tail, k)] == if j - 1 < k
        <= i {
        held[k - 1]
    } else {
        held[k]
    } by {
        if k < j {
            lemma_places_differ(tail + k, tail + j, 4096);
        } else if k > j {
            lemma_places_differ(tail + j, tail + k, 4096);
        }
    }
}

/// When all entries before the `i`-th have moved up, the entries behind the first
/// place are all but that one.
proof fn lemma_moved_all(
    slots: Seq<DelayBufferEntry>,
    tail: int,
    held: Seq<DelayBufferEntry>,
    i: int,
    gone: DelayBufferEntry,
)
    requires
        moved(slots, tail, held, i, 0),
        0 <= tail,
        0 <= i < held.len() <= 4096,
    ensures
        ring(slots.update(tail % 4096, gone), tail + held.len(), held.len() - 1) == held.remove(i),
{
    let after = ring(slots.update(tail % 4096, gone), tail + held.len(), held.len() - 1);
    let goal = held.remove(i);
    assert forall|m: int| 0 <= m < after.len() implies after[m] == goal[m] by {
        lemma_places_differ(tail, tail + (m + 1), 4096);
        assert(slots[place(tail, m + 1)] == if 0 < m + 1 <= i {
            held[m]
        } else {
            held[m + 1]
        });
    }
    assert(after =~= goal);
}

impl View for ReorderBuffer {
    type V = BufferState;

    open spec fn view(&self) -> BufferState {
        BufferState { held: ring(self.entries@, self.head as int, self.head - self.tail) }
    }
}

impl DeterministicSequencer {
    /// Set the sequence numbers expected first, for at most sixteen venues.
    pub fn init(&mut self, initial_seqs: &[u64])
        ensures
            final(self).expected_seq@ == initial_seqs@.take(min(initial_seqs@.len() as int, 16))
                + old(self).expected_seq@.skip(min(initial_seqs@.len() as int, 16)),
            final(self).processed_count == old(self).processed_count,
            final(self).ooo_count == old(self).ooo_count,
    {
        let n: usize = if initial_seqs.len() < MAX_VENUES {
            initial_seqs.len()
        } else {
            MAX_VENUES
        };
        let mut i: usize = 0;
        while i < n
            invariant
                i <= n <= 16,
                n <= initial_seqs@.len(),
                forall|j: int| 0 <= j < i ==> self.expected_seq@[j] == initial_seqs@[j],
                forall|j: int|
                    i <= j < 16 ==> self.expected_seq@[j] == old(self).expected_seq@[j],
                self.processed_count == old(self).processed_count,
                self.ooo_count == old(self).ooo_count,
            decreases n - i,
        {
            self.expected_seq[i] = initial_seqs[i];
            i = i + 1;
        }
        assert(self.expected_seq@ =~= initial_seqs@.take(n as int) + old(self).expected_seq@.skip(n as int));
    }

    /// Process an incoming event; true if it is the expected one and is
    /// executed now. Then buffered events that follow it are released. An
    /// early event is buffered, an old one discarded.
    pub fn process_event(&mut self, venue_id: usize, seq_num: u64, buffer: &mut ReorderBuffer) -> (r:
        bool)
        requires
            old(buffer).wf(),
            old(buffer).head < u64::MAX || venue_id >= MAX_VENUES || seq_num
                <= old(self).expected_seq@[venue_id as int],
            venue_id < MAX_VENUES && seq_num == old(self).expected_seq@[venue_id as int] ==> seq_num
                + 1 + old(buffer)@.released(venue_id as u8, seq_num + 1, 8) <= u64::MAX,
        ensures
            final(buffer).wf(),
            r == (venue_id < MAX_VENUES && seq_num == old(self).expected_seq@[venue_id as int]),
            venue_id >= MAX_VENUES ==> *final(self) == *old(self) && *final(buffer) == *old(buffer),
            r ==> {
                let n = old(buffer)@.released(venue_id as u8, seq_num + 1, 8);
                &&& final(buffer)@ == old(buffer)@.after_release(venue_id as u8, seq_num + 1, 8)
                &&& n <= 8
                &&& final(self).expected_seq@ == old(self).expected_seq@.update(
                    venue_id as int,
                    (seq_num + 1 + n) as u64,
                )
                &&& final(self).processed_count == old(self).processed_count.wrapping_add(
                    (1 + n) as u64,
                )
                &&& final(self).ooo_count == old(self).ooo_count
            },
            venue_id < MAX_VENUES && seq_num > old(self).expected_seq@[venue_id as int] ==> {
                &&& final(buffer)@ == if old(buffer)@.is_full() {
                    old(buffer)@
                } else {
                    old(buffer)@.inserted(
                        DelayBufferEntry {
                            venue_id: venue_id as u8,
                            seq_num,
                            timestamp: 0,
                            payload_ptr: 0,
                            valid: 1,
                        },
                    )
                }
                &&& *final(self) == (DeterministicSequencer {
                    ooo_count: old(self).ooo_count.wrapping_add(1),
                    ..*old(self)
                })
            },
            venue_id < MAX_VENUES && seq_num < old(self).expected_seq@[venue_id as int]
                ==> *final(self) == *old(self) && *final(buffer) == *old(buffer),
            final(buffer).head == old(buffer).head + (if venue_id < MAX_VENUES && seq_num > old(self).expected_seq@[venue_id as int] && !old(buffer)@.is_full() {
                1int
            } else {
                0
            }),
    {
        if venue_id >= MAX_VENUES {
            return false;
        }
        let expected: u64 = self.expected_seq[venue_id];
        if seq_num == expected {
            self.expected_seq[venue_id] = expected + 1;
            self.processed_count = self.processed_count.wrapping_add(1);
            self.release_buffered_events(venue_id, buffer);
            proof {
                assert(self.expected_seq@ =~= old(self).expected_seq@.update(
                    venue_id as int,
                    (seq_num + 1 + old(buffer)@.released(venue_id as u8, seq_num + 1, 8)) as u64,
                ));
            }
            true
        } else if seq_num > expected {
            self.ooo_count = self.ooo_count.wrapping_add(1);
            buffer.insert(venue_id as u8, seq_num, 0, 0);
            false
        } else {
            false
        }
    }

    /// Release buffered events of a venue that follow the expected number
    /// without a gap, at most eight per call.
    pub fn release_buffered_events(&mut self, venue_id: usize, buffer: &mut ReorderBuffer)
        requires
            old(buffer).wf(),
            venue_id < MAX_VENUES,
            old(self).expected_seq@[venue_id as int] + old(buffer)@.released(
                venue_id as u8,
                old(self).expected_seq@[venue_id as int] as int,
                8,
            ) <= u64::MAX,
        ensures
            final(buffer).wf(),
            ({
                let e = old(self).expected_seq@[venue_id as int];
                let n = old(buffer)@.released(venue_id as u8, e as int, 8);
                &&& n <= 8
                &&& final(buffer)@ == old(buffer)@.after_release(venue_id as u8, e as int, 8)
                &&& final(self).expected_seq@ == old(self).expected_seq@.update(
                    venue_id as int,
                    (e + n) as u64,
                )
                &&& final(self).processed_count == old(self).processed_count.wrapping_add(n as u64)
                &&& final(self).ooo_count == old(self).ooo_count
                &&& final(buffer).head == old(buffer).head
            }),
    {
        let mut current_expected: u64 = self.expected_seq[venue_id];
        let ghost e = current_expected as int;
        let ghost v = venue_id as u8;
        let mut i: u64 = 0;
        let mut more = true;
        proof {
            lemma_released_bound(buffer@, v, e, 8);
        }
        while i < RELEASE_LIMIT && more
            invariant
                buffer.wf(),
                buffer.head == old(buffer).head,
                i <= 8,
                venue_id < MAX_VENUES,
                v == venue_id as u8,
                e + old(buffer)@.released(v, e, 8) <= u64::MAX,
                current_expected <= e + i,
                more ==> current_expected == e + i,
                self.expected_seq@ == old(self).expected_seq@,
                self.ooo_count == old(self).ooo_count,
                self.processed_count == old(self).processed_count.wrapping_add(
                    (current_expected - e) as u64,
                ),
                current_expected >= e,
                old(buffer)@.released(v, e, 8) == (current_expected - e) + if more {
                    buffer@.released(v, current_expected as int, (8 - i) as nat)
                } else {
                    0
                },
                old(buffer)@.after_release(v, e, 8) == if more {
                    buffer@.after_release(v, current_expected as int, (8 - i) as nat)
                } else {
                    buffer@
                },
            decreases 8 - i,
        {
            match buffer.take_matching(venue_id as u8, current_expected) {
                Some(_) => {
                    current_expected = current_expected + 1;
                    self.processed_count = self.processed_count.wrapping_add(1);
                },
                None => {
                    more = false;
                },
            }
            i = i + 1;
        }
        self.expected_seq[venue_id] = current_expected;
        assert(self.expected_seq@ =~= old(self).expected_seq@.update(
            venue_id as int,
            current_expected,
        ));
    }

    /// Sequence number expected next, zero for an unknown venue.
    pub fn get_expected_seq(&self, venue_id: usize) -> (r: u64)
        ensures
            r == if venue_id < MAX_VENUES {
                self.expected_seq@[venue_id as int]
            } else {
                0
            },
    {
        if venue_id >= MAX_VENUES {
            return 0;
        }
        self.expected_seq[venue_id]
    }

    /// Number of events executed.
    pub fn get_processed_count(&self) -> (r: u64)
        ensures
            r == self.processed_count,
    {
        self.processed_count
    }

    /// Number of events that arrived early.
    pub fn get_ooo_count(&self) -> (r: u64)
        ensures
            r == self.ooo_count,
    {
        self.ooo_count
    }

    /// Check up to four sequence numbers: bit `i` is set where number `i` is
    /// not older than the one its venue expects.
    pub fn simd_validate_sequences<const N: usize>(
        &self,
        venue_ids: &[usize; N],
        seq_nums: &[u64; N],
    ) -> (r: u32)
        requires
            N <= 4,
            forall|i: int| 0 <= i < N ==> (#[trigger] venue_ids@[i]) < MAX_VENUES,
        ensures
            r == bit_mask(
                Seq::new(
                    N as nat,
                    |i: int| seq_nums@[i] >= self.expected_seq@[venue_ids@[i] as int],
                ),
            ),
    {
        let mut flags = [false; N];
        let mut i: usize = 0;
        while i < N
            invariant
                i <= N,
                forall|j: int| 0 <= j < N ==> (#[trigger] venue_ids@[j]) < MAX_VENUES,
                forall|j: int|
                    0 <= j < i ==> #[trigger] flags@[j] == (seq_nums@[j]
                        >= self.expected_seq@[venue_ids@[j] as int]),
            decreases N - i,
        {
            assert(venue_ids@[i as int] < MAX_VENUES);
            flags[i] = seq_nums[i] >= self.expected_seq[venue_ids[i]];
            i = i + 1;
        }
        assert(flags@ =~= Seq::new(
            N as nat,
            |i: int| seq_nums@[i] >= self.expected_seq@[venue_ids@[i] as int],
        ));
        pack_flags(&flags)
    }
}

impl ReorderBuffer {
    /// The count says how many events wait, and they fit.
    pub open spec fn wf(&self) -> bool {
        &&& self.tail <= self.head
        &&& self.count == self.head - self.tail
        &&& self.count <= SEQ_BUFFER_SIZE
        &&& forall|i: int| 0 <= i < self@.held.len() ==> (#[trigger] self@.held[i]).valid == 1
    }

    /// Insert an event; a full buffer refuses it.
    pub fn insert(&mut self, venue_id: u8, seq_num: u64, timestamp: u64, payload_ptr: u64) -> (r:
        bool)
        requires
            old(self).wf(),
            old(self).head < u64::MAX,
        ensures
            final(self).wf(),
            r == !old(self)@.is_full(),
            final(self)@ == if r {
                old(self)@.inserted(
                    DelayBufferEntry { venue_id, seq_num, timestamp, payload_ptr, valid: 1 },
                )
            } else {
                old(self)@
            },
            final(self).head == old(self).head + (if r {
                1int
            } else {
                0
            }),
    {
        if self.count >= SEQ_BUFFER_SIZE as u64 {
            return false;
        }
        let entry = DelayBufferEntry { venue_id, seq_num, timestamp, payload_ptr, valid: 1 };
        proof {
            lemma_ring_push(
                self.entries@,
                self.head as int,
                self.head - self.tail,
                entry,
            );
        }
        let idx: usize = (self.head % (SEQ_BUFFER_SIZE as u64)) as usize;
        self.entries[idx] = entry;
        self.head = self.head + 1;
        self.count = self.count + 1;
        assert(self@ == old(self)@.inserted(entry));
        true
    }

    /// Take out the first of the oldest 64 entries that holds the given event
    /// and return its payload.
    pub fn take_matching(&mut self, venue_id: u8, seq_num: u64) -> (r: Option<u64>)
        requires
            old(self).wf(),
        ensures
            final(self).wf(),
            r == if old(self)@.has(venue_id, seq_num) {
                Some(old(self)@.payload(venue_id, seq_num))
            } else {
                None
            },
            final(self)@ == old(self)@.removed(venue_id, seq_num),
            final(self).head == old(self).head,
    {
        let count: u64 = self.head - self.tail;
        let search_limit: u64 = if count < SEARCH_LIMIT {
            count
        } else {
            SEARCH_LIMIT
        };
        let mut i: u64 = 0;
        while i < search_limit
            invariant
                i <= search_limit <= count,
                count == self.head - self.tail,
                search_limit == self@.window(),
                *self == *old(self),
                self.wf(),
                self@.find(venue_id, seq_num) == self@.find_from(i as int, venue_id, seq_num),
            decreases search_limit - i,
        {
            let idx: usize = ((self.tail + i) % (SEQ_BUFFER_SIZE as u64)) as usize;
            let entry = self.entries[idx];
            assert(entry == self@.held[i as int]);
            if entry.venue_id == venue_id && entry.seq_num == seq_num {
                self.remove_at(i);
                return Some(entry.payload_ptr);
            }
            i = i + 1;
        }
        None
    }

    /// Take out the `i`-th entry: the older ones move up.
    fn remove_at(&mut self, i: u64)
        requires
            old(self).wf(),
            i < old(self).count,
        ensures
            final(self).wf(),
            final(self)@.held == old(self)@.held.remove(i as int),
            final(self).head == old(self).head,
    {
        let ghost held = self@.held;
        let mut j: u64 = i;
        assert(moved(self.entries@, self.tail as int, held, i as int, j as int));
        while j > 0
            invariant
                j <= i < self.count == held.len(),
                old(self).wf(),
                *self == (ReorderBuffer { entries: self.entries, ..*old(self) }),
                moved(self.entries@, self.tail as int, held, i as int, j as int),
            decreases j,
        {
            let to: usize = ((self.tail + j) % (SEQ_BUFFER_SIZE as u64)) as usize;
            let from: usize = ((self.tail + (j - 1)) % (SEQ_BUFFER_SIZE as u64)) as usize;
            proof {
                lemma_move(self.entries@, self.tail as int, held, i as int, j as int);
            }
            self.entries[to] = self.entries[from];
            j = j - 1;
        }
        let first: usize = (self.tail % (SEQ_BUFFER_SIZE as u64)) as usize;
        let mut gone = self.entries[first];
        gone.valid = 0;
        proof {
            lemma_moved_all(self.entries@, self.tail as int, held, i as int, gone);
        }
        self.entries[first] = gone;
        self.tail = self.tail + 1;
        self.count = self.count - 1;
    }

    /// Take out the given event and return its payload, zero where the search
    /// does not find it.
    pub fn find_and_remove(&mut self, venue_id: u8, seq_num: u64) -> (r: u64)
        requires
            old(self).wf(),
        ensures
            final(self).wf(),
            r == if old(self)@.has(venue_id, seq_num) {
                old(self)@.payload(venue_id, seq_num)
            } else {
                0
            },
            final(self)@ == old(self)@.removed(venue_id, seq_num),
            final(self).head == old(self).head,
    {
        match self.take_matching(venue_id, seq_num) {
            Some(payload) => payload,
            None => 0,
        }
    }

    /// Number of events that wait.
    pub fn occupancy(&self) -> (r: u64)
        requires
            self.wf(),
        ensures
            r == self@.held.len(),
    {
        self.count
    }

    /// Give up all events.
    pub fn clear(&mut self)
        requires
            old(self).wf(),
        ensures
            final(self).wf(),
            final(self)@ == (BufferState { held: Seq::empty() }),
            final(self).head == old(self).head,
    {
        self.tail = self.head;
        self.count = 0;
        assert(self@.held =~= Seq::empty());
    }

    /// Timestamp of the oldest event, zero for an empty buffer.
    pub fn oldest_timestamp(&self) -> (r: u64)
        requires
            self.wf(),
        ensures
            r == if self@.held.len() == 0 {
                0
            } else {
                self@.held[0].timestamp
            },
    {
        if self.count == 0 {
            return 0;
        }
        let idx: usize = (self.tail % (SEQ_BUFFER_SIZE as u64)) as usize;
        self.entries[idx].timestamp
    }
}

/// Detector of gaps in the sequence numbers of each venue.
pub struct GapDetector {
    /// Highest sequence number seen.
    pub last_seen: [u64; 16],
    pub gap_count: [u64; 16],
    /// Most numbers missing in one gap.
    pub max_gap: [u64; 16],
}

impl Default for GapDetector {
    fn default() -> (r: Self)
        ensures
            r.last_seen@ == Seq::new(16, |i: int| 0u64),
            r.gap_count@ == Seq::new(16, |i: int| 0u64),
            r.max_gap@ == Seq::new(16, |i: int| 0u64),
    {
        let r = GapDetector { last_seen: [0u64; 16], gap_count: [0u64; 16], max_gap: [0u64; 16] };
        assert(r.last_seen@ =~= Seq::new(16, |i: int| 0u64));
        assert(r.gap_count@ =~= Seq::new(16, |i: int| 0u64));
        assert(r.max_gap@ =~= Seq::new(16, |i: int| 0u64));
        r
    }
}

impl GapDetector {
    /// Record a sequence number. Numbers skipped since the last one form a
    /// gap; numbers that are not new are ignored.
    pub fn record(&mut self, venue_id: usize, seq_num: u64)
        ensures
            venue_id >= MAX_VENUES || seq_num <= old(self).last_seen@[venue_id as int]
                ==> *final(self) == *old(self),
            venue_id < MAX_VENUES && seq_num > old(self).last_seen@[venue_id as int] ==> {
                let v = venue_id as int;
                let gap = seq_num - old(self).last_seen@[v] - 1;
                &&& final(self).last_seen@ == old(self).last_seen@.update(v, seq_num)
                &&& final(self).gap_count@ == old(self).gap_count@.update(
                    v,
                    if gap > 0 {
                        old(self).gap_count@[v].wrapping_add(1)
                    } else {
                        old(self).gap_count@[v]
                    },
                )
                &&& final(self).max_gap@ == old(self).max_gap@.update(
                    v,
                    max(gap, old(self).max_gap@[v] as int) as u64,
                )
            },
    {
        if venue_id >= MAX_VENUES {
            return ;
        }
        let last: u64 = self.last_seen[venue_id];
        if seq_num > last {
            let gap: u64 = seq_num - last - 1;
            let gaps: u64 = self.gap_count[venue_id];
            self.gap_count[venue_id] =
            if gap > 0 {
                gaps.wrapping_add(1)
            } else {
                gaps
            };
            let current_max: u64 = self.max_gap[venue_id];
            self.max_gap[venue_id] =
            if gap > current_max {
                gap
            } else {
                current_max
            };
            self.last_seen[venue_id] = seq_num;
        }
    }

    /// Number of gaps of a venue, zero for an unknown one.
    pub fn get_gap_count(&self, venue_id: usize) -> (r: u64)
        ensures
            r == if venue_id < MAX_VENUES {
                self.gap_count@[venue_id as int]
            } else {
                0
            },
    {
        if venue_id >= MAX_VENUES {
            return 0;
        }
        self.gap_count[venue_id]
    }

    /// Widest gap of a venue, zero for an unknown one.
    pub fn get_max_gap(&self, venue_id: usize) -> (r: u64)
        ensures
            r == if venue_id < MAX_VENUES {
                self.max_gap@[venue_id as int]
            } else {
                0
            },
    {
        if venue_id >= MAX_VENUES {
            return 0;
        }
        self.max_gap[venue_id]
    }

    /// Forget what was recorded of a venue.
    pub fn reset_venue(&mut self, venue_id: usize)
        ensures
            venue_id >= MAX_VENUES ==> *final(self) == *old(self),
            venue_id < MAX_VENUES ==> {
                &&& final(self).last_seen@ == old(self).last_seen@.update(venue_id as int, 0)
                &&& final(self).gap_count@ == old(self).gap_count@.update(venue_id as int, 0)
                &&& final(self).max_gap@ == old(self).max_gap@.update(venue_id as int, 0)
            },
    {
        if venue_id >= MAX_VENUES {
            return ;
        }
        self.last_seen[venue_id] = 0;
        self.gap_count[venue_id] = 0;
        self.max_gap[venue_id] = 0;
    }
}

/// An event inserted among fewer than 64 entries is found again.
pub proof fn lemma_inserted_is_found(b: BufferState, entry: DelayBufferEntry)
    requires
        b.held.len() < SEARCH_LIMIT,
    ensures
        b.inserted(entry).has(entry.venue_id, entry.seq_num),
{
    let k = b.held.len() as int;
    assert(b.inserted(entry).matches_at(k, entry.venue_id, entry.seq_num));
    lemma_find_hit(b.inserted(entry), 0, k, entry.venue_id, entry.seq_num);
}

/// Out-of-order arrival heals: where the event after the expected one came
/// early and was buffered among fewer than 64 entries, the arrival of the
/// expected one releases it.
pub proof fn lemma_gap_fill_releases(b: BufferState, entry: DelayBufferEntry, expected: u64)
    requires
        b.held.len() < SEARCH_LIMIT,
        expected < u64::MAX - RELEASE_LIMIT,
        entry.seq_num == expected + 1,
    ensures
        b.inserted(entry).released(entry.venue_id, expected + 1, 8) >= 1,
{
    lemma_inserted_is_found(b, entry);
}

/// Taking an event out lowers the number of events that wait by one, wherever the
/// event stood, and keeps the others in order.
pub proof fn lemma_removed_one(b: BufferState, venue_id: u8, seq_num: u64)
    requires
        b.has(venue_id, seq_num),
    ensures
        b.removed(venue_id, seq_num).held.len() == b.held.len() - 1,
        0 <= b.find(venue_id, seq_num) < b.held.len(),
        b.matches_at(b.find(venue_id, seq_num), venue_id, seq_num),
        b.held == b.removed(venue_id, seq_num).held.insert(
            b.find(venue_id, seq_num),
            b.held[b.find(venue_id, seq_num)],
        ),
{
    lemma_find_bounds(b, 0, venue_id, seq_num);
    let f = b.find(venue_id, seq_num);
    assert(b.held =~= b.removed(venue_id, seq_num).held.insert(f, b.held[f]));
}

/// An event that was taken out of a buffer that held it once is not found
/// again: no event is released twice.
pub proof fn lemma_removed_once(b: BufferState, venue_id: u8, seq_num: u64)
    requires
        b.has(venue_id, seq_num),
        forall|i: int, j: int|
            0 <= i < b.held.len() && 0 <= j < b.held.len() && b.matches_at(i, venue_id, seq_num)
                && b.matches_at(j, venue_id, seq_num) ==> i == j,
    ensures
        !b.removed(venue_id, seq_num).has(venue_id, seq_num),
{
    let f = b.find(venue_id, seq_num);
    lemma_find_bounds(b, 0, venue_id, seq_num);
    let c = b.removed(venue_id, seq_num);
    let g = c.find(venue_id, seq_num);
    lemma_find_bounds(c, 0, venue_id, seq_num);
    if c.has(venue_id, seq_num) {
        let at = if g < f {
            g
        } else {
            g + 1
        };
        assert(c.held[g] == b.held[at]);
        assert(b.matches_at(at, venue_id, seq_num));
        assert(b.matches_at(f, venue_id, seq_num));
    }
}

/// An event is found exactly where one of the first sixty-four held is of the venue and
/// has the number; the first such one is taken.
pub proof fn lemma_found_among_first(b: BufferState, venue_id: u8, seq_num: u64)
    ensures
        b.has(venue_id, seq_num) <==> exists|k: int|
            0 <= k < b.held.len() && k < 64 && (#[trigger] b.held[k]).venue_id == venue_id
                && b.held[k].seq_num == seq_num,
        b.has(venue_id, seq_num) ==> {
            let f = b.find(venue_id, seq_num);
            &&& 0 <= f < b.held.len()
            &&& f < 64
            &&& b.held[f].venue_id == venue_id
            &&& b.held[f].seq_num == seq_num
            &&& b.payload(venue_id, seq_num) == b.held[f].payload_ptr
            &&& forall|k: int|
                0 <= k < f ==> (#[trigger] b.held[k]).venue_id != venue_id || b.held[k].seq_num
                    != seq_num
        },
{
    lemma_find_bounds(b, 0, venue_id, seq_num);
    let f = b.find(venue_id, seq_num);
    if b.has(venue_id, seq_num) {
        assert(b.held[f].venue_id == venue_id && b.held[f].seq_num == seq_num);
        assert forall|k: int| 0 <= k < f implies (#[trigger] b.held[k]).venue_id != venue_id
            || b.held[k].seq_num != seq_num by {
            if b.held[k].venue_id == venue_id && b.held[k].seq_num == seq_num {
                lemma_find_hit(b, 0, k, venue_id, seq_num);
            }
        }
    }
    if exists|k: int|
        0 <= k < b.held.len() && k < 64 && (#[trigger] b.held[k]).venue_id == venue_id
            && b.held[k].seq_num == seq_num {
        let k = choose|k: int|
            0 <= k < b.held.len() && k < 64 && (#[trigger] b.held[k]).venue_id == venue_id
                && b.held[k].seq_num == seq_num;
        lemma_find_hit(b, 0, k, venue_id, seq_num);
    }
}

/// A release takes out one event for each number that it goes forward, and stops only at
/// a number that is not held or after as many as it may release.
pub proof fn lemma_release_stops_at_gap(b: BufferState, venue_id: u8, expected: int, n: nat)
    requires
        0 <= expected,
        expected + n <= u64::MAX,
    ensures
        ({
            let k = b.released(venue_id, expected, n);
            let after = b.after_release(venue_id, expected, n);
            &&& k <= n
            &&& after.held.len() == b.held.len() - k
            &&& k < n ==> !after.has(venue_id, (expected + k) as u64)
            &&& n > 0 && b.has(venue_id, expected as u64) ==> k >= 1
        }),
    decreases n,
{
    if n > 0 && b.has(venue_id, expected as u64) {
        let c = b.removed(venue_id, expected as u64);
        lemma_removed_one(b, venue_id, expected as u64);
        lemma_release_stops_at_gap(c, venue_id, expected + 1, (n - 1) as nat);
    }
}

/// The buffer takes an event while it holds fewer than four thousand and ninety-six, and
/// puts it behind the others.
pub proof fn lemma_buffer_takes_until_full(b: BufferState, entry: DelayBufferEntry)
    ensures
        b.is_full() <==> b.held.len() >= 4096,
        b.inserted(entry).held == b.held.push(entry),
{
}

} // verus!
