//! Order book delta compression using run-length and dictionary encoding.

use vstd::prelude::*;
use crate::bytes::{
    le_bytes,
    le_value,
    lemma_le_len,
    lemma_le_round_trip,
    lemma_pow256,
    put_le,
};
use crate::ring::{lemma_ring_drop, lemma_ring_push, pushed, ring};

verus! {

broadcast use vstd::array::group_array_axioms;

/// Price in fixed-point units.
pub type FixedPrice = i64;

/// Quantity in fixed-point units.
pub type FixedQty = i64;

/// Maximum encoded message size.
pub const MAX_ENCODED_SIZE: usize = 4096;

/// Bytes of one encoded run.
pub const RUN_SIZE: usize = 17;

/// Slots of the delta buffer.
pub const DELTA_SLOTS: usize = 256;

/// Slots of the price dictionary.
pub const DICT_SLOTS: usize = 64;

/// Encoded delta operation types.
#[derive(Debug, Clone, Copy, PartialEq, Eq, Structural)]
pub enum DeltaOp {
    Insert,
    Update,
    Delete,
    Snapshot,
}

impl DeltaOp {
    /// Two-bit code of the operation.
    pub open spec fn spec_code(self) -> u8 {
        match self {
            DeltaOp::Insert => 0,
            DeltaOp::Update => 1,
            DeltaOp::Delete => 2,
            DeltaOp::Snapshot => 3,
        }
    }

    /// Two-bit code of the operation.
    pub fn code(self) -> (r: u8)
        ensures
            r == self.spec_code(),
    {
        match self {
            DeltaOp::Insert => 0,
            DeltaOp::Update => 1,
            DeltaOp::Delete => 2,
            DeltaOp::Snapshot => 3,
        }
    }
}

/// Delta entry.
#[derive(Debug, Clone, Copy)]
pub struct DeltaEntry {
    /// Price.
    pub price: FixedPrice,
    /// Quantity.
    pub qty: FixedQty,
    /// 0 = bid, 1 = ask.
    pub side: u8,
    /// Operation.
    pub op_type: DeltaOp,
    /// Sequence number.
    pub sequence: u64,
    /// Time of the change.
    pub timestamp_ticks: u64,
}

impl DeltaEntry {
    /// Entry with every field zero.
    pub open spec fn spec_new() -> Self {
        DeltaEntry {
            price: 0,
            qty: 0,
            side: 0,
            op_type: DeltaOp::Insert,
            sequence: 0,
            timestamp_ticks: 0,
        }
    }

    /// Entry with every field zero.
    pub fn new() -> (r: Self)
        ensures
            r == Self::spec_new(),
    {
        DeltaEntry {
            price: 0,
            qty: 0,
            side: 0,
            op_type: DeltaOp::Insert,
            sequence: 0,
            timestamp_ticks: 0,
        }
    }

    /// Set every field; `now` is the time.
    pub fn set(
        &mut self,
        price: FixedPrice,
        qty: FixedQty,
        side: u8,
        op: DeltaOp,
        seq: u64,
        now: u64,
    )
        ensures
            *final(self) == (DeltaEntry {
                price,
                qty,
                side,
                op_type: op,
                sequence: seq,
                timestamp_ticks: now,
            }),
    {
        self.price = price;
        self.qty = qty;
        self.side = side;
        self.op_type = op;
        self.sequence = seq;
        self.timestamp_ticks = now;
    }
}

/// Circular buffer for delta entries.
#[derive(Debug)]
pub struct DeltaBuffer {
    /// Slots.
    pub entries: [DeltaEntry; 256],
    /// Entries written in all.
    pub head: u64,
    /// Entries gone in all, taken out or overwritten.
    pub tail: u64,
    /// Entries written less entries taken out.
    pub count: u64,
}

impl View for DeltaBuffer {
    type V = Seq<DeltaEntry>;

    /// Entries that wait, oldest first.
    open spec fn view(&self) -> Seq<DeltaEntry> {
        ring(self.entries@, self.head as int, self.head - self.tail)
    }
}

impl DeltaBuffer {
    /// No more entries wait than there are slots.
    pub open spec fn wf(&self) -> bool {
        self.tail <= self.head && self.head - self.tail <= DELTA_SLOTS
    }

    /// Empty buffer.
    pub fn new() -> (r: Self)
        ensures
            r.wf(),
            r@ == Seq::<DeltaEntry>::empty(),
            r.entries@ == Seq::new(256, |i: int| DeltaEntry::spec_new()),
            r.head == 0,
            r.tail == 0,
            r.count == 0,
    {
        let r = DeltaBuffer { entries: [DeltaEntry::new();256], head: 0, tail: 0, count: 0 };
        assert(r@ =~= Seq::<DeltaEntry>::empty());
        assert(r.entries@ =~= Seq::new(256, |i: int| DeltaEntry::spec_new()));
        r
    }

    /// Append a delta; `now` is the time. The oldest one is lost when the
    /// buffer is full.
    pub fn push(
        &mut self,
        price: FixedPrice,
        qty: FixedQty,
        side: u8,
        op: DeltaOp,
        seq: u64,
        now: u64,
    )
        requires
            old(self).wf(),
            old(self).head < u64::MAX,
        ensures
            final(self).wf(),
            final(self)@ == pushed(
                old(self)@,
                DELTA_SLOTS as int,
                DeltaEntry {
                    price,
                    qty,
                    side,
                    op_type: op,
                    sequence: seq,
                    timestamp_ticks: now,
                },
            ),
            final(self).head == old(self).head + 1,
            final(self).count == old(self).count.wrapping_add(1),
    {
        let idx: usize = (self.head % 256) as usize;
        let mut entry = DeltaEntry::new();
        entry.set(price, qty, side, op, seq, now);
        proof {
            lemma_ring_push(self.entries@, self.head as int, self.head - self.tail, entry);
        }
        self.entries[idx] = entry;
        if self.head - self.tail >= 256 {
            self.tail = self.tail + 1;
        }
        self.head = self.head + 1;
        self.count = self.count.wrapping_add(1);
    }

    /// Take the oldest delta out: price, quantity, side, operation and sequence
    /// number.
    pub fn pop(&mut self) -> (r: Option<(FixedPrice, FixedQty, u8, DeltaOp, u64)>)
        requires
            old(self).wf(),
        ensures
            final(self).wf(),
            r is None <==> old(self)@.len() == 0,
            r is None ==> *final(self) == *old(self),
            r is Some ==> {
                let e = old(self)@[0];
                &&& r == Some((e.price, e.qty, e.side, e.op_type, e.sequence))
                &&& final(self)@ == old(self)@.drop_first()
                &&& final(self).head == old(self).head
                &&& final(self).count == old(self).count.wrapping_sub(1)
            },
    {
        if self.tail >= self.head {
            return None;
        }
        let entry = self.entries[(self.tail % 256) as usize];
        proof {
            lemma_ring_drop(self.entries@, self.head as int, self.head - self.tail);
        }
        self.tail = self.tail + 1;
        self.count = self.count.wrapping_sub(1);
        Some((entry.price, entry.qty, entry.side, entry.op_type, entry.sequence))
    }
}

/// One encoded run: a byte with operation, side and run length, then price and
/// quantity.
pub open spec fn run_bytes(price: i64, qty: i64, side: u8, op: DeltaOp, run_length: u8) -> Seq<u8> {
    seq![(op.spec_code() * 64 + (side % 2) * 32 + run_length % 32) as u8] + le_bytes(
        price as u64 as int,
        8,
    ) + le_bytes(qty as u64 as int, 8)
}

/// An encoded run has a fixed size, and its fields can be read back.
pub proof fn lemma_run_readable(price: i64, qty: i64, side: u8, op: DeltaOp, run_length: u8)
    ensures
        ({
            let b = run_bytes(price, qty, side, op, run_length);
            &&& b.len() == RUN_SIZE
            &&& b[0] / 64 == op.spec_code()
            &&& b[0] / 32 % 2 == side % 2
            &&& b[0] % 32 == run_length % 32
            &&& le_value(b.subrange(1, 9)) as u64 as i64 == price
            &&& le_value(b.subrange(9, 17)) as u64 as i64 == qty
        }),
{
    let b = run_bytes(price, qty, side, op, run_length);
    let p = price as u64;
    let q = qty as u64;
    lemma_pow256();
    lemma_le_len(p as int, 8);
    lemma_le_len(q as int, 8);
    lemma_le_round_trip(p as int, 8);
    lemma_le_round_trip(q as int, 8);
    assert(b.subrange(1, 9) =~= le_bytes(p as int, 8));
    assert(b.subrange(9, 17) =~= le_bytes(q as int, 8));
    assert(price as u64 as i64 == price) by (bit_vector);
    assert(qty as u64 as i64 == qty) by (bit_vector);
}

/// Run-length encoder for consecutive identical deltas.
#[derive(Debug)]
pub struct RunLengthEncoder {
    /// Encoded runs.
    pub output_buffer: Vec<u8>,
    /// Deltas encoded.
    pub input_count: u64,
    /// Runs written.
    pub compressed_count: u64,
}

impl RunLengthEncoder {
    /// The encoded runs fit in a message.
    pub open spec fn wf(&self) -> bool {
        self.output_buffer@.len() <= MAX_ENCODED_SIZE
    }

    /// Encoder without output.
    pub fn new() -> (r: Self)
        ensures
            r.wf(),
            r.output_buffer@ == Seq::<u8>::empty(),
            r.input_count == 0,
            r.compressed_count == 0,
    {
        RunLengthEncoder { output_buffer: Vec::new(), input_count: 0, compressed_count: 0 }
    }

    /// Encode a run of identical operations. Gives the length of the output, or
    /// zero, changing nothing, when there is no room.
    pub fn encode_run(
        &mut self,
        price: FixedPrice,
        qty: FixedQty,
        side: u8,
        op: DeltaOp,
        run_length: u8,
    ) -> (r: usize)
        requires
            old(self).wf(),
        ensures
            final(self).wf(),
            old(self).output_buffer@.len() + RUN_SIZE > MAX_ENCODED_SIZE ==> r == 0 && *final(self)
                == *old(self),
            old(self).output_buffer@.len() + RUN_SIZE <= MAX_ENCODED_SIZE ==> {
                &&& r == old(self).output_buffer@.len() + RUN_SIZE
                &&& final(self).output_buffer@ == old(self).output_buffer@ + run_bytes(
                    price,
                    qty,
                    side,
                    op,
                    run_length,
                )
                &&& final(self).input_count == old(self).input_count.wrapping_add(run_length as u64)
                &&& final(self).compressed_count == old(self).compressed_count.wrapping_add(1)
            },
    {
        if self.output_buffer.len() + RUN_SIZE > MAX_ENCODED_SIZE {
            return 0;
        }
        proof {
            lemma_run_readable(price, qty, side, op, run_length);
        }
        self.output_buffer.push(op.code() * 64 + (side % 2) * 32 + run_length % 32);
        put_le(&mut self.output_buffer, price as u64, 8);
        put_le(&mut self.output_buffer, qty as u64, 8);
        assert(self.output_buffer@ =~= old(self).output_buffer@ + run_bytes(
            price,
            qty,
            side,
            op,
            run_length,
        ));
        self.input_count = self.input_count.wrapping_add(run_length as u64);
        self.compressed_count = self.compressed_count.wrapping_add(1);
        self.output_buffer.len()
    }

    /// Drop the output; the counters stay.
    pub fn reset(&mut self)
        ensures
            final(self).wf(),
            final(self).output_buffer@ == Seq::<u8>::empty(),
            final(self).input_count == old(self).input_count,
            final(self).compressed_count == old(self).compressed_count,
    {
        self.output_buffer.clear();
    }

    /// Deltas per run, in percent; zero without runs.
    pub fn get_compression_ratio(&self) -> (r: u64)
        requires
            self.compressed_count > 0 ==> self.input_count * 100 <= u64::MAX,
        ensures
            r == if self.compressed_count == 0 {
                0
            } else {
                (self.input_count * 100) / (self.compressed_count as int)
            },
    {
        if self.compressed_count == 0 {
            return 0;
        }
        (self.input_count * 100) / self.compressed_count
    }
}

/// Dictionary encoder for repeated price levels.
#[derive(Debug)]
pub struct DictionaryEncoder {
    /// Known prices, in the order in which they came.
    pub price_dict: [i64; 64],
    /// Number of known prices.
    pub dict_count: u32,
    /// Lookups of known prices.
    pub hits: u64,
    /// Other lookups.
    pub misses: u64,
}

/// Answer when the dictionary is full.
pub const NOT_FOUND: u8 = 0xFF;

impl DictionaryEncoder {
    /// Known prices.
    pub open spec fn known(&self) -> Seq<i64> {
        self.price_dict@.take(self.dict_count as int)
    }

    /// No more prices are known than there is room for, and none twice.
    pub open spec fn wf(&self) -> bool {
        self.dict_count <= DICT_SLOTS && self.known().no_duplicates()
    }

    /// Empty dictionary.
    pub fn new() -> (r: Self)
        ensures
            r.wf(),
            r.known() == Seq::<i64>::empty(),
            r.price_dict@ == Seq::new(64, |i: int| 0i64),
            r.dict_count == 0,
            r.hits == 0,
            r.misses == 0,
    {
        let r = DictionaryEncoder { price_dict: [0i64;64], dict_count: 0, hits: 0, misses: 0 };
        assert(r.known() =~= Seq::<i64>::empty());
        assert(r.price_dict@ =~= Seq::new(64, |i: int| 0i64));
        r
    }

    /// Look a price up, or add it. Gives its place, or `NOT_FOUND` when it is
    /// unknown and there is no room.
    pub fn lookup_or_insert(&mut self, price: FixedPrice) -> (r: u8)
        requires
            old(self).wf(),
        ensures
            final(self).wf(),
            old(self).known().contains(price) ==> {
                &&& r < old(self).dict_count
                &&& old(self).known()[r as int] == price
                &&& *final(self) == (DictionaryEncoder {
                    hits: old(self).hits.wrapping_add(1),
                    ..*old(self)
                })
            },
            !old(self).known().contains(price) ==> {
                &&& final(self).hits == old(self).hits
                &&& final(self).misses == old(self).misses.wrapping_add(1)
                &&& old(self).dict_count < DICT_SLOTS ==> r == old(self).dict_count && final(self).known() == old(self).known().push(price)
                &&& old(self).dict_count == DICT_SLOTS ==> r == NOT_FOUND && final(self).known()
                    == old(self).known()
            },
    {
        let count: usize = self.dict_count as usize;
        let mut i: usize = 0;
        while i < count
            invariant
                *self == *old(self),
                self.wf(),
                i <= count == self.dict_count,
                forall|k: int| 0 <= k < i ==> self.known()[k] != price,
            decreases count - i,
        {
            if self.price_dict[i] == price {
                assert(self.known()[i as int] == price);
                self.hits = self.hits.wrapping_add(1);
                return i as u8;
            }
            i = i + 1;
        }
        assert(!self.known().contains(price));
        self.misses = self.misses.wrapping_add(1);
        if count < DICT_SLOTS {
            self.price_dict[count] = price;
            self.dict_count = (count + 1) as u32;
            assert(self.known() =~= old(self).known().push(price));
            return count as u8;
        }
        NOT_FOUND
    }

    /// Share of lookups that hit, in percent; zero without lookups.
    pub fn get_hit_rate(&self) -> (r: u64)
        requires
            self.hits + self.misses <= u64::MAX,
            self.hits * 100 <= u64::MAX,
        ensures
            r == if self.hits + self.misses == 0 {
                0
            } else {
                (self.hits * 100) / (self.hits + self.misses)
            },
    {
        let total: u64 = self.hits + self.misses;
        if total == 0 {
            return 0;
        }
        (self.hits * 100) / total
    }

    /// Forget everything.
    pub fn reset(&mut self)
        ensures
            final(self).wf(),
            final(self).known() == Seq::<i64>::empty(),
            final(self).price_dict@ == Seq::new(64, |i: int| 0i64),
            final(self).hits == 0,
            final(self).misses == 0,
    {
        self.dict_count = 0;
        self.hits = 0;
        self.misses = 0;
        self.price_dict = [0i64;64];
        assert(self.price_dict@ =~= Seq::new(64, |i: int| 0i64));
        assert(self.known() =~= Seq::<i64>::empty());
    }
}

/// The numbers of the operations.
pub proof fn lemma_operation_codes(a: DeltaOp, b: DeltaOp)
    ensures
        DeltaOp::Insert.spec_code() == 0,
        DeltaOp::Update.spec_code() == 1,
        DeltaOp::Delete.spec_code() == 2,
        DeltaOp::Snapshot.spec_code() == 3,
        a.spec_code() == b.spec_code() ==> a == b,
{
}

} // verus!
