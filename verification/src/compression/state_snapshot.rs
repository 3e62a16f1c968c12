//! State snapshots for recovery, and a history of state hashes.

use vstd::prelude::*;
use crate::bytes::copy_range;
use crate::ring::{lemma_ring_push, pushed, ring};

verus! {

broadcast use vstd::array::group_array_axioms;

/// Largest snapshot (1 MiB).
pub const SNAPSHOT_BUFFER_SIZE: usize = 1_048_576;

/// Hashes that the history keeps.
pub const HASH_HISTORY_SIZE: usize = 64;

/// Marks a snapshot ("SNAPSHOT").
pub const SNAPSHOT_MAGIC: u64 = 0x534E_4150_5348_4F54;

/// Hash of the empty byte string.
pub const FNV_OFFSET: u64 = 0xcbf2_9ce4_8422_2325;

/// Factor of each hashing step.
pub const FNV_PRIME: u64 = 0x100_0000_01b3;

/// Snapshot header.
#[derive(Debug, Clone, Copy)]
pub struct SnapshotHeader {
    /// Marks a snapshot.
    pub magic: u64,
    /// Format version.
    pub version: u64,
    /// Time of the snapshot.
    pub timestamp_ticks: u64,
    /// Snapshots written.
    pub sequence_num: u64,
    /// Bytes in the snapshot.
    pub payload_size: u64,
    /// Checksum that was computed last.
    pub checksum: u64,
    /// Flags.
    pub state_flags: u8,
}

impl SnapshotHeader {
    /// Header of an empty snapshot.
    pub open spec fn spec_new() -> Self {
        SnapshotHeader {
            magic: SNAPSHOT_MAGIC,
            version: 1,
            timestamp_ticks: 0,
            sequence_num: 0,
            payload_size: 0,
            checksum: 0,
            state_flags: 0,
        }
    }

    /// Header of an empty snapshot.
    pub fn new() -> (r: Self)
        ensures
            r == Self::spec_new(),
    {
        SnapshotHeader {
            magic: SNAPSHOT_MAGIC,
            version: 1,
            timestamp_ticks: 0,
            sequence_num: 0,
            payload_size: 0,
            checksum: 0,
            state_flags: 0,
        }
    }

    /// Note the time `now`.
    pub fn set_timestamp(&mut self, now: u64)
        ensures
            *final(self) == (SnapshotHeader { timestamp_ticks: now, ..*old(self) }),
    {
        self.timestamp_ticks = now;
    }

    /// The time noted.
    pub fn get_timestamp(&self) -> (r: u64)
        ensures
            r == self.timestamp_ticks,
    {
        self.timestamp_ticks
    }
}

/// Checksum of a byte string: its bytes, each shifted to its place in a word of
/// eight, combined by exclusive or.
pub open spec fn xor_sum(data: Seq<u8>) -> u64
    decreases data.len(),
{
    if data.len() == 0 {
        0
    } else {
        xor_sum(data.drop_last()) ^ (data.last() as u64) << (((data.len() - 1) % 8) * 8) as u64
    }
}

/// State snapshot manager.
#[derive(Debug)]
pub struct StateSnapshot {
    /// Header.
    pub header: SnapshotHeader,
    /// The snapshot.
    pub data_buffer: Vec<u8>,
    /// Sequence number of the last write.
    pub write_pos: u64,
    /// Read position.
    pub read_pos: u64,
    /// Snapshots written.
    pub snapshot_count: u64,
    /// Whether there is a snapshot (0 or 1).
    pub is_valid: u8,
}

impl StateSnapshot {
    /// The header tells the size of the snapshot, which is within bounds.
    pub open spec fn wf(&self) -> bool {
        self.header.payload_size == self.data_buffer@.len() && self.data_buffer@.len()
            <= SNAPSHOT_BUFFER_SIZE
    }

    /// What can be read: the snapshot, unless there is none or it is empty.
    pub open spec fn content(&self) -> Option<Seq<u8>> {
        if self.is_valid != 0 && self.data_buffer@.len() > 0 {
            Some(self.data_buffer@)
        } else {
            None
        }
    }

    /// `after` is this manager after it took `data` as its snapshot at time `now`.
    pub open spec fn replaced(&self, data: Seq<u8>, now: u64, after: Self) -> bool {
        &&& after.data_buffer@ == data
        &&& after == (StateSnapshot {
            header: SnapshotHeader {
                payload_size: data.len() as u64,
                timestamp_ticks: now,
                sequence_num: (self.header.sequence_num + 1) as u64,
                ..self.header
            },
            data_buffer: after.data_buffer,
            write_pos: (self.header.sequence_num + 1) as u64,
            snapshot_count: self.snapshot_count.wrapping_add(1),
            is_valid: 1,
            ..*self
        })
    }

    /// This manager after its checksum was computed.
    pub open spec fn checked(self) -> Self {
        StateSnapshot {
            header: SnapshotHeader { checksum: xor_sum(self.data_buffer@), ..self.header },
            ..self
        }
    }

    /// The snapshot is there and has the checksum that the header notes.
    pub open spec fn verifies(&self) -> bool {
        self.is_valid != 0 && self.header.checksum == xor_sum(self.data_buffer@)
    }

    /// Manager without a snapshot.
    pub fn new() -> (r: Self)
        ensures
            r.wf(),
            r.header == SnapshotHeader::spec_new(),
            r.data_buffer@ == Seq::<u8>::empty(),
            r.write_pos == 0,
            r.read_pos == 0,
            r.snapshot_count == 0,
            r.is_valid == 0,
    {
        StateSnapshot {
            header: SnapshotHeader::new(),
            data_buffer: Vec::new(),
            write_pos: 0,
            read_pos: 0,
            snapshot_count: 0,
            is_valid: 0,
        }
    }

    /// Write a snapshot at time `now`, replacing the one before. One that is too
    /// long is refused.
    pub fn write(&mut self, data: &[u8], now: u64) -> (r: bool)
        requires
            old(self).wf(),
            old(self).header.sequence_num < u64::MAX,
        ensures
            final(self).wf(),
            r == (data@.len() <= SNAPSHOT_BUFFER_SIZE),
            !r ==> *final(self) == *old(self),
            r ==> old(self).replaced(data@, now, *final(self)),
    {
        if data.len() > SNAPSHOT_BUFFER_SIZE {
            return false;
        }
        self.data_buffer = copy_range(data, 0, data.len());
        assert(self.data_buffer@ =~= data@);
        self.header.payload_size = data.len() as u64;
        self.header.set_timestamp(now);
        self.header.sequence_num = self.header.sequence_num + 1;
        self.write_pos = self.header.sequence_num;
        self.snapshot_count = self.snapshot_count.wrapping_add(1);
        self.is_valid = 1;
        true
    }

    /// Read the current snapshot. There is none before the first write, nor when
    /// it is empty.
    pub fn read(&self) -> (r: Option<&[u8]>)
        requires
            self.wf(),
        ensures
            match r {
                Some(data) => self.content() == Some(data@),
                None => self.content() is None,
            },
    {
        if self.is_valid == 0 {
            return None;
        }
        if self.header.payload_size == 0 {
            return None;
        }
        Some(self.data_buffer.as_slice())
    }

    /// Compute the checksum and note it in the header.
    pub fn calculate_checksum(&mut self) -> (r: u64)
        requires
            old(self).wf(),
        ensures
            final(self).wf(),
            r == xor_sum(old(self).data_buffer@),
            *final(self) == old(self).checked(),
    {
        let mut checksum: u64 = 0;
        let mut i: usize = 0;
        while i < self.data_buffer.len()
            invariant
                i <= self.data_buffer@.len(),
                *self == *old(self),
                checksum == xor_sum(self.data_buffer@.take(i as int)),
            decreases self.data_buffer@.len() - i,
        {
            assert(self.data_buffer@.take(i + 1).drop_last() =~= self.data_buffer@.take(i as int));
            let shift: u64 = ((i % 8) * 8) as u64;
            checksum = checksum ^ (self.data_buffer[i] as u64) << shift;
            i = i + 1;
        }
        assert(self.data_buffer@.take(self.data_buffer@.len() as int) =~= self.data_buffer@);
        self.header.checksum = checksum;
        checksum
    }

    /// Verify snapshot integrity: whether there is a snapshot with the checksum
    /// that the header notes. The header then notes the checksum found.
    pub fn verify(&mut self) -> (r: bool)
        requires
            old(self).wf(),
        ensures
            final(self).wf(),
            r == old(self).verifies(),
            old(self).is_valid == 0 ==> *final(self) == *old(self),
            old(self).is_valid != 0 ==> *final(self) == old(self).checked(),
    {
        if self.is_valid == 0 {
            return false;
        }
        let stored: u64 = self.header.checksum;
        let calculated: u64 = self.calculate_checksum();
        stored == calculated
    }

    /// Snapshots written, sequence number and size.
    pub fn get_stats(&self) -> (r: (u64, u64, u64))
        ensures
            r == (self.snapshot_count, self.header.sequence_num, self.header.payload_size),
    {
        (self.snapshot_count, self.header.sequence_num, self.header.payload_size)
    }
}

/// Combining with the same word by exclusive or keeps different words apart.
proof fn lemma_xor_apart(a: u64, b: u64, w: u64)
    requires
        a != b,
    ensures
        a ^ w != b ^ w,
{
    assert(a ^ w != b ^ w) by (bit_vector)
        requires
            a != b,
    ;
}

/// Shifting different bytes to one place keeps them apart.
proof fn lemma_shift_apart(x: u8, y: u8, s: u64, c: u64)
    requires
        x != y,
        s <= 56,
    ensures
        c ^ (x as u64) << s != c ^ (y as u64) << s,
{
    assert(c ^ (x as u64) << s != c ^ (y as u64) << s) by (bit_vector)
        requires
            x != y,
            s <= 56,
    ;
}

/// A change of a single byte changes the checksum.
pub proof fn lemma_checksum_sees_byte(data: Seq<u8>, i: int, b: u8)
    requires
        0 <= i < data.len(),
        data[i] != b,
    ensures
        xor_sum(data.update(i, b)) != xor_sum(data),
    decreases data.len(),
{
    let t = data.update(i, b);
    let s = (((data.len() - 1) % 8) * 8) as u64;
    if i == data.len() - 1 {
        assert(t.drop_last() =~= data.drop_last());
        lemma_shift_apart(data.last(), b, s, xor_sum(data.drop_last()));
    } else {
        assert(t.drop_last() =~= data.drop_last().update(i, b));
        lemma_checksum_sees_byte(data.drop_last(), i, b);
        lemma_xor_apart(
            xor_sum(data.drop_last()),
            xor_sum(t.drop_last()),
            (data.last() as u64) << s,
        );
    }
}

/// A snapshot is read back as it was written, and what was there before is gone.
pub proof fn lemma_write_reads_back(pre: StateSnapshot, post: StateSnapshot, data: Seq<u8>, now: u64)
    requires
        pre.replaced(data, now, post),
        data.len() > 0,
    ensures
        post.content() == Some(data),
{
}

/// A snapshot verifies once its checksum was computed, and no longer after a
/// single byte of it has changed.
pub proof fn lemma_corruption_found(s: StateSnapshot, t: StateSnapshot, i: int, b: u8)
    requires
        s.is_valid != 0,
        0 <= i < s.data_buffer@.len(),
        b != s.data_buffer@[i],
        t.data_buffer@ == s.data_buffer@.update(i, b),
        t.header == s.checked().header,
    ensures
        s.checked().verifies(),
        !t.verifies(),
{
    lemma_checksum_sees_byte(s.data_buffer@, i, b);
}

/// Historical state hash tracker.
#[derive(Debug)]
pub struct HashHistory {
    /// Hashes, in a ring.
    pub hashes: [u64; 64],
    /// Times at which they were recorded.
    pub timestamps: [u64; 64],
    /// Hashes recorded in all.
    pub head: u64,
    /// Hashes that are kept.
    pub count: u64,
}

impl HashHistory {
    /// As many hashes are kept as were recorded, up to the size of the ring.
    pub open spec fn wf(&self) -> bool {
        self.count == crate::fixed::min(self.head as int, HASH_HISTORY_SIZE as int)
    }

    /// Hashes kept, oldest first.
    pub open spec fn recent(&self) -> Seq<u64> {
        ring(self.hashes@, self.head as int, self.count as int)
    }

    /// Times of the hashes kept, oldest first.
    pub open spec fn times(&self) -> Seq<u64> {
        ring(self.timestamps@, self.head as int, self.count as int)
    }

    /// Empty history.
    pub fn new() -> (r: Self)
        ensures
            r.wf(),
            r.recent() == Seq::<u64>::empty(),
            r.times() == Seq::<u64>::empty(),
            r.hashes@ == Seq::new(64, |i: int| 0u64),
            r.timestamps@ == Seq::new(64, |i: int| 0u64),
            r.head == 0,
            r.count == 0,
    {
        let r = HashHistory { hashes: [0u64;64], timestamps: [0u64;64], head: 0, count: 0 };
        assert(r.recent() =~= Seq::<u64>::empty());
        assert(r.times() =~= Seq::<u64>::empty());
        assert(r.hashes@ =~= Seq::new(64, |i: int| 0u64));
        assert(r.timestamps@ =~= Seq::new(64, |i: int| 0u64));
        r
    }

    /// Record a state hash at time `now`. The oldest one leaves when the history
    /// is full.
    pub fn record(&mut self, hash: u64, now: u64)
        requires
            old(self).wf(),
            old(self).head < u64::MAX,
        ensures
            final(self).wf(),
            final(self).recent() == pushed(old(self).recent(), HASH_HISTORY_SIZE as int, hash),
            final(self).times() == pushed(old(self).times(), HASH_HISTORY_SIZE as int, now),
            final(self).head == old(self).head + 1,
    {
        let idx: usize = (self.head % 64) as usize;
        proof {
            lemma_ring_push(self.hashes@, self.head as int, self.count as int, hash);
            lemma_ring_push(self.timestamps@, self.head as int, self.count as int, now);
        }
        self.hashes[idx] = hash;
        self.timestamps[idx] = now;
        self.head = self.head + 1;
        if self.count < HASH_HISTORY_SIZE as u64 {
            self.count = self.count + 1;
        }
    }

    /// The `n`-th most recent hash; the most recent one is the first.
    pub fn get_hash(&self, n: usize) -> (r: Option<u64>)
        requires
            self.wf(),
        ensures
            r == if 1 <= n <= self.recent().len() {
                Some(self.recent()[self.recent().len() - n])
            } else {
                None
            },
    {
        if n == 0 || n > HASH_HISTORY_SIZE {
            return None;
        }
        if n as u64 > self.count {
            return None;
        }
        let idx: usize = ((self.head - n as u64) % 64) as usize;
        Some(self.hashes[idx])
    }

    /// Check if a hash is in the history (for duplicate detection).
    pub fn contains(&self, hash: u64) -> (r: bool)
        requires
            self.wf(),
        ensures
            r == self.recent().contains(hash),
    {
        let ghost kept = self.recent();
        let mut i: u64 = 0;
        while i < self.count
            invariant
                self.wf(),
                kept == self.recent(),
                i <= self.count,
                forall|k: int| self.count - i <= k < self.count ==> kept[k] != hash,
            decreases self.count - i,
        {
            let idx: usize = ((self.head - 1 - i) % 64) as usize;
            assert(self.hashes@[idx as int] == kept[self.count - 1 - i]);
            if self.hashes[idx] == hash {
                return true;
            }
            i = i + 1;
        }
        false
    }

    /// Time between the last two hashes (in ticks); zero if there are fewer.
    pub fn get_last_delta(&self) -> (r: u64)
        requires
            self.wf(),
        ensures
            r == if self.times().len() < 2 {
                0
            } else {
                self.times()[self.times().len() - 1].wrapping_sub(
                    self.times()[self.times().len() - 2],
                )
            },
    {
        if self.count < 2 {
            return 0;
        }
        let last: usize = ((self.head - 1) % 64) as usize;
        let before: usize = ((self.head - 2) % 64) as usize;
        self.timestamps[last].wrapping_sub(self.timestamps[before])
    }
}

/// Hash of a byte string: each byte is combined by exclusive or, then the
/// result is multiplied by the prime, modulo 2^64.
pub open spec fn fnv(bytes: Seq<u8>) -> u64
    decreases bytes.len(),
{
    if bytes.len() == 0 {
        FNV_OFFSET
    } else {
        (((fnv(bytes.drop_last()) ^ bytes.last() as u64) * FNV_PRIME) % 0x1_0000_0000_0000_0000)
            as u64
    }
}

/// FNV-1a hash for state fingerprinting.
pub fn fnv1a_hash(data: &[u8]) -> (r: u64)
    ensures
        r == fnv(data@),
{
    let mut hash: u64 = FNV_OFFSET;
    let mut i: usize = 0;
    while i < data.len()
        invariant
            i <= data@.len(),
            hash == fnv(data@.take(i as int)),
        decreases data@.len() - i,
    {
        assert(data@.take(i + 1).drop_last() =~= data@.take(i as int));
        hash = (hash ^ data[i] as u64).wrapping_mul(FNV_PRIME);
        i = i + 1;
    }
    assert(data@.take(data@.len() as int) =~= data@);
    hash
}

/// The checksum folds in each byte by exclusive or, at the place that its number modulo
/// eight gives, the first byte lowest.
pub proof fn lemma_checksum_folds(data: Seq<u8>, b: u8)
    ensures
        xor_sum(Seq::<u8>::empty()) == 0,
        xor_sum(data.push(b)) == xor_sum(data) ^ ((b as u64) << ((8 * (data.len() % 8)) as u64)),
{
    assert(data.push(b).drop_last() =~= data);
}

/// The hash starts from 0xcbf29ce484222325; each byte is combined by exclusive or and the
/// result multiplied by 0x100000001b3, within 64 bits.
pub proof fn lemma_hash_folds(data: Seq<u8>, b: u8)
    ensures
        fnv(Seq::<u8>::empty()) == 0xcbf2_9ce4_8422_2325,
        fnv(data.push(b)) == ((fnv(data) ^ (b as u64)) * 0x100_0000_01b3) % 0x1_0000_0000_0000_0000,
{
    assert(data.push(b).drop_last() =~= data);
}

/// A snapshot that is written holds the data, its size and the time, has the next number,
/// and is valid.
pub proof fn lemma_written(pre: StateSnapshot, post: StateSnapshot, data: Seq<u8>, now: u64)
    requires
        pre.replaced(data, now, post),
        pre.header.sequence_num < u64::MAX,
        data.len() <= 1_048_576,
    ensures
        post.data_buffer@ == data,
        post.header.payload_size == data.len(),
        post.header.timestamp_ticks == now,
        post.header.sequence_num == pre.header.sequence_num + 1,
        post.is_valid != 0,
        post.header.magic == pre.header.magic,
        post.header.version == pre.header.version,
{
}

} // verus!
