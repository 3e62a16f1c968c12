//! Append-only audit log for all order and risk events.
//!
//! Each record is timestamped and carries the hash of the record before it, so
//! that a change to an earlier record breaks the chain.

use vstd::prelude::*;
use crate::bytes::{copy_range, put_le, put_slice};

verus! {

broadcast use vstd::array::group_array_axioms;

/// Sector size for disk alignment.
pub const SECTOR_SIZE: usize = 512;

/// Largest size of the log (1 GiB).
pub const MAX_LOG_SIZE: usize = 1_073_741_824;

/// Bytes in a record hash.
pub const HASH_SIZE: usize = 32;

/// Audit event types.
#[derive(Debug, Clone, Copy, PartialEq, Eq, Structural)]
pub enum AuditEventType {
    OrderNew,
    OrderCancel,
    OrderFill,
    RiskCheck,
    BalanceUpdate,
    PositionChange,
    SystemEvent,
    ComplianceCheck,
}

impl AuditEventType {
    /// Number under which the event type is recorded.
    pub open spec fn spec_code(self) -> u8 {
        match self {
            AuditEventType::OrderNew => 0,
            AuditEventType::OrderCancel => 1,
            AuditEventType::OrderFill => 2,
            AuditEventType::RiskCheck => 3,
            AuditEventType::BalanceUpdate => 4,
            AuditEventType::PositionChange => 5,
            AuditEventType::SystemEvent => 6,
            AuditEventType::ComplianceCheck => 7,
        }
    }

    /// Number under which the event type is recorded.
    pub fn code(self) -> (r: u8)
        ensures
            r == self.spec_code(),
    {
        match self {
            AuditEventType::OrderNew => 0,
            AuditEventType::OrderCancel => 1,
            AuditEventType::OrderFill => 2,
            AuditEventType::RiskCheck => 3,
            AuditEventType::BalanceUpdate => 4,
            AuditEventType::PositionChange => 5,
            AuditEventType::SystemEvent => 6,
            AuditEventType::ComplianceCheck => 7,
        }
    }
}

/// Audit record header, exactly one sector long.
#[derive(Debug, Clone, Copy)]
pub struct AuditRecordHeader {
    /// Record sequence number.
    pub sequence: u64,
    /// Timestamp (cycles).
    pub timestamp: u64,
    /// Event type.
    pub event_type: u8,
    /// Priority level.
    pub priority: u8,
    /// Source component ID.
    pub source_id: u16,
    /// Data length in bytes.
    pub data_len: u32,
    /// Hash of the previous record (for chain integrity).
    pub prev_hash: [u8; 32],
    /// Signature of this record.
    pub signature: [u8; 64],
    /// Fills the sector.
    pub padding: [u8; 392],
}

impl AuditRecordHeader {
    /// Header with every field zero.
    pub fn new() -> (r: Self)
        ensures
            r.sequence == 0,
            r.timestamp == 0,
            r.event_type == 0,
            r.priority == 0,
            r.source_id == 0,
            r.data_len == 0,
            r.prev_hash@ == zero_hash(),
            r.signature@ == Seq::new(64, |i: int| 0u8),
            r.padding@ == Seq::new(392, |i: int| 0u8),
    {
        let r = AuditRecordHeader {
            sequence: 0,
            timestamp: 0,
            event_type: 0,
            priority: 0,
            source_id: 0,
            data_len: 0,
            prev_hash: [0u8; 32],
            signature: [0u8; 64],
            padding: [0u8; 392],
        };
        assert(r.prev_hash@ =~= zero_hash());
        assert(r.signature@ =~= Seq::new(64, |i: int| 0u8));
        assert(r.padding@ =~= Seq::new(392, |i: int| 0u8));
        r
    }

    /// Bytes of the header as it is laid out, up to and with the previous hash.
    pub open spec fn leading_bytes(self) -> Seq<u8> {
        crate::bytes::le_bytes(self.sequence as int, 8) + crate::bytes::le_bytes(
            self.timestamp as int,
            8,
        ) + seq![self.event_type, self.priority] + crate::bytes::le_bytes(self.source_id as int, 2)
            + crate::bytes::le_bytes(self.data_len as int, 4) + self.prev_hash@
    }

    /// Bytes of the header as it is laid out, up to and with the previous hash.
    fn leading(&self) -> (r: Vec<u8>)
        ensures
            r@ == self.leading_bytes(),
    {
        let mut out: Vec<u8> = Vec::new();
        put_le(&mut out, self.sequence, 8);
        put_le(&mut out, self.timestamp, 8);
        out.push(self.event_type);
        out.push(self.priority);
        put_le(&mut out, self.source_id as u64, 2);
        put_le(&mut out, self.data_len as u64, 4);
        put_slice(&mut out, &self.prev_hash);
        assert(out@ =~= self.leading_bytes());
        out
    }
}

/// A record: header and payload.
#[derive(Debug)]
pub struct AuditRecord {
    /// Header.
    pub header: AuditRecordHeader,
    /// Payload.
    pub data: Vec<u8>,
}

/// Header and payload of a record.
pub type RecordView = (AuditRecordHeader, Seq<u8>);

/// Hash before the first record.
pub open spec fn zero_hash() -> Seq<u8> {
    Seq::new(32, |i: int| 0u8)
}

/// Hash of a record: its leading header bytes, each combined by exclusive or
/// with the payload byte of the same position, where there is one.
pub open spec fn record_hash(r: RecordView) -> Seq<u8> {
    Seq::new(
        32,
        |i: int|
            r.0.leading_bytes()[i] ^ (if i < r.1.len() {
                r.1[i]
            } else {
                0u8
            }),
    )
}

/// Hash that the record at position `i` must name as its predecessor's.
pub open spec fn tip(records: Seq<RecordView>, i: int) -> Seq<u8> {
    if i <= 0 {
        zero_hash()
    } else {
        record_hash(records[i - 1])
    }
}

/// Every record names its predecessor's hash.
pub open spec fn chained(records: Seq<RecordView>) -> bool {
    forall|i: int|
        0 <= i < records.len() ==> (#[trigger] records[i]).0.prev_hash@ == tip(records, i)
}

/// Bytes a record takes: a sector for the header, and one for the payload if
/// it has one.
pub open spec fn footprint(len: nat) -> int {
    if len == 0 {
        SECTOR_SIZE as int
    } else {
        2 * SECTOR_SIZE
    }
}

/// The header bytes that a hash covers are all there.
pub proof fn lemma_leading_len(h: AuditRecordHeader)
    ensures
        h.leading_bytes().len() == 56,
{
    crate::bytes::lemma_le_len(h.sequence as int, 8);
    crate::bytes::lemma_le_len(h.timestamp as int, 8);
    crate::bytes::lemma_le_len(h.source_id as int, 2);
    crate::bytes::lemma_le_len(h.data_len as int, 4);
}

/// A record that names the last hash extends a chain to a longer chain.
pub proof fn lemma_append_keeps_chain(records: Seq<RecordView>, r: RecordView)
    requires
        chained(records),
        r.0.prev_hash@ == tip(records, records.len() as int),
    ensures
        chained(records.push(r)),
{
    let t = records.push(r);
    assert forall|i: int| 0 <= i < t.len() implies (#[trigger] t[i]).0.prev_hash@ == tip(t, i) by {
        if i < records.len() {
            assert(t[i] == records[i]);
        }
        if i > 0 {
            assert(t[i - 1] == records[i - 1]);
        }
    }
}

/// A change to the hash of any record but the last breaks the chain.
pub proof fn lemma_tampering_breaks_chain(records: Seq<RecordView>, i: int, r: RecordView)
    requires
        chained(records),
        0 <= i < records.len() - 1,
        record_hash(r) != record_hash(records[i]),
    ensures
        !chained(records.update(i, r)),
{
    let t = records.update(i, r);
    assert(records[i + 1].0.prev_hash@ == tip(records, i + 1));
    assert(t[i + 1] == records[i + 1]);
    assert(tip(t, i + 1) == record_hash(r));
}

/// The hash covers each of the first 32 payload bytes: payloads of one length
/// that differ in one of them have different hashes under one header.
pub proof fn lemma_payload_hashed(h: AuditRecordHeader, a: Seq<u8>, b: Seq<u8>, k: int)
    requires
        a.len() == b.len(),
        0 <= k < a.len(),
        k < 32,
        a[k] != b[k],
    ensures
        record_hash((h, a)) != record_hash((h, b)),
{
    let x = h.leading_bytes()[k];
    let p = a[k];
    let q = b[k];
    assert(x ^ p != x ^ q) by (bit_vector)
        requires
            p != q,
    ;
    assert(record_hash((h, a))[k] == x ^ p);
    assert(record_hash((h, b))[k] == x ^ q);
}

/// The audit ledger.
#[derive(Debug)]
pub struct AuditLedger {
    /// Records, oldest first.
    pub records: Vec<AuditRecord>,
    /// Total size of the log.
    pub mapped_size: usize,
    /// Current write offset (sector-aligned).
    pub write_offset: u64,
    /// Record count.
    pub record_count: u64,
    /// Hash of the last record.
    pub last_hash: [u8; 32],
    /// Flag indicating if the ledger is active.
    pub is_active: bool,
    /// Sync failure count.
    pub sync_failures: u64,
}

impl AuditLedger {
    /// Headers and payloads, oldest first.
    pub open spec fn entries(&self) -> Seq<RecordView> {
        self.records@.map_values(|r: AuditRecord| (r.header, r.data@))
    }

    /// Records and counters of an active ledger agree.
    pub open spec fn counts_ok(&self) -> bool {
        self.is_active ==> {
            &&& self.record_count == self.records@.len()
            &&& self.mapped_size == MAX_LOG_SIZE
            &&& SECTOR_SIZE * (1 + self.records@.len()) <= self.write_offset
        }
    }

    /// An active ledger holds a chain of numbered records and its last hash.
    pub open spec fn wf(&self) -> bool {
        &&& self.counts_ok()
        &&& self.is_active ==> {
            &&& chained(self.entries())
            &&& self.last_hash@ == tip(self.entries(), self.records@.len() as int)
            &&& forall|i: int|
                0 <= i < self.records@.len() ==> (#[trigger] self.records@[i]).header.sequence == i
                    && self.records@[i].header.data_len == self.records@[i].data@.len()
        }
    }

    /// Create a new audit ledger. The first sector is reserved.
    pub fn init() -> (r: Result<Self, &'static str>)
        ensures
            r is Ok,
            r->Ok_0.wf(),
            r->Ok_0.entries() == Seq::<RecordView>::empty(),
            r->Ok_0.mapped_size == MAX_LOG_SIZE,
            r->Ok_0.write_offset == SECTOR_SIZE,
            r->Ok_0.record_count == 0,
            r->Ok_0.last_hash@ == zero_hash(),
            r->Ok_0.is_active,
            r->Ok_0.sync_failures == 0,
    {
        let ledger = AuditLedger {
            records: Vec::new(),
            mapped_size: MAX_LOG_SIZE,
            write_offset: SECTOR_SIZE as u64,
            record_count: 0,
            last_hash: [0u8; 32],
            is_active: true,
            sync_failures: 0,
        };
        assert(ledger.last_hash@ =~= zero_hash());
        assert(ledger.entries() =~= Seq::<RecordView>::empty());
        Ok(ledger)
    }

    /// What appending would do: the error, if there is one.
    pub open spec fn append_error(&self, len: nat) -> Option<&'static str> {
        if !self.is_active {
            Some("Ledger not active")
        } else if len > SECTOR_SIZE {
            Some("Data too large for single record")
        } else if self.write_offset + footprint(len) > self.mapped_size {
            Some("Ledger full")
        } else {
            None
        }
    }

    /// Append a new audit record, stamped with `now`. Gives its sequence number.
    pub fn append(&mut self, event_type: AuditEventType, source_id: u16, data: &[u8], now: u64) -> (r:
        Result<u64, &'static str>)
        requires
            old(self).wf(),
            old(self).is_active && data@.len() <= SECTOR_SIZE ==> old(self).write_offset + footprint(
                data@.len(),
            ) <= u64::MAX,
        ensures
            final(self).wf(),
            r is Err <==> old(self).append_error(data@.len()) is Some,
            r is Err ==> Some(r->Err_0) == old(self).append_error(data@.len()) && final(self).entries() == old(self).entries() && final(self).record_count == old(self).record_count && final(self).last_hash@ == old(self).last_hash@,
            old(self).is_active && data@.len() <= SECTOR_SIZE ==> final(self).write_offset == old(self).write_offset + footprint(data@.len()),
            !old(self).is_active || data@.len() > SECTOR_SIZE ==> final(self).write_offset == old(self).write_offset,
            final(self).sync_failures == if old(self).is_active && data@.len() <= SECTOR_SIZE
                && r is Err {
                old(self).sync_failures.wrapping_add(1)
            } else {
                old(self).sync_failures
            },
            final(self).is_active == old(self).is_active,
            final(self).mapped_size == old(self).mapped_size,
            r is Ok ==> {
                let entry = final(self).entries().last();
                &&& r->Ok_0 == old(self).record_count
                &&& final(self).record_count == old(self).record_count + 1
                &&& final(self).entries() == old(self).entries().push(entry)
                &&& entry.0.sequence == old(self).record_count
                &&& entry.0.timestamp == now
                &&& entry.0.event_type == event_type.spec_code()
                &&& entry.0.priority == 0
                &&& entry.0.source_id == source_id
                &&& entry.0.data_len == data@.len()
                &&& entry.0.prev_hash@ == old(self).last_hash@
                &&& entry.0.signature@ == Seq::new(64, |i: int| 0u8)
                &&& entry.1 == data@
                &&& final(self).entries()[r->Ok_0 as int] == entry
                &&& final(self).last_hash@ == record_hash(entry)
            },
    {
        if !self.is_active {
            return Err("Ledger not active");
        }
        if data.len() > SECTOR_SIZE {
            return Err("Data too large for single record");
        }
        let size: u64 = if data.len() == 0 {
            SECTOR_SIZE as u64
        } else {
            2 * SECTOR_SIZE as u64
        };
        let offset: u64 = self.write_offset;
        self.write_offset = offset + size;
        if offset + size > self.mapped_size as u64 {
            self.sync_failures = self.sync_failures.wrapping_add(1);
            assert(self.entries() == old(self).entries());
            return Err("Ledger full");
        }
        let mut header = AuditRecordHeader::new();
        header.sequence = self.record_count;
        header.timestamp = now;
        header.event_type = event_type.code();
        header.source_id = source_id;
        header.data_len = data.len() as u32;
        header.prev_hash = self.last_hash;
        let payload = copy_range(data, 0, data.len());
        assert(payload@ =~= data@);
        let hash = Self::update_hash(&header, data);
        let ghost before = self.entries();
        let ghost entry = (header, data@);
        self.last_hash = hash;
        self.records.push(AuditRecord { header, data: payload });
        let seq: u64 = self.record_count;
        self.record_count = seq + 1;
        proof {
            assert(self.entries() =~= before.push(entry));
            lemma_append_keeps_chain(before, entry);
        }
        Ok(seq)
    }

    /// Hash of a record with this header and payload.
    fn update_hash(header: &AuditRecordHeader, data: &[u8]) -> (r: [u8; 32])
        ensures
            r@ == record_hash((*header, data@)),
    {
        proof {
            lemma_leading_len(*header);
        }
        let bytes = header.leading();
        let mut hash = [0u8; 32];
        let mut i: usize = 0;
        while i < HASH_SIZE
            invariant
                i <= HASH_SIZE,
                bytes@ == header.leading_bytes(),
                bytes@.len() == 56,
                hash@.len() == 32,
                forall|k: int| 0 <= k < i ==> hash@[k] == record_hash((*header, data@))[k],
            decreases HASH_SIZE - i,
        {
            let d: u8 = if i < data.len() {
                data[i]
            } else {
                0
            };
            hash[i] = bytes[i] ^ d;
            i = i + 1;
        }
        assert(hash@ =~= record_hash((*header, data@)));
        hash
    }

    /// Read a record by sequence number.
    pub fn read_record(&self, seq: u64) -> (r: Option<(AuditRecordHeader, Vec<u8>)>)
        requires
            self.counts_ok(),
            seq < self.record_count ==> self.is_active,
        ensures
            match r {
                Some((header, data)) => seq < self.record_count && (header, data@)
                    == self.entries()[seq as int],
                None => seq >= self.record_count,
            },
    {
        if seq >= self.record_count {
            return None;
        }
        assert(seq < self.records.len());
        let record = &self.records[seq as usize];
        let data = copy_range(record.data.as_slice(), 0, record.data.len());
        assert(data@ =~= record.data@);
        assert(self.entries()[seq as int] == (record.header, record.data@));
        Some((record.header, data))
    }

    /// Verify the integrity of the ledger: every record names the hash of the
    /// record before it.
    pub fn verify_integrity(&self) -> (r: bool)
        requires
            self.counts_ok(),
            self.record_count > 0 ==> self.is_active,
        ensures
            r == (self.record_count == 0 || chained(self.entries())),
    {
        if self.record_count == 0 {
            return true;
        }
        let ghost e = self.entries();
        let mut expected = [0u8; 32];
        assert(expected@ =~= zero_hash());
        let mut seq: usize = 0;
        while seq < self.records.len()
            invariant
                seq <= self.records@.len(),
                self.record_count > 0,
                e == self.entries(),
                expected@ == tip(e, seq as int),
                forall|i: int| 0 <= i < seq ==> (#[trigger] e[i]).0.prev_hash@ == tip(e, i),
            decreases self.records@.len() - seq,
        {
            let record = &self.records[seq];
            assert(e[seq as int] == (record.header, record.data@));
            if !same_hash(&record.header.prev_hash, &expected) {
                return false;
            }
            expected = Self::update_hash(&record.header, record.data.as_slice());
            seq = seq + 1;
        }
        true
    }

    /// Record count, write offset and sync failures.
    pub fn get_stats(&self) -> (r: (u64, u64, u64))
        ensures
            r == (self.record_count, self.write_offset, self.sync_failures),
    {
        (self.record_count, self.write_offset, self.sync_failures)
    }

    /// Close the ledger and release its records.
    pub fn shutdown(&mut self)
        ensures
            !final(self).is_active,
            final(self).records@ == Seq::<AuditRecord>::empty(),
            final(self).wf(),
            final(self).record_count == old(self).record_count,
            final(self).write_offset == old(self).write_offset,
            final(self).sync_failures == old(self).sync_failures,
            final(self).last_hash == old(self).last_hash,
            final(self).mapped_size == old(self).mapped_size,
    {
        self.is_active = false;
        self.records = Vec::new();
    }
}

/// Whether two hashes are the same.
fn same_hash(a: &[u8; 32], b: &[u8; 32]) -> (r: bool)
    ensures
        r == (a@ == b@),
{
    let mut i: usize = 0;
    while i < HASH_SIZE
        invariant
            i <= HASH_SIZE,
            a@.len() == 32,
            b@.len() == 32,
            forall|k: int| 0 <= k < i ==> a@[k] == b@[k],
        decreases HASH_SIZE - i,
    {
        if a[i] != b[i] {
            return false;
        }
        i = i + 1;
    }
    assert(a@ =~= b@);
    true
}

/// The hash covers the header: records with one payload and one hash agree in number,
/// time, kind, priority, source and length.
pub proof fn lemma_header_hashed(a: AuditRecordHeader, b: AuditRecordHeader, data: Seq<u8>)
    requires
        record_hash((a, data)) == record_hash((b, data)),
    ensures
        a.sequence == b.sequence,
        a.timestamp == b.timestamp,
        a.event_type == b.event_type,
        a.priority == b.priority,
        a.source_id == b.source_id,
        a.data_len == b.data_len,
        forall|i: int| 0 <= i < 8 ==> a.prev_hash@[i] == #[trigger] b.prev_hash@[i],
{
    let (x, y) = (a.leading_bytes(), b.leading_bytes());
    lemma_leading_len(a);
    lemma_leading_len(b);
    assert forall|i: int| 0 <= i < 32 implies #[trigger] x[i] == y[i] by {
        let p = if i < data.len() {
            data[i]
        } else {
            0u8
        };
        let (s, t) = (x[i], y[i]);
        assert(record_hash((a, data))[i] == s ^ p);
        assert(record_hash((b, data))[i] == t ^ p);
        assert(s ^ p == t ^ p ==> s == t) by (bit_vector);
    }
    crate::bytes::lemma_le_len(a.sequence as int, 8);
    crate::bytes::lemma_le_len(b.sequence as int, 8);
    crate::bytes::lemma_le_len(a.timestamp as int, 8);
    crate::bytes::lemma_le_len(b.timestamp as int, 8);
    crate::bytes::lemma_le_len(a.source_id as int, 2);
    crate::bytes::lemma_le_len(b.source_id as int, 2);
    crate::bytes::lemma_le_len(a.data_len as int, 4);
    crate::bytes::lemma_le_len(b.data_len as int, 4);
    assert(x.subrange(0, 8) =~= crate::bytes::le_bytes(a.sequence as int, 8));
    assert(y.subrange(0, 8) =~= crate::bytes::le_bytes(b.sequence as int, 8));
    assert(x.subrange(8, 16) =~= crate::bytes::le_bytes(a.timestamp as int, 8));
    assert(y.subrange(8, 16) =~= crate::bytes::le_bytes(b.timestamp as int, 8));
    assert(x.subrange(18, 20) =~= crate::bytes::le_bytes(a.source_id as int, 2));
    assert(y.subrange(18, 20) =~= crate::bytes::le_bytes(b.source_id as int, 2));
    assert(x.subrange(20, 24) =~= crate::bytes::le_bytes(a.data_len as int, 4));
    assert(y.subrange(20, 24) =~= crate::bytes::le_bytes(b.data_len as int, 4));
    assert(x.subrange(0, 8) =~= y.subrange(0, 8));
    assert(x.subrange(8, 16) =~= y.subrange(8, 16));
    assert(x.subrange(18, 20) =~= y.subrange(18, 20));
    assert(x.subrange(20, 24) =~= y.subrange(20, 24));
    assert(x[16] == a.event_type && x[17] == a.priority);
    assert(y[16] == b.event_type && y[17] == b.priority);
    crate::bytes::lemma_pow256();
    crate::bytes::lemma_le_round_trip(a.sequence as int, 8);
    crate::bytes::lemma_le_round_trip(b.sequence as int, 8);
    crate::bytes::lemma_le_round_trip(a.timestamp as int, 8);
    crate::bytes::lemma_le_round_trip(b.timestamp as int, 8);
    crate::bytes::lemma_le_round_trip(a.source_id as int, 2);
    crate::bytes::lemma_le_round_trip(b.source_id as int, 2);
    crate::bytes::lemma_le_round_trip(a.data_len as int, 4);
    crate::bytes::lemma_le_round_trip(b.data_len as int, 4);
    assert forall|i: int| 0 <= i < 8 implies a.prev_hash@[i] == #[trigger] b.prev_hash@[i] by {
        assert(x[24 + i] == a.prev_hash@[i]);
        assert(y[24 + i] == b.prev_hash@[i]);
    }
}

/// The first record of a chain names 32 zero bytes, and each later one the hash of the
/// record before it.
pub proof fn lemma_chain_links(records: Seq<RecordView>, i: int)
    requires
        chained(records),
        0 <= i < records.len(),
    ensures
        i == 0 ==> forall|k: int| 0 <= k < 32 ==> #[trigger] records[0].0.prev_hash@[k] == 0,
        i > 0 ==> records[i].0.prev_hash@ == record_hash(records[i - 1]),
{
    assert(records[i].0.prev_hash@ == tip(records, i));
}

/// A record is refused exactly where the ledger is closed, the payload is larger than a
/// sector of 512 bytes, or the log has no room for a sector, and a second one if there is
/// a payload.
pub proof fn lemma_refused_when(l: AuditLedger, len: nat)
    ensures
        l.append_error(len) is None <==> l.is_active && len <= 512 && l.write_offset + if len
            == 0 {
            512int
        } else {
            1024
        } <= l.mapped_size,
        !l.is_active ==> l.append_error(len) == Some("Ledger not active"),
{
}

/// The numbers of the event types.
pub proof fn lemma_event_codes(a: AuditEventType, b: AuditEventType)
    ensures
        a.spec_code() < 8,
        a.spec_code() == b.spec_code() ==> a == b,
        AuditEventType::OrderNew.spec_code() == 0,
        AuditEventType::OrderCancel.spec_code() == 1,
        AuditEventType::OrderFill.spec_code() == 2,
        AuditEventType::RiskCheck.spec_code() == 3,
        AuditEventType::BalanceUpdate.spec_code() == 4,
        AuditEventType::PositionChange.spec_code() == 5,
        AuditEventType::SystemEvent.spec_code() == 6,
        AuditEventType::ComplianceCheck.spec_code() == 7,
{
}

/// A hash is thirty-two bytes, and the first record names one of zeros as its
/// predecessor's.
pub proof fn lemma_hash_is_thirty_two_bytes(r: RecordView, i: int)
    requires
        0 <= i < 32,
    ensures
        record_hash(r).len() == 32,
        zero_hash().len() == 32,
        zero_hash()[i] == 0,
        i >= r.1.len() ==> record_hash(r)[i] == r.0.leading_bytes()[i] ^ 0,
        i < r.1.len() ==> record_hash(r)[i] == r.0.leading_bytes()[i] ^ r.1[i],
{
}

} // verus!
