//! FIX 4.4 gateway: reads market data messages of an institutional session.

use vstd::prelude::*;
use crate::fixed::min;
use crate::gateways::binance_ws_adapter::{heartbeat_score, score_heartbeat};
use crate::gateways::fix_protocol_engine::digits::{dec, decimal, is_digit, number, scaled, wrap_signed};
use crate::gateways::frame_buffer::FrameBuffer;
use crate::gateways::gateway_manager::{Gateway, GatewayError, GatewayState, MarketEvent};
use crate::gateways::scan::{find, find_byte, lemma_find};
use crate::transport::ring_buffer::RingBuffer;

pub mod digits;
pub mod tags;

verus! {

/// FIX venue.
pub const FIX_VENUE_ID: u8 = 1;

/// Maximum message size.
pub const MAX_FIX_MSG_SIZE: usize = 65536;

/// End of a field.
pub const FIX_SOH: u8 = 0x01;

/// Buffer for messages.
pub type FixBuffer = FrameBuffer<65536, 56>;

/// Message types.
#[derive(Debug, Clone, Copy, PartialEq, Eq, Structural)]
pub enum FixMsgType {
    /// `0`.
    Heartbeat,
    /// `A`.
    Logon,
    /// `5`.
    Logout,
    /// `W`.
    MarketDataSnapshot,
    /// `X`.
    MarketDataIncremental,
    /// Anything else.
    Unknown,
}

/// Field of a message: a view into its bytes.
#[derive(Debug, Clone, Copy)]
pub struct FixField<'a> {
    /// Tag.
    pub tag: u16,
    /// Value.
    pub value: &'a [u8],
}

/// All bytes between two places are digits.
pub open spec fn all_digits(data: Seq<u8>, from: int, to: int) -> bool {
    forall|i: int| from <= i < to ==> is_digit(#[trigger] data[i])
}

/// Field that starts at a place: tag, `=`, value and the end mark. Gives the tag,
/// the value and the place behind the field; nothing if no field can be read.
pub open spec fn field_at(data: Seq<u8>, start: int) -> Option<(u16, Seq<u8>, int)> {
    let eq = find(data, 61, start);
    let end = find(data, FIX_SOH, eq + 1);
    if start >= data.len() || eq >= data.len() || !all_digits(data, start, eq) || end
        >= data.len() {
        None
    } else {
        Some(
            (
                (dec(data.subrange(start, eq)) % 65536) as u16,
                data.subrange(eq + 1, end),
                end + 1,
            ),
        )
    }
}

/// A field takes at least one byte, and ends within the message.
pub proof fn lemma_field_moves(data: Seq<u8>, start: int)
    requires
        0 <= start,
    ensures
        match field_at(data, start) {
            Some(f) => start < f.2 <= data.len(),
            None => true,
        },
{
    if start < data.len() {
        lemma_find(data, 61, start);
        if find(data, 61, start) < data.len() {
            lemma_find(data, FIX_SOH, find(data, 61, start) + 1);
        }
    }
}

/// Fields from a place on, up to the first that cannot be read.
pub open spec fn fields(data: Seq<u8>, start: nat) -> Seq<(u16, Seq<u8>)>
    decreases data.len() - start,
{
    proof {
        lemma_field_moves(data, start as int);
    }
    match field_at(data, start as int) {
        Some(f) => seq![(f.0, f.1)] + fields(data, f.2 as nat),
        None => Seq::empty(),
    }
}

/// Value of the first field with a tag.
pub open spec fn first_value(fs: Seq<(u16, Seq<u8>)>, tag: u16) -> Option<Seq<u8>>
    decreases fs.len(),
{
    if fs.len() == 0 {
        None
    } else if fs[0].0 == tag {
        Some(fs[0].1)
    } else {
        first_value(fs.drop_first(), tag)
    }
}

/// Message type that a value stands for.
pub open spec fn type_of_value(value: Seq<u8>) -> FixMsgType {
    if value.len() == 0 {
        FixMsgType::Unknown
    } else if value[0] == 48 {
        FixMsgType::Heartbeat
    } else if value[0] == 65 {
        FixMsgType::Logon
    } else if value[0] == 53 {
        FixMsgType::Logout
    } else if value[0] == 87 {
        FixMsgType::MarketDataSnapshot
    } else if value[0] == 88 {
        FixMsgType::MarketDataIncremental
    } else {
        FixMsgType::Unknown
    }
}

/// Type of a message.
pub open spec fn msg_type(data: Seq<u8>) -> FixMsgType {
    match first_value(fields(data, 0), tags::MSG_TYPE) {
        Some(value) => type_of_value(value),
        None => FixMsgType::Unknown,
    }
}

/// Place and value of the first checksum field from a place on.
pub open spec fn checksum_field(data: Seq<u8>, start: nat) -> Option<(int, Seq<u8>)>
    decreases data.len() - start,
{
    proof {
        lemma_field_moves(data, start as int);
    }
    match field_at(data, start as int) {
        Some(f) => if f.0 == tags::CHECK_SUM {
            Some((start as int, f.1))
        } else {
            checksum_field(data, f.2 as nat)
        },
        None => None,
    }
}

/// Place of the checksum field of a message that has one.
pub open spec fn checksum_place(data: Seq<u8>) -> int {
    match checksum_field(data, 0) {
        Some(c) => c.0,
        None => data.len() as int,
    }
}

/// Sum of bytes.
pub open spec fn byte_sum(s: Seq<u8>) -> int
    decreases s.len(),
{
    if s.len() == 0 {
        0
    } else {
        byte_sum(s.drop_last()) + s.last()
    }
}

/// The checksum of a message, if it has one, is the sum of all bytes before the
/// checksum field, modulo 256.
pub open spec fn checksum_ok(data: Seq<u8>) -> bool {
    match checksum_field(data, 0) {
        Some(c) => byte_sum(data.take(c.0)) % 256 == dec(c.1) % 0x1_0000_0000_0000_0000
            % 0x1_0000_0000,
        None => true,
    }
}

/// Symbol that a value stands for: its first two bytes.
pub open spec fn symbol_of(value: Seq<u8>) -> u16 {
    (value[0] * 256 + if value.len() > 1 {
        value[1] as int
    } else {
        0
    }) as u16
}

/// Symbol of a message: the last one before the first entry, or `symbol`.
pub open spec fn head_symbol(fs: Seq<(u16, Seq<u8>)>, i: int, symbol: u16) -> u16
    decreases fs.len() - i,
{
    if i >= fs.len() || fs[i].0 == tags::MD_ENTRY_TYPE {
        symbol
    } else if fs[i].0 == tags::SYMBOL && fs[i].1.len() > 0 {
        head_symbol(fs, i + 1, symbol_of(fs[i].1))
    } else {
        head_symbol(fs, i + 1, symbol)
    }
}

/// Last number with a tag from field `i` on within an entry, or `value`.
pub open spec fn group_value(fs: Seq<(u16, Seq<u8>)>, i: int, tag: u16, value: i64) -> i64
    decreases fs.len() - i,
{
    if i >= fs.len() || fs[i].0 == tags::MD_ENTRY_TYPE {
        value
    } else if fs[i].0 == tag {
        group_value(fs, i + 1, tag, wrap_signed(decimal(fs[i].1)) as i64)
    } else {
        group_value(fs, i + 1, tag, value)
    }
}

/// Entry type that a value stands for (0=Bid, 1=Ask, 2=Trade).
pub open spec fn entry_type(value: Seq<u8>) -> u8 {
    if value.len() == 0 {
        0
    } else {
        value[0].wrapping_sub(48)
    }
}

/// Event of the entry that starts at field `i`.
pub open spec fn entry_event(
    fs: Seq<(u16, Seq<u8>)>,
    i: int,
    symbol: u16,
    venue_id: u8,
    now: u64,
) -> MarketEvent {
    MarketEvent::spec_event(
        venue_id,
        symbol,
        entry_type(fs[i].1),
        now,
        group_value(fs, i + 1, tags::MD_ENTRY_PRICE, 0),
        group_value(fs, i + 1, tags::MD_ENTRY_SIZE, 0),
    )
}

/// Events from field `i` on: one for each entry.
pub open spec fn entry_events(
    fs: Seq<(u16, Seq<u8>)>,
    i: int,
    symbol: u16,
    venue_id: u8,
    now: u64,
) -> Seq<MarketEvent>
    decreases fs.len() - i,
{
    if i >= fs.len() {
        Seq::empty()
    } else if fs[i].0 == tags::MD_ENTRY_TYPE {
        seq![entry_event(fs, i, symbol, venue_id, now)] + entry_events(
            fs,
            i + 1,
            symbol,
            venue_id,
            now,
        )
    } else {
        entry_events(fs, i + 1, symbol, venue_id, now)
    }
}

/// Events of an incremental refresh.
pub open spec fn md_events(data: Seq<u8>, venue_id: u8, now: u64) -> Seq<MarketEvent> {
    let fs = fields(data, 0);
    entry_events(fs, 0, head_symbol(fs, 0, 0), venue_id, now)
}

/// `8=FIX.4.4`, `35=0`.
pub open spec fn heartbeat() -> Seq<u8> {
    seq![56u8, 61, 70, 73, 88, 46, 52, 46, 52, 1, 51, 53, 61, 48, 1]
}

/// FIX protocol engine.
#[derive(Debug)]
pub struct FixProtocolEngine {
    /// Venue.
    pub venue_id: u8,
    /// State.
    pub state: GatewayState,
    /// Started.
    pub active: bool,
    /// Events are delivered.
    pub initialized: bool,
    /// Message that is being read.
    pub rx_buffer: Box<FixBuffer>,
    /// Message that is being sent.
    pub tx_buffer: Box<FixBuffer>,
    /// Messages of this session.
    pub msg_seq_num: u64,
    /// Next message of the other side.
    pub expected_seq_num: u64,
    /// Events delivered.
    pub events_written: u64,
    /// Time of the last heartbeat.
    pub last_heartbeat: u64,
    /// Session is logged in.
    pub session_logged_in: bool,
}

impl FixProtocolEngine {
    /// Engine of a new session.
    pub open spec fn fresh(&self) -> bool {
        &&& self.wf()
        &&& self.tx_buffer.len == 0
        &&& self.venue_id == FIX_VENUE_ID
        &&& self.state == GatewayState::Disconnected
        &&& !self.active
        &&& !self.initialized
        &&& self.msg_seq_num == 0
        &&& self.expected_seq_num == 1
        &&& self.events_written == 0
        &&& self.last_heartbeat == 0
        &&& !self.session_logged_in
    }

    /// Engine that is not connected.
    pub fn new() -> (r: Self)
        ensures
            r.fresh(),
    {
        FixProtocolEngine {
            venue_id: FIX_VENUE_ID,
            state: GatewayState::Disconnected,
            active: false,
            initialized: false,
            rx_buffer: Box::new(FixBuffer::new()),
            tx_buffer: Box::new(FixBuffer::new()),
            msg_seq_num: 0,
            expected_seq_num: 1,
            events_written: 0,
            last_heartbeat: 0,
            session_logged_in: false,
        }
    }

    /// Place of the first end mark.
    pub fn find_soh_simd(data: &[u8]) -> (r: Option<usize>)
        ensures
            r == if find(data@, FIX_SOH, 0) < data@.len() {
                Some(find(data@, FIX_SOH, 0) as usize)
            } else {
                None
            },
    {
        let at: usize = find_byte(data, FIX_SOH, 0);
        if at < data.len() {
            Some(at)
        } else {
            None
        }
    }

    /// Read the field that starts at a place. Gives it and the place behind it.
    pub fn parse_field<'a>(&self, data: &'a [u8], start: usize) -> (r: Option<
        (FixField<'a>, usize),
    >)
        ensures
            match field_at(data@, start as int) {
                Some(f) => match r {
                    Some(p) => p.0.tag == f.0 && p.0.value@ == f.1 && p.1 == f.2 && start < p.1
                        && p.1 <= data@.len(),
                    None => false,
                },
                None => r is None,
            },
    {
        let len: usize = data.len();
        if start >= len {
            return None;
        }
        let eq: usize = find_byte(data, 61, start);
        if eq >= len {
            return None;
        }
        let mut i: usize = start;
        while i < eq
            invariant
                start <= i <= eq < len == data@.len(),
                eq == find(data@, 61, start as int),
                all_digits(data@, start as int, i as int),
            decreases eq - i,
        {
            if data[i] < 48 || data[i] > 57 {
                assert(!is_digit(data@[i as int]));
                return None;
            }
            i = i + 1;
        }
        let end: usize = find_byte(data, FIX_SOH, eq + 1);
        if end >= len {
            return None;
        }
        proof {
            vstd::arithmetic::div_mod::lemma_mod_mod(
                dec(data@.subrange(start as int, eq as int)),
                65536,
                0x1_0000_0000_0000,
            );
        }
        let tag: u16 = (number(data, start, eq) % 65536) as u16;
        let value = vstd::slice::slice_subrange(data, eq + 1, end);
        Some((FixField { tag, value }, end + 1))
    }

    /// Type of a message.
    pub fn parse_msg_type(&self, data: &[u8]) -> (r: FixMsgType)
        ensures
            r == msg_type(data@),
    {
        let mut pos: usize = 0;
        loop
            invariant
                pos <= data@.len(),
                first_value(fields(data@, pos as nat), tags::MSG_TYPE) == first_value(
                    fields(data@, 0),
                    tags::MSG_TYPE,
                ),
            decreases data@.len() - pos,
        {
            match self.parse_field(data, pos) {
                None => {
                    return FixMsgType::Unknown;
                },
                Some((field, next)) => {
                    assert(fields(data@, pos as nat).drop_first() =~= fields(data@, next as nat));
                    if field.tag == tags::MSG_TYPE {
                        if field.value.len() == 0 {
                            return FixMsgType::Unknown;
                        }
                        let code: u8 = field.value[0];
                        return if code == 48 {
                            FixMsgType::Heartbeat
                        } else if code == 65 {
                            FixMsgType::Logon
                        } else if code == 53 {
                            FixMsgType::Logout
                        } else if code == 87 {
                            FixMsgType::MarketDataSnapshot
                        } else if code == 88 {
                            FixMsgType::MarketDataIncremental
                        } else {
                            FixMsgType::Unknown
                        };
                    }
                    pos = next;
                },
            }
        }
    }

    /// Number that the digits of a text stand for.
    pub fn parse_int(&self, data: &[u8]) -> (r: u64)
        ensures
            r == dec(data@) % 0x1_0000_0000_0000_0000,
    {
        let n: usize = data.len();
        assert(data@.subrange(0, n as int) =~= data@);
        number(data, 0, n)
    }

    /// Decimal number of a price or a quantity, scaled by 10^8.
    pub fn parse_decimal_fixed(&self, data: &[u8]) -> (r: i64)
        ensures
            r == wrap_signed(decimal(data@)),
    {
        scaled(data)
    }

    /// Read the rest of an entry, from a place that is field `i` of `fs`. Gives
    /// price, size, and the place of the next entry.
    fn parse_entry(&self, data: &[u8], start: usize, Ghost(fs): Ghost<Seq<(u16, Seq<u8>)>>, Ghost(i): Ghost<int>) -> (r: (
        i64,
        i64,
        usize,
        Ghost<int>,
    ))
        requires
            0 <= i <= fs.len(),
            start <= data@.len(),
            fs.skip(i) == fields(data@, start as nat),
        ensures
            r.0 == group_value(fs, i, tags::MD_ENTRY_PRICE, 0),
            r.1 == group_value(fs, i, tags::MD_ENTRY_SIZE, 0),
            start <= r.2 <= data@.len(),
            i <= r.3@ <= fs.len(),
            fs.skip(r.3@) == fields(data@, r.2 as nat),
            r.3@ < fs.len() ==> fs[r.3@].0 == tags::MD_ENTRY_TYPE,
            forall|symbol: u16, venue_id: u8, now: u64| #[trigger]
                entry_events(fs, i, symbol, venue_id, now) == entry_events(
                    fs,
                    r.3@,
                    symbol,
                    venue_id,
                    now,
                ),
    {
        let mut price: i64 = 0;
        let mut size: i64 = 0;
        let mut pos: usize = start;
        let ghost mut k = i;
        loop
            invariant
                0 <= i <= k <= fs.len(),
                start <= pos <= data@.len(),
                fs.skip(k) == fields(data@, pos as nat),
                group_value(fs, k, tags::MD_ENTRY_PRICE, price) == group_value(
                    fs,
                    i,
                    tags::MD_ENTRY_PRICE,
                    0,
                ),
                group_value(fs, k, tags::MD_ENTRY_SIZE, size) == group_value(
                    fs,
                    i,
                    tags::MD_ENTRY_SIZE,
                    0,
                ),
                forall|symbol: u16, venue_id: u8, now: u64| #[trigger]
                    entry_events(fs, i, symbol, venue_id, now) == entry_events(
                        fs,
                        k,
                        symbol,
                        venue_id,
                        now,
                    ),
            decreases data@.len() - pos,
        {
            match self.parse_field(data, pos) {
                None => {
                    assert(fs.skip(k).len() == fs.len() - k);
                    assert(fields(data@, pos as nat).len() == 0);
                    return (price, size, pos, Ghost(k));
                },
                Some((field, next)) => {
                    assert(fs.skip(k).len() == fs.len() - k);
                    assert(fields(data@, pos as nat).len() > 0);
                    assert(fs[k] == fs.skip(k)[0]);
                    if field.tag == tags::MD_ENTRY_TYPE {
                        return (price, size, pos, Ghost(k));
                    }
                    if field.tag == tags::MD_ENTRY_PRICE {
                        price = self.parse_decimal_fixed(field.value);
                    } else if field.tag == tags::MD_ENTRY_SIZE {
                        size = self.parse_decimal_fixed(field.value);
                    }
                    proof {
                        assert(fs.skip(k + 1) =~= fs.skip(k).drop_first());
                        assert(fields(data@, pos as nat).drop_first() =~= fields(
                            data@,
                            next as nat,
                        ));
                        k = k + 1;
                    }
                    pos = next;
                },
            }
        }
    }

    /// Read an incremental refresh at time `now`, and deliver an event for each of
    /// its entries while there is room. Gives the number of events delivered.
    pub fn process_md_incremental(
        &self,
        data: &[u8],
        output: &mut RingBuffer<MarketEvent>,
        now: u64,
    ) -> (r: usize)
        requires
            old(output).wf(),
        ensures
            final(output).wf(),
            final(output).capacity == old(output).capacity,
            ({
                let events = md_events(data@, self.venue_id, now);
                let n = if self.initialized {
                    min(events.len() as int, old(output).room() as int)
                } else {
                    0
                };
                &&& r == n
                &&& final(output).items@ == old(output).items@ + events.take(n)
            }),
    {
        let ghost fs = fields(data@, 0);
        let ghost symbol = head_symbol(fs, 0, 0);
        let ghost all = entry_events(fs, 0, symbol, self.venue_id, now);
        let ghost mut i: int = 0;
        let ghost mut n: int = 0;
        let mut count: usize = 0;
        let mut pos: usize = 0;
        let mut symbol_id: u16 = 0;
        assert(fs.skip(0) =~= fs);
        assert(all.skip(0) =~= all);
        assert(old(output).items@ + all.take(0) =~= old(output).items@);
        loop
            invariant
                fs == fields(data@, 0),
                symbol == head_symbol(fs, 0, 0),
                all == md_events(data@, self.venue_id, now),
                0 <= i <= fs.len(),
                0 <= n <= all.len(),
                pos <= data@.len(),
                fs.skip(i) == fields(data@, pos as nat),
                head_symbol(fs, i, symbol_id) == symbol,
                all.skip(n) == entry_events(fs, i, symbol, self.venue_id, now),
                output.wf(),
                output.capacity == old(output).capacity,
                count == if self.initialized {
                    min(n, old(output).room() as int)
                } else {
                    0
                },
                output.items@ == old(output).items@ + all.take(count as int),
            decreases data@.len() - pos,
        {
            match self.parse_field(data, pos) {
                None => {
                    assert(fs.skip(i).len() == fs.len() - i);
                    assert(fields(data@, pos as nat).len() == 0);
                    assert(all.skip(n).len() == all.len() - n);
                    return count;
                },
                Some((field, next)) => {
                    proof {
                        assert(fs.skip(i).len() == fs.len() - i);
                        assert(fields(data@, pos as nat).len() > 0);
                        assert(fs[i] == fs.skip(i)[0]);
                        assert(fs.skip(i + 1) =~= fs.skip(i).drop_first());
                        assert(fields(data@, pos as nat).drop_first() =~= fields(
                            data@,
                            next as nat,
                        ));
                    }
                    if field.tag == tags::MD_ENTRY_TYPE {
                        let kind: u8 = if field.value.len() == 0 {
                            0
                        } else {
                            field.value[0].wrapping_sub(48)
                        };
                        let (price, size, after, Ghost(k)) = self.parse_entry(
                            data,
                            next,
                            Ghost(fs),
                            Ghost(i + 1),
                        );
                        let event = MarketEvent::event(
                            self.venue_id,
                            symbol_id,
                            kind,
                            now,
                            price,
                            size,
                        );
                        proof {
                            assert(all.skip(n).len() == all.len() - n);
                            assert(all.skip(n)[0] == event);
                            assert(all[n] == event);
                            assert(all.skip(n + 1) =~= all.skip(n).drop_first());
                            assert(all.skip(n).drop_first() =~= entry_events(
                                fs,
                                i + 1,
                                symbol,
                                self.venue_id,
                                now,
                            ));
                            assert(all.take(n + 1) =~= all.take(n).push(event));
                        }
                        if self.initialized {
                            if output.push(event).is_ok() {
                                assert(old(output).items@ + all.take(n + 1) =~= (old(output).items@
                                    + all.take(n)).push(event));
                                count = count + 1;
                            }
                        }
                        proof {
                            n = n + 1;
                            i = k;
                        }
                        pos = after;
                    } else {
                        if field.tag == tags::SYMBOL && field.value.len() > 0 {
                            let high: u16 = field.value[0] as u16;
                            let low: u16 = if field.value.len() > 1 {
                                field.value[1] as u16
                            } else {
                                0
                            };
                            symbol_id = high * 256 + low;
                        }
                        proof {
                            i = i + 1;
                        }
                        pos = next;
                    }
                },
            }
        }
    }

    /// Validate the checksum of a message. A message without one is valid.
    pub fn validate_checksum(&self, data: &[u8]) -> (r: bool)
        ensures
            r == checksum_ok(data@),
    {
        let len: usize = data.len();
        let mut pos: usize = 0;
        loop
            invariant
                pos <= len == data@.len(),
                checksum_field(data@, pos as nat) == checksum_field(data@, 0),
            decreases data@.len() - pos,
        {
            match self.parse_field(data, pos) {
                None => {
                    return true;
                },
                Some((field, next)) => {
                    if field.tag == tags::CHECK_SUM {
                        let mut sum: u32 = 0;
                        let mut i: usize = 0;
                        assert(data@.take(0) =~= Seq::empty());
                        while i < pos
                            invariant
                                i <= pos <= len == data@.len(),
                                sum == byte_sum(data@.take(i as int)) % 256,
                            decreases pos - i,
                        {
                            assert(data@.take(i + 1).drop_last() =~= data@.take(i as int));
                            sum = (sum + data[i] as u32) % 256;
                            i = i + 1;
                        }
                        let expected: u64 = self.parse_int(field.value) % 0x1_0000_0000;
                        return sum as u64 == expected;
                    }
                    pos = next;
                },
            }
        }
    }

    /// Make a heartbeat message.
    pub fn generate_heartbeat(&mut self, test_req_id: &[u8]) -> (r: Vec<u8>)
        requires
            old(self).wf(),
        ensures
            final(self).wf(),
            r@ == heartbeat(),
            final(self).tx_buffer.content() == heartbeat(),
            *final(self) == (FixProtocolEngine { tx_buffer: final(self).tx_buffer, ..*old(self) }),
    {
        let message: [u8; 15] = [56, 61, 70, 73, 88, 46, 52, 46, 52, 1, 51, 53, 61, 48, 1];
        assert(message@ =~= heartbeat());
        self.tx_buffer.clear();
        let done = self.tx_buffer.write(message.as_slice());
        assert(Seq::<u8>::empty() + heartbeat() =~= heartbeat());
        vstd::slice::slice_to_vec(self.tx_buffer.as_slice())
    }

    /// Message that is read when data comes in: none if the data is too large.
    pub open spec fn message(data: Seq<u8>) -> Seq<u8> {
        if data.len() <= MAX_FIX_MSG_SIZE {
            data
        } else {
            Seq::empty()
        }
    }

    /// Messages are read.
    pub open spec fn listens(&self) -> bool {
        self.active && self.session_logged_in
    }
}

impl Default for FixProtocolEngine {
    fn default() -> (r: Self)
        ensures
            r.fresh(),
    {
        Self::new()
    }
}

impl Gateway for FixProtocolEngine {
    /// Between calls no message is held.
    open spec fn wf(&self) -> bool {
        self.rx_buffer.wf() && self.rx_buffer.len == 0 && self.tx_buffer.wf()
    }

    open spec fn spec_venue_id(&self) -> u8 {
        self.venue_id
    }

    open spec fn spec_venue_name(&self) -> Seq<char> {
        "FIX-4.4"@
    }

    open spec fn spec_state(&self) -> GatewayState {
        if self.session_logged_in {
            self.state
        } else {
            GatewayState::Disconnected
        }
    }

    open spec fn spec_latency_score(&self, now: u64) -> u32 {
        heartbeat_score(self.last_heartbeat, now)
    }

    open spec fn init_step(pre: Self, post: Self) -> bool {
        post == (FixProtocolEngine { initialized: true, state: GatewayState::Connected, ..pre })
    }

    open spec fn start_step(pre: Self, now: u64, r: Result<(), GatewayError>, post: Self) -> bool {
        if pre.active {
            r == Err::<(), GatewayError>(GatewayError::AlreadyConnected) && post == pre
        } else {
            r == Ok::<(), GatewayError>(()) && post == (FixProtocolEngine {
                active: true,
                state: GatewayState::Ready,
                last_heartbeat: now,
                msg_seq_num: 1,
                expected_seq_num: 1,
                session_logged_in: true,
                ..pre
            })
        }
    }

    open spec fn stop_step(pre: Self, post: Self) -> bool {
        &&& post == (FixProtocolEngine {
            active: false,
            state: GatewayState::Disconnected,
            session_logged_in: false,
            rx_buffer: post.rx_buffer,
            tx_buffer: post.tx_buffer,
            ..pre
        })
        &&& post.tx_buffer.content() == Seq::<u8>::empty()
    }

    open spec fn process_step(
        pre: Self,
        data: Seq<u8>,
        room: nat,
        now: u64,
        events: Seq<MarketEvent>,
        post: Self,
    ) -> bool {
        let message = Self::message(data);
        let kind = msg_type(message);
        if !pre.listens() {
            events == Seq::<MarketEvent>::empty() && post == pre
        } else if !checksum_ok(message) {
            events == Seq::<MarketEvent>::empty() && post == (FixProtocolEngine {
                rx_buffer: post.rx_buffer,
                ..pre
            })
        } else {
            &&& events == if kind == FixMsgType::MarketDataIncremental && pre.initialized {
                let all = md_events(message, pre.venue_id, now);
                all.take(min(all.len() as int, room as int))
            } else {
                Seq::empty()
            }
            &&& post == (FixProtocolEngine {
                rx_buffer: post.rx_buffer,
                last_heartbeat: if kind == FixMsgType::Heartbeat {
                    now
                } else {
                    pre.last_heartbeat
                },
                session_logged_in: kind != FixMsgType::Logout,
                state: if kind == FixMsgType::Logout {
                    GatewayState::Disconnected
                } else {
                    pre.state
                },
                events_written: pre.events_written.wrapping_add(events.len() as u64),
                msg_seq_num: pre.msg_seq_num.wrapping_add(1),
                ..pre
            })
        }
    }

    fn venue_id(&self) -> (r: u8) {
        self.venue_id
    }

    fn venue_name(&self) -> (r: &'static str) {
        "FIX-4.4"
    }

    fn init(&mut self) {
        self.initialized = true;
        self.state = GatewayState::Connected;
    }

    fn start(&mut self, now: u64) -> (r: Result<(), GatewayError>) {
        if self.active {
            return Err(GatewayError::AlreadyConnected);
        }
        self.active = true;
        self.state = GatewayState::Syncing;
        self.last_heartbeat = now;
        self.msg_seq_num = 1;
        self.expected_seq_num = 1;
        self.state = GatewayState::Ready;
        self.session_logged_in = true;
        Ok(())
    }

    fn stop(&mut self) {
        self.active = false;
        self.state = GatewayState::Disconnected;
        self.session_logged_in = false;
        self.rx_buffer.clear();
        self.tx_buffer.clear();
    }

    fn process_buffer(
        &mut self,
        data: &[u8],
        output: &mut RingBuffer<MarketEvent>,
        now: u64,
    ) -> (r: usize) {
        let ghost queued = output.items@;
        assert(output.items@.skip(queued.len() as int) =~= Seq::empty());
        if !self.active || !self.session_logged_in {
            return 0;
        }
        self.rx_buffer.receive(data);
        assert(Seq::<u8>::empty() + data@ =~= data@);
        assert(self.rx_buffer.content() == Self::message(data@));
        if !self.validate_checksum(self.rx_buffer.as_slice()) {
            self.rx_buffer.clear();
            return 0;
        }
        let mut count: usize = 0;
        match self.parse_msg_type(self.rx_buffer.as_slice()) {
            FixMsgType::Heartbeat => {
                self.last_heartbeat = now;
            },
            FixMsgType::Logon => {
                self.session_logged_in = true;
            },
            FixMsgType::Logout => {
                self.session_logged_in = false;
                self.state = GatewayState::Disconnected;
            },
            FixMsgType::MarketDataIncremental => {
                count = self.process_md_incremental(self.rx_buffer.as_slice(), output, now);
                proof {
                    let all = md_events(Self::message(data@), self.venue_id, now);
                    assert((queued + all.take(count as int)).skip(queued.len() as int) =~= all.take(
                        count as int,
                    ));
                }
            },
            FixMsgType::MarketDataSnapshot => {},
            FixMsgType::Unknown => {},
        }
        self.rx_buffer.clear();
        self.events_written = self.events_written.wrapping_add(count as u64);
        self.msg_seq_num = self.msg_seq_num.wrapping_add(1);
        count
    }

    fn state(&self) -> (r: GatewayState) {
        if !self.session_logged_in {
            return GatewayState::Disconnected;
        }
        self.state
    }

    fn latency_score(&self, now: u64) -> (r: u32) {
        score_heartbeat(self.last_heartbeat, now)
    }

    /// The score follows from the last heartbeat: there is nothing to note.
    fn update_latency_score(&mut self, score: u32)
        ensures
            *final(self) == *old(self),
    {
    }
}

/// A changed byte changes the sum by as much.
proof fn lemma_sum_changed(s: Seq<u8>, i: int, b: u8)
    requires
        0 <= i < s.len(),
    ensures
        byte_sum(s.update(i, b)) == byte_sum(s) + b - s[i],
    decreases s.len(),
{
    if i < s.len() - 1 {
        lemma_sum_changed(s.drop_last(), i, b);
        assert(s.update(i, b).drop_last() =~= s.drop_last().update(i, b));
    } else {
        assert(s.update(i, b).drop_last() =~= s.drop_last());
    }
}

/// A single changed byte before the checksum field of a valid message is detected,
/// as long as the checksum field is still found where it was.
pub proof fn lemma_changed_byte_detected(data: Seq<u8>, i: int, b: u8)
    requires
        checksum_ok(data),
        checksum_field(data, 0) is Some,
        checksum_field(data.update(i, b), 0) == checksum_field(data, 0),
        0 <= i < checksum_place(data) <= data.len(),
        b != data[i],
    ensures
        !checksum_ok(data.update(i, b)),
{
    let at = checksum_place(data);
    assert(data.update(i, b).take(at) =~= data.take(at).update(i, b));
    lemma_sum_changed(data.take(at), i, b);
}

/// A gateway that was stopped makes no events, whatever comes in.
pub proof fn lemma_stopped_is_silent(
    pre: FixProtocolEngine,
    stopped: FixProtocolEngine,
    data: Seq<u8>,
    room: nat,
    now: u64,
    events: Seq<MarketEvent>,
    post: FixProtocolEngine,
)
    requires
        FixProtocolEngine::stop_step(pre, stopped),
        FixProtocolEngine::process_step(stopped, data, room, now, events, post),
    ensures
        events.len() == 0,
        post == stopped,
{
}

/// A field is read back as it was written: a tag in digits, `=`, a value without an end
/// mark, and the end mark.
pub proof fn lemma_field_reads_back(before: Seq<u8>, tag: Seq<u8>, value: Seq<u8>, after: Seq<u8>)
    requires
        forall|i: int| 0 <= i < tag.len() ==> 48 <= #[trigger] tag[i] <= 57,
        forall|i: int| 0 <= i < value.len() ==> #[trigger] value[i] != 1,
    ensures
        field_at(
            before + tag + seq![61u8] + value + seq![1u8] + after,
            before.len() as int,
        ) == Some(
            (
                (dec(tag) % 65536) as u16,
                value,
                (before.len() + tag.len() + value.len() + 2) as int,
            ),
        ),
{
    let data = before + tag + seq![61u8] + value + seq![1u8] + after;
    let start = before.len() as int;
    let eq = start + tag.len();
    let end = eq + 1 + value.len();
    lemma_find(data, 61, start);
    assert(data[eq] == 61);
    assert forall|i: int| start <= i < eq implies is_digit(#[trigger] data[i]) by {
        assert(data[i] == tag[i - start]);
    }
    let e = find(data, 61, start);
    if e < eq {
        assert(is_digit(data[e]));
    }
    assert(e == eq);
    lemma_find(data, 1, eq + 1);
    assert(data[end] == 1);
    let s = find(data, 1, eq + 1);
    if s < end {
        assert(data[s] == value[s - eq - 1]);
    }
    assert(s == end);
    assert(data.subrange(start, eq) =~= tag);
    assert(data.subrange(eq + 1, end) =~= value);
}

/// The price of an entry is that of the last price field (tag 270) before the next entry
/// (tag 269), and its size that of the last size field (tag 271), each a decimal number
/// scaled by 10^8.
pub proof fn lemma_last_of_entry(fs: Seq<(u16, Seq<u8>)>, i: int, j: int, k: int, tag: u16, value: i64)
    requires
        0 <= i <= j < k <= fs.len(),
        fs[j].0 == tag,
        forall|x: int| i <= x < k ==> (#[trigger] fs[x]).0 != 269,
        forall|x: int| j < x < k ==> (#[trigger] fs[x]).0 != tag,
        k == fs.len() || fs[k].0 == 269,
    ensures
        group_value(fs, i, tag, value) == wrap_signed(decimal(fs[j].1)),
    decreases k - i,
{
    let v = if fs[i].0 == tag {
        wrap_signed(decimal(fs[i].1)) as i64
    } else {
        value
    };
    crate::gateways::fix_protocol_engine::digits::lemma_wrap_signed(decimal(fs[i].1));
    if i < j {
        lemma_last_of_entry(fs, i + 1, j, k, tag, v);
    } else {
        lemma_none_of_entry(fs, i + 1, k, tag, v);
    }
}

/// An entry without a field of a tag keeps the value that it starts from.
pub proof fn lemma_none_of_entry(fs: Seq<(u16, Seq<u8>)>, i: int, k: int, tag: u16, value: i64)
    requires
        0 <= i <= k <= fs.len(),
        forall|x: int| i <= x < k ==> (#[trigger] fs[x]).0 != 269 && fs[x].0 != tag,
        k == fs.len() || fs[k].0 == 269,
    ensures
        group_value(fs, i, tag, value) == value,
    decreases k - i,
{
    if i < k {
        lemma_none_of_entry(fs, i + 1, k, tag, value);
    }
}

/// The event of an entry: what kind it is by the digit of its type field, its price by
/// the field with tag 270 and its size by the field with tag 271 that follow, in either
/// order; zero for a field that is missing.
pub proof fn lemma_entry_decoded(
    fs: Seq<(u16, Seq<u8>)>,
    i: int,
    px: int,
    sz: int,
    k: int,
    symbol: u16,
    venue_id: u8,
    now: u64,
)
    requires
        0 <= i < px < k <= fs.len(),
        i < sz < k,
        fs[i].0 == 269,
        fs[i].1.len() > 0,
        48 <= fs[i].1[0],
        fs[px].0 == 270,
        fs[sz].0 == 271,
        forall|x: int| i < x < k ==> (#[trigger] fs[x]).0 != 269,
        forall|x: int| i < x < k && x != px ==> (#[trigger] fs[x]).0 != 270,
        forall|x: int| i < x < k && x != sz ==> (#[trigger] fs[x]).0 != 271,
        k == fs.len() || fs[k].0 == 269,
    ensures
        ({
            let e = entry_event(fs, i, symbol, venue_id, now);
            &&& e.venue_id == venue_id
            &&& e.symbol_id == symbol
            &&& e.timestamp_ns == now
            &&& e.event_type == fs[i].1[0] - 48
            &&& e.price == wrap_signed(decimal(fs[px].1))
            &&& e.quantity == wrap_signed(decimal(fs[sz].1))
            &&& e.flags == 0
        }),
{
    lemma_last_of_entry(fs, i + 1, px, k, 270, 0);
    lemma_last_of_entry(fs, i + 1, sz, k, 271, 0);
}

/// A message has one event for each of its entries (tag 269), in their order.
pub proof fn lemma_one_event_per_entry(
    fs: Seq<(u16, Seq<u8>)>,
    i: int,
    places: Seq<int>,
    symbol: u16,
    venue_id: u8,
    now: u64,
)
    requires
        0 <= i <= fs.len(),
        forall|m: int|
            0 <= m < places.len() ==> i <= #[trigger] places[m] < fs.len() && fs[places[m]].0
                == 269,
        forall|a: int, b: int| 0 <= a < b < places.len() ==> places[a] < places[b],
        forall|x: int| i <= x < fs.len() && (#[trigger] fs[x]).0 == 269 ==> places.contains(x),
    ensures
        ({
            let events = entry_events(fs, i, symbol, venue_id, now);
            &&& events.len() == places.len()
            &&& forall|m: int|
                0 <= m < places.len() ==> #[trigger] events[m] == entry_event(
                    fs,
                    places[m],
                    symbol,
                    venue_id,
                    now,
                )
        }),
    decreases fs.len() - i,
{
    if i >= fs.len() {
        if places.len() > 0 {
            assert(i <= places[0] < fs.len());
        }
    } else if fs[i].0 == 269 {
        assert(places.contains(i));
        let at = choose|m: int| 0 <= m < places.len() && places[m] == i;
        if at > 0 {
            assert(places[0] < places[at]);
            assert(i <= places[0]);
        }
        assert(places[0] == i);
        let rest = places.drop_first();
        assert forall|x: int| i + 1 <= x < fs.len() && (#[trigger] fs[x]).0 == 269 implies
            rest.contains(x) by {
            assert(places.contains(x));
            let m = choose|m: int| 0 <= m < places.len() && places[m] == x;
            assert(rest[m - 1] == x);
        }
        assert forall|m: int| 0 <= m < rest.len() implies i + 1 <= #[trigger] rest[m] < fs.len()
            && fs[rest[m]].0 == 269 by {
            assert(rest[m] == places[m + 1]);
            assert(places[0] < places[m + 1]);
        }
        lemma_one_event_per_entry(fs, i + 1, rest, symbol, venue_id, now);
        let events = entry_events(fs, i, symbol, venue_id, now);
        let later = entry_events(fs, i + 1, symbol, venue_id, now);
        assert forall|m: int| 0 <= m < places.len() implies #[trigger] events[m] == entry_event(
            fs,
            places[m],
            symbol,
            venue_id,
            now,
        ) by {
            if m > 0 {
                assert(events[m] == later[m - 1]);
                assert(rest[m - 1] == places[m]);
            }
        }
    } else {
        assert forall|m: int| 0 <= m < places.len() implies i + 1 <= #[trigger] places[m]
            < fs.len() && fs[places[m]].0 == 269 by {
            assert(i <= places[m]);
        }
        lemma_one_event_per_entry(fs, i + 1, places, symbol, venue_id, now);
    }
}

/// The symbol of a message is that of the last symbol field (tag 55) before its first
/// entry: its first two bytes, the first one in front.
pub proof fn lemma_symbol_before_entries(fs: Seq<(u16, Seq<u8>)>, i: int, j: int, k: int, symbol: u16)
    requires
        0 <= i <= j < k <= fs.len(),
        fs[j].0 == 55,
        fs[j].1.len() >= 2,
        forall|x: int| i <= x < k ==> (#[trigger] fs[x]).0 != 269,
        forall|x: int| j < x < k ==> (#[trigger] fs[x]).0 != 55,
        k == fs.len() || fs[k].0 == 269,
    ensures
        head_symbol(fs, i, symbol) == fs[j].1[0] * 256 + fs[j].1[1],
    decreases k - i,
{
    if i < j {
        let next = if fs[i].0 == 55 && fs[i].1.len() > 0 {
            symbol_of(fs[i].1)
        } else {
            symbol
        };
        lemma_symbol_before_entries(fs, i + 1, j, k, next);
    } else {
        lemma_no_symbol(fs, i + 1, k, symbol_of(fs[j].1));
    }
}

/// Without a symbol field before its first entry a message keeps the symbol that it
/// starts from.
pub proof fn lemma_no_symbol(fs: Seq<(u16, Seq<u8>)>, i: int, k: int, symbol: u16)
    requires
        0 <= i <= k <= fs.len(),
        forall|x: int| i <= x < k ==> (#[trigger] fs[x]).0 != 269 && fs[x].0 != 55,
        k == fs.len() || fs[k].0 == 269,
    ensures
        head_symbol(fs, i, symbol) == symbol,
    decreases k - i,
{
    if i < k {
        lemma_no_symbol(fs, i + 1, k, symbol);
    }
}

/// The type of a message is that of its first field with tag 35, by the letter or digit
/// that the value starts with.
pub proof fn lemma_type_by_letter(data: Seq<u8>, i: int)
    requires
        0 <= i < fields(data, 0).len(),
        fields(data, 0)[i].0 == 35,
        fields(data, 0)[i].1.len() > 0,
        forall|x: int| 0 <= x < i ==> (#[trigger] fields(data, 0)[x]).0 != 35,
    ensures
        ({
            let letter = fields(data, 0)[i].1[0] as char;
            &&& letter == '0' <==> msg_type(data) == FixMsgType::Heartbeat
            &&& letter == 'A' <==> msg_type(data) == FixMsgType::Logon
            &&& letter == '5' <==> msg_type(data) == FixMsgType::Logout
            &&& letter == 'W' <==> msg_type(data) == FixMsgType::MarketDataSnapshot
            &&& letter == 'X' <==> msg_type(data) == FixMsgType::MarketDataIncremental
        }),
{
    lemma_first_value(fields(data, 0), i, 35);
}

/// The first value with a tag is that of the first field with the tag.
pub proof fn lemma_first_value(fs: Seq<(u16, Seq<u8>)>, i: int, tag: u16)
    requires
        0 <= i < fs.len(),
        fs[i].0 == tag,
        forall|x: int| 0 <= x < i ==> (#[trigger] fs[x]).0 != tag,
    ensures
        first_value(fs, tag) == Some(fs[i].1),
    decreases fs.len(),
{
    if i > 0 {
        assert(fs[0].0 != tag);
        let rest = fs.drop_first();
        assert forall|x: int| 0 <= x < i - 1 implies (#[trigger] rest[x]).0 != tag by {
            assert(fs[x + 1].0 != tag);
        }
        lemma_first_value(rest, i - 1, tag);
    }
}

/// A message is taken exactly where the value of its checksum field (tag 10) is the sum
/// of all bytes before that field, modulo 256.
pub proof fn lemma_checksum_is_byte_sum(data: Seq<u8>, at: int, value: Seq<u8>)
    requires
        checksum_field(data, 0) == Some((at, value)),
        dec(value) < 0x1_0000_0000,
    ensures
        checksum_ok(data) == (dec(value) == byte_sum(data.take(at)) % 256),
        field_at(data, at) matches Some(f) && f.0 == 10 && f.1 == value,
{
    crate::gateways::fix_protocol_engine::digits::lemma_dec(value);
    lemma_checksum_field(data, 0);
}

proof fn lemma_checksum_field(data: Seq<u8>, start: nat)
    ensures
        checksum_field(data, start) matches Some(c) ==> field_at(data, c.0) matches Some(f) && f.0
            == 10 && f.1 == c.1,
    decreases data.len() - start,
{
    lemma_field_moves(data, start as int);
    if let Some(f) = field_at(data, start as int) {
        if f.0 != 10 {
            lemma_checksum_field(data, f.2 as nat);
        }
    }
}

/// The sum of bytes grows by each byte.
pub proof fn lemma_byte_sum(s: Seq<u8>, b: u8)
    ensures
        byte_sum(Seq::<u8>::empty()) == 0,
        byte_sum(s.push(b)) == byte_sum(s) + b,
{
    assert(s.push(b).drop_last() =~= s);
}

/// The fields of a message that starts with a whole field are that field and those of
/// what follows it.
pub proof fn lemma_fields_follow(data: Seq<u8>, start: nat)
    ensures
        match field_at(data, start as int) {
            Some(f) => {
                &&& f.2 > start
                &&& fields(data, start).len() == 1 + fields(data, f.2 as nat).len()
                &&& fields(data, start)[0] == (f.0, f.1)
                &&& fields(data, start).skip(1) == fields(data, f.2 as nat)
            },
            None => fields(data, start).len() == 0,
        },
{
    lemma_field_moves(data, start as int);
    if let Some(f) = field_at(data, start as int) {
        assert(fields(data, start).skip(1) =~= fields(data, f.2 as nat));
    }
}

/// A message with a wrong checksum makes no events and changes nothing of the session.
pub proof fn lemma_bad_checksum_is_dropped(
    pre: FixProtocolEngine,
    data: Seq<u8>,
    room: nat,
    now: u64,
    events: Seq<MarketEvent>,
    post: FixProtocolEngine,
)
    requires
        data.len() <= 65536,
        !checksum_ok(data),
        FixProtocolEngine::process_step(pre, data, room, now, events, post),
    ensures
        events.len() == 0,
        post.msg_seq_num == pre.msg_seq_num,
        post.session_logged_in == pre.session_logged_in,
        post.last_heartbeat == pre.last_heartbeat,
        post.events_written == pre.events_written,
{
}

/// A message is heard by an engine that runs with its session logged in, if it is not
/// longer than sixty-four kibibytes and its checksum is right. Every message heard is counted; a
/// heartbeat is noted with its time; a logout ends the session.
pub proof fn lemma_message_is_heard(
    pre: FixProtocolEngine,
    data: Seq<u8>,
    room: nat,
    now: u64,
    events: Seq<MarketEvent>,
    post: FixProtocolEngine,
)
    requires
        FixProtocolEngine::process_step(pre, data, room, now, events, post),
        data.len() <= 65_536,
    ensures
        !pre.active || !pre.session_logged_in ==> events.len() == 0 && post == pre,
        pre.active && pre.session_logged_in && !checksum_ok(data) ==> events.len() == 0
            && post.msg_seq_num == pre.msg_seq_num && post.last_heartbeat == pre.last_heartbeat
            && post.session_logged_in && post.state == pre.state && post.events_written
            == pre.events_written,
        pre.active && pre.session_logged_in && checksum_ok(data) ==> {
            &&& msg_type(data) == FixMsgType::Logout <==> !post.session_logged_in
            &&& msg_type(data) == FixMsgType::Logout ==> post.state == GatewayState::Disconnected
            &&& msg_type(data) != FixMsgType::Logout ==> post.state == pre.state
            &&& msg_type(data) == FixMsgType::Heartbeat ==> post.last_heartbeat == now
            &&& msg_type(data) != FixMsgType::Heartbeat ==> post.last_heartbeat
                == pre.last_heartbeat
            &&& pre.msg_seq_num < 0xffff_ffff_ffff_ffff ==> post.msg_seq_num == pre.msg_seq_num + 1
            &&& pre.events_written + events.len() <= 0xffff_ffff_ffff_ffff ==> post.events_written
                == pre.events_written + events.len()
            &&& events.len() <= room
            &&& msg_type(data) != FixMsgType::MarketDataIncremental || !pre.initialized
                ==> events.len() == 0
            &&& msg_type(data) == FixMsgType::MarketDataIncremental && pre.initialized ==> {
                let all = md_events(data, pre.venue_id, now);
                &&& all.len() <= room ==> events == all
                &&& all.len() > room ==> events == all.take(room as int)
            }
        },
{
}

/// Starting logs a stopped engine in, with both counts of messages at one, and notes the
/// time; one that runs refuses to be started again. Stopping logs it out.
pub proof fn lemma_logged_in_and_out(
    pre: FixProtocolEngine,
    now: u64,
    r: Result<(), GatewayError>,
    post: FixProtocolEngine,
)
    ensures
        FixProtocolEngine::start_step(pre, now, r, post) && pre.active ==> r == Err::<
            (),
            GatewayError,
        >(GatewayError::AlreadyConnected) && post == pre,
        FixProtocolEngine::start_step(pre, now, r, post) && !pre.active ==> r is Ok && post.active
            && post.session_logged_in && post.state == GatewayState::Ready && post.last_heartbeat
            == now && post.msg_seq_num == 1 && post.expected_seq_num == 1 && post.initialized
            == pre.initialized,
        FixProtocolEngine::stop_step(pre, post) ==> !post.active && !post.session_logged_in
            && post.state == GatewayState::Disconnected && post.msg_seq_num == pre.msg_seq_num
            && post.tx_buffer.content().len() == 0,
        FixProtocolEngine::init_step(pre, post) ==> post.initialized && post.state
            == GatewayState::Connected && post.active == pre.active,
{
}

/// A message that has no checksum field is taken as it is.
pub proof fn lemma_no_checksum_is_accepted(data: Seq<u8>)
    requires
        forall|start: int|
            0 <= start ==> match #[trigger] field_at(data, start) {
                Some(f) => f.0 != 10,
                None => true,
            },
    ensures
        checksum_ok(data),
        checksum_place(data) == data.len(),
{
    lemma_no_checksum_field(data, 0);
}

/// Where no field has the tag of a checksum, none is found.
proof fn lemma_no_checksum_field(data: Seq<u8>, start: nat)
    requires
        forall|start: int|
            0 <= start ==> match #[trigger] field_at(data, start) {
                Some(f) => f.0 != 10,
                None => true,
            },
    ensures
        checksum_field(data, start) is None,
    decreases data.len() - start,
{
    lemma_field_moves(data, start as int);
    if let Some(f) = field_at(data, start as int) {
        lemma_no_checksum_field(data, f.2 as nat);
    }
}

/// A heartbeat is two fields: the version, tag 8 with the value `FIX.4.4`, and the type of
/// the message, tag 35 with the value `0`.
pub proof fn lemma_heartbeat_fields()
    ensures
        heartbeat().len() == 15,
        heartbeat().take(9) == seq![56u8, 61, 70, 73, 88, 46, 52, 46, 52],
        heartbeat().subrange(10, 14) == seq![51u8, 53, 61, 48],
        heartbeat()[9] == 1 && heartbeat()[14] == 1,
{
    assert(heartbeat().take(9) =~= seq![56u8, 61, 70, 73, 88, 46, 52, 46, 52]);
    assert(heartbeat().subrange(10, 14) =~= seq![51u8, 53, 61, 48]);
}

/// A refresh gives one event for each of its entries (tag 269), in their order, from the
/// first field on. All bear the symbol that stands last before the first of them.
pub proof fn lemma_refresh_gives_events(
    data: Seq<u8>,
    places: Seq<int>,
    j: int,
    m: int,
    venue_id: u8,
    now: u64,
)
    requires
        0 <= m < places.len(),
        forall|a: int|
            0 <= a < places.len() ==> 0 <= #[trigger] places[a] < fields(data, 0).len() && fields(
                data,
                0,
            )[places[a]].0 == 269,
        forall|a: int, b: int| 0 <= a < b < places.len() ==> places[a] < places[b],
        forall|x: int|
            0 <= x < fields(data, 0).len() && (#[trigger] fields(data, 0)[x]).0 == 269
                ==> places.contains(x),
        0 <= j < places[0],
        fields(data, 0)[j].0 == 55,
        fields(data, 0)[j].1.len() >= 2,
        forall|x: int| j < x < places[0] ==> (#[trigger] fields(data, 0)[x]).0 != 55,
    ensures
        md_events(data, venue_id, now).len() == places.len(),
        md_events(data, venue_id, now)[m].symbol_id == fields(data, 0)[j].1[0] * 256 + fields(
            data,
            0,
        )[j].1[1],
        md_events(data, venue_id, now)[m] == entry_event(
            fields(data, 0),
            places[m],
            md_events(data, venue_id, now)[m].symbol_id,
            venue_id,
            now,
        ),
{
    let fs = fields(data, 0);
    let k = places[0];
    assert(fs[k].0 == 269);
    assert forall|x: int| 0 <= x < k implies (#[trigger] fs[x]).0 != 269 by {
        if fs[x].0 == 269 {
            let a = choose|a: int| 0 <= a < places.len() && places[a] == x;
            assert(a == 0 || places[0] < places[a]);
        }
    }
    lemma_symbol_before_entries(fs, 0, j, k, 0);
    lemma_one_event_per_entry(fs, 0, places, head_symbol(fs, 0, 0), venue_id, now);
}

/// A refresh whose entries no symbol precedes gives events with symbol zero.
pub proof fn lemma_refresh_without_symbol(
    data: Seq<u8>,
    places: Seq<int>,
    m: int,
    venue_id: u8,
    now: u64,
)
    requires
        0 <= m < places.len(),
        forall|a: int|
            0 <= a < places.len() ==> 0 <= #[trigger] places[a] < fields(data, 0).len() && fields(
                data,
                0,
            )[places[a]].0 == 269,
        forall|a: int, b: int| 0 <= a < b < places.len() ==> places[a] < places[b],
        forall|x: int|
            0 <= x < fields(data, 0).len() && (#[trigger] fields(data, 0)[x]).0 == 269
                ==> places.contains(x),
        forall|x: int| 0 <= x < places[0] ==> (#[trigger] fields(data, 0)[x]).0 != 55,
    ensures
        md_events(data, venue_id, now).len() == places.len(),
        md_events(data, venue_id, now)[m] == entry_event(
            fields(data, 0),
            places[m],
            0,
            venue_id,
            now,
        ),
{
    let fs = fields(data, 0);
    let k = places[0];
    assert(fs[k].0 == 269);
    assert forall|x: int| 0 <= x < k implies (#[trigger] fs[x]).0 != 269 && fs[x].0 != 55 by {
        if fs[x].0 == 269 {
            let a = choose|a: int| 0 <= a < places.len() && places[a] == x;
            assert(a == 0 || places[0] < places[a]);
        }
    }
    lemma_no_symbol(fs, 0, k, 0);
    lemma_one_event_per_entry(fs, 0, places, 0, venue_id, now);
}

} // verus!
