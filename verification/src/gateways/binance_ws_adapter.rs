//! Binance adapter: reads the market data frames of the exchange.

use vstd::prelude::*;
use crate::gateways::frame_buffer::FrameBuffer;
use crate::gateways::gateway_manager::{Gateway, GatewayError, GatewayState, MarketEvent};
use crate::gateways::scan::{find, find_byte, lemma_find, matches_at, stands_at};
use crate::transport::ring_buffer::RingBuffer;

verus! {

/// Binance venue.
pub const BINANCE_VENUE_ID: u8 = 0;

/// Maximum frame size.
pub const MAX_FRAME_SIZE: usize = 1048576;

/// Price that trade events carry, scaled by 10^8.
pub const TRADE_PRICE: i64 = 5_000_000_000;

/// Quantity that trade events carry, scaled by 10^8.
pub const TRADE_QUANTITY: i64 = 100_000_000;

/// Buffer for incoming frames.
pub type ParseBuffer = FrameBuffer<1048576, 40>;

/// Message types.
#[derive(Debug, Clone, Copy, PartialEq, Eq, Structural)]
pub enum MessageType {
    /// A trade.
    Trade,
    /// A change of the book.
    DepthUpdate,
    /// Best prices.
    BookTicker,
    /// Anything else.
    Unknown,
}

/// `":"trade"`.
pub open spec fn trade_mark() -> Seq<u8> {
    seq![34u8, 58, 34, 116, 114, 97, 100, 101, 34]
}

/// `":"depthUpdate"`.
pub open spec fn depth_mark() -> Seq<u8> {
    seq![34u8, 58, 34, 100, 101, 112, 116, 104, 85, 112, 100, 97, 116, 101, 34]
}

/// Type of a message: what follows the first `e`.
pub open spec fn message_type(data: Seq<u8>) -> MessageType {
    let pos = find(data, 101, 0);
    if pos + 10 >= data.len() {
        MessageType::Unknown
    } else if stands_at(data, pos + 1, trade_mark()) {
        MessageType::Trade
    } else if stands_at(data, pos + 1, depth_mark()) {
        MessageType::DepthUpdate
    } else {
        MessageType::Unknown
    }
}

/// Symbol of a trade: the two bytes behind the first `s`.
pub open spec fn trade_symbol(data: Seq<u8>) -> u16 {
    let s = find(data, 115, 0);
    if s + 3 < data.len() {
        (data[s + 1] * 256 + data[s + 2]) as u16
    } else {
        0
    }
}

/// A trade has its fields: the time with room behind it, symbol, price and
/// quantity.
pub open spec fn is_trade(data: Seq<u8>) -> bool {
    &&& find(data, 69, 0) + 10 < data.len()
    &&& find(data, 115, 0) < data.len()
    &&& find(data, 112, 0) < data.len()
    &&& find(data, 113, 0) < data.len()
}

/// Adapter for the Binance market data stream.
#[derive(Debug)]
pub struct BinanceWsAdapter {
    /// Venue.
    pub venue_id: u8,
    /// State.
    pub state: GatewayState,
    /// Started.
    pub active: bool,
    /// Events are delivered.
    pub initialized: bool,
    /// Frame that is being read.
    pub parse_buffer: Box<ParseBuffer>,
    /// Events delivered.
    pub events_written: u64,
    /// Frames read.
    pub sequence: u64,
    /// Time of the last sign of life.
    pub last_heartbeat: u64,
    /// Reconnects.
    pub reconnect_count: u64,
}

impl BinanceWsAdapter {
    /// Adapter that is not connected.
    pub fn new() -> (r: Self)
        ensures
            r.wf(),
            r.venue_id == BINANCE_VENUE_ID,
            r.state == GatewayState::Disconnected,
            !r.active,
            !r.initialized,
            r.events_written == 0,
            r.sequence == 0,
            r.last_heartbeat == 0,
            r.reconnect_count == 0,
    {
        BinanceWsAdapter {
            venue_id: BINANCE_VENUE_ID,
            state: GatewayState::Disconnected,
            active: false,
            initialized: false,
            parse_buffer: Box::new(ParseBuffer::new()),
            events_written: 0,
            sequence: 0,
            last_heartbeat: 0,
            reconnect_count: 0,
        }
    }

    /// Place of a delimiter.
    pub fn find_delimiter_simd(data: &[u8], delimiter: u8) -> (r: Option<usize>)
        ensures
            r == if find(data@, delimiter, 0) < data@.len() {
                Some(find(data@, delimiter, 0) as usize)
            } else {
                None
            },
    {
        let at: usize = find_byte(data, delimiter, 0);
        if at < data.len() {
            Some(at)
        } else {
            None
        }
    }

    /// Event of a trade, at time `now`.
    pub open spec fn trade_event(&self, data: Seq<u8>, now: u64) -> MarketEvent {
        MarketEvent::spec_event(
            self.venue_id,
            trade_symbol(data),
            0,
            now,
            TRADE_PRICE,
            TRADE_QUANTITY,
        )
    }

    /// Read a trade message:
    /// `{"e":"trade","E":timestamp,"s":"SYMBOL","t":tradeId,"p":"price","q":"qty",...}`.
    /// Gives nothing if a field is missing.
    pub fn parse_trade(&self, data: &[u8], now: u64) -> (r: Option<MarketEvent>)
        ensures
            r == if is_trade(data@) {
                Some(self.trade_event(data@, now))
            } else {
                None
            },
    {
        let len: usize = data.len();
        let ts_start: usize = find_byte(data, 69, 0);
        if len < 10 || ts_start >= len - 10 {
            return None;
        }
        let sym_start: usize = match Self::find_delimiter_simd(data, 115) {
            Some(at) => at,
            None => {
                return None;
            },
        };
        if Self::find_delimiter_simd(data, 112).is_none() {
            return None;
        }
        if Self::find_delimiter_simd(data, 113).is_none() {
            return None;
        }
        proof {
            lemma_find(data@, 115, 0);
        }
        let symbol_id: u16 = if sym_start < len - 3 {
            data[sym_start + 1] as u16 * 256 + data[sym_start + 2] as u16
        } else {
            0
        };
        Some(MarketEvent::event(self.venue_id, symbol_id, 0, now, TRADE_PRICE, TRADE_QUANTITY))
    }

    /// Event of a change of the book, at time `now`.
    pub open spec fn depth_event(&self, now: u64) -> MarketEvent {
        MarketEvent::spec_event(self.venue_id, 0, 1, now, 0, 0)
    }

    /// Read a depth update message.
    pub fn parse_depth_update(&self, data: &[u8], now: u64) -> (r: Option<MarketEvent>)
        ensures
            r == Some(self.depth_event(now)),
    {
        Some(MarketEvent::event(self.venue_id, 0, 1, now, 0, 0))
    }

    /// Type of a message.
    pub fn detect_message_type(&self, data: &[u8]) -> (r: MessageType)
        ensures
            r == message_type(data@),
    {
        let len: usize = data.len();
        let pos: usize = find_byte(data, 101, 0);
        if len > 10 && pos < len - 10 {
            let trade: [u8; 9] = [34, 58, 34, 116, 114, 97, 100, 101, 34];
            assert(trade@ =~= trade_mark());
            if matches_at(data, pos + 1, trade.as_slice()) {
                return MessageType::Trade;
            }
            let depth: [u8; 15] = [
                34,
                58,
                34,
                100,
                101,
                112,
                116,
                104,
                85,
                112,
                100,
                97,
                116,
                101,
                34,
            ];
            assert(depth@ =~= depth_mark());
            if matches_at(data, pos + 1, depth.as_slice()) {
                return MessageType::DepthUpdate;
            }
        }
        MessageType::Unknown
    }

    /// Events of a message.
    pub open spec fn events(&self, data: Seq<u8>, now: u64) -> Seq<MarketEvent> {
        match message_type(data) {
            MessageType::Trade => if is_trade(data) {
                seq![self.trade_event(data, now)]
            } else {
                Seq::empty()
            },
            MessageType::DepthUpdate => seq![self.depth_event(now)],
            _ => Seq::empty(),
        }
    }

    /// Event of a message, if it has one.
    fn parse(&self, data: &[u8], now: u64) -> (r: Option<MarketEvent>)
        ensures
            self.events(data@, now) == match r {
                Some(event) => seq![event],
                None => Seq::empty(),
            },
    {
        match self.detect_message_type(data) {
            MessageType::Trade => self.parse_trade(data, now),
            MessageType::DepthUpdate => self.parse_depth_update(data, now),
            _ => None,
        }
    }

    /// Frame that is read when data comes in: none if the data is too large.
    pub open spec fn frame(data: Seq<u8>) -> Seq<u8> {
        if data.len() <= MAX_FRAME_SIZE {
            data
        } else {
            Seq::empty()
        }
    }
}

impl Default for BinanceWsAdapter {
    fn default() -> (r: Self)
        ensures
            r.wf(),
            r.venue_id == BINANCE_VENUE_ID,
            r.state == GatewayState::Disconnected,
            !r.active,
            !r.initialized,
            r.events_written == 0,
            r.sequence == 0,
            r.last_heartbeat == 0,
            r.reconnect_count == 0,
    {
        Self::new()
    }
}

impl Gateway for BinanceWsAdapter {
    /// Between calls no frame is held.
    open spec fn wf(&self) -> bool {
        self.parse_buffer.wf() && self.parse_buffer.len == 0
    }

    open spec fn spec_venue_id(&self) -> u8 {
        self.venue_id
    }

    open spec fn spec_venue_name(&self) -> Seq<char> {
        "Binance"@
    }

    open spec fn spec_state(&self) -> GatewayState {
        self.state
    }

    open spec fn spec_latency_score(&self, now: u64) -> u32 {
        heartbeat_score(self.last_heartbeat, now)
    }

    open spec fn init_step(pre: Self, post: Self) -> bool {
        post == (BinanceWsAdapter { initialized: true, state: GatewayState::Connected, ..pre })
    }

    open spec fn start_step(pre: Self, now: u64, r: Result<(), GatewayError>, post: Self) -> bool {
        if pre.active {
            r == Err::<(), GatewayError>(GatewayError::AlreadyConnected) && post == pre
        } else {
            r == Ok::<(), GatewayError>(()) && post == (BinanceWsAdapter {
                active: true,
                state: GatewayState::Ready,
                last_heartbeat: now,
                ..pre
            })
        }
    }

    open spec fn stop_step(pre: Self, post: Self) -> bool {
        post == (BinanceWsAdapter {
            active: false,
            state: GatewayState::Disconnected,
            parse_buffer: post.parse_buffer,
            ..pre
        })
    }

    open spec fn process_step(
        pre: Self,
        data: Seq<u8>,
        room: nat,
        now: u64,
        events: Seq<MarketEvent>,
        post: Self,
    ) -> bool {
        if !pre.active {
            events == Seq::<MarketEvent>::empty() && post == pre
        } else {
            &&& events == if pre.initialized && room > 0 {
                pre.events(Self::frame(data), now)
            } else {
                Seq::empty()
            }
            &&& post == (BinanceWsAdapter {
                parse_buffer: post.parse_buffer,
                events_written: pre.events_written.wrapping_add(events.len() as u64),
                sequence: pre.sequence.wrapping_add(1),
                last_heartbeat: now,
                ..pre
            })
        }
    }

    fn venue_id(&self) -> (r: u8) {
        self.venue_id
    }

    fn venue_name(&self) -> (r: &'static str) {
        "Binance"
    }

    fn init(&mut self) {
        self.initialized = true;
        self.state = GatewayState::Connected;
    }

    fn start(&mut self, now: u64) -> (r: Result<(), GatewayError>) {
        if self.active {
            return Err(GatewayError::AlreadyConnected);
        }
        self.active = true;
        self.state = GatewayState::Syncing;
        self.last_heartbeat = now;
        self.state = GatewayState::Ready;
        Ok(())
    }

    fn stop(&mut self) {
        self.active = false;
        self.state = GatewayState::Disconnected;
        self.parse_buffer.clear();
    }

    fn process_buffer(
        &mut self,
        data: &[u8],
        output: &mut RingBuffer<MarketEvent>,
        now: u64,
    ) -> (r: usize) {
        let ghost queued = output.items@;
        if !self.active {
            assert(output.items@.skip(queued.len() as int) =~= Seq::empty());
            return 0;
        }
        self.parse_buffer.receive(data);
        assert(Seq::<u8>::empty() + data@ =~= data@);
        assert(self.parse_buffer.content() == Self::frame(data@));
        let mut count: usize = 0;
        let event = self.parse(self.parse_buffer.as_slice(), now);
        if let Some(e) = event {
            if self.initialized {
                if output.push(e).is_ok() {
                    count = 1;
                }
            }
        }
        self.parse_buffer.clear();
        self.events_written = self.events_written.wrapping_add(count as u64);
        self.sequence = self.sequence.wrapping_add(1);
        self.last_heartbeat = now;
        proof {
            let events = output.items@.skip(queued.len() as int);
            if count == 1 {
                assert(events =~= seq![event->0]);
            } else {
                assert(events =~= Seq::empty());
            }
        }
        count
    }

    fn state(&self) -> (r: GatewayState) {
        self.state
    }

    fn latency_score(&self, now: u64) -> (r: u32) {
        score_heartbeat(self.last_heartbeat, now)
    }

    /// The score follows from the last sign of life: there is nothing to note.
    fn update_latency_score(&mut self, score: u32)
        ensures
            *final(self) == *old(self),
    {
    }
}

/// Score of a sign of life: the fresher, the higher.
pub open spec fn heartbeat_score(last: u64, now: u64) -> u32 {
    if now - last < 1000 {
        1000
    } else if now - last < 10000 {
        500
    } else {
        100
    }
}

/// Score of a sign of life.
pub fn score_heartbeat(last: u64, now: u64) -> (r: u32)
    ensures
        r == heartbeat_score(last, now),
{
    let diff: u64 = now.saturating_sub(last);
    if diff < 1000 {
        1000
    } else if diff < 10000 {
        500
    } else {
        100
    }
}

/// A message is told by what stands behind its first `e`: `":"trade"` or
/// `":"depthUpdate"`. One that ends within ten bytes of that letter, or has no such
/// letter, is unknown, as is any other.
pub proof fn lemma_type_by_mark(data: Seq<u8>, at: int)
    requires
        0 <= at < data.len(),
        data[at] == 101,
        forall|i: int| 0 <= i < at ==> data[i] != 101,
    ensures
        at + 10 >= data.len() ==> message_type(data) == MessageType::Unknown,
        at + 10 < data.len() ==> (message_type(data) == MessageType::Trade <==> data.subrange(
            at + 1,
            at + 10,
        ) == seq![34u8, 58, 34, 116, 114, 97, 100, 101, 34]),
        at + 10 < data.len() ==> (message_type(data) == MessageType::DepthUpdate <==> at + 16
            <= data.len() && data.subrange(at + 1, at + 16) == seq![
            34u8,
            58,
            34,
            100,
            101,
            112,
            116,
            104,
            85,
            112,
            100,
            97,
            116,
            101,
            34,
        ]),
        message_type(data) != MessageType::BookTicker,
{
    lemma_find_is_first(data, 101, at);
    if at + 16 <= data.len() {
        let trade = data.subrange(at + 1, at + 10);
        let depth = data.subrange(at + 1, at + 16);
        assert(trade[3] == data[at + 4] && depth[3] == data[at + 4]);
        assert(trade_mark()[3] == 116);
        assert(depth_mark()[3] == 100);
    }
}

/// A message without an `e` is unknown and gives nothing.
pub proof fn lemma_unmarked_is_unknown(g: BinanceWsAdapter, data: Seq<u8>, now: u64)
    requires
        forall|i: int| 0 <= i < data.len() ==> data[i] != 101,
    ensures
        message_type(data) == MessageType::Unknown,
        g.events(data, now).len() == 0,
{
    lemma_find(data, 101, 0);
}

/// The place that a search gives is the one where the byte first stands.
proof fn lemma_find_is_first(data: Seq<u8>, b: u8, at: int)
    requires
        0 <= at < data.len(),
        data[at] == b,
        forall|i: int| 0 <= i < at ==> data[i] != b,
    ensures
        find(data, b, 0) == at,
{
    lemma_find(data, b, 0);
    let f = find(data, b, 0);
    if f < at {
        assert(data[f] != b);
    }
    if f > at {
        assert(data[at] != b);
    }
}

/// A trade is complete when more than ten bytes are left from its first `E` on and the
/// letters `s`, `p` and `q` each occur in it.
pub proof fn lemma_trade_is_complete(data: Seq<u8>, at: int)
    requires
        0 <= at < data.len(),
        data[at] == 69,
        forall|i: int| 0 <= i < at ==> data[i] != 69,
    ensures
        is_trade(data) <==> at + 10 < data.len() && data.contains(115) && data.contains(112)
            && data.contains(113),
{
    lemma_find_is_first(data, 69, at);
    lemma_find(data, 115, 0);
    lemma_find(data, 112, 0);
    lemma_find(data, 113, 0);
}

/// The symbol of a trade is the two bytes behind its first `s`, the first counting two
/// hundred and fifty-six times the second. It is zero when no byte follows them.
pub proof fn lemma_symbol_behind_letter(data: Seq<u8>, at: int)
    requires
        0 <= at < data.len(),
        data[at] == 115,
        forall|i: int| 0 <= i < at ==> data[i] != 115,
    ensures
        at + 3 < data.len() ==> trade_symbol(data) == data[at + 1] * 256 + data[at + 2],
        at + 3 >= data.len() ==> trade_symbol(data) == 0,
{
    lemma_find_is_first(data, 115, at);
}

/// A complete trade gives one event of type zero at the fixed price and quantity, an
/// update of the depth one of type one without either. Both bear the venue and the time.
pub proof fn lemma_event_of_message(g: BinanceWsAdapter, data: Seq<u8>, now: u64)
    ensures
        message_type(data) == MessageType::Trade && is_trade(data) ==> {
            let event = g.events(data, now)[0];
            &&& g.events(data, now).len() == 1
            &&& event.venue_id == g.venue_id
            &&& event.event_type == 0
            &&& event.symbol_id == trade_symbol(data)
            &&& event.timestamp_ns == now
            &&& event.price == 5_000_000_000
            &&& event.quantity == 100_000_000
            &&& event.flags == 0
        },
        message_type(data) == MessageType::DepthUpdate ==> {
            let event = g.events(data, now)[0];
            &&& g.events(data, now).len() == 1
            &&& event.venue_id == g.venue_id
            &&& event.event_type == 1
            &&& event.symbol_id == 0
            &&& event.timestamp_ns == now
            &&& event.price == 0
            &&& event.quantity == 0
            &&& event.flags == 0
        },
        message_type(data) == MessageType::Trade && !is_trade(data) ==> g.events(data, now).len()
            == 0,
        message_type(data) == MessageType::Unknown ==> g.events(data, now).len() == 0,
{
}

/// The score of a venue falls with the age of its last heartbeat: a thousand below a
/// thousand units, five hundred below ten thousand, a hundred from there on.
pub proof fn lemma_score_by_age(last: u64, now: u64)
    ensures
        now < last + 1000 ==> heartbeat_score(last, now) == 1000,
        last + 1000 <= now < last + 10000 ==> heartbeat_score(last, now) == 500,
        last + 10000 <= now ==> heartbeat_score(last, now) == 100,
{
}

/// A message handed to a running adapter that has been made ready is read if the output
/// has room and the message fits the buffer of a mebibyte. It is counted, and the time is
/// kept as that of the last heartbeat. A stopped adapter does nothing.
pub proof fn lemma_message_is_read(
    pre: BinanceWsAdapter,
    data: Seq<u8>,
    room: nat,
    now: u64,
    events: Seq<MarketEvent>,
    post: BinanceWsAdapter,
)
    requires
        BinanceWsAdapter::process_step(pre, data, room, now, events, post),
    ensures
        !pre.active ==> events.len() == 0 && post == pre,
        pre.active && pre.initialized && room > 0 && data.len() <= 1_048_576 ==> events
            == pre.events(data, now),
        pre.active && (!pre.initialized || room == 0 || data.len() > 1_048_576) ==> events.len()
            == 0,
        pre.active ==> post.last_heartbeat == now && post.active && post.state == pre.state
            && post.venue_id == pre.venue_id && post.initialized == pre.initialized
            && post.reconnect_count == pre.reconnect_count,
        pre.active && pre.sequence < 0xffff_ffff_ffff_ffff ==> post.sequence == pre.sequence + 1,
        pre.active && pre.events_written + events.len() <= 0xffff_ffff_ffff_ffff
            ==> post.events_written == pre.events_written + events.len(),
{
    lemma_find(Seq::<u8>::empty(), 101, 0);
}

/// Starting makes a stopped adapter ready and notes the time; one that runs refuses to be
/// started again. Stopping disconnects it.
pub proof fn lemma_started_and_stopped(
    pre: BinanceWsAdapter,
    now: u64,
    r: Result<(), GatewayError>,
    post: BinanceWsAdapter,
)
    ensures
        BinanceWsAdapter::start_step(pre, now, r, post) && pre.active ==> r == Err::<
            (),
            GatewayError,
        >(GatewayError::AlreadyConnected) && post == pre,
        BinanceWsAdapter::start_step(pre, now, r, post) && !pre.active ==> r is Ok && post.active
            && post.state == GatewayState::Ready && post.last_heartbeat == now && post.venue_id
            == pre.venue_id && post.sequence == pre.sequence,
        BinanceWsAdapter::stop_step(pre, post) ==> !post.active && post.state
            == GatewayState::Disconnected && post.sequence == pre.sequence && post.venue_id
            == pre.venue_id,
        BinanceWsAdapter::init_step(pre, post) ==> post.initialized && post.state
            == GatewayState::Connected && post.active == pre.active,
{
}

} // verus!
