//! Gateway manager: one interface to many venues, with a circuit breaker.

use vstd::prelude::*;
use crate::transport::ring_buffer::RingBuffer;

verus! {

broadcast use vstd::array::group_array_axioms;

/// Maximum number of supported venues.
pub const MAX_VENUES: usize = 16;

/// Market data event that all gateways produce.
#[derive(Debug, Clone, Copy)]
pub struct MarketEvent {
    /// Venue.
    pub venue_id: u8,
    /// Symbol.
    pub symbol_id: u16,
    /// 0=Trade, 1=L2Update, 2=Quote.
    pub event_type: u8,
    /// Time of capture.
    pub timestamp_ns: u64,
    /// Price, scaled by 10^8.
    pub price: i64,
    /// Quantity, scaled by 10^8.
    pub quantity: i64,
    /// Normalized flags of the exchange.
    pub flags: u32,
    /// Fills the cache line.
    pub pad: [u8; 32],
}

impl MarketEvent {
    /// Event without flags.
    pub open spec fn spec_event(
        venue_id: u8,
        symbol_id: u16,
        event_type: u8,
        timestamp_ns: u64,
        price: i64,
        quantity: i64,
    ) -> Self {
        MarketEvent {
            venue_id,
            symbol_id,
            event_type,
            timestamp_ns,
            price,
            quantity,
            flags: 0,
            pad: vstd::array::spec_array_fill_for_copy_type::<u8, 32>(0u8),
        }
    }

    /// Event without flags.
    pub fn event(
        venue_id: u8,
        symbol_id: u16,
        event_type: u8,
        timestamp_ns: u64,
        price: i64,
        quantity: i64,
    ) -> (r: Self)
        ensures
            r == Self::spec_event(venue_id, symbol_id, event_type, timestamp_ns, price, quantity),
    {
        MarketEvent {
            venue_id,
            symbol_id,
            event_type,
            timestamp_ns,
            price,
            quantity,
            flags: 0,
            pad: [0u8;32],
        }
    }
}

impl Default for MarketEvent {
    fn default() -> (r: Self)
        ensures
            r == MarketEvent::spec_event(0, 0, 0, 0, 0, 0),
    {
        Self::event(0, 0, 0, 0, 0, 0)
    }
}

/// Life cycle of a gateway.
#[derive(Debug, Clone, Copy, PartialEq, Eq, Structural)]
pub enum GatewayState {
    /// No connection.
    Disconnected,
    /// Connection is being made.
    Connecting,
    /// Connected.
    Connected,
    /// Catching up.
    Syncing,
    /// Delivering.
    Ready,
    /// Exchange halt or auction.
    Halted,
    /// Failed.
    Error,
}

/// Gateway error types.
#[derive(Debug, Clone, Copy, PartialEq, Eq, Structural)]
pub enum GatewayError {
    /// The gateway is started already.
    AlreadyConnected,
    /// The gateway is not started.
    NotConnected,
    /// No room for events.
    BufferFull,
    /// A message cannot be read.
    InvalidMessage,
    /// Messages are missing.
    SequenceGap,
    /// The circuit breaker is tripped.
    Halted,
    /// Anything else.
    Unknown,
}

/// Slot of a venue.
#[derive(Debug, Clone, Copy)]
pub struct GatewaySlot {
    /// State of the gateway.
    pub state: GatewayState,
    /// A gateway is registered.
    pub active: bool,
    /// Events so far.
    pub sequence: u64,
    /// Weight for routing.
    pub latency_score: u32,
    /// Fills the cache line.
    pub pad: [u8; 50],
}

impl GatewaySlot {
    /// Slot without a gateway.
    pub open spec fn spec_new() -> Self {
        GatewaySlot {
            state: GatewayState::Disconnected,
            active: false,
            sequence: 0,
            latency_score: 0,
            pad: vstd::array::spec_array_fill_for_copy_type::<u8, 50>(0u8),
        }
    }

    /// Slot without a gateway.
    pub fn new() -> (r: Self)
        ensures
            r == Self::spec_new(),
    {
        GatewaySlot {
            state: GatewayState::Disconnected,
            active: false,
            sequence: 0,
            latency_score: 0,
            pad: [0u8;50],
        }
    }
}

/// What all exchange adapters implement. The relations say what a call may leave.
pub trait Gateway: Sized {
    /// The gateway can be used.
    spec fn wf(&self) -> bool;

    /// Venue.
    spec fn spec_venue_id(&self) -> u8;

    /// Name of the venue.
    spec fn spec_venue_name(&self) -> Seq<char>;

    /// State of the gateway.
    spec fn spec_state(&self) -> GatewayState;

    /// Latency score at a time.
    spec fn spec_latency_score(&self, now: u64) -> u32;

    /// `post` is the gateway after initialization of `pre`.
    spec fn init_step(pre: Self, post: Self) -> bool;

    /// A start of `pre` may give `r` and leave `post`.
    spec fn start_step(pre: Self, now: u64, r: Result<(), GatewayError>, post: Self) -> bool;

    /// A stop of `pre` may leave `post`.
    spec fn stop_step(pre: Self, post: Self) -> bool;

    /// `pre` may make `events` of data and leave `post`, where there is room for
    /// `room` events.
    spec fn process_step(
        pre: Self,
        data: Seq<u8>,
        room: nat,
        now: u64,
        events: Seq<MarketEvent>,
        post: Self,
    ) -> bool;

    /// Unique venue, below `MAX_VENUES`.
    fn venue_id(&self) -> (r: u8)
        ensures
            r == self.spec_venue_id(),
    ;

    /// Name of the venue, for logging.
    fn venue_name(&self) -> (r: &'static str)
        ensures
            r@ == self.spec_venue_name(),
    ;

    /// Let the gateway deliver events. To be called before `start`.
    fn init(&mut self)
        requires
            old(self).wf(),
        ensures
            final(self).wf(),
            Self::init_step(*old(self), *final(self)),
    ;

    /// Start the gateway at time `now`.
    fn start(&mut self, now: u64) -> (r: Result<(), GatewayError>)
        requires
            old(self).wf(),
        ensures
            final(self).wf(),
            Self::start_step(*old(self), now, r, *final(self)),
    ;

    /// Stop the gateway.
    fn stop(&mut self)
        requires
            old(self).wf(),
        ensures
            final(self).wf(),
            Self::stop_step(*old(self), *final(self)),
    ;

    /// Read data that came in at time `now`, and deliver its events. Gives the
    /// number of events delivered.
    fn process_buffer(
        &mut self,
        data: &[u8],
        output: &mut RingBuffer<MarketEvent>,
        now: u64,
    ) -> (r: usize)
        requires
            old(self).wf(),
            old(output).wf(),
        ensures
            final(self).wf(),
            final(output).wf(),
            final(output).capacity == old(output).capacity,
            delivered(old(output).items@, final(output).items@, r as int),
            Self::process_step(
                *old(self),
                data@,
                old(output).room(),
                now,
                final(output).items@.skip(old(output).items@.len() as int),
                *final(self),
            ),
    ;

    /// Current gateway state.
    fn state(&self) -> (r: GatewayState)
        ensures
            r == self.spec_state(),
    ;

    /// Latency score at time `now` (higher = better).
    fn latency_score(&self, now: u64) -> (r: u32)
        ensures
            r == self.spec_latency_score(now),
    ;

    /// Take note of a latency score.
    fn update_latency_score(&mut self, score: u32)
        requires
            old(self).wf(),
        ensures
            final(self).wf(),
            final(self).spec_venue_id() == old(self).spec_venue_id(),
    ;
}

/// `n` items were added to a queue.
pub open spec fn delivered<T>(before: Seq<T>, after: Seq<T>, n: int) -> bool {
    &&& after.len() == before.len() + n
    &&& forall|i: int| 0 <= i < before.len() ==> #[trigger] after[i] == before[i]
}

/// Gateway manager: coordinates the gateways of all venues.
#[derive(Debug)]
pub struct GatewayManager<G> {
    /// Slots of the venues.
    pub slots: [GatewaySlot; 16],
    /// Gateways of the venues.
    pub gateways: Vec<Option<G>>,
    /// Number of registered gateways.
    pub active_count: usize,
    /// Circuit breaker.
    pub circuit_breaker: bool,
    /// Events of all gateways.
    pub total_events: u64,
}

impl<G: Gateway> GatewayManager<G> {
    /// A slot is active exactly if it has a gateway, and the gateways can be used.
    pub open spec fn wf(&self) -> bool {
        &&& self.gateways@.len() == MAX_VENUES
        &&& forall|i: int|
            0 <= i < MAX_VENUES ==> (#[trigger] self.gateways@[i] is Some)
                == self.slots@[i].active
        &&& forall|i: int|
            0 <= i < MAX_VENUES && (#[trigger] self.gateways@[i]) is Some
                ==> self.gateways@[i]->0.wf()
    }

    /// Manager without gateways.
    pub fn new() -> (r: Self)
        ensures
            r.wf(),
            forall|i: int| 0 <= i < MAX_VENUES ==> r.slots@[i] == GatewaySlot::spec_new(),
            forall|i: int| 0 <= i < MAX_VENUES ==> r.gateways@[i] is None,
            r.active_count == 0,
            !r.circuit_breaker,
            r.total_events == 0,
    {
        let mut gateways: Vec<Option<G>> = Vec::new();
        while gateways.len() < MAX_VENUES
            invariant
                gateways@.len() <= MAX_VENUES,
                forall|i: int| 0 <= i < gateways@.len() ==> gateways@[i] is None,
            decreases MAX_VENUES - gateways@.len(),
        {
            gateways.push(None);
        }
        GatewayManager {
            slots: [GatewaySlot::new();16],
            gateways,
            active_count: 0,
            circuit_breaker: false,
            total_events: 0,
        }
    }

    /// Register a gateway at its venue.
    pub fn register(&mut self, gateway: G)
        requires
            old(self).wf(),
            gateway.wf(),
            gateway.spec_venue_id() < MAX_VENUES,
            !old(self).slots@[gateway.spec_venue_id() as int].active,
        ensures
            final(self).wf(),
            ({
                let v = gateway.spec_venue_id() as int;
                &&& final(self).slots@ == old(self).slots@.update(
                    v,
                    GatewaySlot {
                        active: true,
                        state: GatewayState::Connecting,
                        ..old(self).slots@[v]
                    },
                )
                &&& final(self).gateways@ == old(self).gateways@.update(v, Some(gateway))
            }),
            *final(self) == (GatewayManager {
                slots: final(self).slots,
                gateways: final(self).gateways,
                active_count: old(self).active_count.wrapping_add(1),
                ..*old(self)
            }),
    {
        let vid: usize = gateway.venue_id() as usize;
        let mut slot = self.slots[vid];
        slot.active = true;
        slot.state = GatewayState::Connecting;
        self.slots[vid] = slot;
        self.gateways.set(vid, Some(gateway));
        self.active_count = self.active_count.wrapping_add(1);
    }

    /// Slot of a venue after its gateway was started with a result.
    pub open spec fn started_slot(slot: GatewaySlot, r: Result<(), GatewayError>) -> GatewaySlot {
        GatewaySlot {
            state: if r is Ok {
                GatewayState::Connected
            } else {
                GatewayState::Error
            },
            ..slot
        }
    }

    /// Take note of what the start of a gateway gave.
    pub fn record_start(&mut self, vid: usize, r: &Result<(), GatewayError>)
        requires
            old(self).wf(),
            vid < MAX_VENUES,
        ensures
            final(self).wf(),
            final(self).slots@ == old(self).slots@.update(
                vid as int,
                Self::started_slot(old(self).slots@[vid as int], *r),
            ),
            *final(self) == (GatewayManager { slots: final(self).slots, ..*old(self) }),
    {
        let mut slot = self.slots[vid];
        slot.state = match r {
            Ok(_) => GatewayState::Connected,
            Err(_) => GatewayState::Error,
        };
        self.slots[vid] = slot;
    }

    /// The gateway of a venue was started and gave `r`; nothing happened at a venue
    /// without one.
    pub open spec fn started_at(pre: Self, now: u64, post: Self, i: int, r: Result<(), GatewayError>) -> bool {
        if pre.gateways@[i] is Some {
            &&& post.gateways@[i] is Some
            &&& G::start_step(pre.gateways@[i]->0, now, r, post.gateways@[i]->0)
            &&& post.slots@[i] == Self::started_slot(pre.slots@[i], r)
        } else {
            Self::same_at(pre, post, i)
        }
    }

    /// Nothing happened at a venue.
    pub open spec fn same_at(pre: Self, post: Self, i: int) -> bool {
        post.gateways@[i] == pre.gateways@[i] && post.slots@[i] == pre.slots@[i]
    }

    /// Start all registered gateways at time `now`, venue by venue. Stops at the
    /// first that fails, with its error. Fails, starting none, if the circuit
    /// breaker is tripped.
    pub fn start_all(&mut self, now: u64) -> (r: Result<(), GatewayError>)
        requires
            old(self).wf(),
        ensures
            final(self).wf(),
            old(self).circuit_breaker ==> r == Err::<(), GatewayError>(GatewayError::Halted)
                && *final(self) == *old(self),
            !old(self).circuit_breaker ==> {
                &&& *final(self) == (GatewayManager {
                    slots: final(self).slots,
                    gateways: final(self).gateways,
                    ..*old(self)
                })
                &&& match r {
                    Ok(_) => forall|i: int|
                        0 <= i < MAX_VENUES ==> #[trigger] Self::started_at(
                            *old(self),
                            now,
                            *final(self),
                            i,
                            Ok(()),
                        ),
                    Err(_) => exists|k: int|
                        {
                            &&& 0 <= k < MAX_VENUES
                            &&& old(self).gateways@[k] is Some
                            &&& #[trigger] Self::started_at(*old(self), now, *final(self), k, r)
                            &&& forall|i: int|
                                0 <= i < k ==> #[trigger] Self::started_at(
                                    *old(self),
                                    now,
                                    *final(self),
                                    i,
                                    Ok(()),
                                )
                            &&& forall|i: int|
                                k < i < MAX_VENUES ==> #[trigger] Self::same_at(
                                    *old(self),
                                    *final(self),
                                    i,
                                )
                        },
                }
            },
    {
        if self.circuit_breaker {
            return Err(GatewayError::Halted);
        }
        let mut i: usize = 0;
        while i < MAX_VENUES
            invariant
                self.wf(),
                i <= MAX_VENUES,
                !old(self).circuit_breaker,
                *self == (GatewayManager { slots: self.slots, gateways: self.gateways, ..*old(self) }),
                forall|j: int|
                    0 <= j < i ==> #[trigger] Self::started_at(*old(self), now, *self, j, Ok(())),
                forall|j: int| i <= j < MAX_VENUES ==> #[trigger] Self::same_at(*old(self), *self, j),
            decreases MAX_VENUES - i,
        {
            assert(Self::same_at(*old(self), *self, i as int));
            let ghost before = *self;
            if let Some(gw) = &mut self.gateways[i] {
                let r = gw.start(now);
                self.record_start(i, &r);
                assert(Self::started_at(*old(self), now, *self, i as int, r));
                assert forall|j: int| 0 <= j < i implies #[trigger] Self::started_at(*old(self), now, *self, j, Ok(())) by {
                    assert(Self::started_at(*old(self), now, before, j, Ok(())));
                }
                assert forall|j: int| i < j < MAX_VENUES implies #[trigger] Self::same_at(*old(self), *self, j) by {
                    assert(Self::same_at(*old(self), before, j));
                }
                match r {
                    Ok(done) => {
                        assert(done == ());
                    },
                    Err(e) => {
                        return Err(e);
                    },
                }
            } else {
                assert(Self::same_at(*old(self), *self, i as int));
                assert(Self::started_at(*old(self), now, *self, i as int, Ok(())));
                assert forall|j: int| 0 <= j < i implies #[trigger] Self::started_at(
                    *old(self),
                    now,
                    *self,
                    j,
                    Ok(()),
                ) by {
                    assert(Self::started_at(*old(self), now, before, j, Ok(())));
                }
                assert forall|j: int| i < j < MAX_VENUES implies #[trigger] Self::same_at(
                    *old(self),
                    *self,
                    j,
                ) by {
                    assert(Self::same_at(*old(self), before, j));
                }
            }
            i = i + 1;
        }
        Ok(())
    }

    /// The gateway of a venue was stopped; nothing happened at a venue without one.
    pub open spec fn stopped_at(pre: Self, post: Self, i: int) -> bool {
        if pre.gateways@[i] is Some {
            post.gateways@[i] is Some && G::stop_step(pre.gateways@[i]->0, post.gateways@[i]->0)
        } else {
            post.gateways@[i] is None
        }
    }

    /// Stop all gateways, and trip the circuit breaker.
    pub fn stop_all(&mut self)
        requires
            old(self).wf(),
        ensures
            final(self).wf(),
            forall|i: int|
                0 <= i < MAX_VENUES ==> #[trigger] Self::stopped_at(*old(self), *final(self), i),
            *final(self) == (GatewayManager {
                gateways: final(self).gateways,
                circuit_breaker: true,
                ..*old(self)
            }),
    {
        let mut i: usize = 0;
        while i < MAX_VENUES
            invariant
                self.wf(),
                i <= MAX_VENUES,
                *self == (GatewayManager { gateways: self.gateways, ..*old(self) }),
                forall|j: int| 0 <= j < i ==> #[trigger] Self::stopped_at(*old(self), *self, j),
                forall|j: int|
                    i <= j < MAX_VENUES ==> #[trigger] self.gateways@[j] == old(self).gateways@[j],
            decreases MAX_VENUES - i,
        {
            let ghost before = *self;
            if let Some(gw) = &mut self.gateways[i] {
                gw.stop();
            }
            assert(Self::stopped_at(*old(self), *self, i as int));
            assert forall|j: int| 0 <= j < i implies #[trigger] Self::stopped_at(
                *old(self),
                *self,
                j,
            ) by {
                assert(Self::stopped_at(*old(self), before, j));
            }
            i = i + 1;
        }
        let ghost stopped = *self;
        self.circuit_breaker = true;
        assert forall|j: int| 0 <= j < MAX_VENUES implies #[trigger] Self::stopped_at(
            *old(self),
            *self,
            j,
        ) by {
            assert(Self::stopped_at(*old(self), stopped, j));
        }
    }

    /// Data of a venue is handed to its gateway.
    pub open spec fn takes(&self, venue_id: u8) -> bool {
        !self.circuit_breaker && venue_id < MAX_VENUES && self.slots@[venue_id as int].active
    }

    /// Take note of events that a gateway delivered.
    pub fn record_events(&mut self, vid: usize, count: usize)
        requires
            old(self).wf(),
            vid < MAX_VENUES,
        ensures
            final(self).wf(),
            final(self).slots@ == old(self).slots@.update(
                vid as int,
                GatewaySlot {
                    sequence: old(self).slots@[vid as int].sequence.wrapping_add(count as u64),
                    ..old(self).slots@[vid as int]
                },
            ),
            *final(self) == (GatewayManager {
                slots: final(self).slots,
                total_events: old(self).total_events.wrapping_add(count as u64),
                ..*old(self)
            }),
    {
        self.total_events = self.total_events.wrapping_add(count as u64);
        let mut slot = self.slots[vid];
        slot.sequence = slot.sequence.wrapping_add(count as u64);
        self.slots[vid] = slot;
    }

    /// Process data of a venue that came in at time `now`. Gives the number of
    /// events delivered: none if the circuit breaker is tripped or the venue has no
    /// gateway.
    pub fn process_venue_data(
        &mut self,
        venue_id: u8,
        data: &[u8],
        output: &mut RingBuffer<MarketEvent>,
        now: u64,
    ) -> (r: usize)
        requires
            old(self).wf(),
            old(output).wf(),
        ensures
            final(self).wf(),
            final(output).wf(),
            !old(self).takes(venue_id) ==> r == 0 && *final(self) == *old(self) && *final(output)
                == *old(output),
            old(self).takes(venue_id) ==> {
                let v = venue_id as int;
                &&& final(output).capacity == old(output).capacity
                &&& delivered(old(output).items@, final(output).items@, r as int)
                &&& final(self).gateways@[v] is Some
                &&& G::process_step(
                    old(self).gateways@[v]->0,
                    data@,
                    old(output).room(),
                    now,
                    final(output).items@.skip(old(output).items@.len() as int),
                    final(self).gateways@[v]->0,
                )
                &&& forall|i: int|
                    0 <= i < MAX_VENUES && i != v ==> #[trigger] final(self).gateways@[i] == old(self).gateways@[i]
                &&& final(self).slots@ == old(self).slots@.update(
                    v,
                    GatewaySlot {
                        sequence: old(self).slots@[v].sequence.wrapping_add(r as u64),
                        ..old(self).slots@[v]
                    },
                )
                &&& *final(self) == (GatewayManager {
                    slots: final(self).slots,
                    gateways: final(self).gateways,
                    total_events: old(self).total_events.wrapping_add(r as u64),
                    ..*old(self)
                })
            },
    {
        if self.circuit_breaker {
            return 0;
        }
        let vid: usize = venue_id as usize;
        if vid >= MAX_VENUES || !self.slots[vid].active {
            return 0;
        }
        assert(self.gateways@[vid as int] is Some);
        if let Some(gw) = &mut self.gateways[vid] {
            let count: usize = gw.process_buffer(data, output, now);
            self.record_events(vid, count);
            count
        } else {
            0
        }
    }

    /// Number of registered gateways.
    pub fn active_count(&self) -> (r: usize)
        ensures
            r == self.active_count,
    {
        self.active_count
    }

    /// Events of all gateways.
    pub fn total_events(&self) -> (r: u64)
        ensures
            r == self.total_events,
    {
        self.total_events
    }

    /// Check if the circuit breaker is tripped.
    pub fn is_halted(&self) -> (r: bool)
        ensures
            r == self.circuit_breaker,
    {
        self.circuit_breaker
    }

    /// Trip the circuit breaker to halt all trading.
    pub fn trip_circuit_breaker(&mut self)
        ensures
            *final(self) == (GatewayManager { circuit_breaker: true, ..*old(self) }),
    {
        self.circuit_breaker = true;
    }

    /// Reset the circuit breaker.
    pub fn reset_circuit_breaker(&mut self)
        ensures
            *final(self) == (GatewayManager { circuit_breaker: false, ..*old(self) }),
    {
        self.circuit_breaker = false;
    }

    /// Reliability of a venue, for routing (higher = more reliable); zero for an
    /// unknown venue.
    pub fn venue_reliability(&self, venue_id: u8) -> (r: u32)
        ensures
            r == if venue_id < MAX_VENUES {
                self.slots@[venue_id as int].latency_score
            } else {
                0
            },
    {
        let vid: usize = venue_id as usize;
        if vid >= MAX_VENUES {
            return 0;
        }
        self.slots[vid].latency_score
    }

    /// Update the reliability of a venue. An unknown venue changes nothing.
    pub fn update_venue_reliability(&mut self, venue_id: u8, score: u32)
        ensures
            venue_id < MAX_VENUES ==> final(self).slots@ == old(self).slots@.update(
                venue_id as int,
                GatewaySlot { latency_score: score, ..old(self).slots@[venue_id as int] },
            ),
            venue_id >= MAX_VENUES ==> *final(self) == *old(self),
            *final(self) == (GatewayManager { slots: final(self).slots, ..*old(self) }),
    {
        let vid: usize = venue_id as usize;
        if vid < MAX_VENUES {
            let mut slot = self.slots[vid];
            slot.latency_score = score;
            self.slots[vid] = slot;
        }
    }
}

impl<G: Gateway> Default for GatewayManager<G> {
    fn default() -> (r: Self)
        ensures
            r.wf(),
            forall|i: int| 0 <= i < MAX_VENUES ==> r.slots@[i] == GatewaySlot::spec_new(),
            forall|i: int| 0 <= i < MAX_VENUES ==> r.gateways@[i] is None,
            r.active_count == 0,
            !r.circuit_breaker,
            r.total_events == 0,
    {
        Self::new()
    }
}

/// After all gateways were stopped nothing is delivered, whatever comes in, until
/// the circuit breaker is reset.
pub proof fn lemma_halted_takes_nothing<G: Gateway>(m: GatewayManager<G>, venue_id: u8)
    requires
        m.circuit_breaker,
    ensures
        !m.takes(venue_id),
{
}

/// A started venue is connected if its gateway took the start and in error if it did not.
/// Nothing else of its slot moves.
pub proof fn lemma_slot_after_start<G: Gateway>(slot: GatewaySlot, r: Result<(), GatewayError>)
    ensures
        ({
            let after = GatewayManager::<G>::started_slot(slot, r);
            &&& r is Ok ==> after.state == GatewayState::Connected
            &&& r is Err ==> after.state == GatewayState::Error
            &&& after.active == slot.active
            &&& after.sequence == slot.sequence
            &&& after.latency_score == slot.latency_score
        }),
{
}

/// Data of a venue is taken while the breaker is at rest, if the venue is one of the
/// sixteen and a gateway has been registered for it.
pub proof fn lemma_data_is_taken<G: Gateway>(m: GatewayManager<G>, venue_id: u8)
    requires
        m.wf(),
    ensures
        m.takes(venue_id) <==> !m.circuit_breaker && venue_id < 16 && m.gateways@[venue_id as int]
            is Some,
{
}

/// A start reaches the gateway of every venue that has one, and no other; a stop
/// likewise.
pub proof fn lemma_gateway_is_reached<G: Gateway>(
    pre: GatewayManager<G>,
    now: u64,
    post: GatewayManager<G>,
    i: int,
    r: Result<(), GatewayError>,
)
    requires
        0 <= i < 16,
    ensures
        GatewayManager::<G>::started_at(pre, now, post, i, r) && pre.gateways@[i] is Some
            ==> post.gateways@[i] is Some && G::start_step(
            pre.gateways@[i]->0,
            now,
            r,
            post.gateways@[i]->0,
        ) && post.slots@[i].state == (if r is Ok {
            GatewayState::Connected
        } else {
            GatewayState::Error
        }),
        GatewayManager::<G>::started_at(pre, now, post, i, r) && pre.gateways@[i] is None
            ==> post.gateways@[i] is None && post.slots@[i] == pre.slots@[i],
        GatewayManager::<G>::stopped_at(pre, post, i) && pre.gateways@[i] is Some
            ==> post.gateways@[i] is Some && G::stop_step(
            pre.gateways@[i]->0,
            post.gateways@[i]->0,
        ),
        GatewayManager::<G>::stopped_at(pre, post, i) && pre.gateways@[i] is None
            ==> post.gateways@[i] is None,
{
}

/// What is delivered stands behind what was there before, which stays.
pub proof fn lemma_delivered_behind<T>(before: Seq<T>, after: Seq<T>, n: int)
    requires
        delivered(before, after, n),
        n >= 0,
    ensures
        after.len() - before.len() == n,
        after.take(before.len() as int) == before,
        after == before + after.skip(before.len() as int),
{
    assert(after.take(before.len() as int) =~= before);
    assert(after =~= before + after.skip(before.len() as int));
}

} // verus!
