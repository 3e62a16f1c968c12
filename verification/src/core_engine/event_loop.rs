//! Event bus in the style of the LMAX disruptor: a ring of event slots between
//! one producer and one consumer, drained in batches.

use vstd::prelude::*;
use crate::ring::{lemma_ring_drop, lemma_ring_push, ring};

verus! {

broadcast use vstd::array::group_array_axioms;

/// Maximum number of events in the ring buffer.
pub const RING_BUFFER_SIZE: usize = 65536;

/// Cache line size for padding.
pub const CACHE_LINE_SIZE: usize = 64;

/// Bytes of payload that an event holds.
pub const PAYLOAD_SIZE: usize = 32;

/// Event types supported by the event bus.
#[derive(Debug, Clone, Copy, PartialEq, Eq, Structural)]
pub enum EventType {
    MarketData,
    OrderSubmission,
    OrderCancellation,
    OrderFill,
    Heartbeat,
    SystemSignal,
}

/// Event.
#[derive(Debug, Clone, Copy)]
pub struct Event {
    /// Event type discriminator.
    pub event_type: EventType,
    /// Sequence number for ordering guarantees.
    pub sequence: u64,
    /// Timestamp.
    pub timestamp_ns: u64,
    /// Payload size.
    pub payload_size: u32,
    /// Symbol ID for routing.
    pub symbol_id: u32,
    /// Inline payload.
    pub payload: [u8; 32],
}

impl Event {
    /// Event without payload.
    pub open spec fn spec_new(event_type: EventType, sequence: u64, symbol_id: u32, now: u64) -> Self {
        Event {
            event_type,
            sequence,
            timestamp_ns: now,
            payload_size: 0,
            symbol_id,
            payload: vstd::array::spec_array_fill_for_copy_type::<u8, 32>(0u8),
        }
    }

    /// Create a new event at time `now`.
    pub fn new(event_type: EventType, sequence: u64, symbol_id: u32, now: u64) -> (r: Self)
        ensures
            r == Self::spec_new(event_type, sequence, symbol_id, now),
            r.event_type == event_type && r.sequence == sequence && r.symbol_id == symbol_id,
            r.timestamp_ns == now && r.payload_size == 0,
            forall|i: int| 0 <= i < 32 ==> r.payload@[i] == 0,
    {
        Event {
            event_type,
            sequence,
            timestamp_ns: now,
            payload_size: 0,
            symbol_id,
            payload: [0u8;32],
        }
    }

    /// Set payload data, up to 32 bytes of it.
    pub fn with_payload(self, data: &[u8]) -> (r: Self)
        ensures
            r.payload_size == crate::fixed::min(data@.len() as int, 32),
            r.payload@ == Seq::new(
                32,
                |i: int|
                    if i < data@.len() {
                        data@[i]
                    } else {
                        self.payload@[i]
                    },
            ),
            r == (Event { payload: r.payload, payload_size: r.payload_size, ..self }),
    {
        let mut event = self;
        let len: usize = if data.len() < PAYLOAD_SIZE {
            data.len()
        } else {
            PAYLOAD_SIZE
        };
        let mut i: usize = 0;
        while i < len
            invariant
                i <= len <= PAYLOAD_SIZE,
                len <= data@.len(),
                forall|k: int| 0 <= k < i ==> event.payload@[k] == data@[k],
                forall|k: int| i <= k < 32 ==> event.payload@[k] == self.payload@[k],
                event == (Event { payload: event.payload, ..self }),
            decreases len - i,
        {
            event.payload[i] = data[i];
            i = i + 1;
        }
        event.payload_size = len as u32;
        assert(event.payload@ =~= Seq::new(
            32,
            |i: int|
                if i < data@.len() {
                    data@[i]
                } else {
                    self.payload@[i]
                },
        ));
        event
    }
}

/// Ring buffer slot.
#[derive(Debug, Clone, Copy)]
pub struct RingSlot {
    /// The event data.
    pub event: Event,
    /// Number of the publication that filled the slot, counting from one.
    pub sequence: u64,
    /// Fills the cache lines.
    pub pad: [u8; 56],
}

impl RingSlot {
    /// Slot that was never filled.
    pub fn new() -> (r: Self)
        ensures
            r.event == Event::spec_new(EventType::Heartbeat, 0, 0, 0),
            r.sequence == 0,
    {
        RingSlot {
            event: Event::new(EventType::Heartbeat, 0, 0, 0),
            sequence: 0,
            pad: [0u8;56],
        }
    }
}

/// Ring buffer for events.
#[derive(Debug)]
pub struct EventRingBuffer {
    /// The ring buffer slots.
    pub slots: Vec<RingSlot>,
    /// Events published into the ring.
    pub producer_seq: u64,
    /// Events taken from the ring.
    pub consumer_seq: u64,
    /// Total events published (statistics).
    pub published: u64,
    /// Total events consumed (statistics).
    pub consumed: u64,
}

impl View for EventRingBuffer {
    type V = Seq<Event>;

    /// Events that wait, oldest first.
    open spec fn view(&self) -> Seq<Event> {
        self.waiting().map_values(|s: RingSlot| s.event)
    }
}

impl EventRingBuffer {
    /// Slots of the events that wait, oldest first.
    pub open spec fn waiting(&self) -> Seq<RingSlot> {
        ring(self.slots@, self.producer_seq as int, self.producer_seq - self.consumer_seq)
    }

    /// The counters span no more than a round, the statistics agree with them, and
    /// every slot of an event that waits bears its number.
    pub open spec fn wf(&self) -> bool {
        &&& self.slots@.len() == RING_BUFFER_SIZE
        &&& self.consumer_seq <= self.producer_seq
        &&& self.producer_seq - self.consumer_seq <= RING_BUFFER_SIZE
        &&& self.published == self.producer_seq
        &&& self.consumed == self.consumer_seq
        &&& forall|i: int|
            0 <= i < self.waiting().len() ==> (#[trigger] self.waiting()[i]).sequence
                == self.consumer_seq + i + 1
    }

    /// Create a new event ring buffer.
    pub fn new() -> (r: Self)
        ensures
            r.wf(),
            r@ == Seq::<Event>::empty(),
            r.producer_seq == 0,
            r.consumer_seq == 0,
            r.published == 0,
            r.consumed == 0,
    {
        let mut slots: Vec<RingSlot> = Vec::new();
        while slots.len() < RING_BUFFER_SIZE
            invariant
                slots@.len() <= RING_BUFFER_SIZE,
            decreases RING_BUFFER_SIZE - slots@.len(),
        {
            slots.push(RingSlot::new());
        }
        let r = EventRingBuffer {
            slots,
            producer_seq: 0,
            consumer_seq: 0,
            published: 0,
            consumed: 0,
        };
        assert(r@ =~= Seq::<Event>::empty());
        r
    }

    /// Publish an event. Gives its sequence number, or nothing when the buffer
    /// is full.
    pub fn publish(&mut self, event: Event) -> (r: Option<u64>)
        requires
            old(self).wf(),
            old(self).producer_seq < u64::MAX,
        ensures
            final(self).wf(),
            r == if old(self)@.len() >= RING_BUFFER_SIZE {
                None
            } else {
                Some(old(self).producer_seq)
            },
            r is None <==> old(self)@.len() >= 65536,
            r is None ==> *final(self) == *old(self),
            r is Some ==> {
                &&& final(self)@ == old(self)@.push(event)
                &&& final(self).producer_seq == old(self).producer_seq + 1
                &&& final(self).consumer_seq == old(self).consumer_seq
                &&& final(self).published == old(self).published + 1
                &&& final(self).consumed == old(self).consumed
            },
    {
        let seq: u64 = self.producer_seq;
        if seq - self.consumer_seq >= RING_BUFFER_SIZE as u64 {
            return None;
        }
        let idx: usize = (seq % 65536) as usize;
        let mut slot = self.slots[idx];
        slot.event = event;
        slot.sequence = seq + 1;
        let ghost before = self.waiting();
        proof {
            lemma_ring_push(self.slots@, seq as int, seq - self.consumer_seq, slot);
        }
        self.slots.set(idx, slot);
        self.producer_seq = seq + 1;
        self.published = self.published + 1;
        assert(self.waiting() == before.push(slot));
        assert(self@ =~= old(self)@.push(event));
        Some(seq)
    }

    /// Consume the oldest event, if there is one.
    pub fn consume(&mut self) -> (r: Option<Event>)
        requires
            old(self).wf(),
        ensures
            final(self).wf(),
            r is None <==> old(self)@.len() == 0,
            r is None ==> *final(self) == *old(self),
            r is Some ==> {
                &&& r == Some(old(self)@[0])
                &&& final(self)@ == old(self)@.drop_first()
                &&& final(self).producer_seq == old(self).producer_seq
                &&& final(self).consumer_seq == old(self).consumer_seq + 1
                &&& final(self).published == old(self).published
                &&& final(self).consumed == old(self).consumed + 1
            },
    {
        if self.consumer_seq >= self.producer_seq {
            return None;
        }
        let idx: usize = (self.consumer_seq % 65536) as usize;
        let event = self.slots[idx].event;
        let ghost before = self.waiting();
        assert(before[0] == self.slots@[idx as int]);
        proof {
            lemma_ring_drop(
                self.slots@,
                self.producer_seq as int,
                self.producer_seq - self.consumer_seq,
            );
        }
        self.consumer_seq = self.consumer_seq + 1;
        self.consumed = self.consumed + 1;
        assert(self.waiting() == before.drop_first());
        assert forall|i: int| 0 <= i < self.waiting().len() implies (
        #[trigger] self.waiting()[i]).sequence == self.consumer_seq + i + 1 by {
            assert(self.waiting()[i] == before[i + 1]);
        }
        assert(self@ =~= old(self)@.drop_first());
        Some(event)
    }

    /// Consume up to `max_count` events, oldest first.
    pub fn consume_batch(&mut self, max_count: usize) -> (r: Vec<Event>)
        requires
            old(self).wf(),
        ensures
            final(self).wf(),
            r@.len() == crate::fixed::min(old(self)@.len() as int, max_count as int),
            r@ == old(self)@.take(r@.len() as int),
            final(self)@ == old(self)@.skip(r@.len() as int),
            final(self).producer_seq == old(self).producer_seq,
            final(self).consumer_seq == old(self).consumer_seq + r@.len(),
            final(self).published == old(self).published,
            final(self).consumed == old(self).consumed + r@.len(),
    {
        let mut out: Vec<Event> = Vec::new();
        let ghost all = self@;
        assert(all.take(0) =~= Seq::<Event>::empty());
        assert(all.skip(0) =~= all);
        while out.len() < max_count && self.consumer_seq < self.producer_seq
            invariant
                self.wf(),
                all == old(self)@,
                out@.len() <= max_count,
                out@.len() <= all.len(),
                out@ == all.take(out@.len() as int),
                self@ == all.skip(out@.len() as int),
                self.producer_seq == old(self).producer_seq,
                self.consumer_seq == old(self).consumer_seq + out@.len(),
                self.published == old(self).published,
            decreases max_count - out@.len(),
        {
            match self.consume() {
                Some(event) => {
                    let ghost n = out@.len() as int;
                    out.push(event);
                    assert(all.take(n + 1) =~= all.take(n).push(all[n]));
                    assert(all.skip(n).drop_first() =~= all.skip(n + 1));
                },
                None => {},
            }
        }
        out
    }

    /// Number of unconsumed events.
    pub fn depth(&self) -> (r: usize)
        requires
            self.wf(),
        ensures
            r == self@.len(),
    {
        (self.producer_seq - self.consumer_seq) as usize
    }

    /// Total published events.
    pub fn total_published(&self) -> (r: u64)
        ensures
            r == self.published,
    {
        self.published
    }

    /// Total consumed events.
    pub fn total_consumed(&self) -> (r: u64)
        ensures
            r == self.consumed,
    {
        self.consumed
    }
}

/// Event bus: a ring buffer that is drained in batches.
#[derive(Debug)]
pub struct EventBus {
    /// The underlying ring buffer.
    pub buffer: EventRingBuffer,
    /// Largest batch.
    pub batch_size: usize,
}

impl View for EventBus {
    type V = Seq<Event>;

    /// Events that wait, oldest first.
    open spec fn view(&self) -> Seq<Event> {
        self.buffer@
    }
}

impl EventBus {
    /// The ring buffer is well formed.
    pub open spec fn wf(&self) -> bool {
        self.buffer.wf()
    }

    /// Create a new event bus with the specified batch size.
    pub fn new(batch_size: usize) -> (r: Self)
        ensures
            r.wf(),
            r@ == Seq::<Event>::empty(),
            r.batch_size == batch_size,
            r.buffer.producer_seq == 0,
            r.buffer.consumer_seq == 0,
            r.buffer.published == 0,
            r.buffer.consumed == 0,
    {
        EventBus { buffer: EventRingBuffer::new(), batch_size }
    }

    /// Publish an event. Gives its sequence number, or nothing when the bus is
    /// full.
    pub fn publish(&mut self, event: Event) -> (r: Option<u64>)
        requires
            old(self).wf(),
            old(self).buffer.producer_seq < u64::MAX,
        ensures
            final(self).wf(),
            final(self).batch_size == old(self).batch_size,
            r == if old(self)@.len() >= RING_BUFFER_SIZE {
                None
            } else {
                Some(old(self).buffer.producer_seq)
            },
            final(self)@ == if r is Some {
                old(self)@.push(event)
            } else {
                old(self)@
            },
            r is None ==> final(self).buffer == old(self).buffer,
            r is Some ==> {
                &&& final(self).buffer.producer_seq == old(self).buffer.producer_seq + 1
                &&& final(self).buffer.consumer_seq == old(self).buffer.consumer_seq
                &&& final(self).buffer.published == old(self).buffer.published + 1
                &&& final(self).buffer.consumed == old(self).buffer.consumed
            },
    {
        self.buffer.publish(event)
    }

    /// Take the next batch of events, oldest first.
    pub fn process_batch(&mut self) -> (r: Vec<Event>)
        requires
            old(self).wf(),
        ensures
            final(self).wf(),
            final(self).batch_size == old(self).batch_size,
            r@.len() == crate::fixed::min(old(self)@.len() as int, old(self).batch_size as int),
            r@ == old(self)@.take(r@.len() as int),
            final(self)@ == old(self)@.skip(r@.len() as int),
            final(self).buffer.producer_seq == old(self).buffer.producer_seq,
            final(self).buffer.consumer_seq == old(self).buffer.consumer_seq + r@.len(),
            final(self).buffer.published == old(self).buffer.published,
            final(self).buffer.consumed == old(self).buffer.consumed + r@.len(),
    {
        self.buffer.consume_batch(self.batch_size)
    }

    /// Number of unconsumed events.
    pub fn depth(&self) -> (r: usize)
        requires
            self.wf(),
        ensures
            r == self@.len(),
    {
        self.buffer.depth()
    }
}

impl Default for EventBus {
    fn default() -> (r: Self)
        ensures
            r.wf(),
            r@ == Seq::<Event>::empty(),
            r.batch_size == 64,
            r.buffer.producer_seq == 0,
            r.buffer.consumer_seq == 0,
            r.buffer.published == 0,
            r.buffer.consumed == 0,
    {
        Self::new(64)
    }
}

} // verus!
