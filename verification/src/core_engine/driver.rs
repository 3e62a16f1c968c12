//! Main loop: one step at a time, for a caller that owns clock and console.

use vstd::prelude::*;
use crate::core_engine::event_loop::{Event, EventBus, EventType, RING_BUFFER_SIZE};

verus! {

broadcast use vstd::array::group_array_axioms;

/// Maximum batch size for event processing.
pub const BATCH_SIZE: usize = 64;

/// Heartbeat interval in iterations.
pub const HEARTBEAT_INTERVAL: u64 = 1000;

/// Payload byte by which a system signal asks for shutdown ('S').
pub const SHUTDOWN_BYTE: u8 = 83;

/// What a step of the main loop did.
#[derive(Debug, Clone, Copy, PartialEq, Eq, Structural)]
pub enum Step {
    /// Nothing: shutdown was asked for.
    Shutdown,
    /// Nothing: the memory limit is near.
    BreakerTripped,
    /// A batch was handled.
    Ran {
        /// Events in the batch.
        events: usize,
        /// Whether a heartbeat was due.
        heartbeat: bool,
    },
}

/// State of the main loop.
#[derive(Debug)]
pub struct EventLoop {
    /// Steps made.
    pub iteration: u64,
    /// Step of the last heartbeat.
    pub last_heartbeat: u64,
    /// Whether shutdown was asked for.
    pub shutdown_flag: bool,
}

/// Whether an event asks for shutdown.
pub open spec fn asks_shutdown(event: Event) -> bool {
    event.event_type == EventType::SystemSignal && event.payload_size > 0 && event.payload@[0]
        == SHUTDOWN_BYTE
}

/// Handle one event. Market data, orders, fills and heartbeats need nothing
/// done; a system signal may ask for shutdown. Tells whether it does.
pub fn handle_event(event: &Event) -> (r: bool)
    ensures
        r == asks_shutdown(*event),
        r <==> event.event_type == EventType::SystemSignal && event.payload_size >= 1
            && event.payload@[0] == 83,
{
    match event.event_type {
        EventType::MarketData => false,
        EventType::OrderSubmission => false,
        EventType::OrderCancellation => false,
        EventType::OrderFill => false,
        EventType::Heartbeat => false,
        EventType::SystemSignal => process_system_signal(event),
    }
}

/// Whether a signal asks for shutdown.
pub fn process_system_signal(event: &Event) -> (r: bool)
    ensures
        r == (event.payload_size > 0 && event.payload@[0] == SHUTDOWN_BYTE),
{
    event.payload_size > 0 && event.payload[0] == SHUTDOWN_BYTE
}

/// Send a heartbeat through the bus at time `now`; it is lost when the bus is
/// full.
pub fn send_heartbeat(bus: &mut EventBus, now: u64)
    requires
        old(bus).wf(),
        old(bus).buffer.producer_seq < u64::MAX,
    ensures
        final(bus).wf(),
        final(bus).batch_size == old(bus).batch_size,
        final(bus)@ == if old(bus)@.len() >= RING_BUFFER_SIZE {
            old(bus)@
        } else {
            old(bus)@.push(Event::spec_new(EventType::Heartbeat, 0, 0, now))
        },
        final(bus).buffer.producer_seq == old(bus).buffer.producer_seq + (if old(bus)@.len()
            < RING_BUFFER_SIZE {
            1int
        } else {
            0
        }),
        final(bus).buffer.consumer_seq == old(bus).buffer.consumer_seq,
{
    let _ = bus.publish(Event::new(EventType::Heartbeat, 0, 0, now));
}

impl EventLoop {
    /// The last heartbeat lies in the past.
    pub open spec fn wf(&self) -> bool {
        self.last_heartbeat <= self.iteration
    }

    /// Loop that has not run.
    pub fn new() -> (r: Self)
        ensures
            r.wf(),
            r.iteration == 0,
            r.last_heartbeat == 0,
            !r.shutdown_flag,
    {
        EventLoop { iteration: 0, last_heartbeat: 0, shutdown_flag: false }
    }

    /// One step at time `now`. Unless shutdown was asked for or the memory
    /// breaker is open, a batch of events is handled, and a heartbeat is sent
    /// when it is due.
    pub fn run_event_loop(&mut self, bus: &mut EventBus, breaker: bool, now: u64) -> (r: Step)
        requires
            old(self).wf(),
            old(bus).wf(),
            old(self).iteration < u64::MAX,
            old(bus).buffer.producer_seq < u64::MAX,
        ensures
            final(self).wf(),
            final(bus).wf(),
            r is Shutdown <==> old(self).shutdown_flag,
            r is BreakerTripped <==> !old(self).shutdown_flag && breaker,
            r is Ran ==> (r->heartbeat <==> old(self).iteration + 1 - old(self).last_heartbeat >= 1000),
            old(self).shutdown_flag || breaker ==> *final(self) == *old(self) && *final(bus) == *old(
                bus,
            ),
            !old(self).shutdown_flag && !breaker ==> {
                let n = crate::fixed::min(old(bus)@.len() as int, old(bus).batch_size as int);
                let rest = old(bus)@.skip(n);
                let due = old(self).iteration + 1 - old(self).last_heartbeat >= HEARTBEAT_INTERVAL;
                let sent = due && rest.len() < RING_BUFFER_SIZE;
                &&& r == (Step::Ran { events: n as usize, heartbeat: due })
                &&& final(self).iteration == old(self).iteration + 1
                &&& final(self).last_heartbeat == if due {
                    final(self).iteration
                } else {
                    old(self).last_heartbeat
                }
                &&& final(self).shutdown_flag == exists|i: int|
                    0 <= i < n && asks_shutdown(#[trigger] old(bus)@[i])
                &&& final(bus)@ == if sent {
                    rest.push(Event::spec_new(EventType::Heartbeat, 0, 0, now))
                } else {
                    rest
                }
                &&& final(bus).batch_size == old(bus).batch_size
                &&& final(bus).buffer.producer_seq == old(bus).buffer.producer_seq + (if sent {
                    1int
                } else {
                    0
                })
                &&& final(bus).buffer.consumer_seq == old(bus).buffer.consumer_seq + n
            },
    {
        if self.shutdown_flag {
            return Step::Shutdown;
        }
        if breaker {
            return Step::BreakerTripped;
        }
        let ghost all = bus@;
        let events = bus.process_batch();
        let mut i: usize = 0;
        while i < events.len()
            invariant
                i <= events@.len() <= all.len(),
                events@ == all.take(events@.len() as int),
                self.iteration == old(self).iteration,
                self.last_heartbeat == old(self).last_heartbeat,
                self.shutdown_flag == exists|k: int|
                    0 <= k < i && asks_shutdown(#[trigger] all[k]),
            decreases events@.len() - i,
        {
            assert(events@[i as int] == all[i as int]);
            if handle_event(&events[i]) {
                self.shutdown_flag = true;
            }
            i = i + 1;
        }
        self.iteration = self.iteration + 1;
        let due = self.iteration - self.last_heartbeat >= HEARTBEAT_INTERVAL;
        if due {
            send_heartbeat(bus, now);
            self.last_heartbeat = self.iteration;
        }
        Step::Ran { events: events.len(), heartbeat: due }
    }
}

/// Only a system signal asks for shutdown, and only one whose payload begins with the
/// letter `S`.
pub proof fn lemma_shutdown_is_asked_by_signal(event: Event)
    ensures
        asks_shutdown(event) <==> event.event_type == EventType::SystemSignal && event.payload_size
            >= 1 && event.payload@[0] == 83,
{
}

} // verus!
