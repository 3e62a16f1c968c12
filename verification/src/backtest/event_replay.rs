//! Deterministic event-driven backtesting with tick replay.
//!
//! The replay buffer holds at most `MAX_EVENTS` events and hands them out in
//! the order in which they were added. Cycle-counter readings come from the
//! caller.

use vstd::prelude::*;

verus! {

/// Maximum events in a typical replay buffer.
pub const MAX_EVENTS: usize = 10_000_000;

/// Event types.
#[derive(Clone, Copy, PartialEq, Eq, Debug)]
pub enum EventType {
    Tick,
    Order,
    Fill,
    Cancel,
    Quote,
    Trade,
}

/// Market event, padded to one cache line.
#[derive(Clone, Copy, Debug)]
pub struct MarketEvent {
    pub event_type: EventType,
    pub timestamp_ns: u64,
    pub symbol_id: u32,
    pub price_tick: i64,
    pub quantity: u64,
    pub flags: u32,
    pub exchange_id: u16,
    pub sequence: u64,
    pub padding: [u8; 21],
}

/// The event that an unused slot of a replay buffer reads as.
pub open spec fn blank_event() -> MarketEvent {
    MarketEvent {
        event_type: EventType::Tick,
        timestamp_ns: 0,
        symbol_id: 0,
        price_tick: 0,
        quantity: 0,
        flags: 0,
        exchange_id: 0,
        sequence: 0,
        padding: vstd::array::spec_array_fill_for_copy_type::<u8, 21>(0u8),
    }
}

impl MarketEvent {
    /// A tick with every field zero.
    pub fn new() -> (r: Self)
        ensures
            r == blank_event(),
    {
        MarketEvent {
            event_type: EventType::Tick,
            timestamp_ns: 0,
            symbol_id: 0,
            price_tick: 0,
            quantity: 0,
            flags: 0,
            exchange_id: 0,
            sequence: 0,
            padding: [0u8; 21],
        }
    }
}

/// What a replay buffer stands for.
#[verifier::ext_equal]
pub struct ReplayState {
    /// Contents of every slot, used or not.
    pub slots: Seq<MarketEvent>,
    /// Number of loaded events.
    pub count: int,
    /// Index of the next event to hand out.
    pub index: int,
    pub start_cycles: int,
    pub current_cycles: int,
    pub speed: int,
    pub running: bool,
    pub complete: bool,
}

impl ReplayState {
    /// The loaded events in replay order.
    pub open spec fn loaded(self) -> Seq<MarketEvent> {
        self.slots.take(self.count)
    }

    /// State after `event` was added to a buffer that is not full.
    pub open spec fn with_event(self, event: MarketEvent) -> ReplayState {
        ReplayState {
            slots: self.slots.update(self.count, event),
            count: self.count + 1,
            ..self
        }
    }

    /// State after the replay was started at cycle `now`.
    pub open spec fn started(self, now: int) -> ReplayState {
        ReplayState { start_cycles: now, index: 0, running: true, complete: false, ..self }
    }

    /// An event is handed out by the next call.
    pub open spec fn has_next(self) -> bool {
        self.running && self.index < self.count
    }

    /// State after one request for the next event at cycle `now`.
    pub open spec fn stepped(self, now: int) -> ReplayState {
        if !self.running {
            self
        } else if self.index >= self.count {
            ReplayState { complete: true, running: false, ..self }
        } else {
            ReplayState { index: self.index + 1, current_cycles: now, ..self }
        }
    }

    /// The events that repeated requests hand out until none is left.
    pub open spec fn drained(self) -> Seq<MarketEvent>
        decreases self.count - self.index,
    {
        if self.has_next() {
            seq![self.slots[self.index]] + self.stepped(0).drained()
        } else {
            Seq::empty()
        }
    }
}

/// Event replay buffer with room for `MAX_EVENTS` events.
pub struct EventReplay<const MAX_EVENTS: usize> {
    /// Slots written so far; the remaining slots are blank.
    pub events: Vec<MarketEvent>,
    pub event_count: u64,
    pub current_idx: u64,
    /// Cycle counter when the replay was started.
    pub start_cycles: u64,
    /// Cycle counter when the last event was handed out.
    pub current_cycles: u64,
    /// Speed multiplier (1000 = real time).
    pub speed_multiplier: u64,
    pub running: bool,
    pub complete: bool,
}

impl<const MAX_EVENTS: usize> View for EventReplay<MAX_EVENTS> {
    type V = ReplayState;

    open spec fn view(&self) -> ReplayState {
        ReplayState {
            slots: Seq::new(
                MAX_EVENTS as nat,
                |i: int|
                    if i < self.events@.len() {
                        self.events@[i]
                    } else {
                        blank_event()
                    },
            ),
            count: self.event_count as int,
            index: self.current_idx as int,
            start_cycles: self.start_cycles as int,
            current_cycles: self.current_cycles as int,
            speed: self.speed_multiplier as int,
            running: self.running,
            complete: self.complete,
        }
    }
}

impl<const MAX_EVENTS: usize> EventReplay<MAX_EVENTS> {
    /// Loaded events fill a prefix of the slots, and the next event to hand
    /// out lies in that prefix or just behind it, unless fewer events were
    /// loaded in the middle of a replay.
    pub open spec fn wf(&self) -> bool {
        &&& self.event_count <= self.events@.len() <= MAX_EVENTS
        &&& self.current_idx <= self.events@.len()
        &&& self.speed_multiplier >= 1
    }

    /// Empty replay at real-time speed.
    pub fn new() -> (r: Self)
        ensures
            r.wf(),
            r@ == (ReplayState {
                slots: Seq::new(MAX_EVENTS as nat, |i: int| blank_event()),
                count: 0,
                index: 0,
                start_cycles: 0,
                current_cycles: 0,
                speed: 1000,
                running: false,
                complete: false,
            }),
    {
        EventReplay {
            events: Vec::new(),
            event_count: 0,
            current_idx: 0,
            start_cycles: 0,
            current_cycles: 0,
            speed_multiplier: 1000,
            running: false,
            complete: false,
        }
    }

    /// Add an event behind the loaded ones; a full buffer refuses it.
    pub fn add_event(&mut self, event: MarketEvent) -> (r: bool)
        requires
            old(self).wf(),
        ensures
            final(self).wf(),
            r == (old(self)@.count < MAX_EVENTS),
            final(self)@ == if r {
                old(self)@.with_event(event)
            } else {
                old(self)@
            },
    {
        let idx: usize = self.event_count as usize;
        if idx >= MAX_EVENTS {
            return false;
        }
        if idx < self.events.len() {
            self.events.set(idx, event);
        } else {
            self.events.push(event);
        }
        self.event_count = self.event_count + 1;
        true
    }

    /// Replace the loaded events by the first ones of `events`, as many as
    /// the buffer holds.
    pub fn load_events(&mut self, events: &[MarketEvent]) -> (r: usize)
        requires
            old(self).wf(),
        ensures
            final(self).wf(),
            r == if events@.len() < MAX_EVENTS {
                events@.len() as int
            } else {
                MAX_EVENTS as int
            },
            final(self)@ == (ReplayState {
                slots: events@.take(r as int) + old(self)@.slots.skip(r as int),
                count: r as int,
                ..old(self)@
            }),
    {
        let count: usize = if events.len() < MAX_EVENTS {
            events.len()
        } else {
            MAX_EVENTS
        };
        let mut i: usize = 0;
        while i < count
            invariant
                i <= count <= MAX_EVENTS,
                count <= events@.len(),
                old(self).events@.len() <= self.events@.len() <= MAX_EVENTS,
                i <= self.events@.len(),
                self.events@.len() == old(self).events@.len() || self.events@.len() == i,
                forall|j: int| 0 <= j < i ==> self.events@[j] == events@[j],
                forall|j: int|
                    i <= j < self.events@.len() ==> self.events@[j] == old(self).events@[j],
                self.event_count == old(self).event_count,
                self.current_idx == old(self).current_idx,
                self.start_cycles == old(self).start_cycles,
                self.current_cycles == old(self).current_cycles,
                self.speed_multiplier == old(self).speed_multiplier,
                self.running == old(self).running,
                self.complete == old(self).complete,
            decreases count - i,
        {
            if i < self.events.len() {
                self.events.set(i, events[i]);
            } else {
                self.events.push(events[i]);
            }
            i = i + 1;
        }
        self.event_count = count as u64;
        assert(self@.slots =~= events@.take(count as int) + old(self)@.slots.skip(count as int));
        count
    }

    /// Start the replay from the beginning; `now_cycles` is the cycle counter.
    pub fn start(&mut self, now_cycles: u64)
        requires
            old(self).wf(),
        ensures
            final(self).wf(),
            final(self)@ == old(self)@.started(now_cycles as int),
    {
        self.start_cycles = now_cycles;
        self.current_idx = 0;
        self.running = true;
        self.complete = false;
    }

    /// Stop the replay where it is.
    pub fn stop(&mut self)
        requires
            old(self).wf(),
        ensures
            final(self).wf(),
            final(self)@ == (ReplayState { running: false, ..old(self)@ }),
    {
        self.running = false;
    }

    /// Hand out the next event. The request behind the last event ends the
    /// replay and marks it complete.
    pub fn next_event(&mut self, now_cycles: u64) -> (r: Option<MarketEvent>)
        requires
            old(self).wf(),
        ensures
            final(self).wf(),
            r == if old(self)@.has_next() {
                Some(old(self)@.slots[old(self)@.index])
            } else {
                None
            },
            final(self)@ == old(self)@.stepped(now_cycles as int),
    {
        if !self.running {
            return None;
        }
        if self.current_idx >= self.event_count {
            self.complete = true;
            self.running = false;
            return None;
        }
        let event = self.events[self.current_idx as usize];
        self.current_idx = self.current_idx + 1;
        self.current_cycles = now_cycles;
        Some(event)
    }

    /// The event that comes next, without advancing.
    pub fn peek_event(&self) -> (r: Option<MarketEvent>)
        requires
            self.wf(),
        ensures
            r == if self@.index < self@.count {
                Some(self@.slots[self@.index])
            } else {
                None
            },
    {
        if self.current_idx >= self.event_count {
            return None;
        }
        Some(self.events[self.current_idx as usize])
    }

    /// Contents of slot `idx`.
    fn slot(&self, idx: usize) -> (r: MarketEvent)
        requires
            self.wf(),
            idx < MAX_EVENTS,
        ensures
            r == self@.slots[idx as int],
    {
        if idx < self.events.len() {
            self.events[idx]
        } else {
            MarketEvent::new()
        }
    }

    /// Nanoseconds from the event in slot `idx1` to the one in slot `idx2`,
    /// zero where the second is not later.
    pub fn timestamp_delta_ns(&self, idx1: usize, idx2: usize) -> (r: Option<u64>)
        requires
            self.wf(),
        ensures
            r is Some <==> idx1 < MAX_EVENTS && idx2 < MAX_EVENTS,
            r matches Some(d) ==> d == crate::fixed::max(
                self@.slots[idx2 as int].timestamp_ns - self@.slots[idx1 as int].timestamp_ns,
                0,
            ),
    {
        if idx1 >= MAX_EVENTS || idx2 >= MAX_EVENTS {
            return None;
        }
        let e1 = self.slot(idx1);
        let e2 = self.slot(idx2);
        if e2.timestamp_ns > e1.timestamp_ns {
            Some(e2.timestamp_ns - e1.timestamp_ns)
        } else {
            Some(0)
        }
    }

    /// Cycles from the start to the last event handed out.
    pub fn cycle_delta(&self) -> (r: u64)
        ensures
            r == crate::fixed::max(self@.current_cycles - self@.start_cycles, 0),
    {
        if self.current_cycles > self.start_cycles {
            self.current_cycles - self.start_cycles
        } else {
            0
        }
    }

    /// Progress of the replay as a fraction: events handed out, and events
    /// loaded.
    pub fn progress(&self) -> (r: (u64, u64))
        ensures
            r.0 == self@.index,
            r.1 == self@.count,
    {
        (self.current_idx, self.event_count)
    }

    /// Set the speed multiplier, at least one.
    pub fn set_speed(&mut self, multiplier: u64)
        requires
            old(self).wf(),
        ensures
            final(self).wf(),
            final(self)@ == (ReplayState {
                speed: crate::fixed::max(multiplier as int, 1),
                ..old(self)@
            }),
    {
        self.speed_multiplier = if multiplier > 1 {
            multiplier
        } else {
            1
        };
    }

    /// The replay has handed out every event.
    pub fn is_complete(&self) -> (r: bool)
        ensures
            r == self@.complete,
    {
        self.complete
    }

    /// The replay is running.
    pub fn is_running(&self) -> (r: bool)
        ensures
            r == self@.running,
    {
        self.running
    }

    /// Number of loaded events.
    pub fn event_count(&self) -> (r: u64)
        ensures
            r == self@.count,
    {
        self.event_count
    }

    /// Rewind and stop, keeping the events and the speed.
    pub fn reset(&mut self)
        requires
            old(self).wf(),
        ensures
            final(self).wf(),
            final(self)@ == (ReplayState {
                index: 0,
                start_cycles: 0,
                current_cycles: 0,
                running: false,
                complete: false,
                ..old(self)@
            }),
    {
        self.current_idx = 0;
        self.start_cycles = 0;
        self.current_cycles = 0;
        self.running = false;
        self.complete = false;
    }
}

/// Typical configuration.
pub type CryptoEventReplay = EventReplay<MAX_EVENTS>;

/// Replay is deterministic: whatever the cycle counter reads, a running
/// replay hands out exactly the events between its position and the end, in
/// order.
pub proof fn lemma_drained_is_rest(s: ReplayState)
    requires
        s.running,
        0 <= s.index <= s.count <= s.slots.len(),
    ensures
        s.drained() == s.loaded().skip(s.index),
    decreases s.count - s.index,
{
    if s.index < s.count {
        lemma_drained_is_rest(s.stepped(0));
        assert(s.drained() =~= s.loaded().skip(s.index));
    } else {
        assert(s.drained() =~= s.loaded().skip(s.index));
    }
}

/// A started replay hands out all loaded events in the order in which they
/// were loaded.
pub proof fn lemma_started_replays_all(s: ReplayState, now: int)
    requires
        0 <= s.count <= s.slots.len(),
    ensures
        s.started(now).drained() == s.loaded(),
{
    lemma_drained_is_rest(s.started(now));
    assert(s.loaded().skip(0) =~= s.loaded());
}

/// Adding an event appends it to what a replay hands out.
pub proof fn lemma_add_appends(s: ReplayState, event: MarketEvent)
    requires
        0 <= s.count < s.slots.len(),
    ensures
        s.with_event(event).loaded() == s.loaded().push(event),
{
    assert(s.with_event(event).loaded() =~= s.loaded().push(event));
}

/// The cycle counter decides neither which event comes next nor when the
/// replay ends.
pub proof fn lemma_step_ignores_clock(s: ReplayState, a: int, b: int)
    ensures
        s.stepped(a).has_next() == s.stepped(b).has_next(),
        s.stepped(a).slots == s.stepped(b).slots,
        s.stepped(a).index == s.stepped(b).index,
        s.stepped(a).running == s.stepped(b).running,
        s.stepped(a).complete == s.stepped(b).complete,
{
}

/// A step of a running replay hands out the next event and notes the time. Past the last
/// event it completes the replay and stops it. A stopped replay stays as it is.
pub proof fn lemma_step_by_step(s: ReplayState, now: int)
    ensures
        !s.running ==> s.stepped(now) == s && !s.has_next(),
        s.running && s.index < s.count ==> s.has_next() && s.stepped(now).index == s.index + 1
            && s.stepped(now).current_cycles == now && s.stepped(now).running && s.stepped(
            now,
        ).complete == s.complete && s.stepped(now).count == s.count && s.stepped(now).slots
            == s.slots,
        s.running && s.index >= s.count ==> !s.has_next() && s.stepped(now).complete && !s.stepped(
            now,
        ).running && s.stepped(now).index == s.index,
        s.started(now).start_cycles == now && s.started(now).index == 0 && s.started(now).running
            && !s.started(now).complete && s.started(now).count == s.count,
{
}

} // verus!
