//! Smart contract event log and state delta tracker.

use vstd::prelude::*;
use crate::fixed::{max, min};

pub mod event_signatures;

verus! {

/// Maximum events tracked per block.
pub const MAX_EVENTS: usize = 4096;

/// Maximum tracked state changes.
pub const MAX_STATE_VARS: usize = 256;

/// Event signature hash.
pub type EventSignature = u32;

/// Contract event.
#[derive(Debug, Clone, Copy)]
pub struct ContractEvent {
    /// Event signature hash.
    pub signature: EventSignature,
    /// Contract address (low bytes).
    pub contract_address: u128,
    /// Block number.
    pub block_number: u64,
    /// Transaction index in block.
    pub tx_index: u32,
    /// Log index in transaction.
    pub log_index: u32,
    /// Timestamp (ns).
    pub timestamp_ns: u64,
    /// Event data length.
    pub data_len: u8,
    /// Is this event processed.
    pub processed: bool,
    /// Fills the cache line.
    pub _padding: [u8; 34],
}

impl Default for ContractEvent {
    fn default() -> (r: Self)
        ensures
            r.signature == 0,
            r.contract_address == 0,
            r.block_number == 0,
            r.tx_index == 0,
            r.log_index == 0,
            r.timestamp_ns == 0,
            r.data_len == 0,
            !r.processed,
    {
        ContractEvent {
            signature: 0,
            contract_address: 0,
            block_number: 0,
            tx_index: 0,
            log_index: 0,
            timestamp_ns: 0,
            data_len: 0,
            processed: false,
            _padding: [0;34],
        }
    }
}

/// State variable change.
#[derive(Debug, Clone, Copy)]
pub struct StateDelta {
    /// Storage slot.
    pub slot: u128,
    /// Previous value.
    pub prev_value: u128,
    /// New value.
    pub new_value: u128,
    /// Block number of change.
    pub block_number: u64,
    /// Timestamp (ns).
    pub timestamp_ns: u64,
    /// Contract address.
    pub contract_address: u128,
}

impl Default for StateDelta {
    fn default() -> (r: Self)
        ensures
            r == (StateDelta {
                slot: 0,
                prev_value: 0,
                new_value: 0,
                block_number: 0,
                timestamp_ns: 0,
                contract_address: 0,
            }),
    {
        StateDelta {
            slot: 0,
            prev_value: 0,
            new_value: 0,
            block_number: 0,
            timestamp_ns: 0,
            contract_address: 0,
        }
    }
}

/// Events of `s` with a signature, in order.
pub open spec fn with_signature(s: Seq<ContractEvent>, signature: EventSignature) -> Seq<
    ContractEvent,
>
    decreases s.len(),
{
    if s.len() == 0 {
        Seq::empty()
    } else if s[0].signature == signature {
        seq![s[0]] + with_signature(s.skip(1), signature)
    } else {
        with_signature(s.skip(1), signature)
    }
}

/// Value that the last change of a slot left, if it was ever changed.
pub open spec fn latest(deltas: Seq<StateDelta>, slot: u128, contract: u128) -> Option<u128>
    decreases deltas.len(),
{
    if deltas.len() == 0 {
        None
    } else if deltas.last().slot == slot && deltas.last().contract_address == contract {
        Some(deltas.last().new_value)
    } else {
        latest(deltas.drop_last(), slot, contract)
    }
}

/// A change is read back as the latest state of its slot, and of no other.
pub proof fn lemma_change_is_read_back(
    deltas: Seq<StateDelta>,
    d: StateDelta,
    slot: u128,
    contract: u128,
)
    ensures
        latest(deltas.push(d), d.slot, d.contract_address) == Some(d.new_value),
        slot != d.slot || contract != d.contract_address ==> latest(deltas.push(d), slot, contract)
            == latest(deltas, slot, contract),
{
    assert(deltas.push(d).drop_last() =~= deltas);
}

/// Events of which the first `n` are marked as processed.
pub open spec fn marked(events: Seq<ContractEvent>, n: int) -> Seq<ContractEvent> {
    Seq::new(
        events.len(),
        |i: int|
            if i < n {
                ContractEvent { processed: true, ..events[i] }
            } else {
                events[i]
            },
    )
}

/// Smart contract event and state tracker.
#[derive(Debug)]
pub struct SmartContractIO {
    /// Events, oldest first.
    pub events: Vec<ContractEvent>,
    /// State changes, oldest first.
    pub state_deltas: Vec<StateDelta>,
    /// Event count.
    pub event_count: u64,
    /// State change count.
    pub delta_count: u64,
    /// Last processed block.
    pub last_block: u64,
    /// Events pending processing.
    pub pending_events: u64,
    /// An event was refused for want of room.
    pub overflow: bool,
}

impl SmartContractIO {
    /// Number of events processed: they are the oldest ones.
    pub open spec fn processed(&self) -> int {
        self.event_count - self.pending_events
    }

    /// The counts are those of the buffers, which are within bounds, and events that
    /// are not pending are marked.
    pub open spec fn wf(&self) -> bool {
        &&& self.event_count == self.events@.len()
        &&& self.delta_count == self.state_deltas@.len()
        &&& self.events@.len() <= MAX_EVENTS
        &&& self.state_deltas@.len() <= MAX_STATE_VARS
        &&& self.pending_events <= self.event_count
        &&& forall|i: int| 0 <= i < self.processed() ==> (#[trigger] self.events@[i]).processed
    }

    /// Empty tracker.
    pub fn new() -> (r: Self)
        ensures
            r.wf(),
            r.events@ == Seq::<ContractEvent>::empty(),
            r.state_deltas@ == Seq::<StateDelta>::empty(),
            r.last_block == 0,
            r.pending_events == 0,
            !r.overflow,
    {
        SmartContractIO {
            events: Vec::new(),
            state_deltas: Vec::new(),
            event_count: 0,
            delta_count: 0,
            last_block: 0,
            pending_events: 0,
            overflow: false,
        }
    }

    /// Add an event. Refused when the buffer is full: that sets the overflow
    /// flag.
    pub fn add_event(&mut self, event: ContractEvent) -> (r: bool)
        requires
            old(self).wf(),
        ensures
            final(self).wf(),
            r == (old(self).events@.len() < MAX_EVENTS),
            final(self).events@ == if r {
                old(self).events@.push(event)
            } else {
                old(self).events@
            },
            final(self).pending_events == old(self).pending_events + (if r {
                1int
            } else {
                0
            }),
            final(self).overflow == (!r || old(self).overflow),
            final(self).state_deltas@ == old(self).state_deltas@,
            final(self).last_block == old(self).last_block,
    {
        if self.event_count >= MAX_EVENTS as u64 {
            self.overflow = true;
            return false;
        }
        self.events.push(event);
        self.event_count = self.event_count + 1;
        self.pending_events = self.pending_events + 1;
        true
    }

    /// Track a state change. Refused when the buffer is full.
    pub fn track_state_change(
        &mut self,
        slot: u128,
        prev_value: u128,
        new_value: u128,
        contract_address: u128,
        block_number: u64,
        timestamp_ns: u64,
    ) -> (r: bool)
        requires
            old(self).wf(),
        ensures
            final(self).wf(),
            r == (old(self).state_deltas@.len() < MAX_STATE_VARS),
            final(self).state_deltas@ == if r {
                old(self).state_deltas@.push(
                    StateDelta {
                        slot,
                        prev_value,
                        new_value,
                        block_number,
                        timestamp_ns,
                        contract_address,
                    },
                )
            } else {
                old(self).state_deltas@
            },
            *final(self) == (SmartContractIO {
                state_deltas: final(self).state_deltas,
                delta_count: final(self).delta_count,
                ..*old(self)
            }),
    {
        if self.delta_count >= MAX_STATE_VARS as u64 {
            return false;
        }
        self.state_deltas.push(
            StateDelta {
                slot,
                prev_value,
                new_value,
                block_number,
                timestamp_ns,
                contract_address,
            },
        );
        self.delta_count = self.delta_count + 1;
        true
    }

    /// Pending event count.
    pub fn get_pending_count(&self) -> (r: u64)
        ensures
            r == self.pending_events,
    {
        self.pending_events
    }

    /// Mark the first `up_to_index` events as processed. Those among them that were
    /// pending no longer are, and the block of the last of them is noted. Nothing
    /// happens where all of them were processed before.
    pub fn mark_processed(&mut self, up_to_index: u64)
        requires
            old(self).wf(),
        ensures
            final(self).wf(),
            up_to_index <= old(self).processed() ==> *final(self) == *old(self),
            ({
                let count = max(
                    min(up_to_index as int, old(self).event_count as int),
                    old(self).processed(),
                );
                &&& final(self).processed() == count
                &&& final(self).events@ == marked(old(self).events@, count)
                &&& *final(self) == (SmartContractIO {
                    events: final(self).events,
                    pending_events: (old(self).event_count - count) as u64,
                    last_block: if count > old(self).processed() {
                        old(self).events@[count - 1].block_number
                    } else {
                        old(self).last_block
                    },
                    ..*old(self)
                })
            }),
    {
        let count: u64 = if up_to_index < self.event_count {
            up_to_index
        } else {
            self.event_count
        };
        let before: u64 = self.event_count - self.pending_events;
        if count <= before {
            assert(self.events@ =~= marked(self.events@, before as int));
            return ;
        }
        let mut i: u64 = before;
        while i < count
            invariant
                before <= i <= count <= old(self).event_count,
                old(self).wf(),
                before == old(self).processed(),
                self.events@ =~= marked(old(self).events@, i as int),
                *self == (SmartContractIO { events: self.events, ..*old(self) }),
            decreases count - i,
        {
            let mut event = self.events[i as usize];
            event.processed = true;
            self.events.set(i as usize, event);
            i = i + 1;
        }
        self.pending_events = self.event_count - count;
        self.last_block = self.events[(count - 1) as usize].block_number;
    }

    /// Events with a signature, oldest first.
    pub fn get_events_by_signature(&self, signature: EventSignature) -> (r: EventIterator<'_>)
        requires
            self.wf(),
        ensures
            r.wf(),
            r.remaining() == with_signature(self.events@, signature),
    {
        assert(self.events@.skip(0) =~= self.events@);
        EventIterator { events: self.events.as_slice(), signature, index: 0 }
    }

    /// Value that the last change of a slot left.
    pub fn get_latest_state(&self, slot: u128, contract: u128) -> (r: Option<u128>)
        requires
            self.wf(),
        ensures
            r == latest(self.state_deltas@, slot, contract),
    {
        let mut i: usize = self.state_deltas.len();
        assert(self.state_deltas@.take(i as int) =~= self.state_deltas@);
        while i > 0
            invariant
                i <= self.state_deltas@.len(),
                latest(self.state_deltas@.take(i as int), slot, contract) == latest(
                    self.state_deltas@,
                    slot,
                    contract,
                ),
            decreases i,
        {
            let delta = &self.state_deltas[i - 1];
            if delta.slot == slot && delta.contract_address == contract {
                return Some(delta.new_value);
            }
            assert(self.state_deltas@.take(i as int).drop_last() =~= self.state_deltas@.take(i - 1));
            i = i - 1;
        }
        None
    }

    /// Whether an event was refused since the last check.
    pub fn check_overflow(&mut self) -> (r: bool)
        ensures
            r == old(self).overflow,
            *final(self) == (SmartContractIO { overflow: false, ..*old(self) }),
    {
        let overflow = self.overflow;
        if overflow {
            self.overflow = false;
        }
        overflow
    }

    /// Drop events and state changes, if no event is pending.
    pub fn clear_processed(&mut self)
        requires
            old(self).wf(),
        ensures
            final(self).wf(),
            old(self).pending_events > 0 ==> *final(self) == *old(self),
            old(self).pending_events == 0 ==> {
                &&& final(self).events@ == Seq::<ContractEvent>::empty()
                &&& final(self).state_deltas@ == Seq::<StateDelta>::empty()
                &&& final(self).last_block == old(self).last_block
                &&& final(self).pending_events == 0
                &&& final(self).overflow == old(self).overflow
            },
    {
        if self.pending_events == 0 {
            self.events.clear();
            self.state_deltas.clear();
            self.event_count = 0;
            self.delta_count = 0;
        }
    }
}

impl Default for SmartContractIO {
    fn default() -> (r: Self)
        ensures
            r.wf(),
            r.events@ == Seq::<ContractEvent>::empty(),
            r.state_deltas@ == Seq::<StateDelta>::empty(),
            r.last_block == 0,
            r.pending_events == 0,
            !r.overflow,
    {
        Self::new()
    }
}

/// Walk over the events with a signature.
#[derive(Debug)]
pub struct EventIterator<'a> {
    /// Events walked over.
    pub events: &'a [ContractEvent],
    /// Signature looked for.
    pub signature: EventSignature,
    /// Events passed.
    pub index: usize,
}

impl<'a> EventIterator<'a> {
    /// The walk is within the events.
    pub open spec fn wf(&self) -> bool {
        self.index <= self.events@.len()
    }

    /// Events still to come.
    pub open spec fn remaining(&self) -> Seq<ContractEvent> {
        with_signature(self.events@.skip(self.index as int), self.signature)
    }

    /// The next event, if there is one.
    pub fn next(&mut self) -> (r: Option<&'a ContractEvent>)
        requires
            old(self).wf(),
        ensures
            final(self).wf(),
            match r {
                Some(event) => old(self).remaining().len() > 0 && *event == old(self).remaining()[0]
                    && final(self).remaining() == old(self).remaining().skip(1),
                None => old(self).remaining().len() == 0 && final(self).remaining().len() == 0,
            },
            final(self).events == old(self).events,
            final(self).signature == old(self).signature,
    {
        while self.index < self.events.len()
            invariant
                self.wf(),
                self.remaining() == old(self).remaining(),
                self.events == old(self).events,
                self.signature == old(self).signature,
            decreases self.events@.len() - self.index,
        {
            let ghost rest = self.events@.skip(self.index as int);
            let event = &self.events[self.index];
            assert(rest.skip(1) =~= self.events@.skip(self.index + 1));
            self.index = self.index + 1;
            if event.signature == self.signature {
                assert(old(self).remaining().skip(1) =~= self.remaining());
                return Some(event);
            }
        }
        None
    }

    /// All events still to come.
    pub fn collect(self) -> (r: Vec<ContractEvent>)
        requires
            self.wf(),
        ensures
            r@ == self.remaining(),
    {
        let mut walk = self;
        let mut out: Vec<ContractEvent> = Vec::new();
        let mut more = true;
        assert(out@ + walk.remaining() =~= self.remaining());
        while more
            invariant
                walk.wf(),
                out@ + walk.remaining() == self.remaining(),
                !more ==> walk.remaining().len() == 0,
            decreases walk.remaining().len() + (if more {
                1int
            } else {
                0
            }),
        {
            let ghost before = walk.remaining();
            let ghost had = out@;
            match walk.next() {
                Some(event) => {
                    out.push(*event);
                    assert(out@ + walk.remaining() =~= had + before);
                },
                None => {
                    more = false;
                },
            }
        }
        assert(out@ =~= self.remaining());
        out
    }
}

/// The events with a signature are those of the run that bear it, in their order.
pub proof fn lemma_signature_filter(s: Seq<ContractEvent>, e: ContractEvent, signature: EventSignature)
    ensures
        with_signature(Seq::<ContractEvent>::empty(), signature) == Seq::<ContractEvent>::empty(),
        e.signature == signature ==> with_signature(s.push(e), signature) == with_signature(
            s,
            signature,
        ).push(e),
        e.signature != signature ==> with_signature(s.push(e), signature) == with_signature(
            s,
            signature,
        ),
    decreases s.len(),
{
    let t = s.push(e);
    let none = Seq::<ContractEvent>::empty();
    if s.len() > 0 {
        lemma_signature_filter(s.skip(1), e, signature);
        assert(t.skip(1) =~= s.skip(1).push(e));
        assert(t[0] == s[0]);
        let rest = with_signature(s.skip(1), signature);
        if s[0].signature == signature && e.signature == signature {
            assert(seq![s[0]] + rest.push(e) =~= (seq![s[0]] + rest).push(e));
        }
    } else {
        assert(t.skip(1) =~= none);
        assert(with_signature(t.skip(1), signature) =~= none);
        assert(seq![e] + none =~= none.push(e));
        assert(with_signature(s, signature) =~= none);
    }
}

/// Marking up to a place sets the mark of every event before it, and changes nothing else.
pub proof fn lemma_marked_up_to(events: Seq<ContractEvent>, n: int, i: int)
    requires
        0 <= i < events.len(),
    ensures
        marked(events, n).len() == events.len(),
        i < n ==> marked(events, n)[i].processed,
        i >= n ==> marked(events, n)[i] == events[i],
        marked(events, n)[i].signature == events[i].signature,
        marked(events, n)[i].block_number == events[i].block_number,
        marked(events, n)[i].contract_address == events[i].contract_address,
        marked(events, n)[i].log_index == events[i].log_index,
{
}

} // verus!
