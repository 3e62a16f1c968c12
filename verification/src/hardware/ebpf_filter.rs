//! Packet filter: packets that follow too closely are noise.

use vstd::prelude::*;

verus! {

/// Smallest distance between two packets.
pub const MIN_DELTA: u64 = 1000;

/// Packet filter.
#[derive(Debug, Clone, Copy)]
pub struct EbpfFilter {
    /// Filter is in use.
    pub active: bool,
    /// Packets seen.
    pub packet_count: u64,
    /// Packets dropped.
    pub dropped_count: u64,
    /// Time of the last packet.
    pub last_ts: u64,
}

impl EbpfFilter {
    /// Filter that is not in use.
    pub fn new() -> (r: Self)
        ensures
            r == (EbpfFilter { active: false, packet_count: 0, dropped_count: 0, last_ts: 0 }),
    {
        EbpfFilter { active: false, packet_count: 0, dropped_count: 0, last_ts: 0 }
    }

    /// Use the filter.
    pub fn activate(&mut self)
        ensures
            *final(self) == (EbpfFilter { active: true, ..*old(self) }),
    {
        self.active = true;
    }

    /// Check if the filter is in use.
    pub fn is_active(&self) -> (r: bool)
        ensures
            r == self.active,
    {
        self.active
    }

    /// A packet passes: the filter is not in use, or the last packet is far enough
    /// away.
    pub open spec fn passes(&self, ts: u64) -> bool {
        !self.active || ts.wrapping_sub(self.last_ts) >= MIN_DELTA
    }

    /// Filter after a packet.
    pub open spec fn filtered(self, ts: u64) -> Self {
        if !self.active {
            self
        } else {
            EbpfFilter {
                packet_count: self.packet_count.wrapping_add(1),
                dropped_count: if self.passes(ts) {
                    self.dropped_count
                } else {
                    self.dropped_count.wrapping_add(1)
                },
                last_ts: ts,
                ..self
            }
        }
    }

    /// Check if a packet passes, and count it.
    pub fn filter_packet(&mut self, ts: u64) -> (r: bool)
        ensures
            r == old(self).passes(ts),
            *final(self) == old(self).filtered(ts),
    {
        if !self.is_active() {
            return true;
        }
        self.packet_count = self.packet_count.wrapping_add(1);
        let prev: u64 = self.last_ts;
        self.last_ts = ts;
        let delta: u64 = ts.wrapping_sub(prev);
        if delta < MIN_DELTA {
            self.dropped_count = self.dropped_count.wrapping_add(1);
            return false;
        }
        true
    }
}

/// No more packets are dropped than were seen.
pub proof fn lemma_drops_bounded(f: EbpfFilter, ts: u64)
    requires
        f.dropped_count <= f.packet_count < u64::MAX,
    ensures
        f.filtered(ts).dropped_count <= f.filtered(ts).packet_count,
{
}

/// Of two packets in a row, the second passes exactly if it comes far enough behind
/// the first, whether that one passed or not.
pub proof fn lemma_second_packet(f: EbpfFilter, first: u64, second: u64)
    requires
        f.active,
        first <= second,
    ensures
        f.filtered(first).passes(second) == (second - first >= MIN_DELTA),
{
}

/// An active filter passes a packet when a thousand nanoseconds or more have gone by since
/// the one before it, whether that one passed or not. It counts every packet and each drop.
/// An idle filter passes all and counts none.
pub proof fn lemma_packet_by_interval(f: EbpfFilter, ts: u64)
    ensures
        f.active && ts >= f.last_ts ==> (f.passes(ts) <==> ts >= f.last_ts + 1000),
        f.active ==> f.filtered(ts).last_ts == ts && f.filtered(ts).active,
        f.active && f.packet_count < 0xffff_ffff_ffff_ffff ==> f.filtered(ts).packet_count
            == f.packet_count + 1,
        f.active && f.passes(ts) ==> f.filtered(ts).dropped_count == f.dropped_count,
        f.active && !f.passes(ts) && f.dropped_count < 0xffff_ffff_ffff_ffff ==> f.filtered(
            ts,
        ).dropped_count == f.dropped_count + 1,
        !f.active ==> f.passes(ts) && f.filtered(ts) == f,
{
}

} // verus!
