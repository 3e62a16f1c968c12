//! Total value locked and protocol revenue, per protocol and per chain.

use vstd::prelude::*;
use crate::bytes::{be_value, get_be16};
use crate::fixed::clamp;

verus! {

broadcast use vstd::array::group_array_axioms;

/// Token amount (scaled by 10^18).
pub type TokenAmount = i128;

/// Maximum number of protocols tracked.
pub const MAX_PROTOCOLS: usize = 128;

/// Maximum number of chains tracked.
pub const MAX_CHAINS: usize = 32;

/// Nanoseconds in a millisecond.
pub const NS_PER_MS: u64 = 1_000_000;

/// Protocol data.
#[derive(Debug, Clone, Copy)]
pub struct ProtocolData {
    /// Protocol ID (hashed name).
    pub protocol_id: u64,
    /// TVL in USD (fixed-point, scaled by 10^8).
    pub tvl_usd: i64,
    /// 24h revenue in USD (fixed-point).
    pub revenue_24h: i64,
    /// 24h volume in USD (fixed-point).
    pub volume_24h: i64,
    /// Chain ID where the protocol is deployed.
    pub chain_id: u32,
    /// Last update timestamp (ns).
    pub last_update_ns: u64,
    /// Is the protocol active.
    pub active: bool,
    /// Fills the cache line.
    pub padding: [u8; 35],
}

impl ProtocolData {
    /// Entry with every field zero.
    pub open spec fn spec_default() -> Self {
        ProtocolData {
            protocol_id: 0,
            tvl_usd: 0,
            revenue_24h: 0,
            volume_24h: 0,
            chain_id: 0,
            last_update_ns: 0,
            active: false,
            padding: vstd::array::spec_array_fill_for_copy_type::<u8, 35>(0u8),
        }
    }
}

impl Default for ProtocolData {
    fn default() -> (r: Self)
        ensures
            r == ProtocolData::spec_default(),
    {
        ProtocolData {
            protocol_id: 0,
            tvl_usd: 0,
            revenue_24h: 0,
            volume_24h: 0,
            chain_id: 0,
            last_update_ns: 0,
            active: false,
            padding: [0u8;35],
        }
    }
}

/// Chain-level aggregation.
#[derive(Debug, Clone, Copy)]
pub struct ChainData {
    /// Chain ID.
    pub chain_id: u32,
    /// Total TVL on the chain (USD fixed-point), held at the largest number.
    pub total_tvl: i64,
    /// Number of active protocols.
    pub protocol_count: u32,
    /// 24h change in TVL (basis points).
    pub tvl_change_bps: i32,
    /// Last update timestamp.
    pub last_update_ns: u64,
    /// Fills the cache line.
    pub padding: [u8; 40],
}

impl ChainData {
    /// Entry with every field zero.
    pub open spec fn spec_default() -> Self {
        ChainData {
            chain_id: 0,
            total_tvl: 0,
            protocol_count: 0,
            tvl_change_bps: 0,
            last_update_ns: 0,
            padding: vstd::array::spec_array_fill_for_copy_type::<u8, 40>(0u8),
        }
    }
}

impl Default for ChainData {
    fn default() -> (r: Self)
        ensures
            r == ChainData::spec_default(),
    {
        ChainData {
            chain_id: 0,
            total_tvl: 0,
            protocol_count: 0,
            tvl_change_bps: 0,
            last_update_ns: 0,
            padding: [0u8;40],
        }
    }
}

/// Place of a protocol in a list.
pub open spec fn protocol_at(s: Seq<ProtocolData>, protocol_id: u64, i: int) -> bool {
    0 <= i < s.len() && s[i].protocol_id == protocol_id && forall|j: int|
        0 <= j < i ==> (#[trigger] s[j]).protocol_id != protocol_id
}

/// Place of a chain in a list.
pub open spec fn chain_at(s: Seq<ChainData>, chain_id: u32, i: int) -> bool {
    0 <= i < s.len() && s[i].chain_id == chain_id && forall|j: int|
        0 <= j < i ==> (#[trigger] s[j]).chain_id != chain_id
}

/// No two protocols have one ID.
pub open spec fn distinct_protocols(s: Seq<ProtocolData>) -> bool {
    forall|i: int, j: int|
        0 <= i < j < s.len() ==> (#[trigger] s[i]).protocol_id != (#[trigger] s[j]).protocol_id
}

/// No two chains have one ID.
pub open spec fn distinct_chains(s: Seq<ChainData>) -> bool {
    forall|i: int, j: int|
        0 <= i < j < s.len() ==> (#[trigger] s[i]).chain_id != (#[trigger] s[j]).chain_id
}

/// Value locked in the active protocols.
pub open spec fn active_tvl(s: Seq<ProtocolData>) -> int
    decreases s.len(),
{
    if s.len() == 0 {
        0
    } else {
        active_tvl(s.drop_last()) + (if s.last().active {
            s.last().tvl_usd as int
        } else {
            0
        })
    }
}

/// Bounds of the value locked in `s.len()` protocols.
proof fn lemma_active_tvl_bound(s: Seq<ProtocolData>)
    ensures
        s.len() * i64::MIN <= active_tvl(s) <= s.len() * i64::MAX,
    decreases s.len(),
{
    if s.len() > 0 {
        lemma_active_tvl_bound(s.drop_last());
    }
}

/// Value locked in the active protocols of a chain.
pub open spec fn chain_tvl(s: Seq<ProtocolData>, chain_id: u32) -> int
    decreases s.len(),
{
    if s.len() == 0 {
        0
    } else {
        chain_tvl(s.drop_last(), chain_id) + (if s.last().active && s.last().chain_id == chain_id {
            s.last().tvl_usd as int
        } else {
            0
        })
    }
}

/// Number of active protocols of a chain.
pub open spec fn chain_protocols(s: Seq<ProtocolData>, chain_id: u32) -> int
    decreases s.len(),
{
    if s.len() == 0 {
        0
    } else {
        chain_protocols(s.drop_last(), chain_id) + (if s.last().active && s.last().chain_id
            == chain_id {
            1int
        } else {
            0
        })
    }
}

/// Entry of a chain with the figures of its protocols.
pub open spec fn recounted(chain: ChainData, s: Seq<ProtocolData>) -> ChainData {
    ChainData {
        total_tvl: clamp(chain_tvl(s, chain.chain_id), i64::MIN as int, i64::MAX as int) as i64,
        protocol_count: chain_protocols(s, chain.chain_id) as u32,
        ..chain
    }
}

/// Bounds of the figures of a chain with `s.len()` protocols.
proof fn lemma_chain_bound(s: Seq<ProtocolData>, chain_id: u32)
    ensures
        s.len() * i64::MIN <= chain_tvl(s, chain_id) <= s.len() * i64::MAX,
        0 <= chain_protocols(s, chain_id) <= s.len(),
    decreases s.len(),
{
    if s.len() > 0 {
        lemma_chain_bound(s.drop_last(), chain_id);
    }
}

/// A chain counts what its protocols hold now: a new figure of a protocol replaces
/// the one before, and the other chains are not touched by it.
pub proof fn lemma_update_replaces(s: Seq<ProtocolData>, i: int, p: ProtocolData, chain_id: u32)
    requires
        0 <= i < s.len(),
        s[i].active,
        p.active,
        p.chain_id == s[i].chain_id,
    ensures
        chain_tvl(s.update(i, p), chain_id) == chain_tvl(s, chain_id) + (if p.chain_id == chain_id {
            p.tvl_usd - s[i].tvl_usd
        } else {
            0
        }),
        chain_protocols(s.update(i, p), chain_id) == chain_protocols(s, chain_id),
    decreases s.len(),
{
    let t = s.update(i, p);
    if i == s.len() - 1 {
        assert(t.drop_last() =~= s.drop_last());
    } else {
        assert(t.drop_last() =~= s.drop_last().update(i, p));
        lemma_update_replaces(s.drop_last(), i, p, chain_id);
    }
}

/// TVL tracker.
#[derive(Debug)]
pub struct TVLTracker {
    /// Protocols.
    pub protocols: [ProtocolData; 128],
    /// Chains.
    pub chains: [ChainData; 32],
    /// Total TVL across all protocols.
    pub total_tvl: i128,
    /// Protocol count.
    pub protocol_count: u64,
    /// Chain count.
    pub chain_count: u64,
    /// Time of the last update; zero before the first one.
    pub last_update_ns: u64,
    /// Stale data threshold (ns).
    pub stale_threshold_ns: u64,
}

impl TVLTracker {
    /// Protocols known.
    pub open spec fn known(&self) -> Seq<ProtocolData> {
        self.protocols@.take(self.protocol_count as int)
    }

    /// Chains known.
    pub open spec fn known_chains(&self) -> Seq<ChainData> {
        self.chains@.take(self.chain_count as int)
    }

    /// Counts are within bounds, nothing is listed twice, the total is that of the
    /// active protocols, and the figures of a chain are those of its protocols.
    pub open spec fn wf(&self) -> bool {
        &&& self.protocol_count <= MAX_PROTOCOLS
        &&& self.chain_count <= MAX_CHAINS
        &&& distinct_protocols(self.known())
        &&& distinct_chains(self.known_chains())
        &&& self.total_tvl == active_tvl(self.known())
        &&& forall|i: int|
            0 <= i < self.known_chains().len() ==> (#[trigger] self.known_chains()[i]) == recounted(
                self.known_chains()[i],
                self.known(),
            )
    }

    /// Empty tracker.
    pub fn new(stale_threshold_ms: u64) -> (r: Self)
        requires
            stale_threshold_ms * NS_PER_MS <= u64::MAX,
        ensures
            r.wf(),
            r.known() == Seq::<ProtocolData>::empty(),
            r.known_chains() == Seq::<ChainData>::empty(),
            r.total_tvl == 0,
            r.last_update_ns == 0,
            r.stale_threshold_ns == stale_threshold_ms * NS_PER_MS,
    {
        let r = TVLTracker {
            protocols: [ProtocolData::default();128],
            chains: [ChainData::default();32],
            total_tvl: 0,
            protocol_count: 0,
            chain_count: 0,
            last_update_ns: 0,
            stale_threshold_ns: stale_threshold_ms * NS_PER_MS,
        };
        assert(r.known() =~= Seq::<ProtocolData>::empty());
        assert(r.known_chains() =~= Seq::<ChainData>::empty());
        r
    }

    /// Protocols after an update: the entry of the protocol is overwritten but for its
    /// chain, or a new one is added if there is room.
    pub open spec fn protocols_after(
        s: Seq<ProtocolData>,
        t: Seq<ProtocolData>,
        update: ProtocolData,
    ) -> bool {
        &&& forall|i: int|
            #![trigger s[i]]
            protocol_at(s, update.protocol_id, i) ==> t == s.update(
                i,
                ProtocolData { chain_id: s[i].chain_id, padding: s[i].padding, ..update },
            )
        &&& (forall|i: int|
            0 <= i < s.len() ==> (#[trigger] s[i]).protocol_id != update.protocol_id) ==> t == if s.len()
            < MAX_PROTOCOLS {
            s.push(update)
        } else {
            s
        }
    }

    /// Chains after news of a chain: its time is noted, or a new entry is added if
    /// there is room. Every chain has the figures of its protocols.
    pub open spec fn chains_after(
        s: Seq<ChainData>,
        t: Seq<ChainData>,
        chain_id: u32,
        timestamp_ns: u64,
        protocols: Seq<ProtocolData>,
    ) -> bool {
        &&& forall|i: int|
            #![trigger s[i]]
            chain_at(s, chain_id, i) ==> t == s.update(
                i,
                ChainData { last_update_ns: timestamp_ns, ..s[i] },
            ).map_values(|c: ChainData| recounted(c, protocols))
        &&& (forall|i: int| 0 <= i < s.len() ==> (#[trigger] s[i]).chain_id != chain_id) ==> t == (
        if s.len() < MAX_CHAINS {
            s.push(
                ChainData { chain_id, last_update_ns: timestamp_ns, ..ChainData::spec_default() },
            )
        } else {
            s
        }).map_values(|c: ChainData| recounted(c, protocols))
    }

    /// Update the figures of a protocol.
    pub fn update_protocol(
        &mut self,
        protocol_id: u64,
        chain_id: u32,
        tvl_usd: i64,
        revenue_24h: i64,
        volume_24h: i64,
        timestamp_ns: u64,
    )
        requires
            old(self).wf(),
        ensures
            final(self).wf(),
            Self::protocols_after(
                old(self).known(),
                final(self).known(),
                ProtocolData {
                    protocol_id,
                    tvl_usd,
                    revenue_24h,
                    volume_24h,
                    chain_id,
                    last_update_ns: timestamp_ns,
                    active: true,
                    ..ProtocolData::spec_default()
                },
            ),
            Self::chains_after(
                old(self).known_chains(),
                final(self).known_chains(),
                chain_id,
                timestamp_ns,
                final(self).known(),
            ),
            final(self).last_update_ns == timestamp_ns,
            final(self).stale_threshold_ns == old(self).stale_threshold_ns,
    {
        let count: usize = self.protocol_count as usize;
        let ghost before = self.known();
        let mut i: usize = 0;
        while i < count && self.protocols[i].protocol_id != protocol_id
            invariant
                *self == *old(self),
                self.wf(),
                before == self.known(),
                i <= count == self.protocol_count,
                forall|k: int| 0 <= k < i ==> (#[trigger] before[k]).protocol_id != protocol_id,
            decreases count - i,
        {
            assert(before[i as int].protocol_id != protocol_id);
            i = i + 1;
        }
        if i < count {
            assert(protocol_at(before, protocol_id, i as int));
            let mut entry = self.protocols[i];
            entry.tvl_usd = tvl_usd;
            entry.revenue_24h = revenue_24h;
            entry.volume_24h = volume_24h;
            entry.last_update_ns = timestamp_ns;
            entry.active = true;
            self.protocols[i] = entry;
            assert(self.known() =~= before.update(i as int, entry));
        } else if count < MAX_PROTOCOLS {
            let mut entry = ProtocolData::default();
            entry.protocol_id = protocol_id;
            entry.tvl_usd = tvl_usd;
            entry.revenue_24h = revenue_24h;
            entry.volume_24h = volume_24h;
            entry.chain_id = chain_id;
            entry.last_update_ns = timestamp_ns;
            entry.active = true;
            self.protocols[count] = entry;
            self.protocol_count = (count + 1) as u64;
            assert(self.known() =~= before.push(entry));
        }
        self.update_chain(chain_id, timestamp_ns);
        self.recalculate_total();
        self.last_update_ns = timestamp_ns;
    }

    /// Note news of a chain, and recalculate the figures of all chains.
    fn update_chain(&mut self, chain_id: u32, timestamp_ns: u64)
        requires
            old(self).protocol_count <= MAX_PROTOCOLS,
            old(self).chain_count <= MAX_CHAINS,
            distinct_chains(old(self).known_chains()),
        ensures
            final(self).chain_count <= MAX_CHAINS,
            distinct_chains(final(self).known_chains()),
            Self::chains_after(
                old(self).known_chains(),
                final(self).known_chains(),
                chain_id,
                timestamp_ns,
                old(self).known(),
            ),
            *final(self) == (TVLTracker {
                chains: final(self).chains,
                chain_count: final(self).chain_count,
                ..*old(self)
            }),
    {
        let count: usize = self.chain_count as usize;
        let ghost before = self.known_chains();
        let mut i: usize = 0;
        while i < count && self.chains[i].chain_id != chain_id
            invariant
                *self == *old(self),
                before == self.known_chains(),
                i <= count == self.chain_count,
                count <= MAX_CHAINS,
                forall|k: int| 0 <= k < i ==> (#[trigger] before[k]).chain_id != chain_id,
            decreases count - i,
        {
            assert(before[i as int].chain_id != chain_id);
            i = i + 1;
        }
        if i < count {
            assert(chain_at(before, chain_id, i as int));
            let mut entry = self.chains[i];
            entry.last_update_ns = timestamp_ns;
            self.chains[i] = entry;
            assert(self.known_chains() =~= before.update(i as int, entry));
        } else if count < MAX_CHAINS {
            let mut entry = ChainData::default();
            entry.chain_id = chain_id;
            entry.last_update_ns = timestamp_ns;
            self.chains[count] = entry;
            self.chain_count = (count + 1) as u64;
            assert(self.known_chains() =~= before.push(entry));
        }
        let ghost noted = self.known_chains();
        assert(distinct_chains(noted));
        self.recalculate_chains();
        proof {
            let after = self.known_chains();
            assert forall|a: int, b: int| 0 <= a < b < after.len() implies (
            #[trigger] after[a]).chain_id != (#[trigger] after[b]).chain_id by {
                assert(noted[a].chain_id != noted[b].chain_id);
            }
        }
    }

    /// Give every chain the figures of its protocols.
    fn recalculate_chains(&mut self)
        requires
            old(self).protocol_count <= MAX_PROTOCOLS,
            old(self).chain_count <= MAX_CHAINS,
        ensures
            final(self).known_chains() == old(self).known_chains().map_values(
                |c: ChainData| recounted(c, old(self).known()),
            ),
            *final(self) == (TVLTracker { chains: final(self).chains, ..*old(self) }),
    {
        let ghost protocols = self.known();
        let ghost before = self.known_chains();
        let count: usize = self.chain_count as usize;
        let mut i: usize = 0;
        while i < count
            invariant
                *self == (TVLTracker { chains: self.chains, ..*old(self) }),
                self.protocol_count <= MAX_PROTOCOLS,
                protocols == self.known(),
                before == old(self).known_chains(),
                i <= count == self.chain_count,
                count <= MAX_CHAINS,
                forall|k: int| 0 <= k < i ==> self.chains@[k] == recounted(before[k], protocols),
                forall|k: int| i <= k < count ==> self.chains@[k] == before[k],
            decreases count - i,
        {
            let mut entry = self.chains[i];
            let (tvl, n) = self.chain_figures(entry.chain_id);
            entry.total_tvl = tvl;
            entry.protocol_count = n;
            self.chains[i] = entry;
            i = i + 1;
        }
        assert(self.known_chains() =~= before.map_values(
            |c: ChainData| recounted(c, protocols),
        ));
    }

    /// Value locked on a chain, held at the largest number, and its active protocols.
    fn chain_figures(&self, chain_id: u32) -> (r: (i64, u32))
        requires
            self.protocol_count <= MAX_PROTOCOLS,
        ensures
            r.0 == clamp(chain_tvl(self.known(), chain_id), i64::MIN as int, i64::MAX as int),
            r.1 == chain_protocols(self.known(), chain_id),
    {
        let ghost all = self.known();
        let count: usize = self.protocol_count as usize;
        let mut total: i128 = 0;
        let mut n: u32 = 0;
        let mut i: usize = 0;
        while i < count
            invariant
                all == self.known(),
                i <= count == self.protocol_count,
                count <= MAX_PROTOCOLS,
                total == chain_tvl(all.take(i as int), chain_id),
                n == chain_protocols(all.take(i as int), chain_id),
            decreases count - i,
        {
            proof {
                lemma_chain_bound(all.take(i as int), chain_id);
                assert(all.take(i + 1).drop_last() =~= all.take(i as int));
            }
            assert(all[i as int] == self.protocols@[i as int]);
            if self.protocols[i].active && self.protocols[i].chain_id == chain_id {
                total = total + self.protocols[i].tvl_usd as i128;
                n = n + 1;
            }
            i = i + 1;
        }
        assert(all.take(count as int) =~= all);
        let tvl: i64 = if total < i64::MIN as i128 {
            i64::MIN
        } else if total > i64::MAX as i128 {
            i64::MAX
        } else {
            total as i64
        };
        (tvl, n)
    }

    /// Recalculate the total from all active protocols.
    fn recalculate_total(&mut self)
        requires
            old(self).protocol_count <= MAX_PROTOCOLS,
        ensures
            final(self).total_tvl == active_tvl(old(self).known()),
            *final(self) == (TVLTracker { total_tvl: final(self).total_tvl, ..*old(self) }),
    {
        let ghost all = self.known();
        let count: usize = self.protocol_count as usize;
        let mut total: i128 = 0;
        let mut i: usize = 0;
        while i < count
            invariant
                *self == *old(self),
                all == self.known(),
                i <= count == self.protocol_count,
                count <= MAX_PROTOCOLS,
                total == active_tvl(all.take(i as int)),
            decreases count - i,
        {
            proof {
                lemma_active_tvl_bound(all.take(i as int));
                assert(all.take(i + 1).drop_last() =~= all.take(i as int));
            }
            assert(all[i as int] == self.protocols@[i as int]);
            if self.protocols[i].active {
                total = total + self.protocols[i].tvl_usd as i128;
            }
            i = i + 1;
        }
        assert(all.take(count as int) =~= all);
        self.total_tvl = total;
    }

    /// Total TVL.
    pub fn get_total_tvl(&self) -> (r: i128)
        ensures
            r == self.total_tvl,
    {
        self.total_tvl
    }

    /// TVL of a chain; zero for an unknown chain.
    pub fn get_chain_tvl(&self, chain_id: u32) -> (r: i64)
        requires
            self.wf(),
        ensures
            forall|i: int|
                #![trigger self.known_chains()[i]]
                chain_at(self.known_chains(), chain_id, i) ==> r
                    == self.known_chains()[i].total_tvl && r == clamp(
                    chain_tvl(self.known(), chain_id),
                    i64::MIN as int,
                    i64::MAX as int,
                ),
            (forall|i: int|
                0 <= i < self.known_chains().len() ==> (
                #[trigger] self.known_chains()[i]).chain_id != chain_id) ==> r == 0,
    {
        let count: usize = self.chain_count as usize;
        let mut i: usize = 0;
        while i < count
            invariant
                self.wf(),
                i <= count == self.chain_count,
                forall|k: int|
                    0 <= k < i ==> (#[trigger] self.known_chains()[k]).chain_id != chain_id,
            decreases count - i,
        {
            assert(self.known_chains()[i as int] == self.chains@[i as int]);
            if self.chains[i].chain_id == chain_id {
                return self.chains[i].total_tvl;
            }
            i = i + 1;
        }
        0
    }

    /// Protocol count.
    pub fn get_protocol_count(&self) -> (r: u64)
        ensures
            r == self.protocol_count,
    {
        self.protocol_count
    }

    /// Check if data is stale at time `current_time_ns`: nothing was ever
    /// reported, or the last report is older than the threshold.
    pub fn is_stale(&self, current_time_ns: u64) -> (r: bool)
        ensures
            r == (self.protocol_count == 0 || current_time_ns - self.last_update_ns
                > self.stale_threshold_ns),
    {
        self.protocol_count == 0 || current_time_ns.saturating_sub(self.last_update_ns)
            > self.stale_threshold_ns
    }
}

/// Decoder for contract log data.
#[derive(Debug)]
pub struct ABIDecoder {}

impl ABIDecoder {
    /// Decoder.
    pub fn new() -> (r: Self)
        ensures
            r == (ABIDecoder {  }),
    {
        ABIDecoder {  }
    }

    /// Decode a 256-bit integer from log data: its low sixteen bytes, highest
    /// first. Data of fewer than 32 bytes has none.
    pub fn decode_uint256(data: &[u8]) -> (r: Option<TokenAmount>)
        ensures
            r == if data@.len() < 32 {
                None
            } else {
                Some(be_value(data@.subrange(16, 32)) as u128 as i128)
            },
    {
        if data.len() < 32 {
            return None;
        }
        Some(get_be16(data, 16) as i128)
    }

    /// Decode an address from a topic: its low sixteen bytes, highest first. A
    /// topic of fewer than 32 bytes has none.
    pub fn decode_address(topic: &[u8]) -> (r: Option<u128>)
        ensures
            r == if topic@.len() < 32 {
                None::<u128>
            } else {
                Some(be_value(topic@.subrange(16, 32)) as u128)
            },
    {
        if topic.len() < 32 {
            return None;
        }
        Some(get_be16(topic, 16))
    }
}

impl Default for ABIDecoder {
    fn default() -> (r: Self)
        ensures
            r == (ABIDecoder {  }),
    {
        Self::new()
    }
}

/// Each active protocol adds its value to the total and, on its own chain only, to the
/// total and the number of protocols of the chain; one that is not active adds nothing.
pub proof fn lemma_totals_add_up(s: Seq<ProtocolData>, p: ProtocolData, chain_id: u32)
    ensures
        active_tvl(Seq::<ProtocolData>::empty()) == 0,
        chain_tvl(Seq::<ProtocolData>::empty(), chain_id) == 0,
        chain_protocols(Seq::<ProtocolData>::empty(), chain_id) == 0,
        p.active ==> active_tvl(s.push(p)) == active_tvl(s) + p.tvl_usd,
        !p.active ==> active_tvl(s.push(p)) == active_tvl(s),
        p.active && p.chain_id == chain_id ==> chain_tvl(s.push(p), chain_id) == chain_tvl(
            s,
            chain_id,
        ) + p.tvl_usd && chain_protocols(s.push(p), chain_id) == chain_protocols(s, chain_id) + 1,
        !p.active || p.chain_id != chain_id ==> chain_tvl(s.push(p), chain_id) == chain_tvl(
            s,
            chain_id,
        ) && chain_protocols(s.push(p), chain_id) == chain_protocols(s, chain_id),
{
    assert(s.push(p).drop_last() =~= s);
}

/// A protocol that is reported for the first time is added; a later report takes the
/// place of the earlier one and stays on its chain.
pub proof fn lemma_report_replaces(
    s: Seq<ProtocolData>,
    t: Seq<ProtocolData>,
    update: ProtocolData,
    i: int,
)
    requires
        TVLTracker::protocols_after(s, t, update),
        protocol_at(s, update.protocol_id, i),
    ensures
        t.len() == s.len(),
        t[i].tvl_usd == update.tvl_usd,
        t[i].revenue_24h == update.revenue_24h,
        t[i].volume_24h == update.volume_24h,
        t[i].last_update_ns == update.last_update_ns,
        t[i].protocol_id == update.protocol_id,
        t[i].chain_id == s[i].chain_id,
        forall|j: int| 0 <= j < s.len() && j != i ==> #[trigger] t[j] == s[j],
{
    assert(s[i].protocol_id == update.protocol_id);
}

/// A protocol reported for the first time is added at the end while there are fewer than
/// a hundred and twenty-eight.
pub proof fn lemma_first_report_is_added(
    s: Seq<ProtocolData>,
    t: Seq<ProtocolData>,
    update: ProtocolData,
)
    requires
        TVLTracker::protocols_after(s, t, update),
        forall|j: int| 0 <= j < s.len() ==> (#[trigger] s[j]).protocol_id != update.protocol_id,
    ensures
        s.len() < 128 ==> t == s.push(update),
        s.len() >= 128 ==> t == s,
{
}

/// News of a chain notes its time, or adds it at the end while there are fewer than
/// thirty-two. The identity of every other chain stays.
pub proof fn lemma_news_of_chain(
    s: Seq<ChainData>,
    t: Seq<ChainData>,
    chain_id: u32,
    timestamp_ns: u64,
    protocols: Seq<ProtocolData>,
    i: int,
)
    requires
        TVLTracker::chains_after(s, t, chain_id, timestamp_ns, protocols),
        distinct_chains(s),
    ensures
        0 <= i < s.len() && s[i].chain_id == chain_id ==> t.len() == s.len() && t[i] == recounted(
            ChainData { last_update_ns: timestamp_ns, ..s[i] },
            protocols,
        ) && forall|j: int|
            0 <= j < s.len() && j != i ==> #[trigger] t[j] == recounted(s[j], protocols),
        (forall|j: int| 0 <= j < s.len() ==> (#[trigger] s[j]).chain_id != chain_id) && s.len()
            < 32 ==> t.len() == s.len() + 1 && t.last() == recounted(
            ChainData { chain_id, last_update_ns: timestamp_ns, ..ChainData::spec_default() },
            protocols,
        ),
        (forall|j: int| 0 <= j < s.len() ==> (#[trigger] s[j]).chain_id != chain_id) && s.len()
            >= 32 ==> t.len() == s.len(),
{
    if 0 <= i < s.len() && s[i].chain_id == chain_id {
        assert(chain_at(s, chain_id, i));
    }
}

} // verus!
