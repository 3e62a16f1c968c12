//! Mempool monitoring for sandwich attacks and extraction risk on DEX routes.

use vstd::prelude::*;
use crate::fixed::{
    best_above, bit_mask, cast_i64, div_i64, fits_i64, is_best, lemma_tdiv_rounds, max, min,
    pack_flags, seq_sum, sum_wide, tdiv,
};
use crate::ring::{lemma_ring_drop, lemma_ring_push, ring};

verus! {

broadcast use vstd::array::group_array_axioms;

/// Maximum pending transactions tracked.
pub const MAX_PENDING_TXS: usize = 256;

/// Maximum DEX routes monitored.
pub const MAX_DEX_ROUTES: usize = 16;

/// Pending transactions that a search looks at.
pub const SEARCH_DEPTH: usize = 64;

/// Transactions that a search returns at most.
pub const SEARCH_HITS: usize = 8;

/// Default gas price threshold (100 gwei).
pub const DEFAULT_GAS_THRESHOLD: u64 = 100_000_000_000;

/// Selector of `swapExactTokensForTokens`.
pub const SWAP_EXACT_TOKENS_FOR_TOKENS: u32 = 0x38ed_1739;

/// Selector of `swapTokensForExactTokens`.
pub const SWAP_TOKENS_FOR_EXACT_TOKENS: u32 = 0x8803_dbee;

/// Selector of `swapExactETHForTokens`.
pub const SWAP_EXACT_ETH_FOR_TOKENS: u32 = 0x7ff3_6ab5;

/// Selector of `swapExactTokensForETH`.
pub const SWAP_EXACT_TOKENS_FOR_ETH: u32 = 0x18cb_afe5;

/// Calldata decoder state.
#[derive(Debug)]
pub struct AbiDecoderState {
    /// Function selector.
    pub function_selector: u64,
    /// Calldata reference.
    pub calldata_ptr: u64,
    /// Calldata length.
    pub calldata_len: u64,
    /// Decoded parameters offset.
    pub params_offset: u64,
}

/// Mempool monitor.
#[derive(Debug)]
pub struct MempoolMonitor {
    /// Pending transaction count.
    pub pending_count: u64,
    /// High gas price threshold (wei, scaled).
    pub high_gas_threshold: u64,
    /// Sandwich attack detected flag.
    pub sandwich_detected: bool,
    /// Last suspicious transaction hash.
    pub suspicious_tx_hash: u64,
}

/// Pending transaction.
#[derive(Debug, Clone, Copy)]
pub struct PendingTxEntry {
    /// Transaction hash (first 8 bytes).
    pub tx_hash: u64,
    /// Gas price (wei, fixed-point).
    pub gas_price: i64,
    /// Timestamp (cycles).
    pub timestamp: u64,
    /// Target DEX route index.
    pub dex_route: u8,
    /// Is swap transaction.
    pub is_swap: u8,
    /// Risk score (0-100).
    pub risk_score: u8,
    /// Reserved.
    pub _reserved: [u8; 5],
}

/// Circular buffer of pending transactions.
#[derive(Debug)]
pub struct PendingTxBuffer {
    /// Slots.
    pub entries: [PendingTxEntry; 256],
    /// Entries inserted in all.
    pub head: u64,
    /// Entries gone in all.
    pub tail: u64,
    /// Entries that wait.
    pub count: u64,
}

/// State of each DEX route.
#[derive(Debug)]
pub struct DexRouteTracker {
    /// Route liquidity (fixed-point).
    pub liquidity: [i64; 16],
    /// Last trade size (fixed-point).
    pub last_trade_size: [i64; 16],
    /// Price impact (basis points).
    pub price_impact_bp: [i64; 16],
    /// Extractable amount (fixed-point).
    pub mev_extractable: [i64; 16],
}

impl Default for AbiDecoderState {
    fn default() -> (r: Self)
        ensures
            r == (AbiDecoderState {
                function_selector: 0,
                calldata_ptr: 0,
                calldata_len: 0,
                params_offset: 0,
            }),
    {
        AbiDecoderState { function_selector: 0, calldata_ptr: 0, calldata_len: 0, params_offset: 0 }
    }
}

impl Default for MempoolMonitor {
    fn default() -> (r: Self)
        ensures
            r == (MempoolMonitor {
                pending_count: 0,
                high_gas_threshold: DEFAULT_GAS_THRESHOLD,
                sandwich_detected: false,
                suspicious_tx_hash: 0,
            }),
    {
        MempoolMonitor {
            pending_count: 0,
            high_gas_threshold: DEFAULT_GAS_THRESHOLD,
            sandwich_detected: false,
            suspicious_tx_hash: 0,
        }
    }
}

impl PendingTxEntry {
    /// Entry with every field zero.
    pub open spec fn spec_default() -> Self {
        PendingTxEntry {
            tx_hash: 0,
            gas_price: 0,
            timestamp: 0,
            dex_route: 0,
            is_swap: 0,
            risk_score: 0,
            _reserved: vstd::array::spec_array_fill_for_copy_type::<u8, 5>(0u8),
        }
    }
}

impl Default for PendingTxEntry {
    fn default() -> (r: Self)
        ensures
            r == PendingTxEntry::spec_default(),
    {
        PendingTxEntry {
            tx_hash: 0,
            gas_price: 0,
            timestamp: 0,
            dex_route: 0,
            is_swap: 0,
            risk_score: 0,
            _reserved: [0u8;5],
        }
    }
}

impl Default for PendingTxBuffer {
    fn default() -> (r: Self)
        ensures
            r.wf(),
            r@ == Seq::<PendingTxEntry>::empty(),
            r.head == 0,
            r.tail == 0,
            r.count == 0,
    {
        let r = PendingTxBuffer {
            entries: [PendingTxEntry::default();256],
            head: 0,
            tail: 0,
            count: 0,
        };
        assert(r@ =~= Seq::<PendingTxEntry>::empty());
        r
    }
}

impl Default for DexRouteTracker {
    fn default() -> (r: Self)
        ensures
            forall|i: int| 0 <= i < MAX_DEX_ROUTES ==> r.liquidity@[i] == 0,
            forall|i: int| 0 <= i < MAX_DEX_ROUTES ==> r.last_trade_size@[i] == 0,
            forall|i: int| 0 <= i < MAX_DEX_ROUTES ==> r.price_impact_bp@[i] == 0,
            forall|i: int| 0 <= i < MAX_DEX_ROUTES ==> r.mev_extractable@[i] == 0,
    {
        DexRouteTracker {
            liquidity: [0i64;16],
            last_trade_size: [0i64;16],
            price_impact_bp: [0i64;16],
            mev_extractable: [0i64;16],
        }
    }
}

/// Whether a selector is that of a known swap function.
pub open spec fn is_swap_selector(selector: u32) -> bool {
    ||| selector == SWAP_EXACT_TOKENS_FOR_TOKENS
    ||| selector == SWAP_TOKENS_FOR_EXACT_TOKENS
    ||| selector == SWAP_EXACT_ETH_FOR_TOKENS
    ||| selector == SWAP_EXACT_TOKENS_FOR_ETH
}

impl AbiDecoderState {
    /// The function selector, as the low 32 bits of the stored word.
    pub open spec fn selector(&self) -> u32 {
        self.function_selector as u32
    }

    /// Decode the function selector of calldata: the low 32 bits of the
    /// reference. Calldata of fewer than four bytes has none, and changes nothing.
    pub fn decode_selector(&mut self, calldata_ptr: u64, calldata_len: u64) -> (r: Option<u32>)
        ensures
            r == if calldata_len < 4 {
                None::<u32>
            } else {
                Some((calldata_ptr % 0x1_0000_0000) as u32)
            },
            *final(self) == if calldata_len < 4 {
                *old(self)
            } else {
                AbiDecoderState {
                    calldata_ptr,
                    calldata_len,
                    function_selector: calldata_ptr % 0x1_0000_0000,
                    ..*old(self)
                }
            },
    {
        if calldata_len < 4 {
            return None;
        }
        self.calldata_ptr = calldata_ptr;
        self.calldata_len = calldata_len;
        let selector: u32 = (calldata_ptr % 0x1_0000_0000) as u32;
        self.function_selector = selector as u64;
        Some(selector)
    }

    /// Check if the selector is that of a known swap function.
    pub fn is_swap_function(&self) -> (r: bool)
        ensures
            r == is_swap_selector(self.selector()),
    {
        let selector: u32 = self.function_selector as u32;
        selector == SWAP_EXACT_TOKENS_FOR_TOKENS || selector == SWAP_TOKENS_FOR_EXACT_TOKENS
            || selector == SWAP_EXACT_ETH_FOR_TOKENS || selector == SWAP_EXACT_TOKENS_FOR_ETH
    }

    /// The function selector.
    pub fn get_selector(&self) -> (r: u32)
        ensures
            r == self.selector(),
    {
        self.function_selector as u32
    }
}

impl View for PendingTxBuffer {
    type V = Seq<PendingTxEntry>;

    /// Entries that wait, oldest first.
    open spec fn view(&self) -> Seq<PendingTxEntry> {
        ring(self.entries@, self.head as int, self.head - self.tail)
    }
}

/// Entries of `s` that target a route, in order.
pub open spec fn on_route(s: Seq<PendingTxEntry>, route: u8) -> Seq<PendingTxEntry>
    decreases s.len(),
{
    if s.len() == 0 {
        Seq::empty()
    } else if s.last().dex_route == route {
        on_route(s.drop_last(), route).push(s.last())
    } else {
        on_route(s.drop_last(), route)
    }
}

impl PendingTxBuffer {
    /// The counters agree, and span no more than a round.
    pub open spec fn wf(&self) -> bool {
        &&& self.tail <= self.head
        &&& self.count == self.head - self.tail
        &&& self.count <= MAX_PENDING_TXS
    }

    /// Insert a pending transaction. Refused when the buffer is full.
    pub fn insert(&mut self, entry: PendingTxEntry) -> (r: bool)
        requires
            old(self).wf(),
            old(self).head < u64::MAX,
        ensures
            final(self).wf(),
            r == (old(self)@.len() < MAX_PENDING_TXS),
            !r ==> *final(self) == *old(self),
            r ==> final(self)@ == old(self)@.push(entry) && final(self).head == old(self).head + 1,
    {
        if self.count >= MAX_PENDING_TXS as u64 {
            return false;
        }
        let idx: usize = (self.head % 256) as usize;
        proof {
            lemma_ring_push(self.entries@, self.head as int, self.count as int, entry);
        }
        self.entries[idx] = entry;
        self.head = self.head + 1;
        self.count = self.count + 1;
        true
    }

    /// Remove the oldest entry, if there is one.
    pub fn remove_oldest(&mut self) -> (r: Option<PendingTxEntry>)
        requires
            old(self).wf(),
        ensures
            final(self).wf(),
            r is None <==> old(self)@.len() == 0,
            r is None ==> *final(self) == *old(self),
            r is Some ==> r == Some(old(self)@[0]) && final(self)@ == old(self)@.drop_first()
                && final(self).head == old(self).head,
    {
        if self.count == 0 {
            return None;
        }
        let entry = self.entries[(self.tail % 256) as usize];
        proof {
            lemma_ring_drop(self.entries@, self.head as int, self.count as int);
        }
        self.tail = self.tail + 1;
        self.count = self.count - 1;
        Some(entry)
    }

    /// What a search finds: of the oldest entries, those that target the route.
    pub open spec fn matching(&self, route: u8) -> Seq<PendingTxEntry> {
        on_route(self@.take(min(self@.len() as int, SEARCH_DEPTH as int)), route)
    }

    /// Find transactions that target a DEX route: the first ones, as many as
    /// `output` holds, are put there. Gives their number.
    pub fn find_by_dex_route(&self, route: u8, output: &mut [PendingTxEntry; 8]) -> (r: usize)
        requires
            self.wf(),
        ensures
            r == min(self.matching(route).len() as int, SEARCH_HITS as int),
            forall|i: int| 0 <= i < r ==> final(output)@[i] == self.matching(route)[i],
            forall|i: int| r <= i < SEARCH_HITS ==> final(output)@[i] == old(output)@[i],
    {
        let depth: u64 = if self.count < SEARCH_DEPTH as u64 {
            self.count
        } else {
            SEARCH_DEPTH as u64
        };
        let ghost seen = self@.take(depth as int);
        let mut found: usize = 0;
        let mut i: u64 = 0;
        while i < depth
            invariant
                self.wf(),
                i <= depth <= self.count,
                depth <= SEARCH_DEPTH,
                seen == self@.take(depth as int),
                found == min(on_route(seen.take(i as int), route).len() as int, SEARCH_HITS as int),
                forall|k: int|
                    0 <= k < found ==> output@[k] == on_route(seen.take(i as int), route)[k],
                forall|k: int| found <= k < SEARCH_HITS ==> output@[k] == old(output)@[k],
            decreases depth - i,
        {
            let idx: usize = ((self.tail + i) % 256) as usize;
            let entry = self.entries[idx];
            assert(seen[i as int] == entry);
            assert(seen.take(i + 1).drop_last() =~= seen.take(i as int));
            if entry.dex_route == route && found < SEARCH_HITS {
                output[found] = entry;
                found = found + 1;
            }
            i = i + 1;
        }
        assert(seen.take(depth as int) =~= seen);
        found
    }

    /// Number of entries that wait.
    pub fn occupancy(&self) -> (r: u64)
        requires
            self.wf(),
        ensures
            r == self@.len(),
    {
        self.count
    }

    /// Drop all entries.
    pub fn clear(&mut self)
        requires
            old(self).wf(),
        ensures
            final(self).wf(),
            final(self)@ == Seq::<PendingTxEntry>::empty(),
            final(self).head == old(self).head,
    {
        self.tail = self.head;
        self.count = 0;
        assert(self@ =~= Seq::<PendingTxEntry>::empty());
    }
}

impl MempoolMonitor {
    /// Whether a gas price is above the threshold.
    pub open spec fn high_gas(&self, gas_price: i64) -> bool {
        gas_price > self.high_gas_threshold as i64
    }

    /// Sandwich pattern: a high gas price, and two or more pending transactions
    /// on the same route.
    pub open spec fn sandwiched(&self, tx: PendingTxEntry, buffer: PendingTxBuffer) -> bool {
        self.high_gas(tx.gas_price) && buffer.matching(tx.dex_route).len() >= 2
    }

    /// Analyze a pending transaction for the sandwich pattern, and note it.
    pub fn analyze_for_sandwich(&mut self, tx: &PendingTxEntry, buffer: &PendingTxBuffer) -> (r: bool)
        requires
            buffer.wf(),
        ensures
            r == old(self).sandwiched(*tx, *buffer),
            *final(self) == if r {
                MempoolMonitor {
                    sandwich_detected: true,
                    suspicious_tx_hash: tx.tx_hash,
                    ..*old(self)
                }
            } else {
                *old(self)
            },
    {
        let high_gas = tx.gas_price > cast_i64(self.high_gas_threshold);
        let mut same_dex_txs = [PendingTxEntry::default();8];
        let count: usize = buffer.find_by_dex_route(tx.dex_route, &mut same_dex_txs);
        let is_sandwich = high_gas && count >= 2;
        if is_sandwich {
            self.sandwich_detected = true;
            self.suspicious_tx_hash = tx.tx_hash;
        }
        is_sandwich
    }

    /// Risk score: 30 for a high gas price, 40 for a price that is large against
    /// the liquidity of the route, 20 for a swap, 10 after a detected sandwich.
    pub open spec fn risk(&self, tx: PendingTxEntry, liquidity: i64) -> int {
        (if self.high_gas(tx.gas_price) {
            30int
        } else {
            0
        }) + (if liquidity > 0 && tx.gas_price > 0 && (tx.gas_price * 1000) / (liquidity as int) > 10 {
            40int
        } else {
            0
        }) + (if tx.is_swap != 0 {
            20int
        } else {
            0
        }) + (if self.sandwich_detected {
            10int
        } else {
            0
        })
    }

    /// Risk score of a transaction.
    pub fn calc_risk_score(&self, tx: &PendingTxEntry, route_tracker: &DexRouteTracker) -> (r: u8)
        requires
            tx.dex_route < MAX_DEX_ROUTES,
            route_tracker.liquidity@[tx.dex_route as int] > 0 && tx.gas_price > 0 ==> fits_i64(
                tx.gas_price * 1000,
            ),
        ensures
            r == self.risk(*tx, route_tracker.liquidity@[tx.dex_route as int]),
            r <= 100,
    {
        let mut score: u8 = 0;
        if tx.gas_price > cast_i64(self.high_gas_threshold) {
            score = score + 30;
        }
        let route_liq: i64 = route_tracker.liquidity[tx.dex_route as usize];
        if route_liq > 0 && tx.gas_price > 0 {
            let ratio: i64 = (tx.gas_price * 1000) / route_liq;
            if ratio > 10 {
                score = score + 40;
            }
        }
        if tx.is_swap != 0 {
            score = score + 20;
        }
        if self.sandwich_detected {
            score = score + 10;
        }
        score
    }

    /// Set the high gas threshold.
    pub fn set_gas_threshold(&mut self, threshold_wei: u64)
        ensures
            *final(self) == (MempoolMonitor { high_gas_threshold: threshold_wei, ..*old(self) }),
    {
        self.high_gas_threshold = threshold_wei;
    }

    /// Check if a sandwich attack was detected.
    pub fn is_sandwich_detected(&self) -> (r: bool)
        ensures
            r == self.sandwich_detected,
    {
        self.sandwich_detected
    }

    /// Reset the sandwich detection flag.
    pub fn reset_sandwich_flag(&mut self)
        ensures
            *final(self) == (MempoolMonitor { sandwich_detected: false, ..*old(self) }),
    {
        self.sandwich_detected = false;
    }

    /// Hash of the last suspicious transaction.
    pub fn get_suspicious_tx_hash(&self) -> (r: u64)
        ensures
            r == self.suspicious_tx_hash,
    {
        self.suspicious_tx_hash
    }

    /// Gas price check of up to four prices: bit `i` of the mask tells whether
    /// price `i` is above the threshold.
    pub fn simd_check_high_gas<const N: usize>(&self, gas_prices: &[i64; N]) -> (r: u32)
        requires
            N <= 4,
        ensures
            r == bit_mask(Seq::new(N as nat, |i: int| self.high_gas(gas_prices@[i]))),
    {
        let threshold: i64 = cast_i64(self.high_gas_threshold);
        let mut flags = [false;N];
        let mut i: usize = 0;
        while i < N
            invariant
                i <= N,
                threshold == self.high_gas_threshold as i64,
                forall|k: int| 0 <= k < i ==> flags@[k] == self.high_gas(gas_prices@[k]),
            decreases N - i,
        {
            flags[i] = gas_prices[i] > threshold;
            i = i + 1;
        }
        assert(flags@ =~= Seq::new(N as nat, |i: int| self.high_gas(gas_prices@[i])));
        pack_flags(&flags)
    }
}

/// Each ground for suspicion adds to the risk and none lowers it: a swap is
/// never less risky than the same transaction that is no swap, nor is the risk
/// lower after a detected sandwich.
pub proof fn lemma_risk_grows(m: MempoolMonitor, tx: PendingTxEntry, liquidity: i64)
    ensures
        0 <= m.risk(tx, liquidity) <= 100,
        m.risk((PendingTxEntry { is_swap: 0, ..tx }), liquidity) <= m.risk(tx, liquidity),
        (MempoolMonitor { sandwich_detected: false, ..m }).risk(tx, liquidity) <= m.risk(
            tx,
            liquidity,
        ),
{
}

/// Extractable amount of a trade: half of what the price impact moves.
pub open spec fn extractable(trade_size: int, price_impact_bp: int) -> int {
    max(tdiv(trade_size * price_impact_bp, 20_000), 0)
}

impl DexRouteTracker {
    /// Start tracking a route. An unknown route changes nothing.
    pub fn init_route(&mut self, route_id: usize, liquidity: i64)
        ensures
            route_id >= MAX_DEX_ROUTES ==> *final(self) == *old(self),
            route_id < MAX_DEX_ROUTES ==> {
                &&& final(self).liquidity@ == old(self).liquidity@.update(route_id as int, liquidity)
                &&& final(self).mev_extractable@ == old(self).mev_extractable@.update(
                    route_id as int,
                    0,
                )
                &&& final(self).last_trade_size == old(self).last_trade_size
                &&& final(self).price_impact_bp == old(self).price_impact_bp
            },
    {
        if route_id >= MAX_DEX_ROUTES {
            return ;
        }
        self.liquidity[route_id] = liquidity;
        self.mev_extractable[route_id] = 0;
    }

    /// Update a route after a trade. An unknown route changes nothing.
    pub fn update_after_trade(&mut self, route_id: usize, trade_size: i64, price_impact_bp: i64)
        requires
            route_id < MAX_DEX_ROUTES ==> fits_i64(trade_size * price_impact_bp),
        ensures
            route_id >= MAX_DEX_ROUTES ==> *final(self) == *old(self),
            route_id < MAX_DEX_ROUTES ==> {
                let i = route_id as int;
                &&& final(self).last_trade_size@ == old(self).last_trade_size@.update(i, trade_size)
                &&& final(self).price_impact_bp@ == old(self).price_impact_bp@.update(
                    i,
                    price_impact_bp,
                )
                &&& final(self).mev_extractable@ == old(self).mev_extractable@.update(
                    i,
                    extractable(trade_size as int, price_impact_bp as int) as i64,
                )
                &&& final(self).mev_extractable@[i] == extractable(
                    trade_size as int,
                    price_impact_bp as int,
                )
                &&& final(self).liquidity == old(self).liquidity
            },
    {
        if route_id >= MAX_DEX_ROUTES {
            return ;
        }
        self.last_trade_size[route_id] = trade_size;
        self.price_impact_bp[route_id] = price_impact_bp;
        let mev: i64 = div_i64(trade_size * price_impact_bp, 20_000);
        self.mev_extractable[route_id] = if mev > 0 {
            mev
        } else {
            0
        };
    }

    /// Extractable amount of a route; zero for an unknown route.
    pub fn get_mev_extractable(&self, route_id: usize) -> (r: i64)
        ensures
            r == if route_id < MAX_DEX_ROUTES {
                self.mev_extractable@[route_id as int]
            } else {
                0
            },
    {
        if route_id >= MAX_DEX_ROUTES {
            return 0;
        }
        self.mev_extractable[route_id]
    }

    /// First route with the largest extractable amount above zero, and the amount.
    pub fn get_best_mev_route(&self) -> (r: Option<(usize, i64)>)
        ensures
            is_best(
                self.mev_extractable@,
                0,
                match r {
                    Some((idx, _)) => Some(idx),
                    None => None,
                },
            ),
            match r {
                Some((idx, amount)) => amount == self.mev_extractable@[idx as int],
                None => true,
            },
    {
        match best_above(&self.mev_extractable, 0) {
            Some(idx) => Some((idx, self.mev_extractable[idx])),
            None => None,
        }
    }

    /// Total extractable amount across all routes.
    pub fn total_mev_extractable(&self) -> (r: i64)
        requires
            fits_i64(seq_sum(self.mev_extractable@)),
        ensures
            r == seq_sum(self.mev_extractable@),
    {
        sum_wide(&self.mev_extractable) as i64
    }
}

/// The transactions on a route are those of the run that name it, in their order: one
/// more in the run is one more on its own route, and changes no other.
pub proof fn lemma_on_route_keeps_order(s: Seq<PendingTxEntry>, e: PendingTxEntry, route: u8)
    ensures
        on_route(Seq::<PendingTxEntry>::empty(), route) == Seq::<PendingTxEntry>::empty(),
        e.dex_route == route ==> on_route(s.push(e), route) == on_route(s, route).push(e),
        e.dex_route != route ==> on_route(s.push(e), route) == on_route(s, route),
{
    assert(s.push(e).drop_last() =~= s);
}

/// Gas is high above the threshold.
pub proof fn lemma_high_gas(m: MempoolMonitor, gas_price: i64)
    requires
        m.high_gas_threshold <= i64::MAX,
    ensures
        m.high_gas(gas_price) == (gas_price > m.high_gas_threshold),
{
}

/// What each sign adds to the risk: thirty for high gas, forty for a gas price that is
/// more than eleven thousandths of the liquidity, twenty for a swap, and ten while a
/// sandwich is known.
pub proof fn lemma_risk_signs(m: MempoolMonitor, tx: PendingTxEntry, liquidity: i64)
    requires
        m.high_gas_threshold <= i64::MAX,
    ensures
        ({
            let base = MempoolMonitor { sandwich_detected: false, ..m };
            let plain = PendingTxEntry { is_swap: 0, ..tx };
            &&& tx.is_swap != 0 ==> m.risk(tx, liquidity) == m.risk(plain, liquidity) + 20
            &&& m.sandwich_detected ==> m.risk(tx, liquidity) == base.risk(tx, liquidity) + 10
            &&& base.risk(plain, liquidity) == (if tx.gas_price > m.high_gas_threshold {
                30int
            } else {
                0
            }) + (if liquidity > 0 && tx.gas_price > 0 && tx.gas_price * 1000 >= 11 * liquidity {
                40int
            } else {
                0
            })
        }),
{
    if liquidity > 0 && tx.gas_price > 0 {
        let (x, l) = (tx.gas_price * 1000, liquidity as int);
        let q = x / l;
        assert((q > 10) == (x >= 11 * l)) by (nonlinear_arith)
            requires
                q == x / l,
                l > 0,
        ;
    }
}

/// What can be extracted from a trade is half of its price impact, in basis points of its
/// size and rounded down, and never negative.
pub proof fn lemma_extractable_is_half_impact(trade_size: int, price_impact_bp: int)
    ensures
        ({
            let x = trade_size * price_impact_bp;
            let e = extractable(trade_size, price_impact_bp);
            &&& x >= 0 ==> e * 20_000 <= x < (e + 1) * 20_000
            &&& x <= 0 ==> e == 0
        }),
{
    let x = trade_size * price_impact_bp;
    lemma_tdiv_rounds(x, 20_000);
}

/// The selectors of the swap functions.
pub proof fn lemma_swap_selectors(selector: u32)
    ensures
        is_swap_selector(selector) <==> selector == 0x38ed1739 || selector == 0x8803dbee || selector
            == 0x7ff36ab5 || selector == 0x18cbafe5,
{
}

/// A sandwich is suspected exactly where the gas is high and two transactions or more of
/// the oldest sixty-four are on the route.
pub proof fn lemma_sandwich_when(m: MempoolMonitor, tx: PendingTxEntry, buffer: PendingTxBuffer)
    requires
        m.high_gas_threshold <= i64::MAX,
        buffer@.len() <= 64,
    ensures
        m.sandwiched(tx, buffer) <==> tx.gas_price > m.high_gas_threshold && on_route(
            buffer@,
            tx.dex_route,
        ).len() >= 2,
{
    assert(buffer@.take(buffer@.len() as int) =~= buffer@);
}

} // verus!
