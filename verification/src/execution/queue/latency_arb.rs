//! Latency arbitrage detector to pull passive quotes: cross-venue price
//! discrepancies and quote latencies.

use vstd::prelude::*;
use crate::fixed::{abs, abs_i64, div_i128, lemma_tdiv_bound, lemma_tdiv_rounds, max, min, tdiv};

verus! {

broadcast use vstd::array::group_array_axioms;

/// Number of venues tracked.
pub const MAX_VENUES: usize = 16;

/// Latency threshold in cycles (approximately 1 microsecond).
pub const LATENCY_THRESHOLD_CYCLES: u64 = 3000;

/// Lifetime of an opportunity in cycles.
pub const OPPORTUNITY_CYCLES: u64 = 30_000;

/// Venue state.
#[derive(Debug, Clone, Copy)]
pub struct VenueState {
    /// Venue ID.
    pub venue_id: u32,
    /// Best bid (fixed-point).
    pub best_bid: i64,
    /// Best ask (fixed-point).
    pub best_ask: i64,
    /// Time of the last update.
    pub last_update_cycles: u64,
    /// Measured latency in microseconds.
    pub latency_us: u32,
    /// Is this quote stale.
    pub is_stale: bool,
    /// Fills the cache line.
    pub padding: [u8; 31],
}

impl VenueState {
    /// Venue that has not quoted.
    pub open spec fn spec_default() -> Self {
        VenueState {
            venue_id: 0,
            best_bid: 0,
            best_ask: 0,
            last_update_cycles: 0,
            latency_us: 0,
            is_stale: false,
            padding: vstd::array::spec_array_fill_for_copy_type::<u8, 31>(0u8),
        }
    }

    /// Whether the venue has quoted.
    pub open spec fn quoted(self) -> bool {
        self.best_bid != 0 || self.best_ask != 0
    }
}

impl Default for VenueState {
    fn default() -> (r: Self)
        ensures
            r == VenueState::spec_default(),
    {
        VenueState {
            venue_id: 0,
            best_bid: 0,
            best_ask: 0,
            last_update_cycles: 0,
            latency_us: 0,
            is_stale: false,
            padding: [0u8;31],
        }
    }
}

/// Arbitrage opportunity.
#[derive(Debug, Clone, Copy)]
pub struct ArbOpportunity {
    /// Venue to buy at: the one whose bid is above the ask of the other.
    pub buy_venue: u32,
    /// Venue to sell at: the one whose ask is below the bid of the other.
    pub sell_venue: u32,
    /// Expected profit in basis points.
    pub profit_bps: i64,
    /// Available size.
    pub size: i64,
    /// Detection timestamp.
    pub detected_cycles: u64,
    /// When the opportunity expires.
    pub expires_cycles: u64,
    /// Whether there is an opportunity.
    pub is_valid: bool,
    /// Fills the cache line.
    pub padding: [u8; 23],
}

impl ArbOpportunity {
    /// No opportunity.
    pub open spec fn spec_default() -> Self {
        ArbOpportunity {
            buy_venue: 0,
            sell_venue: 0,
            profit_bps: 0,
            size: 0,
            detected_cycles: 0,
            expires_cycles: 0,
            is_valid: false,
            padding: vstd::array::spec_array_fill_for_copy_type::<u8, 23>(0u8),
        }
    }
}

impl Default for ArbOpportunity {
    fn default() -> (r: Self)
        ensures
            r == ArbOpportunity::spec_default(),
    {
        ArbOpportunity {
            buy_venue: 0,
            sell_venue: 0,
            profit_bps: 0,
            size: 0,
            detected_cycles: 0,
            expires_cycles: 0,
            is_valid: false,
            padding: [0u8;23],
        }
    }
}

/// Best bid among the venues that have quoted, and its venue.
pub open spec fn best_bid(s: Seq<VenueState>) -> (int, int)
    decreases s.len(),
{
    if s.len() == 0 {
        (i64::MIN as int, 0)
    } else {
        let p = best_bid(s.drop_last());
        if s.last().quoted() && s.last().best_bid > p.0 {
            (s.last().best_bid as int, s.len() - 1)
        } else {
            p
        }
    }
}

/// Best ask among the venues that have quoted, and its venue.
pub open spec fn best_ask(s: Seq<VenueState>) -> (int, int)
    decreases s.len(),
{
    if s.len() == 0 {
        (i64::MAX as int, 0)
    } else {
        let p = best_ask(s.drop_last());
        if s.last().quoted() && s.last().best_ask < p.0 {
            (s.last().best_ask as int, s.len() - 1)
        } else {
            p
        }
    }
}

/// No venue that has quoted bids more than the best bid or asks less than the
/// best ask.
pub proof fn lemma_best_is_best(s: Seq<VenueState>, i: int)
    requires
        0 <= i < s.len(),
        s[i].quoted(),
    ensures
        s[i].best_bid <= best_bid(s).0,
        s[i].best_ask >= best_ask(s).0,
    decreases s.len(),
{
    if i < s.len() - 1 {
        lemma_best_is_best(s.drop_last(), i);
    }
}

/// Profit of trading the bid of one venue against the ask of another.
pub open spec fn gain(a: VenueState, b: VenueState) -> int {
    a.best_bid - b.best_ask
}

/// Whether two venues, in this order, make an opportunity.
pub open spec fn is_opportunity(s: Seq<VenueState>, i: int, j: int) -> bool {
    &&& 0 <= i < j < s.len()
    &&& !s[i].is_stale
    &&& !s[j].is_stale
    &&& max(gain(s[i], s[j]), gain(s[j], s[i])) > 0
}

/// The opportunity that two venues make at time `now`.
pub open spec fn opportunity(a: VenueState, b: VenueState, now: u64) -> ArbOpportunity {
    let forward = gain(a, b) >= gain(b, a);
    ArbOpportunity {
        buy_venue: if forward {
            a.venue_id
        } else {
            b.venue_id
        },
        sell_venue: if forward {
            b.venue_id
        } else {
            a.venue_id
        },
        profit_bps: tdiv(
            max(gain(a, b), gain(b, a)) * 10_000,
            max(abs(a.best_bid as int), 1),
        ) as i64,
        size: abs(min(a.best_bid as int, b.best_ask as int)) as i64,
        detected_cycles: now,
        expires_cycles: (now + OPPORTUNITY_CYCLES) as u64,
        is_valid: true,
        ..ArbOpportunity::spec_default()
    }
}

/// The pair `(i, j)` comes before `(k, l)` or is the same.
pub open spec fn not_after(i: int, j: int, k: int, l: int) -> bool {
    i < k || i == k && j <= l
}

/// What a detection finds: the opportunity of the last pair of venues that makes
/// one, pairs being ordered by their first and then by their second venue.
pub open spec fn found(s: Seq<VenueState>, now: u64, r: Option<ArbOpportunity>) -> bool {
    match r {
        Some(opp) => exists|i: int, j: int|
            #![trigger is_opportunity(s, i, j)]
            is_opportunity(s, i, j) && opp == opportunity(s[i], s[j], now) && forall|k: int, l: int|
                #[trigger] is_opportunity(s, k, l) ==> not_after(k, l, i, j),
        None => forall|k: int, l: int| !#[trigger] is_opportunity(s, k, l),
    }
}

/// Latency arbitrage detector.
#[derive(Debug)]
pub struct LatencyArbDetector {
    /// State of each venue.
    pub venues: [VenueState; 16],
    /// Best bid across venues.
    pub global_best_bid: i64,
    /// Best ask across venues.
    pub global_best_ask: i64,
    /// Venue of the best bid.
    pub global_bid_venue: u64,
    /// Venue of the best ask.
    pub global_ask_venue: u64,
    /// Latest detected opportunity.
    pub current_opportunity: ArbOpportunity,
    /// Opportunities detected.
    pub opportunities_detected: u64,
    /// Opportunities found expired.
    pub opportunities_expired: u64,
    /// Sum of profits.
    pub total_profit_bps: i64,
    /// Average time between updates.
    pub avg_latency_cycles: u64,
    /// Longest time between updates.
    pub max_latency_cycles: u64,
    /// Samples of the average.
    pub latency_samples: u64,
    /// Whether detection is on.
    pub arb_enabled: bool,
    /// Set if toxic flow was detected.
    pub toxicity_flag: bool,
    /// Fills the cache line.
    pub padding: [u8; 46],
}

impl LatencyArbDetector {
    /// Detector without quotes.
    pub fn new() -> (r: Self)
        ensures
            forall|i: int| 0 <= i < MAX_VENUES ==> r.venues@[i] == VenueState::spec_default(),
            r.global_best_bid == 0,
            r.global_best_ask == 0,
            r.global_bid_venue == 0,
            r.global_ask_venue == 0,
            r.current_opportunity == ArbOpportunity::spec_default(),
            r.opportunities_detected == 0,
            r.opportunities_expired == 0,
            r.total_profit_bps == 0,
            r.avg_latency_cycles == 0,
            r.max_latency_cycles == 0,
            r.latency_samples == 0,
            r.arb_enabled,
            !r.toxicity_flag,
    {
        LatencyArbDetector {
            venues: [VenueState::default();16],
            global_best_bid: 0,
            global_best_ask: 0,
            global_bid_venue: 0,
            global_ask_venue: 0,
            current_opportunity: ArbOpportunity::default(),
            opportunities_detected: 0,
            opportunities_expired: 0,
            total_profit_bps: 0,
            avg_latency_cycles: 0,
            max_latency_cycles: 0,
            latency_samples: 0,
            arb_enabled: true,
            toxicity_flag: false,
            padding: [0u8;46],
        }
    }

    /// The global bests are those of the venues.
    pub open spec fn bests_current(&self) -> bool {
        &&& self.global_best_bid == best_bid(self.venues@).0
        &&& self.global_bid_venue == best_bid(self.venues@).1
        &&& self.global_best_ask == best_ask(self.venues@).0
        &&& self.global_ask_venue == best_ask(self.venues@).1
    }

    /// Update the quote of a venue at time `now`; the time since its last update
    /// is its latency. An unknown venue changes nothing.
    pub fn update_venue(&mut self, venue_idx: usize, bid: i64, ask: i64, venue_id: u32, now: u64)
        requires
            venue_idx < MAX_VENUES ==> old(self).latency_samples < u64::MAX,
        ensures
            venue_idx >= MAX_VENUES ==> *final(self) == *old(self),
            venue_idx < MAX_VENUES ==> {
                let v = old(self).venues@[venue_idx as int];
                let latency = now.wrapping_sub(v.last_update_cycles);
                let n = old(self).latency_samples;
                &&& final(self).venues@ == old(self).venues@.update(
                    venue_idx as int,
                    VenueState {
                        venue_id,
                        best_bid: bid,
                        best_ask: ask,
                        last_update_cycles: now,
                        latency_us: min(latency as int / 3000, u32::MAX as int) as u32,
                        is_stale: false,
                        ..v
                    },
                )
                &&& final(self).bests_current()
                &&& final(self).avg_latency_cycles == (old(self).avg_latency_cycles * n + latency)
                    / (n + 1)
                &&& final(self).max_latency_cycles == max(
                    old(self).max_latency_cycles as int,
                    latency as int,
                )
                &&& final(self).latency_samples == n + 1
                &&& *final(self) == (LatencyArbDetector {
                    venues: final(self).venues,
                    global_best_bid: final(self).global_best_bid,
                    global_best_ask: final(self).global_best_ask,
                    global_bid_venue: final(self).global_bid_venue,
                    global_ask_venue: final(self).global_ask_venue,
                    avg_latency_cycles: final(self).avg_latency_cycles,
                    max_latency_cycles: final(self).max_latency_cycles,
                    latency_samples: final(self).latency_samples,
                    ..*old(self)
                })
            },
    {
        if venue_idx >= MAX_VENUES {
            return ;
        }
        let mut venue = self.venues[venue_idx];
        let latency: u64 = now.wrapping_sub(venue.last_update_cycles);
        venue.venue_id = venue_id;
        venue.best_bid = bid;
        venue.best_ask = ask;
        venue.last_update_cycles = now;
        venue.is_stale = false;
        venue.latency_us = if latency / 3000 < u32::MAX as u64 {
            (latency / 3000) as u32
        } else {
            u32::MAX
        };
        self.venues[venue_idx] = venue;
        let samples: u64 = self.latency_samples;
        let avg: u64 = self.avg_latency_cycles;
        proof {
            let n = samples as int;
            let a = avg as int;
            assert(0 <= a * n <= 0xffff_ffff_ffff_ffff * 0xffff_ffff_ffff_ffff) by (nonlinear_arith)
                requires
                    0 <= a <= 0xffff_ffff_ffff_ffff,
                    0 <= n <= 0xffff_ffff_ffff_ffff,
            ;
            let l = latency as int;
            assert((a * n + l) / (n + 1) <= 0xffff_ffff_ffff_ffff) by (nonlinear_arith)
                requires
                    0 <= a <= 0xffff_ffff_ffff_ffff,
                    0 <= n,
                    0 <= l <= 0xffff_ffff_ffff_ffff,
            ;
        }
        let total: u128 = avg as u128 * samples as u128 + latency as u128;
        self.avg_latency_cycles = (total / (samples as u128 + 1)) as u64;
        if latency > self.max_latency_cycles {
            self.max_latency_cycles = latency;
        }
        self.latency_samples = samples + 1;
        self.update_global_bests();
    }

    /// Update the best bid and ask across venues.
    fn update_global_bests(&mut self)
        ensures
            final(self).bests_current(),
            *final(self) == (LatencyArbDetector {
                global_best_bid: final(self).global_best_bid,
                global_best_ask: final(self).global_best_ask,
                global_bid_venue: final(self).global_bid_venue,
                global_ask_venue: final(self).global_ask_venue,
                ..*old(self)
            }),
    {
        let ghost all = self.venues@;
        let mut bid: i64 = i64::MIN;
        let mut ask: i64 = i64::MAX;
        let mut bid_venue: u64 = 0;
        let mut ask_venue: u64 = 0;
        let mut i: usize = 0;
        while i < MAX_VENUES
            invariant
                i <= MAX_VENUES,
                all == self.venues@,
                *self == *old(self),
                bid == best_bid(all.take(i as int)).0,
                bid_venue == best_bid(all.take(i as int)).1,
                ask == best_ask(all.take(i as int)).0,
                ask_venue == best_ask(all.take(i as int)).1,
            decreases MAX_VENUES - i,
        {
            assert(all.take(i + 1).drop_last() =~= all.take(i as int));
            let venue = self.venues[i];
            let quoted = venue.best_bid != 0 || venue.best_ask != 0;
            if quoted && venue.best_bid > bid {
                bid = venue.best_bid;
                bid_venue = i as u64;
            }
            if quoted && venue.best_ask < ask {
                ask = venue.best_ask;
                ask_venue = i as u64;
            }
            i = i + 1;
        }
        assert(all.take(MAX_VENUES as int) =~= all);
        self.global_best_bid = bid;
        self.global_best_ask = ask;
        self.global_bid_venue = bid_venue;
        self.global_ask_venue = ask_venue;
    }

    /// Whether detection may run.
    pub open spec fn armed(&self) -> bool {
        self.arb_enabled && !self.toxicity_flag
    }

    /// Detect arbitrage opportunities at time `now`. One that is found is noted.
    pub fn detect_arbitrage(&mut self, now: u64) -> (r: Option<ArbOpportunity>)
        requires
            old(self).armed() ==> {
                &&& now + OPPORTUNITY_CYCLES <= u64::MAX
                &&& forall|i: int|
                    0 <= i < MAX_VENUES ==> (#[trigger] old(self).venues@[i]).best_bid > i64::MIN
                        && old(self).venues@[i].best_ask > i64::MIN
            },
        ensures
            !old(self).armed() ==> r is None,
            old(self).armed() ==> found(old(self).venues@, now, r),
            *final(self) == match r {
                Some(opp) => LatencyArbDetector {
                    current_opportunity: opp,
                    opportunities_detected: old(self).opportunities_detected.wrapping_add(1),
                    total_profit_bps: old(self).total_profit_bps.wrapping_add(opp.profit_bps),
                    ..*old(self)
                },
                None => *old(self),
            },
    {
        if !self.arb_enabled || self.toxicity_flag {
            return None;
        }
        let ghost s = self.venues@;
        let mut best: Option<ArbOpportunity> = None;
        let ghost mut at: (int, int) = (0, 0);
        let mut i: usize = 0;
        while i < MAX_VENUES
            invariant
                i <= MAX_VENUES,
                *self == *old(self),
                s == self.venues@,
                now + OPPORTUNITY_CYCLES <= u64::MAX,
                forall|k: int|
                    0 <= k < MAX_VENUES ==> (#[trigger] s[k]).best_bid > i64::MIN && s[k].best_ask
                        > i64::MIN,
                best is Some ==> is_opportunity(s, at.0, at.1) && at.0 < i && best->0 == opportunity(
                    s[at.0],
                    s[at.1],
                    now,
                ),
                forall|k: int, l: int| #[trigger]
                    is_opportunity(s, k, l) && k < i ==> best is Some && not_after(
                        k,
                        l,
                        at.0,
                        at.1,
                    ),
            decreases MAX_VENUES - i,
        {
            let mut j: usize = i + 1;
            while j < MAX_VENUES
                invariant
                    i < j <= MAX_VENUES,
                    *self == *old(self),
                    s == self.venues@,
                    now + OPPORTUNITY_CYCLES <= u64::MAX,
                    forall|k: int|
                        0 <= k < MAX_VENUES ==> (#[trigger] s[k]).best_bid > i64::MIN
                            && s[k].best_ask > i64::MIN,
                    best is Some ==> is_opportunity(s, at.0, at.1) && not_after(
                        at.0,
                        at.1,
                        i as int,
                        j - 1,
                    ) && best->0 == opportunity(s[at.0], s[at.1], now),
                    forall|k: int, l: int| #[trigger]
                        is_opportunity(s, k, l) && (k < i || k == i && l < j) ==> best is Some
                            && not_after(k, l, at.0, at.1),
                decreases MAX_VENUES - j,
            {
                let a = self.venues[i];
                let b = self.venues[j];
                assert(s[i as int].best_bid > i64::MIN && s[j as int].best_bid > i64::MIN);
                if !a.is_stale && !b.is_stale {
                    let ab: i128 = a.best_bid as i128 - b.best_ask as i128;
                    let ba: i128 = b.best_bid as i128 - a.best_ask as i128;
                    let top: i128 = if ab >= ba {
                        ab
                    } else {
                        ba
                    };
                    if top > 0 {
                        let mut opp = ArbOpportunity::default();
                        opp.buy_venue = if ab >= ba {
                            a.venue_id
                        } else {
                            b.venue_id
                        };
                        opp.sell_venue = if ab >= ba {
                            b.venue_id
                        } else {
                            a.venue_id
                        };
                        let size: i64 = abs_i64(a.best_bid);
                        let base: i128 = if size > 1 {
                            size as i128
                        } else {
                            1
                        };
                        opp.profit_bps = div_i128(top * 10_000, base) as i64;
                        let low: i64 = if a.best_bid < b.best_ask {
                            a.best_bid
                        } else {
                            b.best_ask
                        };
                        opp.size = abs_i64(low);
                        opp.detected_cycles = now;
                        opp.expires_cycles = now + OPPORTUNITY_CYCLES;
                        opp.is_valid = true;
                        best = Some(opp);
                        proof {
                            at = (i as int, j as int);
                            assert(is_opportunity(s, i as int, j as int));
                        }
                    }
                }
                j = j + 1;
            }
            i = i + 1;
        }
        if let Some(opp) = best {
            self.current_opportunity = opp;
            self.opportunities_detected = self.opportunities_detected.wrapping_add(1);
            self.total_profit_bps = self.total_profit_bps.wrapping_add(opp.profit_bps);
            return Some(opp);
        }
        None
    }

    /// Check at time `now` if the current opportunity has expired; without one,
    /// it has.
    pub fn check_expiry(&mut self, now: u64) -> (r: bool)
        ensures
            r == (!old(self).current_opportunity.is_valid || now > old(self).current_opportunity.expires_cycles),
            *final(self) == if old(self).current_opportunity.is_valid && r {
                LatencyArbDetector {
                    opportunities_expired: old(self).opportunities_expired.wrapping_add(1),
                    ..*old(self)
                }
            } else {
                *old(self)
            },
    {
        if !self.current_opportunity.is_valid {
            return true;
        }
        let expired = now > self.current_opportunity.expires_cycles;
        if expired {
            self.opportunities_expired = self.opportunities_expired.wrapping_add(1);
        }
        expired
    }

    /// Judge at time `now` whether the quote of a venue is too old. An unknown
    /// venue changes nothing.
    pub fn mark_stale(&mut self, venue_idx: usize, staleness_threshold_cycles: u64, now: u64)
        ensures
            venue_idx >= MAX_VENUES ==> *final(self) == *old(self),
            venue_idx < MAX_VENUES ==> {
                let v = old(self).venues@[venue_idx as int];
                &&& final(self).venues@ == old(self).venues@.update(
                    venue_idx as int,
                    VenueState {
                        is_stale: now.wrapping_sub(v.last_update_cycles)
                            > staleness_threshold_cycles,
                        ..v
                    },
                )
                &&& *final(self) == (LatencyArbDetector {
                    venues: final(self).venues,
                    ..*old(self)
                })
            },
    {
        if venue_idx >= MAX_VENUES {
            return ;
        }
        let mut venue = self.venues[venue_idx];
        venue.is_stale = now.wrapping_sub(venue.last_update_cycles) > staleness_threshold_cycles;
        self.venues[venue_idx] = venue;
    }

    /// Whether to pull a quote: it is stale, or its venue is the one to sell at in
    /// the current opportunity.
    pub fn should_pull_quote(&self, venue_idx: usize) -> (r: bool)
        ensures
            r == (venue_idx < MAX_VENUES && (self.venues@[venue_idx as int].is_stale || (
            self.current_opportunity.is_valid && self.venues@[venue_idx as int].venue_id
                == self.current_opportunity.sell_venue))),
    {
        if venue_idx >= MAX_VENUES {
            return false;
        }
        let venue = self.venues[venue_idx];
        if venue.is_stale {
            return true;
        }
        if self.current_opportunity.is_valid {
            return venue.venue_id == self.current_opportunity.sell_venue;
        }
        false
    }

    /// Enable or disable detection.
    pub fn set_enabled(&mut self, enabled: bool)
        ensures
            *final(self) == (LatencyArbDetector { arb_enabled: enabled, ..*old(self) }),
    {
        self.arb_enabled = enabled;
    }

    /// Mark the flow as toxic: detection stops.
    pub fn mark_toxic(&mut self)
        ensures
            *final(self) == (LatencyArbDetector { toxicity_flag: true, ..*old(self) }),
    {
        self.toxicity_flag = true;
    }

    /// Opportunities detected and expired, and the sum of profits.
    pub fn stats(&self) -> (r: (u64, u64, i64))
        ensures
            r == (self.opportunities_detected, self.opportunities_expired, self.total_profit_bps),
    {
        (self.opportunities_detected, self.opportunities_expired, self.total_profit_bps)
    }
}

/// Two venues make an opportunity exactly where neither is stale and the bid of one is
/// above the ask of the other.
pub proof fn lemma_opportunity_when_crossed(s: Seq<VenueState>, i: int, j: int)
    requires
        0 <= i < j < s.len(),
    ensures
        is_opportunity(s, i, j) <==> !s[i].is_stale && !s[j].is_stale && (s[i].best_bid
            > s[j].best_ask || s[j].best_bid > s[i].best_ask),
{
}

/// An opportunity names first the venue whose bid is further above the ask of the other,
/// the first of the two if they are alike; its profit is that distance, in basis points of
/// the bid of the first venue and rounded down. It expires 30000 cycles after it was seen.
pub proof fn lemma_opportunity_value(a: VenueState, b: VenueState, now: u64)
    requires
        now + 30_000 <= u64::MAX,
        a.best_bid > 0,
        a.best_bid > b.best_ask || b.best_bid > a.best_ask,
        a.best_bid - b.best_ask <= 900_000_000_000_000,
        b.best_bid - a.best_ask <= 900_000_000_000_000,
    ensures
        ({
            let o = opportunity(a, b, now);
            let (x, y) = (a.best_bid - b.best_ask, b.best_bid - a.best_ask);
            &&& x >= y ==> o.buy_venue == a.venue_id && o.sell_venue == b.venue_id
                && o.profit_bps * a.best_bid <= x * 10_000 < (o.profit_bps + 1) * a.best_bid
            &&& y > x ==> o.buy_venue == b.venue_id && o.sell_venue == a.venue_id && o.profit_bps
                * a.best_bid <= y * 10_000 < (o.profit_bps + 1) * a.best_bid
            &&& o.is_valid
            &&& o.detected_cycles == now
            &&& o.expires_cycles == now + 30_000
        }),
{
    let (x, y) = (a.best_bid - b.best_ask, b.best_bid - a.best_ask);
    let g = max(x, y);
    let d = a.best_bid as int;
    lemma_tdiv_rounds(g * 10_000, d);
    lemma_tdiv_bound(g * 10_000, d);
    let q = tdiv(g * 10_000, d);
    assert((q + 1) * d == q * d + d) by (nonlinear_arith);
}

/// The best bid and the best ask are those of venues that have quoted.
pub proof fn lemma_best_is_quoted(s: Seq<VenueState>)
    ensures
        ({
            let (b, a) = (best_bid(s), best_ask(s));
            &&& b.0 > i64::MIN ==> 0 <= b.1 < s.len() && (s[b.1].best_bid != 0 || s[b.1].best_ask
                != 0) && s[b.1].best_bid == b.0
            &&& a.0 < i64::MAX ==> 0 <= a.1 < s.len() && (s[a.1].best_bid != 0 || s[a.1].best_ask
                != 0) && s[a.1].best_ask == a.0
        }),
    decreases s.len(),
{
    if s.len() > 0 {
        lemma_best_is_quoted(s.drop_last());
    }
}

/// Where no venue has quoted, the best bid is below and the best ask above any price.
pub proof fn lemma_nothing_quoted(s: Seq<VenueState>)
    requires
        forall|i: int| 0 <= i < s.len() ==> !(#[trigger] s[i]).quoted(),
    ensures
        best_bid(s) == (-0x8000_0000_0000_0000int, 0int),
        best_ask(s) == (0x7fff_ffff_ffff_ffffint, 0int),
    decreases s.len(),
{
    if s.len() > 0 {
        assert forall|i: int| 0 <= i < s.drop_last().len() implies !(
        #[trigger] s.drop_last()[i]).quoted() by {
            assert(!s[i].quoted());
        }
        lemma_nothing_quoted(s.drop_last());
        assert(!s[s.len() - 1].quoted());
    }
}
/// Of several pairs of venues that make an opportunity, the last is the one that is
/// found; where none does, nothing is.
pub proof fn lemma_last_pair_is_found(
    s: Seq<VenueState>,
    now: u64,
    r: Option<ArbOpportunity>,
    i: int,
    j: int,
)
    requires
        found(s, now, r),
    ensures
        is_opportunity(s, i, j) && (forall|k: int, l: int| #[trigger]
            is_opportunity(s, k, l) ==> k < i || k == i && l <= j) ==> r == Some(
            opportunity(s[i], s[j], now),
        ),
        (forall|k: int, l: int| !#[trigger] is_opportunity(s, k, l)) ==> r is None,
{
}

} // verus!
