//! Smart order router: weighs latency, liquidity, fill rate and toxicity of
//! venues.

use vstd::prelude::*;
use crate::fixed::{
    best_above, is_best, lemma_best_unique, lemma_tdiv_unique, max, min, min_u64,
};

verus! {

broadcast use vstd::array::group_array_axioms;

/// Maximum number of venues supported.
pub const MAX_VENUES: usize = 16;

/// Stands for no venue.
pub const NO_VENUE: u8 = 0xFF;

/// Basis points in the whole.
pub const BPS: u64 = 10_000;

/// Score of a venue that is out of the question.
pub const NO_SCORE: i64 = -1;

/// Orders that a split makes at most.
pub const MAX_SPLITS: usize = 4;

/// Heartbeats younger than this are healthy (cycles).
pub const HEALTHY_AGE: u64 = 100_000_000;

/// Heartbeats younger than this are degraded (cycles).
pub const DEGRADED_AGE: u64 = 500_000_000;

/// Venue health status.
#[derive(Debug, Clone, Copy, PartialEq, Eq, Structural)]
pub enum VenueHealth {
    Healthy,
    Degraded,
    Unhealthy,
    Offline,
}

/// Health by the age of a heartbeat.
pub open spec fn health_of(age: int) -> VenueHealth {
    if age < HEALTHY_AGE {
        VenueHealth::Healthy
    } else if age < DEGRADED_AGE {
        VenueHealth::Degraded
    } else {
        VenueHealth::Unhealthy
    }
}

/// Venue statistics.
#[derive(Debug, Clone, Copy)]
pub struct VenueStats {
    /// Average round-trip latency in nanoseconds; zero before the first sample.
    pub avg_latency_ns: u64,
    /// Recent fill rate (basis points).
    pub fill_rate_bp: u64,
    /// Adverse selection score (higher = worse).
    pub toxicity_score: u64,
    /// Available liquidity at best bid (base units).
    pub bid_liquidity: u64,
    /// Available liquidity at best ask (base units).
    pub ask_liquidity: u64,
    /// Best bid price.
    pub best_bid: u64,
    /// Best ask price.
    pub best_ask: u64,
    /// Message sequence number.
    pub ws_sequence: u64,
    /// Last heartbeat timestamp (cycles).
    pub last_heartbeat: u64,
    /// Health status.
    pub health: VenueHealth,
    /// Total fills count.
    pub total_fills: u64,
    /// Total rejected count.
    pub total_rejected: u64,
    /// Whether the venue has ever published a quote.
    pub quoted: bool,
}

/// Average latency after one more sample: the first sample is taken as it is,
/// later ones weigh an eighth.
pub open spec fn smoothed(avg: int, sample: int) -> int {
    if avg == 0 {
        sample
    } else {
        (avg * 7 + sample) / 8
    }
}

/// The average latency lies between the one before and the new sample.
pub proof fn lemma_smoothed_between(avg: int, sample: int)
    requires
        0 < avg,
        0 <= sample,
    ensures
        min(avg, sample) <= smoothed(avg, sample) <= max(avg, sample),
{
}

impl VenueStats {
    /// Venue without history.
    pub open spec fn spec_new() -> Self {
        VenueStats {
            avg_latency_ns: 0,
            fill_rate_bp: BPS,
            toxicity_score: 0,
            bid_liquidity: 0,
            ask_liquidity: 0,
            best_bid: 0,
            best_ask: 0,
            ws_sequence: 0,
            last_heartbeat: 0,
            health: VenueHealth::Healthy,
            total_fills: 0,
            total_rejected: 0,
            quoted: false,
        }
    }

    /// Scores and rates are at most the whole.
    pub open spec fn wf(self) -> bool {
        self.fill_rate_bp <= BPS && self.toxicity_score <= BPS
    }

    /// Venue without history.
    fn new() -> (r: Self)
        ensures
            r == Self::spec_new(),
    {
        VenueStats {
            avg_latency_ns: 0,
            fill_rate_bp: BPS,
            toxicity_score: 0,
            bid_liquidity: 0,
            ask_liquidity: 0,
            best_bid: 0,
            best_ask: 0,
            ws_sequence: 0,
            last_heartbeat: 0,
            health: VenueHealth::Healthy,
            total_fills: 0,
            total_rejected: 0,
            quoted: false,
        }
    }

    /// Add a latency sample.
    fn update_latency(&mut self, latency_ns: u64)
        requires
            old(self).avg_latency_ns * 7 + latency_ns <= u64::MAX,
        ensures
            *final(self) == (VenueStats {
                avg_latency_ns: smoothed(old(self).avg_latency_ns as int, latency_ns as int) as u64,
                ..*old(self)
            }),
    {
        self.avg_latency_ns = if self.avg_latency_ns == 0 {
            latency_ns
        } else {
            (self.avg_latency_ns * 7 + latency_ns) / 8
        };
    }

    /// Count a fill.
    fn record_fill(&mut self)
        ensures
            *final(self) == (VenueStats {
                total_fills: old(self).total_fills.wrapping_add(1),
                ..*old(self)
            }),
    {
        self.total_fills = self.total_fills.wrapping_add(1);
    }

    /// The rejection counters stay within range.
    pub open spec fn can_reject(self) -> bool {
        &&& self.total_fills + self.total_rejected < u64::MAX
        &&& self.total_fills * BPS <= u64::MAX
    }

    /// The venue after a rejection: the fill rate is counted anew.
    pub open spec fn rejected(self) -> Self {
        VenueStats {
            total_rejected: (self.total_rejected + 1) as u64,
            fill_rate_bp: ((self.total_fills * BPS) / (self.total_fills + self.total_rejected + 1))
                as u64,
            ..self
        }
    }

    /// Count a rejection.
    fn record_rejection(&mut self)
        requires
            old(self).can_reject(),
        ensures
            *final(self) == old(self).rejected(),
            final(self).fill_rate_bp <= BPS,
    {
        self.total_rejected = self.total_rejected + 1;
        let total: u64 = self.total_fills + self.total_rejected;
        let fills: u64 = self.total_fills;
        assert((fills * 10_000) as int / total as int <= 10_000) by (nonlinear_arith)
            requires
                0 <= fills <= total,
                total > 0,
        ;
        self.fill_rate_bp = (self.total_fills * BPS) / total;
    }

    /// Liquidity that an order of a side meets.
    pub open spec fn liquidity(self, is_buy: bool) -> u64 {
        if is_buy {
            self.ask_liquidity
        } else {
            self.bid_liquidity
        }
    }

    /// Penalty for toxicity.
    pub open spec fn penalty(self, penalty_bp: u64) -> int {
        (self.toxicity_score * penalty_bp) / (BPS as int)
    }

    /// Score of the venue: latency, liquidity and fill rate less the penalty; zero
    /// if it is not healthy.
    pub open spec fn score(self, is_buy: bool, penalty_bp: u64) -> int {
        if self.health == VenueHealth::Healthy || self.health == VenueHealth::Degraded {
            (if self.avg_latency_ns > 0 {
                1_000_000_000int / (self.avg_latency_ns as int)
            } else {
                1_000_000
            }) + self.liquidity(is_buy) as int / 1000 + self.fill_rate_bp - self.penalty(penalty_bp)
        } else {
            0
        }
    }
}

/// Routing decision.
#[derive(Debug, Clone, Copy)]
pub struct RoutingDecision {
    /// Venue, or `NO_VENUE`.
    pub venue_id: u8,
    /// Confidence.
    pub confidence_score: u16,
    /// Latency of the venue.
    pub expected_latency_ns: u64,
    /// Liquidity of the venue, or the share of a split order.
    pub available_liquidity: u64,
    /// Toxicity penalty of the venue that was looked at last.
    pub penalty_applied: u64,
    /// Fills the record.
    pub _padding: [u8; 21],
}

impl RoutingDecision {
    /// No venue.
    pub open spec fn spec_empty() -> Self {
        RoutingDecision {
            venue_id: NO_VENUE,
            confidence_score: 0,
            expected_latency_ns: u64::MAX,
            available_liquidity: 0,
            penalty_applied: 0,
            _padding: vstd::array::spec_array_fill_for_copy_type::<u8, 21>(0u8),
        }
    }

    /// No venue.
    fn empty() -> (r: Self)
        ensures
            r == Self::spec_empty(),
    {
        RoutingDecision {
            venue_id: NO_VENUE,
            confidence_score: 0,
            expected_latency_ns: u64::MAX,
            available_liquidity: 0,
            penalty_applied: 0,
            _padding: [0u8;21],
        }
    }
}

/// Confidence in a venue with a score: it wraps within 16 bits, and is then held at ten
/// thousand.
pub open spec fn confidence(score: int) -> int {
    min(((score + 1000) / 10) % 65536, 10_000)
}

/// Share of an order that goes to a venue: in proportion to the liquidity there.
pub open spec fn split_share(remaining: int, liquidity: int) -> int {
    if liquidity > 0 {
        min((remaining * liquidity) / (liquidity + remaining), remaining)
    } else {
        remaining
    }
}

/// No venue was used.
pub open spec fn no_venues() -> Seq<bool> {
    Seq::new(MAX_VENUES as nat, |i: int| false)
}

/// Smart order router.
#[derive(Debug)]
pub struct SmartRouter {
    /// Per-venue statistics.
    pub venues: [VenueStats; 16],
    /// Number of active venues.
    pub num_venues: u64,
    /// Minimum liquidity threshold (base units).
    pub min_liquidity: u64,
    /// Maximum acceptable latency (nanoseconds).
    pub max_latency_ns: u64,
    /// Toxicity penalty multiplier (basis points).
    pub toxicity_penalty_bp: u64,
    /// Global routing enabled flag.
    pub routing_enabled: bool,
}

impl SmartRouter {
    /// Every venue is well formed, and the penalty at most the whole.
    pub open spec fn wf(&self) -> bool {
        &&& forall|i: int| 0 <= i < MAX_VENUES ==> (#[trigger] self.venues@[i]).wf()
        &&& self.toxicity_penalty_bp <= BPS
    }

    /// Router without venues.
    pub fn new() -> (r: Self)
        ensures
            r.wf(),
            forall|i: int| 0 <= i < MAX_VENUES ==> r.venues@[i] == VenueStats::spec_new(),
            r.num_venues == 0,
            r.min_liquidity == 1000,
            r.max_latency_ns == 10_000_000,
            r.toxicity_penalty_bp == 5000,
            r.routing_enabled,
    {
        SmartRouter {
            venues: [VenueStats::new();16],
            num_venues: 0,
            min_liquidity: 1000,
            max_latency_ns: 10_000_000,
            toxicity_penalty_bp: 5000,
            routing_enabled: true,
        }
    }

    /// The router with one venue changed.
    pub open spec fn with_venue(&self, prior: SmartRouter, venue_id: u8, venue: VenueStats) -> bool {
        &&& self.venues@ == prior.venues@.update(venue_id as int, venue)
        &&& *self == (SmartRouter { venues: self.venues, ..prior })
    }

    /// Register a venue at time `now`. An unknown venue changes nothing.
    pub fn register_venue(&mut self, venue_id: u8, now: u64)
        requires
            old(self).wf(),
            venue_id < MAX_VENUES ==> old(self).num_venues < u64::MAX,
        ensures
            final(self).wf(),
            venue_id >= MAX_VENUES ==> *final(self) == *old(self),
            venue_id < MAX_VENUES ==> final(self).with_venue(
                SmartRouter { num_venues: (old(self).num_venues + 1) as u64, ..*old(self) },
                venue_id,
                VenueStats {
                    health: VenueHealth::Healthy,
                    last_heartbeat: now,
                    ..old(self).venues@[venue_id as int]
                },
            ),
    {
        if venue_id < MAX_VENUES as u8 {
            let idx: usize = venue_id as usize;
            let mut venue = self.venues[idx];
            venue.health = VenueHealth::Healthy;
            venue.last_heartbeat = now;
            self.venues[idx] = venue;
            self.num_venues = self.num_venues + 1;
        }
    }

    /// Add a latency sample of a venue. An unknown venue changes nothing.
    pub fn update_venue_latency(&mut self, venue_id: u8, latency_ns: u64)
        requires
            old(self).wf(),
            venue_id < MAX_VENUES ==> old(self).venues@[venue_id as int].avg_latency_ns * 7
                + latency_ns <= u64::MAX,
        ensures
            final(self).wf(),
            venue_id >= MAX_VENUES ==> *final(self) == *old(self),
            venue_id < MAX_VENUES ==> final(self).with_venue(
                *old(self),
                venue_id,
                VenueStats {
                    avg_latency_ns: smoothed(
                        old(self).venues@[venue_id as int].avg_latency_ns as int,
                        latency_ns as int,
                    ) as u64,
                    ..old(self).venues@[venue_id as int]
                },
            ),
    {
        if venue_id < MAX_VENUES as u8 {
            let mut venue = self.venues[venue_id as usize];
            venue.update_latency(latency_ns);
            self.venues[venue_id as usize] = venue;
        }
    }

    /// Update the quote of a venue. An unknown venue changes nothing.
    pub fn update_venue_liquidity(
        &mut self,
        venue_id: u8,
        bid_qty: u64,
        ask_qty: u64,
        bid_price: u64,
        ask_price: u64,
    )
        requires
            old(self).wf(),
        ensures
            final(self).wf(),
            venue_id >= MAX_VENUES ==> *final(self) == *old(self),
            venue_id < MAX_VENUES ==> final(self).with_venue(
                *old(self),
                venue_id,
                VenueStats {
                    bid_liquidity: bid_qty,
                    ask_liquidity: ask_qty,
                    best_bid: bid_price,
                    best_ask: ask_price,
                    quoted: true,
                    ..old(self).venues@[venue_id as int]
                },
            ),
    {
        if venue_id < MAX_VENUES as u8 {
            let mut venue = self.venues[venue_id as usize];
            venue.bid_liquidity = bid_qty;
            venue.ask_liquidity = ask_qty;
            venue.best_bid = bid_price;
            venue.best_ask = ask_price;
            venue.quoted = true;
            self.venues[venue_id as usize] = venue;
        }
    }

    /// Set the toxicity score of a venue, at most the whole. An unknown venue
    /// changes nothing.
    pub fn update_toxicity_score(&mut self, venue_id: u8, score: u64)
        requires
            old(self).wf(),
        ensures
            final(self).wf(),
            venue_id >= MAX_VENUES ==> *final(self) == *old(self),
            venue_id < MAX_VENUES ==> final(self).with_venue(
                *old(self),
                venue_id,
                VenueStats {
                    toxicity_score: min(score as int, BPS as int) as u64,
                    ..old(self).venues@[venue_id as int]
                },
            ),
    {
        if venue_id < MAX_VENUES as u8 {
            let mut venue = self.venues[venue_id as usize];
            venue.toxicity_score = min_u64(score, BPS);
            self.venues[venue_id as usize] = venue;
        }
    }

    /// Record a heartbeat that came in at time `received`, and judge the health of
    /// the venue at time `now`. An unknown venue changes nothing.
    pub fn record_heartbeat(&mut self, venue_id: u8, sequence: u64, received: u64, now: u64)
        requires
            old(self).wf(),
        ensures
            final(self).wf(),
            venue_id >= MAX_VENUES ==> *final(self) == *old(self),
            venue_id < MAX_VENUES ==> final(self).with_venue(
                *old(self),
                venue_id,
                VenueStats {
                    ws_sequence: sequence,
                    last_heartbeat: received,
                    health: health_of(max(now - received, 0)),
                    ..old(self).venues@[venue_id as int]
                },
            ),
    {
        if venue_id < MAX_VENUES as u8 {
            let mut venue = self.venues[venue_id as usize];
            venue.ws_sequence = sequence;
            venue.last_heartbeat = received;
            let elapsed: u64 = now.saturating_sub(received);
            venue.health = if elapsed < HEALTHY_AGE {
                VenueHealth::Healthy
            } else if elapsed < DEGRADED_AGE {
                VenueHealth::Degraded
            } else {
                VenueHealth::Unhealthy
            };
            self.venues[venue_id as usize] = venue;
        }
    }

    /// Record a fill. An unknown venue changes nothing.
    pub fn record_fill(&mut self, venue_id: u8)
        requires
            old(self).wf(),
        ensures
            final(self).wf(),
            venue_id >= MAX_VENUES ==> *final(self) == *old(self),
            venue_id < MAX_VENUES ==> final(self).with_venue(
                *old(self),
                venue_id,
                VenueStats {
                    total_fills: old(self).venues@[venue_id as int].total_fills.wrapping_add(1),
                    ..old(self).venues@[venue_id as int]
                },
            ),
    {
        if venue_id < MAX_VENUES as u8 {
            let mut venue = self.venues[venue_id as usize];
            venue.record_fill();
            self.venues[venue_id as usize] = venue;
        }
    }

    /// Record a rejection. An unknown venue changes nothing.
    pub fn record_rejection(&mut self, venue_id: u8)
        requires
            old(self).wf(),
            venue_id < MAX_VENUES ==> old(self).venues@[venue_id as int].can_reject(),
        ensures
            final(self).wf(),
            venue_id >= MAX_VENUES ==> *final(self) == *old(self),
            venue_id < MAX_VENUES ==> final(self).with_venue(
                *old(self),
                venue_id,
                old(self).venues@[venue_id as int].rejected(),
            ),
    {
        if venue_id < MAX_VENUES as u8 {
            let mut venue = self.venues[venue_id as usize];
            venue.record_rejection();
            self.venues[venue_id as usize] = venue;
        }
    }

    /// Venues that routing looks at.
    pub open spec fn considered(&self) -> int {
        min(self.num_venues as int, MAX_VENUES as int)
    }

    /// Whether a venue may take an order: its latency is acceptable, and, once it has
    /// quoted, it has the minimum liquidity or enough for the order.
    pub open spec fn eligible(&self, i: int, quantity: u64, is_buy: bool) -> bool {
        let v = self.venues@[i];
        &&& !v.quoted || v.liquidity(is_buy) >= self.min_liquidity || quantity <= v.liquidity(
            is_buy,
        )
        &&& v.avg_latency_ns <= self.max_latency_ns
    }

    /// Scores of all venues for an order; -1 where a venue is out of the question or
    /// was used already.
    pub open spec fn scores(&self, quantity: u64, is_buy: bool, used: Seq<bool>) -> Seq<i64> {
        Seq::new(
            MAX_VENUES as nat,
            |i: int|
                if i < self.considered() && !used[i] && self.eligible(i, quantity, is_buy) {
                    self.venues@[i].score(is_buy, self.toxicity_penalty_bp) as i64
                } else {
                    NO_SCORE
                },
        )
    }

    /// The first venue with the highest score.
    pub open spec fn best_venue(&self, quantity: u64, is_buy: bool, used: Seq<bool>) -> Option<
        usize,
    > {
        choose|b: Option<usize>| is_best(
            self.scores(quantity, is_buy, used),
            NO_SCORE as int,
            b,
        )
    }

    /// The decision on an order that no venue of `used` is to take.
    pub open spec fn decision_without(
        &self,
        quantity: u64,
        is_buy: bool,
        used: Seq<bool>,
    ) -> RoutingDecision {
        let last = if self.considered() > 0 {
            self.venues@[self.considered() - 1].penalty(self.toxicity_penalty_bp)
        } else {
            0
        };
        if !self.routing_enabled {
            RoutingDecision::spec_empty()
        } else {
            match self.best_venue(quantity, is_buy, used) {
                Some(i) => RoutingDecision {
                    venue_id: i as u8,
                    confidence_score: confidence(
                        self.scores(quantity, is_buy, used)[i as int] as int,
                    ) as u16,
                    expected_latency_ns: self.venues@[i as int].avg_latency_ns,
                    available_liquidity: self.venues@[i as int].liquidity(is_buy),
                    penalty_applied: last as u64,
                    ..RoutingDecision::spec_empty()
                },
                None => RoutingDecision {
                    penalty_applied: last as u64,
                    ..RoutingDecision::spec_empty()
                },
            }
        }
    }

    /// The decision on an order.
    pub open spec fn decision(&self, quantity: u64, is_buy: bool) -> RoutingDecision {
        self.decision_without(quantity, is_buy, no_venues())
    }

    /// Route a buy order to the best venue.
    pub fn route_buy(&self, quantity: u64) -> (r: RoutingDecision)
        requires
            self.wf(),
        ensures
            r == self.decision(quantity, true),
            r.venue_id != NO_VENUE ==> r.venue_id < MAX_VENUES && r.available_liquidity
                == self.venues@[r.venue_id as int].ask_liquidity,
    {
        proof {
            if self.decision(quantity, true).venue_id != NO_VENUE {
                lemma_routed_meets_other_side(*self, quantity, true);
            }
        }
        let used = [false;16];
        assert(used@ =~= no_venues());
        self.route_order(quantity, true, &used)
    }

    /// Route a sell order to the best venue.
    pub fn route_sell(&self, quantity: u64) -> (r: RoutingDecision)
        requires
            self.wf(),
        ensures
            r == self.decision(quantity, false),
            r.venue_id != NO_VENUE ==> r.venue_id < MAX_VENUES && r.available_liquidity
                == self.venues@[r.venue_id as int].bid_liquidity,
    {
        proof {
            if self.decision(quantity, false).venue_id != NO_VENUE {
                lemma_routed_meets_other_side(*self, quantity, false);
            }
        }
        let used = [false;16];
        assert(used@ =~= no_venues());
        self.route_order(quantity, false, &used)
    }

    /// Route an order to the best venue that was not used already.
    fn route_order(&self, quantity: u64, is_buy: bool, used: &[bool; 16]) -> (r: RoutingDecision)
        requires
            self.wf(),
        ensures
            r == self.decision_without(quantity, is_buy, used@),
            r.venue_id == NO_VENUE || r.venue_id < MAX_VENUES,
    {
        if !self.routing_enabled {
            return RoutingDecision::empty();
        }
        let n: usize = if self.num_venues < MAX_VENUES as u64 {
            self.num_venues as usize
        } else {
            MAX_VENUES
        };
        let mut scores = [NO_SCORE;16];
        let mut last: u64 = 0;
        let mut i: usize = 0;
        while i < n
            invariant
                self.wf(),
                n == self.considered(),
                i <= n <= MAX_VENUES,
                forall|k: int| i <= k < MAX_VENUES ==> scores@[k] == -1,
                forall|k: int|
                    0 <= k < i ==> scores@[k] == self.scores(quantity, is_buy, used@)[k],
                last == if i > 0 {
                    self.venues@[i - 1].penalty(self.toxicity_penalty_bp)
                } else {
                    0
                },
            decreases n - i,
        {
            let venue = self.venues[i];
            assert(self.venues@[i as int].wf());
            let liquidity: u64 = if is_buy {
                venue.ask_liquidity
            } else {
                venue.bid_liquidity
            };
            let liq_ok = !venue.quoted || liquidity >= self.min_liquidity || quantity <= liquidity;
            let lat_ok = venue.avg_latency_ns <= self.max_latency_ns;
            let latency: u64 = venue.avg_latency_ns;
            let latency_score: u64 = if latency > 0 {
                1_000_000_000 / latency
            } else {
                1_000_000
            };
            proof {
                let t = venue.toxicity_score as int;
                let p = self.toxicity_penalty_bp as int;
                assert(0 <= t * p <= 100_000_000) by (nonlinear_arith)
                    requires
                        0 <= t <= 10_000,
                        0 <= p <= 10_000,
                ;
                assert(latency > 0 ==> 1_000_000_000int / latency as int <= 1_000_000_000)
                    by (nonlinear_arith)
                    requires
                        latency >= 0,
                ;
            }
            last = (venue.toxicity_score * self.toxicity_penalty_bp) / BPS;
            let healthy = venue.health == VenueHealth::Healthy || venue.health
                == VenueHealth::Degraded;
            let score: i64 = if healthy {
                latency_score as i64 + (liquidity / 1000) as i64 + venue.fill_rate_bp as i64
                    - last as i64
            } else {
                0
            };
            if !used[i] && liq_ok && lat_ok {
                scores[i] = score;
            }
            i = i + 1;
        }
        let ghost spec_scores = self.scores(quantity, is_buy, used@);
        assert(scores@ =~= spec_scores);
        let best = best_above(&scores, NO_SCORE);
        proof {
            lemma_best_unique(
                spec_scores,
                NO_SCORE as int,
                best,
                self.best_venue(quantity, is_buy, used@),
            );
        }
        let mut decision = RoutingDecision::empty();
        decision.penalty_applied = last;
        if let Some(idx) = best {
            proof {
                let v = self.venues@[idx as int];
                assert(v.wf());
                assert(spec_scores[idx as int] > -1);
                lemma_score_bound(v, is_buy, self.toxicity_penalty_bp);
            }
            decision.venue_id = idx as u8;
            let c: i64 = ((scores[idx] + 1000) / 10) % 65536;
            decision.confidence_score = if c < 10_000 {
                c as u16
            } else {
                10_000
            };
            decision.expected_latency_ns = self.venues[idx].avg_latency_ns;
            decision.available_liquidity = if is_buy {
                self.venues[idx].ask_liquidity
            } else {
                self.venues[idx].bid_liquidity
            };
        }
        decision
    }

    /// Shares of an order split over up to `n` venues that were not used already, each
    /// of them taking one share.
    pub open spec fn split(&self, remaining: u64, n: nat, used: Seq<bool>) -> Seq<RoutingDecision>
        decreases n,
    {
        let d = self.decision_without(remaining, true, used);
        if n == 0 || remaining == 0 || d.venue_id == NO_VENUE {
            Seq::empty()
        } else {
            let share = split_share(remaining as int, d.available_liquidity as int);
            seq![RoutingDecision { available_liquidity: share as u64, ..d }] + self.split(
                (remaining - share) as u64,
                (n - 1) as nat,
                used.update(d.venue_id as int, true),
            )
        }
    }

    /// Split an order across up to four venues. Decisions that are not needed are
    /// empty.
    pub fn split_order(&self, quantity: u64, max_venues: u8) -> (r: [RoutingDecision; 4])
        requires
            self.wf(),
        ensures
            ({
                let shares = self.split(
                    quantity,
                    min(max_venues as int, MAX_SPLITS as int) as nat,
                    no_venues(),
                );
                &&& shares.len() <= MAX_SPLITS
                &&& forall|i: int| 0 <= i < shares.len() ==> r@[i] == shares[i]
                &&& forall|i: int|
                    shares.len() <= i < MAX_SPLITS ==> r@[i] == RoutingDecision::spec_empty()
                &&& handed_out(shares) <= quantity
            }),
            forall|i: int, j: int|
                0 <= i < j < MAX_SPLITS && (#[trigger] r@[j]).venue_id != NO_VENUE ==> (
                #[trigger] r@[i]).venue_id != r@[j].venue_id,
    {
        let mut decisions = [RoutingDecision::empty();4];
        let n: usize = if (max_venues as usize) < MAX_SPLITS {
            max_venues as usize
        } else {
            MAX_SPLITS
        };
        let mut used = [false;16];
        assert(used@ =~= no_venues());
        let ghost all = self.split(quantity, n as nat, no_venues());
        let mut remaining: u64 = quantity;
        let mut i: usize = 0;
        let mut done = false;
        while i < n && !done
            invariant
                self.wf(),
                i <= n <= MAX_SPLITS,
                all.len() <= MAX_SPLITS || !done,
                done ==> all.len() == i,
                !done ==> all.len() == i + self.split(remaining, (n - i) as nat, used@).len(),
                !done ==> forall|k: int|
                    0 <= k < self.split(remaining, (n - i) as nat, used@).len() ==> all[i + k]
                        == #[trigger] self.split(remaining, (n - i) as nat, used@)[k],
                forall|k: int| 0 <= k < i ==> decisions@[k] == all[k],
                forall|k: int|
                    i <= k < MAX_SPLITS ==> decisions@[k] == RoutingDecision::spec_empty(),
            decreases
                n - i,
                (if done {
                    0int
                } else {
                    1int
                }),
        {
            let mut decision = self.route_order(remaining, true, &used);
            if remaining == 0 || decision.venue_id == NO_VENUE {
                done = true;
            } else {
                let liquidity: u64 = decision.available_liquidity;
                let share: u64 = split_quantity(remaining, liquidity);
                let ghost here = self.split(remaining, (n - i) as nat, used@);
                let ghost rest = self.split(
                    (remaining - share) as u64,
                    (n - i - 1) as nat,
                    used@.update(decision.venue_id as int, true),
                );
                decision.available_liquidity = share;
                proof {
                    assert(here == seq![decision] + rest);
                    assert(all[i + 0] == here[0]);
                    assert forall|k: int| 0 <= k < rest.len() implies all[i + 1 + k]
                        == #[trigger] rest[k] by {
                        assert(all[i + (k + 1)] == here[k + 1]);
                    }
                }
                decisions[i] = decision;
                used[decision.venue_id as usize] = true;
                remaining = remaining - share;
                i = i + 1;
            }
        }
        proof {
            lemma_split_distinct(*self, quantity, n as nat, no_venues());
            lemma_split_bounded(*self, quantity, n as nat, no_venues());
            assert forall|a: int, b: int|
                0 <= a < b < MAX_SPLITS && (#[trigger] decisions@[b]).venue_id != NO_VENUE implies (
            #[trigger] decisions@[a]).venue_id != decisions@[b].venue_id by {
                assert(decisions@[b] == all[b]);
                assert(decisions@[a] == all[a]);
            }
        }
        decisions
    }

    /// Disable routing (emergency stop).
    pub fn disable_routing(&mut self)
        ensures
            *final(self) == (SmartRouter { routing_enabled: false, ..*old(self) }),
    {
        self.routing_enabled = false;
    }

    /// Enable routing.
    pub fn enable_routing(&mut self)
        ensures
            *final(self) == (SmartRouter { routing_enabled: true, ..*old(self) }),
    {
        self.routing_enabled = true;
    }

    /// Health of a venue; an unknown venue is offline.
    pub fn get_venue_health(&self, venue_id: u8) -> (r: VenueHealth)
        ensures
            r == if venue_id < MAX_VENUES {
                self.venues@[venue_id as int].health
            } else {
                VenueHealth::Offline
            },
    {
        if venue_id < MAX_VENUES as u8 {
            self.venues[venue_id as usize].health
        } else {
            VenueHealth::Offline
        }
    }

    /// Set the minimum liquidity threshold.
    pub fn set_min_liquidity(&mut self, min_liq: u64)
        ensures
            *final(self) == (SmartRouter { min_liquidity: min_liq, ..*old(self) }),
    {
        self.min_liquidity = min_liq;
    }

    /// Set the maximum acceptable latency.
    pub fn set_max_latency(&mut self, max_lat_ns: u64)
        ensures
            *final(self) == (SmartRouter { max_latency_ns: max_lat_ns, ..*old(self) }),
    {
        self.max_latency_ns = max_lat_ns;
    }
}

/// Share of an order that goes to a venue.
fn split_quantity(remaining: u64, liquidity: u64) -> (r: u64)
    requires
        remaining > 0,
    ensures
        r == split_share(remaining as int, liquidity as int),
        r <= remaining,
{
    if liquidity == 0 {
        return remaining;
    }
    assert(0 <= remaining * liquidity <= 0xffff_ffff_ffff_ffff * 0xffff_ffff_ffff_ffff)
        by (nonlinear_arith)
        requires
            0 <= remaining <= 0xffff_ffff_ffff_ffff,
            0 <= liquidity <= 0xffff_ffff_ffff_ffff,
    ;
    let q: u128 = (remaining as u128 * liquidity as u128) / (liquidity as u128
        + remaining as u128);
    if q < remaining as u128 {
        q as u64
    } else {
        remaining
    }
}

/// A score is within range.
proof fn lemma_score_bound(v: VenueStats, is_buy: bool, penalty_bp: u64)
    requires
        v.wf(),
        penalty_bp <= BPS,
    ensures
        -10_000 <= v.score(is_buy, penalty_bp) <= 0x1_0000_0000_0000_0000int / 1000 + 1_000_020_000,
{
    let t = v.toxicity_score as int;
    let p = penalty_bp as int;
    assert(0 <= t * p <= 100_000_000) by (nonlinear_arith)
        requires
            0 <= t <= 10_000,
            0 <= p <= 10_000,
    ;
    let l = v.avg_latency_ns as int;
    assert(l > 0 ==> 0 <= 1_000_000_000int / l <= 1_000_000_000) by (nonlinear_arith)
        requires
            l >= 0,
    ;
}

/// The best venue exists, and there is only one.
proof fn lemma_best_exists(scores: Seq<i64>) -> (b: Option<usize>)
    requires
        scores.len() <= MAX_VENUES,
    ensures
        is_best(scores, NO_SCORE as int, b),
    decreases scores.len(),
{
    if scores.len() == 0 {
        None
    } else {
        let t = scores.drop_last();
        let a = lemma_best_exists(t);
        assert(forall|j: int| 0 <= j < t.len() ==> #[trigger] scores[j] == t[j]);
        let top = match a {
            Some(i) => t[i as int] as int,
            None => -1,
        };
        if scores.last() > top {
            assert forall|j: int| 0 <= j < scores.len() implies scores[j] <= scores.last() by {
                if j < t.len() {
                    assert(t[j] <= top);
                }
            }
            assert forall|j: int| 0 <= j < scores.len() - 1 implies scores[j] < scores.last() by {
                assert(t[j] <= top);
            }
            Some((scores.len() - 1) as usize)
        } else {
            assert forall|j: int| 0 <= j < scores.len() implies scores[j] <= top by {
                if j < t.len() {
                    assert(t[j] <= top);
                }
            }
            a
        }
    }
}

/// What an order is routed to is the best there is: an eligible venue that was not
/// used, whose score no other such venue exceeds. Without routing, or without an
/// eligible venue of a score of at least zero, there is none.
pub proof fn lemma_routed_to_best(
    router: SmartRouter,
    quantity: u64,
    is_buy: bool,
    used: Seq<bool>,
)
    requires
        router.wf(),
    ensures
        ({
            let d = router.decision_without(quantity, is_buy, used);
            let s = router.scores(quantity, is_buy, used);
            if router.routing_enabled && d.venue_id != NO_VENUE {
                &&& d.venue_id < router.considered()
                &&& !used[d.venue_id as int]
                &&& router.eligible(d.venue_id as int, quantity, is_buy)
                &&& forall|j: int| 0 <= j < MAX_VENUES ==> #[trigger] s[j] <= s[d.venue_id as int]
            } else {
                !router.routing_enabled || forall|j: int|
                    0 <= j < MAX_VENUES ==> #[trigger] s[j] <= NO_SCORE
            }
        }),
{
    let s = router.scores(quantity, is_buy, used);
    let b = lemma_best_exists(s);
    lemma_best_unique(s, NO_SCORE as int, b, router.best_venue(quantity, is_buy, used));
}

/// A split never hands out more than the order.
pub proof fn lemma_split_bounded(router: SmartRouter, remaining: u64, n: nat, used: Seq<bool>)
    requires
        router.wf(),
    ensures
        handed_out(router.split(remaining, n, used)) <= remaining,
        router.split(remaining, n, used).len() <= n,
    decreases n,
{
    let d = router.decision_without(remaining, true, used);
    if n == 0 || remaining == 0 || d.venue_id == NO_VENUE {
    } else {
        let l = d.available_liquidity as int;
        let share = split_share(remaining as int, l);
        assert(0 <= (remaining * l) / (l + remaining)) by (nonlinear_arith)
            requires
                l >= 0,
                remaining > 0,
        ;
        let now_used = used.update(d.venue_id as int, true);
        let rest = router.split((remaining - share) as u64, (n - 1) as nat, now_used);
        lemma_split_bounded(router, (remaining - share) as u64, (n - 1) as nat, now_used);
        let all = router.split(remaining, n, used);
        assert(all.skip(1) =~= rest);
    }
}

/// A split goes to different venues, none of which was used before.
pub proof fn lemma_split_distinct(router: SmartRouter, remaining: u64, n: nat, used: Seq<bool>)
    requires
        router.wf(),
        used.len() == MAX_VENUES,
    ensures
        ({
            let s = router.split(remaining, n, used);
            &&& forall|i: int|
                0 <= i < s.len() ==> (#[trigger] s[i]).venue_id < MAX_VENUES
                    && !used[s[i].venue_id as int]
            &&& forall|i: int, j: int|
                0 <= i < j < s.len() ==> (#[trigger] s[i]).venue_id != (
                #[trigger] s[j]).venue_id
        }),
    decreases n,
{
    let d = router.decision_without(remaining, true, used);
    if n == 0 || remaining == 0 || d.venue_id == NO_VENUE {
    } else {
        lemma_routed_to_best(router, remaining, true, used);
        let share = split_share(remaining as int, d.available_liquidity as int);
        let now_used = used.update(d.venue_id as int, true);
        let rest = router.split((remaining - share) as u64, (n - 1) as nat, now_used);
        lemma_split_distinct(router, (remaining - share) as u64, (n - 1) as nat, now_used);
        let s = router.split(remaining, n, used);
        assert(s[0].venue_id == d.venue_id);
        assert forall|i: int| 0 <= i < s.len() implies (#[trigger] s[i]).venue_id < MAX_VENUES
            && !used[s[i].venue_id as int] by {
            if i > 0 {
                assert(s[i] == rest[i - 1]);
            }
        }
        assert forall|i: int, j: int| 0 <= i < j < s.len() implies (#[trigger] s[i]).venue_id != (
        #[trigger] s[j]).venue_id by {
            assert(s[j] == rest[j - 1]);
            if i > 0 {
                assert(s[i] == rest[i - 1]);
            }
        }
    }
}

/// Quantity that the decisions of a split hand out.
pub open spec fn handed_out(s: Seq<RoutingDecision>) -> int
    decreases s.len(),
{
    if s.len() == 0 {
        0
    } else {
        s[0].available_liquidity + handed_out(s.skip(1))
    }
}

impl Default for SmartRouter {
    fn default() -> (r: Self)
        ensures
            r.wf(),
            forall|i: int| 0 <= i < MAX_VENUES ==> r.venues@[i] == VenueStats::spec_new(),
            r.num_venues == 0,
            r.min_liquidity == 1000,
            r.max_latency_ns == 10_000_000,
            r.toxicity_penalty_bp == 5000,
            r.routing_enabled,
    {
        Self::new()
    }
}

proof fn lemma_best_venue(router: SmartRouter, quantity: u64, is_buy: bool)
    ensures
        is_best(
            router.scores(quantity, is_buy, no_venues()),
            -1,
            router.best_venue(quantity, is_buy, no_venues()),
        ),
        match router.best_venue(quantity, is_buy, no_venues()) {
            Some(i) => i < 16,
            None => true,
        },
{
    let s = router.scores(quantity, is_buy, no_venues());
    let b = lemma_best_exists(s);
    lemma_best_unique(s, -1, b, router.best_venue(quantity, is_buy, no_venues()));
}

/// What an order is routed to: a buy meets what is offered, a sell what is bid for. The
/// liquidity and latency of the decision are those of the venue chosen, which is one of
/// the registered venues, fast enough, and either without a quote yet or with the minimum
/// liquidity or enough for the order on the side that the order meets.
pub proof fn lemma_routed_meets_other_side(router: SmartRouter, quantity: u64, is_buy: bool)
    requires
        router.wf(),
        router.decision(quantity, is_buy).venue_id != 0xFF,
    ensures
        ({
            let d = router.decision(quantity, is_buy);
            let v = router.venues@[d.venue_id as int];
            &&& router.routing_enabled
            &&& d.venue_id < 16 && d.venue_id < router.num_venues
            &&& is_buy ==> d.available_liquidity == v.ask_liquidity
            &&& !is_buy ==> d.available_liquidity == v.bid_liquidity
            &&& d.expected_latency_ns == v.avg_latency_ns
            &&& v.avg_latency_ns <= router.max_latency_ns
            &&& is_buy && v.quoted ==> v.ask_liquidity >= router.min_liquidity || v.ask_liquidity
                >= quantity
            &&& !is_buy && v.quoted ==> v.bid_liquidity >= router.min_liquidity || v.bid_liquidity
                >= quantity
        }),
{
    lemma_best_venue(router, quantity, is_buy);
    lemma_routed_to_best(router, quantity, is_buy, no_venues());
}

/// An order is never routed to a venue beside which stands one that is no slower, has no
/// less of what the order meets, fills no less often and is no more toxic, and that beats
/// it by a basis point of fill rate, by a thousand units of liquidity, or by being first.
pub proof fn lemma_better_venue_preferred(
    router: SmartRouter,
    quantity: u64,
    is_buy: bool,
    worse: int,
    better: int,
)
    requires
        router.wf(),
        0 <= worse < 16,
        0 <= better < 16,
        worse < router.num_venues,
        better < router.num_venues,
        ({
            let (a, b) = (router.venues@[worse], router.venues@[better]);
            let (la, lb) = if is_buy {
                (a.ask_liquidity, b.ask_liquidity)
            } else {
                (a.bid_liquidity, b.bid_liquidity)
            };
            &&& a.health == VenueHealth::Healthy || a.health == VenueHealth::Degraded
            &&& b.health == VenueHealth::Healthy || b.health == VenueHealth::Degraded
            &&& b.quoted ==> lb >= router.min_liquidity || lb >= quantity
            &&& 0 < b.avg_latency_ns <= a.avg_latency_ns || b.avg_latency_ns == a.avg_latency_ns
            &&& b.avg_latency_ns <= router.max_latency_ns
            &&& b.fill_rate_bp >= a.fill_rate_bp
            &&& b.toxicity_score <= a.toxicity_score
            &&& lb >= la
            &&& b.fill_rate_bp > a.fill_rate_bp || lb >= la + 1000 || better < worse
        }),
    ensures
        router.decision(quantity, is_buy).venue_id != worse,
{
    let (a, b) = (router.venues@[worse], router.venues@[better]);
    let p = router.toxicity_penalty_bp;
    assert(a.wf() && b.wf());
    let s = router.scores(quantity, is_buy, no_venues());
    lemma_best_venue(router, quantity, is_buy);
    lemma_routed_to_best(router, quantity, is_buy, no_venues());
    lemma_score_bound(a, is_buy, p);
    lemma_score_bound(b, is_buy, p);
    let (ta, tb) = (a.toxicity_score as int, b.toxicity_score as int);
    assert(tb * p <= ta * p) by (nonlinear_arith)
        requires
            0 <= tb <= ta,
            p >= 0,
    ;
    assert((tb * p) / 10_000 <= (ta * p) / 10_000);
    let (x, y) = (a.avg_latency_ns as int, b.avg_latency_ns as int);
    if 0 < y && y <= x {
        assert(1_000_000_000int / y >= 1_000_000_000int / x) by (nonlinear_arith)
            requires
                0 < y <= x,
        ;
    }
    assert(b.score(is_buy, p) >= a.score(is_buy, p));
    assert(router.eligible(better, quantity, is_buy));
    assert(!no_venues()[better]);
    if router.decision(quantity, is_buy).venue_id == worse {
        assert(s[better] == b.score(is_buy, p));
        assert(s[worse] == a.score(is_buy, p));
        assert(s[better] <= s[worse]);
        assert(router.best_venue(quantity, is_buy, no_venues()) == Some(worse as usize));
        if better < worse {
            assert(s[better] < s[worse]);
        }
    }
}

/// The weights of the criteria: a basis point of fill rate counts as much as a thousand
/// units of the liquidity that the order meets; the latency counts as the number of times
/// that it goes into a second; the penalty is the given share of the toxicity. With those
/// whole numbers at hand the score is their sum less the penalty.
pub proof fn lemma_score_weights(
    v: VenueStats,
    is_buy: bool,
    penalty_bp: u64,
    per_second: int,
    thousands: int,
    penalty: int,
)
    requires
        v.health == VenueHealth::Healthy || v.health == VenueHealth::Degraded,
        if v.avg_latency_ns > 0 {
            per_second * v.avg_latency_ns <= 1_000_000_000 < (per_second + 1) * v.avg_latency_ns
        } else {
            per_second == 1_000_000
        },
        is_buy ==> thousands * 1000 <= v.ask_liquidity < (thousands + 1) * 1000,
        !is_buy ==> thousands * 1000 <= v.bid_liquidity < (thousands + 1) * 1000,
        penalty * 10_000 <= v.toxicity_score * penalty_bp < (penalty + 1) * 10_000,
    ensures
        v.score(is_buy, penalty_bp) == per_second + thousands + v.fill_rate_bp - penalty,
{
    let l = v.avg_latency_ns as int;
    if l > 0 {
        assert((per_second + 1) * l == per_second * l + l) by (nonlinear_arith);
        lemma_tdiv_unique(1_000_000_000, l, per_second);
    }
    let x = v.toxicity_score * penalty_bp;
    assert(x >= 0) by (nonlinear_arith)
        requires
            x == v.toxicity_score * penalty_bp,
            v.toxicity_score >= 0,
            penalty_bp >= 0,
    ;
    lemma_tdiv_unique(x, 10_000, penalty);
}

/// A venue that is neither healthy nor degraded scores nothing; every registered one that
/// is eligible and scores something is preferred to it.
pub proof fn lemma_unhealthy_scores_nothing(v: VenueStats, is_buy: bool, penalty_bp: u64)
    requires
        v.health == VenueHealth::Unhealthy || v.health == VenueHealth::Offline,
    ensures
        v.score(is_buy, penalty_bp) == 0,
{
}

/// Disabled routing, or no registered venue, routes nowhere.
pub proof fn lemma_routes_nowhere(router: SmartRouter, quantity: u64, is_buy: bool)
    requires
        router.wf(),
        !router.routing_enabled || router.num_venues == 0,
    ensures
        router.decision(quantity, is_buy).venue_id == 0xFF,
        router.decision(quantity, is_buy).available_liquidity == 0,
{
    lemma_best_venue(router, quantity, is_buy);
    lemma_routed_to_best(router, quantity, is_buy, no_venues());
}

/// An eligible healthy venue without toxicity is never left aside for nothing: where
/// there is one, the order is routed.
pub proof fn lemma_routes_where_it_can(router: SmartRouter, quantity: u64, is_buy: bool, i: int)
    requires
        router.wf(),
        router.routing_enabled,
        0 <= i < 16,
        i < router.num_venues,
        ({
            let v = router.venues@[i];
            let l = if is_buy {
                v.ask_liquidity
            } else {
                v.bid_liquidity
            };
            &&& v.health == VenueHealth::Healthy
            &&& v.toxicity_score == 0
            &&& v.avg_latency_ns <= router.max_latency_ns
            &&& !v.quoted || l >= router.min_liquidity || l >= quantity
        }),
    ensures
        router.decision(quantity, is_buy).venue_id != 0xFF,
{
    let v = router.venues@[i];
    let p = router.toxicity_penalty_bp;
    assert(v.wf());
    lemma_best_venue(router, quantity, is_buy);
    lemma_routed_to_best(router, quantity, is_buy, no_venues());
    lemma_score_bound(v, is_buy, p);
    let s = router.scores(quantity, is_buy, no_venues());
    assert(v.toxicity_score * p == 0) by (nonlinear_arith)
        requires
            v.toxicity_score == 0,
    ;
    let l = v.avg_latency_ns as int;
    assert(l > 0 ==> 1_000_000_000int / l >= 0) by (nonlinear_arith);
    assert(!no_venues()[i]);
    assert(s[i] == v.score(is_buy, p));
    assert(s[i] >= 0);
}

/// Health goes by the age of the heartbeat: healthy below a tenth of a billion cycles,
/// degraded below half a billion, unhealthy from there on.
pub proof fn lemma_health_by_age(age: int)
    ensures
        health_of(age) == VenueHealth::Healthy <==> age < 100_000_000,
        health_of(age) == VenueHealth::Degraded <==> 100_000_000 <= age < 500_000_000,
        health_of(age) == VenueHealth::Unhealthy <==> age >= 500_000_000,
{
}

/// The average latency moves an eighth of the way to each new sample; the first sample is
/// taken as it is.
pub proof fn lemma_smoothed_by_an_eighth(avg: int, sample: int)
    requires
        avg >= 0,
        sample >= 0,
    ensures
        avg == 0 ==> smoothed(avg, sample) == sample,
        avg > 0 ==> 0 <= 8 * avg + (sample - avg) - 8 * smoothed(avg, sample) < 8,
{
}

/// The fill rate after a rejection is the share of the fills in all answers, in basis
/// points and rounded down; the fills stay as they were.
pub proof fn lemma_fill_rate_is_share(v: VenueStats)
    requires
        v.can_reject(),
    ensures
        ({
            let r = v.rejected();
            let answers = r.total_fills + r.total_rejected;
            &&& r.total_fills == v.total_fills
            &&& r.total_rejected == v.total_rejected + 1
            &&& r.fill_rate_bp * answers <= r.total_fills * 10_000 < (r.fill_rate_bp + 1) * answers
        }),
{
    let f = v.total_fills as int;
    let n = v.total_fills + v.total_rejected + 1;
    let q = (f * 10_000) / n;
    assert(0 <= q <= 10_000 && q * n <= f * 10_000 < (q + 1) * n) by (nonlinear_arith)
        requires
            q == (f * 10_000) / n,
            0 <= f <= n,
            n > 0,
    ;
}

/// Confidence is a tenth of the score and a thousand points, rounded down, and full from
/// a score of 99000 on, up to where it wraps.
pub proof fn lemma_confidence(score: int)
    requires
        -1000 <= score,
    ensures
        score < 99_000 ==> 10 * confidence(score) <= score + 1000 < 10 * confidence(score) + 10,
        99_000 <= score < 654_360 ==> confidence(score) == 10_000,
        0 <= confidence(score) <= 10_000,
{
}

/// A share of a split order is never more than is left of the order, nor more than the
/// venue has; it is in the same proportion to what is left as the liquidity to liquidity
/// and order together.
pub proof fn lemma_share_in_proportion(remaining: int, liquidity: int)
    requires
        remaining > 0,
        liquidity >= 0,
    ensures
        0 <= split_share(remaining, liquidity) <= remaining,
        liquidity > 0 ==> split_share(remaining, liquidity) <= liquidity,
        liquidity > 0 ==> split_share(remaining, liquidity) * (liquidity + remaining) <= remaining
            * liquidity < (split_share(remaining, liquidity) + 1) * (liquidity + remaining),
        liquidity == 0 ==> split_share(remaining, liquidity) == remaining,
{
    if liquidity > 0 {
        let q = (remaining * liquidity) / (liquidity + remaining);
        assert(0 <= q <= remaining && q <= liquidity && q * (liquidity + remaining) <= remaining
            * liquidity < (q + 1) * (liquidity + remaining)) by (nonlinear_arith)
            requires
                q == (remaining * liquidity) / (liquidity + remaining),
                remaining > 0,
                liquidity > 0,
        ;
    }
}

/// The first share of a split goes where the whole order would be routed to, and what it
/// leaves is split over the other venues.
pub proof fn lemma_split_starts_with_best(router: SmartRouter, quantity: u64, n: nat)
    requires
        router.wf(),
        n > 0,
        quantity > 0,
        router.decision(quantity, true).venue_id != 0xFF,
    ensures
        ({
            let s = router.split(quantity, n, no_venues());
            let best = router.decision(quantity, true);
            let ask = router.venues@[best.venue_id as int].ask_liquidity as int;
            &&& s.len() > 0
            &&& s[0].venue_id == best.venue_id
            &&& s[0].available_liquidity == split_share(quantity as int, ask)
        }),
{
    lemma_best_venue(router, quantity, true);
    lemma_routed_to_best(router, quantity, true, no_venues());
    let best = router.decision(quantity, true);
    let ask = router.venues@[best.venue_id as int].ask_liquidity as int;
    lemma_share_in_proportion(quantity as int, ask);
    assert(best.available_liquidity == ask);
}

/// The penalty that a decision reports is that of the last venue that was looked at, and
/// none where there was no venue to look at or routing is off.
pub proof fn lemma_penalty_of_last_venue(
    router: SmartRouter,
    quantity: u64,
    is_buy: bool,
    used: Seq<bool>,
)
    ensures
        !router.routing_enabled || router.num_venues == 0 ==> router.decision_without(
            quantity,
            is_buy,
            used,
        ).penalty_applied == 0,
        router.routing_enabled && 1 <= router.num_venues <= 16 ==> router.decision_without(
            quantity,
            is_buy,
            used,
        ).penalty_applied == router.venues@[router.num_venues - 1].penalty(
            router.toxicity_penalty_bp,
        ) as u64,
{
}

} // verus!
