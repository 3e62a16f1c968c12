//! Arbitrage between venues: a bid at one venue above an ask at another.

use vstd::prelude::*;
use crate::fixed::{div_i128, fits_i64, min, tdiv};

verus! {

broadcast use vstd::array::group_array_axioms;

/// Scaled price.
pub type FixedPrice = i64;

/// Scaled quantity.
pub type FixedQty = i64;

/// Time.
pub type TscTicks = u64;

/// Maximum number of venues.
pub const MAX_VENUES: usize = 8;

/// Age from which on prices are no longer fresh.
pub const FRESHNESS_TICKS: u64 = 100_000;

/// Tenths of a basis point in one.
pub const SPREAD_SCALE: i128 = 100_000;

/// Length of the window of the circuit breaker.
pub const WINDOW_TICKS: u64 = 3_000_000_000;

/// Prices of a venue.
#[derive(Debug, Clone, Copy)]
pub struct VenuePrice {
    /// Venue.
    pub venue_id: u32,
    /// Bid.
    pub bid_price: FixedPrice,
    /// Ask.
    pub ask_price: FixedPrice,
    /// Quantity at the bid.
    pub bid_qty: FixedQty,
    /// Quantity at the ask.
    pub ask_qty: FixedQty,
    /// Time of the prices.
    pub last_update_ticks: TscTicks,
    /// Prices are stale.
    pub stale_flag: bool,
}

impl VenuePrice {
    /// Venue without prices.
    pub open spec fn spec_new(venue_id: u32) -> Self {
        VenuePrice {
            venue_id,
            bid_price: 0,
            ask_price: i64::MAX,
            bid_qty: 0,
            ask_qty: 0,
            last_update_ticks: 0,
            stale_flag: false,
        }
    }

    /// Venue without prices.
    pub fn new(venue_id: u32) -> (r: Self)
        ensures
            r == Self::spec_new(venue_id),
    {
        VenuePrice {
            venue_id,
            bid_price: 0,
            ask_price: i64::MAX,
            bid_qty: 0,
            ask_qty: 0,
            last_update_ticks: 0,
            stale_flag: false,
        }
    }

    /// Take a bid that came at time `now`.
    pub fn update_bid(&mut self, price: FixedPrice, qty: FixedQty, now: TscTicks)
        ensures
            *final(self) == (VenuePrice {
                bid_price: price,
                bid_qty: qty,
                last_update_ticks: now,
                stale_flag: false,
                ..*old(self)
            }),
    {
        self.bid_price = price;
        self.bid_qty = qty;
        self.last_update_ticks = now;
        self.stale_flag = false;
    }

    /// Take an ask that came at time `now`.
    pub fn update_ask(&mut self, price: FixedPrice, qty: FixedQty, now: TscTicks)
        ensures
            *final(self) == (VenuePrice {
                ask_price: price,
                ask_qty: qty,
                last_update_ticks: now,
                stale_flag: false,
                ..*old(self)
            }),
    {
        self.ask_price = price;
        self.ask_qty = qty;
        self.last_update_ticks = now;
        self.stale_flag = false;
    }

    /// The prices are recent at time `now`.
    pub open spec fn spec_is_fresh(&self, now: TscTicks) -> bool {
        now.wrapping_sub(self.last_update_ticks) < FRESHNESS_TICKS
    }

    /// Check if the prices are recent at time `now`.
    pub fn is_fresh(&self, now: TscTicks) -> (r: bool)
        ensures
            r == self.spec_is_fresh(now),
    {
        now.wrapping_sub(self.last_update_ticks) < FRESHNESS_TICKS
    }

    /// Bid that counts: a recent one that is not stale; zero if there is none.
    pub open spec fn live_bid(&self, now: TscTicks) -> i64 {
        if self.spec_is_fresh(now) && !self.stale_flag {
            self.bid_price
        } else {
            0
        }
    }

    /// Ask that counts: a recent one, stale or not; the largest price if there is none.
    pub open spec fn live_ask(&self, now: TscTicks) -> i64 {
        if self.spec_is_fresh(now) {
            self.ask_price
        } else {
            i64::MAX
        }
    }
}

/// What a scan has found among the first venues.
#[derive(Debug, Clone, Copy)]
pub struct Found {
    /// Highest bid; zero if there is none.
    pub bid: FixedPrice,
    /// Venue of the highest bid.
    pub bid_venue: u32,
    /// Lowest ask; the largest price if there is none.
    pub ask: FixedPrice,
    /// Venue of the lowest ask.
    pub ask_venue: u32,
    /// Quantity: that at the bid found last, or at an ask found after it if that is
    /// less.
    pub qty: FixedQty,
}

impl Found {
    /// Nothing was found.
    pub open spec fn spec_nothing() -> Self {
        Found { bid: 0, bid_venue: 0, ask: i64::MAX, ask_venue: 0, qty: 0 }
    }

    /// What is found with one more venue. A price replaces another only if it is
    /// better.
    pub open spec fn with(self, venue: VenuePrice, now: TscTicks) -> Self {
        let bid = venue.live_bid(now);
        let ask = venue.live_ask(now);
        let a = if bid > self.bid {
            Found { bid, bid_venue: venue.venue_id, qty: venue.bid_qty, ..self }
        } else {
            self
        };
        if ask < self.ask {
            Found {
                ask,
                ask_venue: venue.venue_id,
                qty: min(a.qty as int, venue.ask_qty as int) as i64,
                ..a
            }
        } else {
            a
        }
    }
}

/// What is found among the first `n` venues.
pub open spec fn scan(venues: Seq<VenuePrice>, n: nat, now: TscTicks) -> Found
    decreases n,
{
    if n == 0 {
        Found::spec_nothing()
    } else {
        scan(venues, (n - 1) as nat, now).with(venues[n - 1], now)
    }
}

/// A scan finds the highest bid above zero and the lowest ask of the venues whose
/// prices count, each at the first venue that has it.
pub proof fn lemma_scan_finds_best(venues: Seq<VenuePrice>, n: nat, now: TscTicks)
    requires
        n <= venues.len(),
    ensures
        ({
            let f = scan(venues, n, now);
            &&& 0 <= f.bid
            &&& forall|i: int| 0 <= i < n ==> (#[trigger] venues[i]).live_bid(now) <= f.bid
            &&& forall|i: int| 0 <= i < n ==> (#[trigger] venues[i]).live_ask(now) >= f.ask
            &&& f.bid > 0 ==> exists|i: int|
                {
                    &&& 0 <= i < n
                    &&& (#[trigger] venues[i]).live_bid(now) == f.bid
                    &&& venues[i].venue_id == f.bid_venue
                    &&& forall|j: int| 0 <= j < i ==> (#[trigger] venues[j]).live_bid(now) < f.bid
                }
            &&& f.ask < i64::MAX ==> exists|i: int|
                {
                    &&& 0 <= i < n
                    &&& (#[trigger] venues[i]).live_ask(now) == f.ask
                    &&& venues[i].venue_id == f.ask_venue
                    &&& forall|j: int| 0 <= j < i ==> (#[trigger] venues[j]).live_ask(now) > f.ask
                }
        }),
    decreases n,
{
    if n > 0 {
        lemma_scan_finds_best(venues, (n - 1) as nat, now);
    }
}

/// Detector of arbitrage between venues.
#[derive(Debug)]
pub struct ArbitrageSniper {
    /// Prices of the venues.
    pub venues: [VenuePrice; 8],
    /// Number of venues.
    pub venue_count: u8,
    /// Smallest spread that counts, in tenths of a basis point.
    pub min_spread_bps: u64,
    /// Detection is on.
    pub enabled: bool,
    /// Signals so far.
    pub signals_generated: u64,
    /// Time of the last signal.
    pub last_signal_ticks: TscTicks,
}

impl ArbitrageSniper {
    /// There are no more venues than places.
    pub open spec fn wf(&self) -> bool {
        self.venue_count <= MAX_VENUES
    }

    /// Detector without venues, switched off.
    pub fn new(min_spread_bps: u64) -> (r: Self)
        ensures
            r.wf(),
            forall|i: int| 0 <= i < MAX_VENUES ==> r.venues@[i] == VenuePrice::spec_new(0),
            r.venue_count == 0,
            r.min_spread_bps == min_spread_bps,
            !r.enabled,
            r.signals_generated == 0,
            r.last_signal_ticks == 0,
    {
        ArbitrageSniper {
            venues: [VenuePrice::new(0);8],
            venue_count: 0,
            min_spread_bps,
            enabled: false,
            signals_generated: 0,
            last_signal_ticks: 0,
        }
    }

    /// Register a venue. Fails if there is no place left.
    pub fn register_venue(&mut self, venue_id: u32) -> (r: bool)
        requires
            old(self).wf(),
        ensures
            final(self).wf(),
            r == (old(self).venue_count < MAX_VENUES),
            r ==> final(self).venues@ == old(self).venues@.update(
                old(self).venue_count as int,
                VenuePrice::spec_new(venue_id),
            ) && *final(self) == (ArbitrageSniper {
                venues: final(self).venues,
                venue_count: (old(self).venue_count + 1) as u8,
                ..*old(self)
            }),
            !r ==> *final(self) == *old(self),
    {
        let count: usize = self.venue_count as usize;
        if count >= MAX_VENUES {
            return false;
        }
        self.venues[count] = VenuePrice::new(venue_id);
        self.venue_count = self.venue_count + 1;
        true
    }

    /// What is found among all venues.
    pub open spec fn found(&self, now: TscTicks) -> Found {
        scan(self.venues@, self.venue_count as nat, now)
    }

    /// Spread between the highest bid and the lowest ask.
    pub open spec fn spread(&self, now: TscTicks) -> int {
        self.found(now).bid - self.found(now).ask
    }

    /// Middle between the highest bid and the lowest ask.
    pub open spec fn mid(&self, now: TscTicks) -> int {
        tdiv(self.found(now).bid + self.found(now).ask, 2)
    }

    /// The venues are crossed: detection is on, and the highest bid is above the
    /// lowest ask.
    pub open spec fn crossed(&self, now: TscTicks) -> bool {
        &&& self.enabled
        &&& self.venue_count >= 2
        &&& self.found(now).bid > 0
        &&& self.found(now).ask < i64::MAX
        &&& self.spread(now) > 0
    }

    /// There is an opportunity: the venues are crossed, and the spread is large
    /// enough in relation to the middle.
    pub open spec fn opportunity(&self, now: TscTicks) -> bool {
        self.crossed(now) && tdiv(self.spread(now) * SPREAD_SCALE, self.mid(now))
            >= self.min_spread_bps
    }

    /// Scan for arbitrage at time `now`. Gives the venue to buy at, the venue to sell
    /// at, the spread and the quantity.
    pub fn scan_for_arb(&mut self, now: TscTicks) -> (r: Option<(u32, u32, FixedPrice, FixedQty)>)
        requires
            old(self).wf(),
            old(self).crossed(now) ==> old(self).mid(now) != 0 && fits_i64(old(self).spread(now)),
        ensures
            final(self).wf(),
            r == if old(self).opportunity(now) {
                let f = old(self).found(now);
                Some((f.ask_venue, f.bid_venue, old(self).spread(now) as i64, f.qty))
            } else {
                None
            },
            *final(self) == if old(self).opportunity(now) {
                ArbitrageSniper {
                    signals_generated: old(self).signals_generated.wrapping_add(1),
                    last_signal_ticks: now,
                    ..*old(self)
                }
            } else {
                *old(self)
            },
            r matches Some((buy, sell, gain, _)) ==> gain > 0 && exists|i: int, j: int|
                {
                    &&& 0 <= i < old(self).venue_count
                    &&& 0 <= j < old(self).venue_count
                    &&& (#[trigger] old(self).venues@[i]).venue_id == buy
                    &&& (#[trigger] old(self).venues@[j]).venue_id == sell
                    &&& old(self).venues@[j].bid_price - old(self).venues@[i].ask_price == gain
                },
    {
        proof {
            let (b, a) = lemma_scan_quantity(self.venues@, self.venue_count as nat, now);
            if self.opportunity(now) {
                assert(self.venues@[b].venue_id == self.found(now).bid_venue);
                assert(self.venues@[a].venue_id == self.found(now).ask_venue);
            }
        }
        if !self.enabled {
            return None;
        }
        let count: usize = self.venue_count as usize;
        if count < 2 {
            return None;
        }
        let mut found = Found { bid: 0, bid_venue: 0, ask: i64::MAX, ask_venue: 0, qty: 0 };
        let mut i: usize = 0;
        while i < count
            invariant
                i <= count <= MAX_VENUES,
                *self == *old(self),
                found == scan(self.venues@, i as nat, now),
                0 <= found.bid,
            decreases count - i,
        {
            let venue = self.venues[i];
            if venue.is_fresh(now) {
                let ask_before: i64 = found.ask;
                if !venue.stale_flag && venue.bid_price > found.bid {
                    found.bid = venue.bid_price;
                    found.bid_venue = venue.venue_id;
                    found.qty = venue.bid_qty;
                }
                if venue.ask_price < ask_before {
                    found.ask = venue.ask_price;
                    found.ask_venue = venue.venue_id;
                    if venue.ask_qty < found.qty {
                        found.qty = venue.ask_qty;
                    }
                }
            }
            i = i + 1;
        }
        if found.bid == 0 || found.ask == i64::MAX {
            return None;
        }
        if found.bid > found.ask {
            let spread: i128 = found.bid as i128 - found.ask as i128;
            let mid: i128 = div_i128(found.bid as i128 + found.ask as i128, 2);
            let spread_bps: i128 = div_i128(spread * SPREAD_SCALE, mid);
            if spread_bps >= self.min_spread_bps as i128 {
                self.signals_generated = self.signals_generated.wrapping_add(1);
                self.last_signal_ticks = now;
                return Some((found.ask_venue, found.bid_venue, spread as i64, found.qty));
            }
        }
        None
    }

    /// Switch detection on.
    pub fn enable(&mut self)
        ensures
            *final(self) == (ArbitrageSniper { enabled: true, ..*old(self) }),
    {
        self.enabled = true;
    }

    /// Switch detection off.
    pub fn disable(&mut self)
        ensures
            *final(self) == (ArbitrageSniper { enabled: false, ..*old(self) }),
    {
        self.enabled = false;
    }
}

/// Circuit breaker for signals.
#[derive(Debug, Clone, Copy)]
pub struct ArbCircuitBreaker {
    /// Signals that pass in a window.
    pub max_signals_per_second: u64,
    /// Signals in the current window.
    pub signal_count: u64,
    /// Start of the current window.
    pub window_start_ticks: TscTicks,
    /// Breaker is tripped.
    pub tripped: bool,
    /// Times it was tripped.
    pub trip_count: u64,
}

impl ArbCircuitBreaker {
    /// Breaker that lets a number of signals pass in a window.
    pub fn new(max_sps: u64) -> (r: Self)
        ensures
            r == (ArbCircuitBreaker {
                max_signals_per_second: max_sps,
                signal_count: 0,
                window_start_ticks: 0,
                tripped: false,
                trip_count: 0,
            }),
    {
        ArbCircuitBreaker {
            max_signals_per_second: max_sps,
            signal_count: 0,
            window_start_ticks: 0,
            tripped: false,
            trip_count: 0,
        }
    }

    /// The window is over at time `now`.
    pub open spec fn window_over(&self, now: TscTicks) -> bool {
        now.wrapping_sub(self.window_start_ticks) > WINDOW_TICKS
    }

    /// A signal at time `now` passes: the breaker is not tripped, and the signal
    /// starts a window or is within the limit of the current one.
    pub open spec fn passes(&self, now: TscTicks) -> bool {
        !self.tripped && (self.window_over(now) || self.signal_count + 1
            <= self.max_signals_per_second)
    }

    /// Breaker after a signal at time `now`.
    pub open spec fn recorded(self, now: TscTicks) -> Self {
        if self.tripped {
            self
        } else if self.window_over(now) {
            ArbCircuitBreaker { window_start_ticks: now, signal_count: 1, ..self }
        } else if self.passes(now) {
            ArbCircuitBreaker { signal_count: (self.signal_count + 1) as u64, ..self }
        } else {
            ArbCircuitBreaker {
                signal_count: (self.signal_count + 1) as u64,
                tripped: true,
                trip_count: self.trip_count.wrapping_add(1),
                ..self
            }
        }
    }

    /// Check if a signal at time `now` passes, and record it. A signal above the
    /// limit trips the breaker.
    pub fn check_and_record(&mut self, now: TscTicks) -> (r: bool)
        requires
            !old(self).tripped && !old(self).window_over(now) ==> old(self).signal_count < u64::MAX,
        ensures
            r == old(self).passes(now),
            *final(self) == old(self).recorded(now),
    {
        if self.tripped {
            return false;
        }
        if now.wrapping_sub(self.window_start_ticks) > WINDOW_TICKS {
            self.window_start_ticks = now;
            self.signal_count = 1;
            return true;
        }
        self.signal_count = self.signal_count + 1;
        if self.signal_count > self.max_signals_per_second {
            self.tripped = true;
            self.trip_count = self.trip_count.wrapping_add(1);
            return false;
        }
        true
    }

    /// Close the breaker, and count the signals of the window anew.
    pub fn reset(&mut self)
        ensures
            *final(self) == (ArbCircuitBreaker { tripped: false, signal_count: 0, ..*old(self) }),
    {
        self.tripped = false;
        self.signal_count = 0;
    }
}

/// Within a window no more signals pass than the limit: a signal that passes without
/// starting a window keeps the count within it.
pub proof fn lemma_signals_limited(b: ArbCircuitBreaker, now: TscTicks)
    requires
        b.passes(now),
        !b.window_over(now),
    ensures
        b.recorded(now).signal_count <= b.max_signals_per_second,
        b.recorded(now).signal_count == b.signal_count + 1,
{
}

/// A tripped breaker lets nothing pass until it is reset.
pub proof fn lemma_tripped_stays(b: ArbCircuitBreaker, now: TscTicks)
    requires
        b.tripped,
    ensures
        !b.passes(now),
        b.recorded(now) == b,
{
}

/// Prices count for 100000 ticks; a stale mark takes the bid out, but not the ask.
pub proof fn lemma_prices_that_count(v: VenuePrice, now: TscTicks)
    requires
        now >= v.last_update_ticks,
    ensures
        ({
            let recent = now - v.last_update_ticks < 100_000;
            &&& recent && !v.stale_flag ==> v.live_bid(now) == v.bid_price
            &&& !recent || v.stale_flag ==> v.live_bid(now) == 0
            &&& recent ==> v.live_ask(now) == v.ask_price
            &&& !recent ==> v.live_ask(now) == 0x7fff_ffff_ffff_ffff
        }),
{
}

/// The quantity that a scan gives never exceeds that at the bid found, and where the ask
/// was found at the same venue or a later one, it does not exceed that at the ask; where
/// the ask was found before, it is all that is bid for. Gives the places of both.
pub proof fn lemma_scan_quantity(venues: Seq<VenuePrice>, n: nat, now: TscTicks) -> (r: (int, int))
    requires
        n <= venues.len(),
    ensures
        ({
            let f = scan(venues, n, now);
            &&& f.bid > 0 ==> {
                &&& 0 <= r.0 < n
                &&& venues[r.0].live_bid(now) == f.bid
                &&& venues[r.0].venue_id == f.bid_venue
                &&& f.qty <= venues[r.0].bid_qty
            }
            &&& f.ask < i64::MAX ==> {
                &&& 0 <= r.1 < n
                &&& venues[r.1].live_ask(now) == f.ask
                &&& venues[r.1].venue_id == f.ask_venue
            }
            &&& f.bid > 0 && f.ask < i64::MAX && r.1 >= r.0 ==> f.qty <= venues[r.1].ask_qty
            &&& f.bid > 0 && r.1 < r.0 ==> f.qty == venues[r.0].bid_qty
            &&& f.bid >= 0
            &&& f.ask == i64::MAX ==> r.1 == -1
            &&& f.bid == 0 ==> r.0 == -1
        }),
    decreases n,
{
    if n == 0 {
        (-1, -1)
    } else {
        let m = (n - 1) as nat;
        let (b, a) = lemma_scan_quantity(venues, m, now);
        let f = scan(venues, m, now);
        let v = venues[n - 1];
        let b2 = if v.live_bid(now) > f.bid {
            n - 1
        } else {
            b
        };
        let a2 = if v.live_ask(now) < f.ask {
            n - 1
        } else {
            a
        };
        (b2, a2)
    }
}

/// There is an opportunity exactly where detection is on, two venues or more are there,
/// the highest bid is above the lowest ask, and the spread is at least the given number
/// of hundred-thousandths of the middle of the two.
pub proof fn lemma_opportunity(s: ArbitrageSniper, now: TscTicks, mid: int)
    requires
        mid > 0,
        s.found(now).ask >= 0,
        2 * mid <= s.found(now).bid + s.found(now).ask < 2 * mid + 2,
    ensures
        s.opportunity(now) <==> {
            &&& s.enabled
            &&& s.venue_count >= 2
            &&& s.found(now).bid > 0
            &&& s.found(now).ask < 0x7fff_ffff_ffff_ffff
            &&& s.found(now).bid > s.found(now).ask
            &&& (s.found(now).bid - s.found(now).ask) * 100_000 >= s.min_spread_bps * mid
        },
{
    let f = s.found(now);
    let spread = f.bid - f.ask;
    if spread > 0 {
        let x = spread * 100_000;
        let m = s.min_spread_bps as int;
        assert(s.mid(now) == mid);
        let q = x / mid;
        assert((q >= m) == (x >= m * mid)) by (nonlinear_arith)
            requires
                q == x / mid,
                mid > 0,
                x >= 0,
        ;
    }
}

/// Within three billion ticks from its start a window lasts on, and lets as many signals
/// pass as the limit; afterwards the next signal starts a new one.
pub proof fn lemma_window(b: ArbCircuitBreaker, now: TscTicks)
    requires
        now >= b.window_start_ticks,
        !b.tripped,
    ensures
        ({
            let over = now - b.window_start_ticks > 3_000_000_000;
            &&& b.passes(now) == (over || b.signal_count < b.max_signals_per_second)
            &&& over ==> b.recorded(now).signal_count == 1 && b.recorded(now).window_start_ticks
                == now && !b.recorded(now).tripped
            &&& !over ==> b.recorded(now).window_start_ticks == b.window_start_ticks
            &&& b.recorded(now).tripped == !b.passes(now)
        }),
{
}

} // verus!
