//! Cross-chain bridge liquidity, lock and unlock events, and arbitrage spreads.

use vstd::prelude::*;
use crate::fixed::{
    abs, abs_i64, best_above, bit_mask, div_i64, fits_i64, lemma_tdiv_rounds, pack_flags, seq_sum,
    sum_wide, tdiv,
};

verus! {

broadcast use vstd::array::group_array_axioms;

/// Maximum bridge pairs tracked.
pub const MAX_BRIDGES: usize = 16;

/// Fixed-point scaling factor (1e9).
pub const FP_SCALE: i64 = 1_000_000_000;

/// Basis points in the whole.
pub const BP_SCALE: i64 = 10_000;

/// Fee units in a basis point.
pub const FEE_PER_BP: i128 = 100;

/// Liquidity on both sides of each bridge.
#[derive(Debug)]
pub struct BridgeLiquidity {
    /// Available liquidity on source chain (fixed-point).
    pub source_liquidity: [i64; 16],
    /// Available liquidity on destination chain (fixed-point).
    pub dest_liquidity: [i64; 16],
    /// Locked amount pending transfer (fixed-point).
    pub locked_amount: [i64; 16],
    /// Last update timestamp (cycles).
    pub last_update: [u64; 16],
}

/// Lock and unlock events of each bridge.
#[derive(Debug)]
pub struct BridgeEventTracker {
    /// Total lock events per bridge.
    pub lock_count: [u64; 16],
    /// Total unlock events per bridge.
    pub unlock_count: [u64; 16],
    /// Total value locked (cumulative, fixed-point).
    pub total_value_locked: [i64; 16],
    /// Pending unlocks (fixed-point).
    pub pending_unlocks: [i64; 16],
}

/// Prices on both sides of each bridge.
#[derive(Debug)]
pub struct ArbitrageSpreadCalculator {
    /// Price on source chain (fixed-point).
    pub source_price: [i64; 16],
    /// Price on destination chain (fixed-point).
    pub dest_price: [i64; 16],
    /// Bridge fee (hundredths of a basis point).
    pub bridge_fee: [i64; 16],
    /// Last calculated spread (basis points).
    pub last_spread_bp: [i64; 16],
}

impl Default for BridgeLiquidity {
    fn default() -> (r: Self)
        ensures
            forall|i: int| 0 <= i < MAX_BRIDGES ==> r.source_liquidity@[i] == 0,
            forall|i: int| 0 <= i < MAX_BRIDGES ==> r.dest_liquidity@[i] == 0,
            forall|i: int| 0 <= i < MAX_BRIDGES ==> r.locked_amount@[i] == 0,
            forall|i: int| 0 <= i < MAX_BRIDGES ==> r.last_update@[i] == 0,
    {
        BridgeLiquidity {
            source_liquidity: [0i64;16],
            dest_liquidity: [0i64;16],
            locked_amount: [0i64;16],
            last_update: [0u64;16],
        }
    }
}

impl Default for BridgeEventTracker {
    fn default() -> (r: Self)
        ensures
            forall|i: int| 0 <= i < MAX_BRIDGES ==> r.lock_count@[i] == 0,
            forall|i: int| 0 <= i < MAX_BRIDGES ==> r.unlock_count@[i] == 0,
            forall|i: int| 0 <= i < MAX_BRIDGES ==> r.total_value_locked@[i] == 0,
            forall|i: int| 0 <= i < MAX_BRIDGES ==> r.pending_unlocks@[i] == 0,
    {
        BridgeEventTracker {
            lock_count: [0u64;16],
            unlock_count: [0u64;16],
            total_value_locked: [0i64;16],
            pending_unlocks: [0i64;16],
        }
    }
}

impl Default for ArbitrageSpreadCalculator {
    fn default() -> (r: Self)
        ensures
            forall|i: int| 0 <= i < MAX_BRIDGES ==> r.source_price@[i] == 0,
            forall|i: int| 0 <= i < MAX_BRIDGES ==> r.dest_price@[i] == 0,
            forall|i: int| 0 <= i < MAX_BRIDGES ==> r.bridge_fee@[i] == 0,
            forall|i: int| 0 <= i < MAX_BRIDGES ==> r.last_spread_bp@[i] == 0,
    {
        ArbitrageSpreadCalculator {
            source_price: [0i64;16],
            dest_price: [0i64;16],
            bridge_fee: [0i64;16],
            last_spread_bp: [0i64;16],
        }
    }
}

impl BridgeLiquidity {
    /// Start tracking a bridge at time `now`, with the same liquidity on both
    /// sides. An unknown bridge changes nothing.
    pub fn init_bridge(&mut self, bridge_id: usize, initial_liq: i64, now: u64)
        ensures
            bridge_id >= MAX_BRIDGES ==> *final(self) == *old(self),
            bridge_id < MAX_BRIDGES ==> {
                &&& final(self).source_liquidity@ == old(self).source_liquidity@.update(
                    bridge_id as int,
                    initial_liq,
                )
                &&& final(self).dest_liquidity@ == old(self).dest_liquidity@.update(
                    bridge_id as int,
                    initial_liq,
                )
                &&& final(self).locked_amount == old(self).locked_amount
                &&& final(self).last_update@ == old(self).last_update@.update(bridge_id as int, now)
            },
    {
        if bridge_id >= MAX_BRIDGES {
            return ;
        }
        self.source_liquidity[bridge_id] = initial_liq;
        self.dest_liquidity[bridge_id] = initial_liq;
        self.last_update[bridge_id] = now;
    }

    /// Record a lock event at time `now`: assets move from the source side to
    /// the locked amount. Refused for an unknown bridge and for more than the
    /// source side has.
    pub fn lock_assets(&mut self, bridge_id: usize, amount: i64, now: u64) -> (r: bool)
        ensures
            r == (bridge_id < MAX_BRIDGES && amount <= old(self).source_liquidity@[bridge_id as int]),
            !r ==> *final(self) == *old(self),
            r ==> {
                let i = bridge_id as int;
                &&& final(self).source_liquidity@ == old(self).source_liquidity@.update(
                    i,
                    old(self).source_liquidity@[i].wrapping_sub(amount),
                )
                &&& final(self).locked_amount@ == old(self).locked_amount@.update(
                    i,
                    old(self).locked_amount@[i].wrapping_add(amount),
                )
                &&& final(self).dest_liquidity == old(self).dest_liquidity
                &&& final(self).last_update@ == old(self).last_update@.update(i, now)
            },
    {
        if bridge_id >= MAX_BRIDGES {
            return false;
        }
        if amount > self.source_liquidity[bridge_id] {
            return false;
        }
        self.source_liquidity[bridge_id] = self.source_liquidity[bridge_id].wrapping_sub(amount);
        self.locked_amount[bridge_id] = self.locked_amount[bridge_id].wrapping_add(amount);
        self.last_update[bridge_id] = now;
        true
    }

    /// Record an unlock event at time `now`: assets move from the locked amount
    /// to the destination side. Refused for an unknown bridge and for more than
    /// is locked.
    pub fn unlock_assets(&mut self, bridge_id: usize, amount: i64, now: u64) -> (r: bool)
        ensures
            r == (bridge_id < MAX_BRIDGES && amount <= old(self).locked_amount@[bridge_id as int]),
            !r ==> *final(self) == *old(self),
            r ==> {
                let i = bridge_id as int;
                &&& final(self).locked_amount@ == old(self).locked_amount@.update(
                    i,
                    old(self).locked_amount@[i].wrapping_sub(amount),
                )
                &&& final(self).dest_liquidity@ == old(self).dest_liquidity@.update(
                    i,
                    old(self).dest_liquidity@[i].wrapping_add(amount),
                )
                &&& final(self).source_liquidity == old(self).source_liquidity
                &&& final(self).last_update@ == old(self).last_update@.update(i, now)
            },
    {
        if bridge_id >= MAX_BRIDGES {
            return false;
        }
        if amount > self.locked_amount[bridge_id] {
            return false;
        }
        self.locked_amount[bridge_id] = self.locked_amount[bridge_id].wrapping_sub(amount);
        self.dest_liquidity[bridge_id] = self.dest_liquidity[bridge_id].wrapping_add(amount);
        self.last_update[bridge_id] = now;
        true
    }

    /// Available liquidity on the source chain; zero for an unknown bridge.
    pub fn get_source_liquidity(&self, bridge_id: usize) -> (r: i64)
        ensures
            r == if bridge_id < MAX_BRIDGES {
                self.source_liquidity@[bridge_id as int]
            } else {
                0
            },
    {
        if bridge_id >= MAX_BRIDGES {
            return 0;
        }
        self.source_liquidity[bridge_id]
    }

    /// Available liquidity on the destination chain; zero for an unknown bridge.
    pub fn get_dest_liquidity(&self, bridge_id: usize) -> (r: i64)
        ensures
            r == if bridge_id < MAX_BRIDGES {
                self.dest_liquidity@[bridge_id as int]
            } else {
                0
            },
    {
        if bridge_id >= MAX_BRIDGES {
            return 0;
        }
        self.dest_liquidity[bridge_id]
    }

    /// Locked amount; zero for an unknown bridge.
    pub fn get_locked_amount(&self, bridge_id: usize) -> (r: i64)
        ensures
            r == if bridge_id < MAX_BRIDGES {
                self.locked_amount@[bridge_id as int]
            } else {
                0
            },
    {
        if bridge_id >= MAX_BRIDGES {
            return 0;
        }
        self.locked_amount[bridge_id]
    }

    /// Liquidity check across up to four bridges: bit `i` of the mask tells
    /// whether bridge `bridge_ids[i]` has at least `min_amount`.
    pub fn simd_check_liquidity<const N: usize>(&self, bridge_ids: [usize; N], min_amount: i64) -> (r:
        u32)
        requires
            N <= 4,
            forall|i: int| 0 <= i < N ==> bridge_ids@[i] < MAX_BRIDGES,
        ensures
            r == bit_mask(
                Seq::new(
                    N as nat,
                    |i: int| self.source_liquidity@[bridge_ids@[i] as int] >= min_amount,
                ),
            ),
    {
        let mut flags = [false;N];
        let mut i: usize = 0;
        while i < N
            invariant
                i <= N,
                forall|k: int| 0 <= k < N ==> bridge_ids@[k] < MAX_BRIDGES,
                forall|k: int|
                    0 <= k < i ==> flags@[k] == (self.source_liquidity@[bridge_ids@[k] as int]
                        >= min_amount),
            decreases N - i,
        {
            flags[i] = self.source_liquidity[bridge_ids[i]] >= min_amount;
            i = i + 1;
        }
        assert(flags@ =~= Seq::new(
            N as nat,
            |i: int| self.source_liquidity@[bridge_ids@[i] as int] >= min_amount,
        ));
        pack_flags(&flags)
    }

    /// Total liquidity across all bridges, both sides.
    pub fn total_liquidity(&self) -> (r: i64)
        requires
            fits_i64(seq_sum(self.source_liquidity@) + seq_sum(self.dest_liquidity@)),
        ensures
            r == seq_sum(self.source_liquidity@) + seq_sum(self.dest_liquidity@),
    {
        proof {
            lemma_sum_bound(self.source_liquidity@);
            lemma_sum_bound(self.dest_liquidity@);
        }
        let total: i128 = sum_wide(&self.source_liquidity) + sum_wide(&self.dest_liquidity);
        total as i64
    }
}

/// A sum of `n` numbers is no more than `n` times the largest number.
proof fn lemma_sum_bound(s: Seq<i64>)
    ensures
        s.len() * i64::MIN <= seq_sum(s) <= s.len() * i64::MAX,
    decreases s.len(),
{
    if s.len() > 0 {
        lemma_sum_bound(s.drop_last());
    }
}

/// Locking moves assets and neither makes nor loses any.
pub proof fn lemma_lock_conserves(source: i64, locked: i64, amount: i64)
    requires
        0 <= amount <= source,
        locked + amount <= i64::MAX,
    ensures
        source.wrapping_sub(amount) + locked.wrapping_add(amount) == source + locked,
        source.wrapping_sub(amount) >= 0,
{
}

/// Locking and then unlocking the same amount moves it from the source side to
/// the destination side, and leaves the locked amount as it was.
pub proof fn lemma_transfer(source: i64, locked: i64, dest: i64, amount: i64)
    requires
        0 <= amount <= source,
        0 <= locked,
        locked + amount <= i64::MAX,
        dest + amount <= i64::MAX,
    ensures
        amount <= locked.wrapping_add(amount),
        locked.wrapping_add(amount).wrapping_sub(amount) == locked,
        source.wrapping_sub(amount) == source - amount,
        dest.wrapping_add(amount) == dest + amount,
{
}

impl BridgeEventTracker {
    /// Record a lock event. An unknown bridge changes nothing.
    pub fn record_lock(&mut self, bridge_id: usize, amount: i64)
        ensures
            bridge_id >= MAX_BRIDGES ==> *final(self) == *old(self),
            bridge_id < MAX_BRIDGES ==> {
                let i = bridge_id as int;
                &&& final(self).lock_count@ == old(self).lock_count@.update(
                    i,
                    old(self).lock_count@[i].wrapping_add(1),
                )
                &&& final(self).unlock_count == old(self).unlock_count
                &&& final(self).total_value_locked@ == old(self).total_value_locked@.update(
                    i,
                    old(self).total_value_locked@[i].wrapping_add(amount),
                )
                &&& final(self).pending_unlocks@ == old(self).pending_unlocks@.update(
                    i,
                    old(self).pending_unlocks@[i].wrapping_add(amount),
                )
            },
    {
        if bridge_id >= MAX_BRIDGES {
            return ;
        }
        self.lock_count[bridge_id] = self.lock_count[bridge_id].wrapping_add(1);
        self.total_value_locked[bridge_id] = self.total_value_locked[bridge_id].wrapping_add(amount);
        self.pending_unlocks[bridge_id] = self.pending_unlocks[bridge_id].wrapping_add(amount);
    }

    /// Record an unlock event. What is pending does not fall below zero. An
    /// unknown bridge changes nothing.
    pub fn record_unlock(&mut self, bridge_id: usize, amount: i64)
        ensures
            bridge_id >= MAX_BRIDGES ==> *final(self) == *old(self),
            bridge_id < MAX_BRIDGES ==> {
                let i = bridge_id as int;
                let pending = old(self).pending_unlocks@[i];
                &&& final(self).lock_count == old(self).lock_count
                &&& final(self).unlock_count@ == old(self).unlock_count@.update(
                    i,
                    old(self).unlock_count@[i].wrapping_add(1),
                )
                &&& final(self).total_value_locked == old(self).total_value_locked
                &&& final(self).pending_unlocks@ == old(self).pending_unlocks@.update(
                    i,
                    if pending < amount {
                        0
                    } else {
                        pending.wrapping_sub(amount)
                    },
                )
            },
    {
        if bridge_id >= MAX_BRIDGES {
            return ;
        }
        self.unlock_count[bridge_id] = self.unlock_count[bridge_id].wrapping_add(1);
        let pending: i64 = self.pending_unlocks[bridge_id];
        if pending < amount {
            self.pending_unlocks[bridge_id] = 0;
        } else {
            self.pending_unlocks[bridge_id] = pending.wrapping_sub(amount);
        }
    }

    /// Lock events; zero for an unknown bridge.
    pub fn get_lock_count(&self, bridge_id: usize) -> (r: u64)
        ensures
            r == if bridge_id < MAX_BRIDGES {
                self.lock_count@[bridge_id as int]
            } else {
                0
            },
    {
        if bridge_id >= MAX_BRIDGES {
            return 0;
        }
        self.lock_count[bridge_id]
    }

    /// Unlock events; zero for an unknown bridge.
    pub fn get_unlock_count(&self, bridge_id: usize) -> (r: u64)
        ensures
            r == if bridge_id < MAX_BRIDGES {
                self.unlock_count@[bridge_id as int]
            } else {
                0
            },
    {
        if bridge_id >= MAX_BRIDGES {
            return 0;
        }
        self.unlock_count[bridge_id]
    }

    /// Total value locked; zero for an unknown bridge.
    pub fn get_tvl(&self, bridge_id: usize) -> (r: i64)
        ensures
            r == if bridge_id < MAX_BRIDGES {
                self.total_value_locked@[bridge_id as int]
            } else {
                0
            },
    {
        if bridge_id >= MAX_BRIDGES {
            return 0;
        }
        self.total_value_locked[bridge_id]
    }

    /// Pending unlocks; zero for an unknown bridge.
    pub fn get_pending_unlocks(&self, bridge_id: usize) -> (r: i64)
        ensures
            r == if bridge_id < MAX_BRIDGES {
                self.pending_unlocks@[bridge_id as int]
            } else {
                0
            },
    {
        if bridge_id >= MAX_BRIDGES {
            return 0;
        }
        self.pending_unlocks[bridge_id]
    }

    /// Locks per unlock (scaled by 1e9); without unlocks, zero if there are no
    /// locks either, else the largest number.
    pub fn get_lock_unlock_ratio(&self, bridge_id: usize) -> (r: i64)
        requires
            bridge_id < MAX_BRIDGES,
            self.unlock_count@[bridge_id as int] > 0 ==> self.lock_count@[bridge_id as int]
                * FP_SCALE <= i64::MAX,
        ensures
            ({
                let locks = self.lock_count@[bridge_id as int];
                let unlocks = self.unlock_count@[bridge_id as int];
                r == if unlocks == 0 {
                    if locks > 0 {
                        i64::MAX as int
                    } else {
                        0
                    }
                } else {
                    (locks * FP_SCALE) / (unlocks as int)
                }
            }),
    {
        let locks: u64 = self.lock_count[bridge_id];
        let unlocks: u64 = self.unlock_count[bridge_id];
        if unlocks == 0 {
            return if locks > 0 {
                i64::MAX
            } else {
                0
            };
        }
        let scaled: u64 = locks * FP_SCALE as u64;
        assert(scaled / unlocks <= scaled) by (nonlinear_arith)
            requires
                unlocks > 0,
        ;
        (scaled / unlocks) as i64
    }
}

/// Spread of `dest` over `source` in basis points.
pub open spec fn spread_bp(source: int, dest: int) -> int {
    tdiv((dest - source) * BP_SCALE, source)
}

impl ArbitrageSpreadCalculator {
    /// Whether the spread of a bridge is above its fee.
    pub open spec fn profitable(&self, i: int) -> bool {
        abs(self.last_spread_bp@[i] as int) * FEE_PER_BP > self.bridge_fee@[i]
    }

    /// Price at the destination less the price at the source.
    pub open spec fn gap(&self, i: int) -> int {
        self.dest_price@[i] - self.source_price@[i]
    }

    /// The price difference less the fee.
    pub open spec fn net_spread(&self, i: int) -> int {
        self.gap(i) - self.bridge_fee@[i]
    }

    /// The net amount, where its size is above the fee and the price difference pays
    /// the fee; else zero.
    pub open spec fn direction(&self, i: int) -> int {
        if abs(self.net_spread(i)) > self.bridge_fee@[i] && abs(self.gap(i))
            > self.bridge_fee@[i] {
            self.net_spread(i)
        } else {
            0
        }
    }

    /// The net amount is representable.
    pub open spec fn in_range(&self, i: int) -> bool {
        abs(self.direction(i)) <= i64::MAX
    }

    /// Update prices for a bridge pair. An unknown bridge changes nothing.
    pub fn update_prices(&mut self, bridge_id: usize, source: i64, dest: i64, fee: i64)
        requires
            bridge_id < MAX_BRIDGES && source > 0 ==> fits_i64(dest - source) && fits_i64(
                (dest - source) * BP_SCALE,
            ),
        ensures
            bridge_id >= MAX_BRIDGES ==> *final(self) == *old(self),
            bridge_id < MAX_BRIDGES ==> {
                let i = bridge_id as int;
                &&& final(self).source_price@ == old(self).source_price@.update(i, source)
                &&& final(self).dest_price@ == old(self).dest_price@.update(i, dest)
                &&& final(self).bridge_fee@ == old(self).bridge_fee@.update(i, fee)
                &&& final(self).last_spread_bp@ == old(self).last_spread_bp@.update(
                    i,
                    if source > 0 {
                        spread_bp(source as int, dest as int) as i64
                    } else {
                        0
                    },
                )
                &&& source > 0 ==> fits_i64(spread_bp(source as int, dest as int))
            },
    {
        if bridge_id >= MAX_BRIDGES {
            return ;
        }
        self.source_price[bridge_id] = source;
        self.dest_price[bridge_id] = dest;
        self.bridge_fee[bridge_id] = fee;
        let spread: i64 = if source > 0 {
            div_i64((dest - source) * BP_SCALE, source)
        } else {
            0
        };
        self.last_spread_bp[bridge_id] = spread;
    }

    /// Current spread in basis points; zero for an unknown bridge.
    pub fn get_spread_bp(&self, bridge_id: usize) -> (r: i64)
        ensures
            r == if bridge_id < MAX_BRIDGES {
                self.last_spread_bp@[bridge_id as int]
            } else {
                0
            },
    {
        if bridge_id >= MAX_BRIDGES {
            return 0;
        }
        self.last_spread_bp[bridge_id]
    }

    /// Check if an arbitrage opportunity exists: the spread, either way, is above
    /// the fee.
    pub fn is_arb_opportunity(&self, bridge_id: usize) -> (r: bool)
        ensures
            r == (bridge_id < MAX_BRIDGES && self.profitable(bridge_id as int)),
    {
        if bridge_id >= MAX_BRIDGES {
            return false;
        }
        let spread: i128 = self.last_spread_bp[bridge_id] as i128;
        let size: i128 = if spread < 0 {
            -spread
        } else {
            spread
        };
        size * FEE_PER_BP > self.bridge_fee[bridge_id] as i128
    }

    /// Profitable direction (positive = source to destination, negative = back): the
    /// price difference less the fee. Zero where the size of that is no more than the
    /// fee, or where the price difference does not pay the fee.
    pub fn get_arb_direction(&self, bridge_id: usize) -> (r: i64)
        requires
            bridge_id < MAX_BRIDGES ==> self.in_range(bridge_id as int),
        ensures
            r == if bridge_id < MAX_BRIDGES {
                self.direction(bridge_id as int)
            } else {
                0
            },
    {
        if bridge_id >= MAX_BRIDGES {
            return 0;
        }
        let fee: i128 = self.bridge_fee[bridge_id] as i128;
        let gap: i128 = self.dest_price[bridge_id] as i128 - self.source_price[bridge_id] as i128;
        let net: i128 = gap - fee;
        let gap_size: i128 = if gap < 0 {
            -gap
        } else {
            gap
        };
        let net_size: i128 = if net < 0 {
            -net
        } else {
            net
        };
        if net_size > fee && gap_size > fee {
            net as i64
        } else {
            0
        }
    }

    /// Spreads of up to four bridges in basis points; zero where the source price
    /// is zero. Element `i` is that of bridge `bridge_ids[i]`.
    pub fn simd_calc_spreads<const N: usize>(&self, bridge_ids: [usize; N]) -> (r: [i64; N])
        requires
            N <= 4,
            forall|i: int|
                0 <= i < N ==> {
                    let b = #[trigger] bridge_ids@[i] as int;
                    &&& b < MAX_BRIDGES
                    &&& self.source_price@[b] != 0 ==> {
                        &&& fits_i64(self.dest_price@[b] - self.source_price@[b])
                        &&& fits_i64((self.dest_price@[b] - self.source_price@[b]) * BP_SCALE)
                        &&& (self.dest_price@[b] - self.source_price@[b]) * BP_SCALE > i64::MIN
                    }
                },
        ensures
            forall|i: int|
                0 <= i < N ==> #[trigger] r@[i] == {
                    let b = bridge_ids@[i] as int;
                    if self.source_price@[b] != 0 {
                        spread_bp(self.source_price@[b] as int, self.dest_price@[b] as int)
                    } else {
                        0
                    }
                },
    {
        let mut spreads = [0i64;N];
        let mut i: usize = 0;
        while i < N
            invariant
                i <= N,
                forall|k: int|
                    0 <= k < N ==> {
                        let b = #[trigger] bridge_ids@[k] as int;
                        &&& b < MAX_BRIDGES
                        &&& self.source_price@[b] != 0 ==> {
                            &&& fits_i64(self.dest_price@[b] - self.source_price@[b])
                            &&& fits_i64((self.dest_price@[b] - self.source_price@[b]) * BP_SCALE)
                            &&& (self.dest_price@[b] - self.source_price@[b]) * BP_SCALE > i64::MIN
                        }
                    },
                forall|k: int| i <= k < N ==> spreads@[k] == 0,
                forall|k: int|
                    0 <= k < i ==> #[trigger] spreads@[k] == {
                        let b = bridge_ids@[k] as int;
                        if self.source_price@[b] != 0 {
                            spread_bp(self.source_price@[b] as int, self.dest_price@[b] as int)
                        } else {
                            0
                        }
                    },
            decreases N - i,
        {
            let b: usize = bridge_ids[i];
            let source: i64 = self.source_price[b];
            if source != 0 {
                spreads[i] = div_i64((self.dest_price[b] - source) * BP_SCALE, source);
            }
            i = i + 1;
        }
        spreads
    }

    /// Score of a bridge: the size of its net spread if it is an opportunity.
    pub open spec fn score(&self, i: int) -> int {
        if self.profitable(i) {
            abs(self.direction(i))
        } else {
            0
        }
    }

    /// Best opportunity across all bridges: the first one with the largest net
    /// spread, and its size.
    pub fn find_best_arb(&self) -> (r: Option<(usize, i64)>)
        requires
            forall|i: int| 0 <= i < MAX_BRIDGES ==> #[trigger] self.in_range(i),
        ensures
            match r {
                Some((idx, size)) => {
                    &&& idx < MAX_BRIDGES
                    &&& size == self.score(idx as int)
                    &&& size > 0
                    &&& forall|j: int| 0 <= j < MAX_BRIDGES ==> #[trigger] self.score(j) <= size
                    &&& forall|j: int| 0 <= j < idx ==> #[trigger] self.score(j) < size
                },
                None => forall|j: int| 0 <= j < MAX_BRIDGES ==> #[trigger] self.score(j) <= 0,
            },
    {
        let mut scores = [0i64;16];
        let mut i: usize = 0;
        while i < MAX_BRIDGES
            invariant
                i <= MAX_BRIDGES,
                forall|k: int| 0 <= k < MAX_BRIDGES ==> #[trigger] self.in_range(k),
                forall|k: int| i <= k < MAX_BRIDGES ==> scores@[k] == 0,
                forall|k: int| 0 <= k < i ==> #[trigger] scores@[k] == self.score(k),
            decreases MAX_BRIDGES - i,
        {
            assert(self.in_range(i as int));
            if self.is_arb_opportunity(i) {
                scores[i] = abs_i64(self.get_arb_direction(i));
            }
            i = i + 1;
        }
        let best = best_above(&scores, 0);
        assert(forall|k: int| 0 <= k < MAX_BRIDGES ==> scores@[k] == #[trigger] self.score(k));
        match best {
            Some(idx) => Some((idx, scores[idx])),
            None => None,
        }
    }
}

/// A direction is only given where the price difference pays the fee, and it points from
/// the lower price to the higher one. It is given wherever the difference is more than
/// twice the fee.
pub proof fn lemma_direction_pays(c: ArbitrageSpreadCalculator, i: int)
    requires
        0 <= i < MAX_BRIDGES,
        c.bridge_fee@[i] >= 0,
    ensures
        c.direction(i) != 0 ==> abs(c.gap(i)) > c.bridge_fee@[i],
        c.direction(i) > 0 ==> c.dest_price@[i] > c.source_price@[i],
        c.direction(i) < 0 ==> c.dest_price@[i] < c.source_price@[i],
        abs(c.gap(i)) > 2 * c.bridge_fee@[i] ==> c.direction(i) != 0,
{
}

/// The spread is the rise from source to destination in basis points of the source,
/// rounded toward zero: positive exactly where the destination is higher by a basis point
/// or more.
pub proof fn lemma_spread_in_basis_points(source: int, dest: int)
    requires
        source > 0,
    ensures
        ({
            let rise = (dest - source) * 10_000;
            let s = spread_bp(source, dest);
            &&& dest >= source ==> s * source <= rise < (s + 1) * source
            &&& dest <= source ==> (s - 1) * source < rise <= s * source
        }),
{
    let rise = (dest - source) * 10_000;
    lemma_tdiv_rounds(rise, source);
    let s = tdiv(rise, source);
    assert((s + 1) * source == s * source + source && (s - 1) * source == s * source - source)
        by (nonlinear_arith);
}

/// A spread pays where each basis point of it, in either direction, counts a hundred
/// against the fee.
pub proof fn lemma_profitable_when(c: ArbitrageSpreadCalculator, i: int)
    requires
        0 <= i < 16,
    ensures
        c.profitable(i) == (c.last_spread_bp@[i] * 100 > c.bridge_fee@[i] || -(c.last_spread_bp@[i]
            * 100) > c.bridge_fee@[i]),
{
}

/// The direction is the rise from source to destination less the fee where the rise is
/// more than twice the fee or the fall more than the fee, and zero otherwise.
pub proof fn lemma_direction_value(c: ArbitrageSpreadCalculator, i: int)
    requires
        0 <= i < 16,
        c.bridge_fee@[i] >= 0,
    ensures
        ({
            let gap = c.dest_price@[i] - c.source_price@[i];
            let fee = c.bridge_fee@[i];
            &&& gap > 2 * fee || gap < -fee ==> c.direction(i) == gap - fee
            &&& -fee <= gap <= 2 * fee ==> c.direction(i) == 0
        }),
{
}

} // verus!
