//! Sequencer health and batch submission of layer 2 chains.

use vstd::prelude::*;
use crate::fixed::{best_above, bit_mask, max, min, pack_flags};

verus! {

broadcast use vstd::array::group_array_axioms;

/// Maximum L2 chains tracked.
pub const MAX_L2_CHAINS: usize = 8;

/// Score of full health (100, scaled by 1e6).
pub const FULL_HEALTH: i64 = 100_000_000;

/// One, scaled by 1e6.
pub const MICRO: u64 = 1_000_000;

/// L2 chain identifiers.
#[allow(non_camel_case_types)]
#[derive(Debug, Clone, Copy, PartialEq, Eq, Structural)]
pub enum L2Chain {
    Arbitrum,
    Optimism,
    Base,
    zkSync,
    Starknet,
    PolygonZK,
    Linea,
    Scroll,
}

impl L2Chain {
    /// Row of the chain in the tables.
    pub open spec fn spec_index(self) -> int {
        match self {
            L2Chain::Arbitrum => 0,
            L2Chain::Optimism => 1,
            L2Chain::Base => 2,
            L2Chain::zkSync => 3,
            L2Chain::Starknet => 4,
            L2Chain::PolygonZK => 5,
            L2Chain::Linea => 6,
            L2Chain::Scroll => 7,
        }
    }

    /// Row of the chain in the tables.
    pub fn index(self) -> (r: usize)
        ensures
            r == self.spec_index(),
            r < MAX_L2_CHAINS,
    {
        match self {
            L2Chain::Arbitrum => 0,
            L2Chain::Optimism => 1,
            L2Chain::Base => 2,
            L2Chain::zkSync => 3,
            L2Chain::Starknet => 4,
            L2Chain::PolygonZK => 5,
            L2Chain::Linea => 6,
            L2Chain::Scroll => 7,
        }
    }

    /// Chain of a row.
    pub fn from_index(i: usize) -> (r: Self)
        requires
            i < MAX_L2_CHAINS,
        ensures
            r.spec_index() == i,
    {
        match i {
            0 => L2Chain::Arbitrum,
            1 => L2Chain::Optimism,
            2 => L2Chain::Base,
            3 => L2Chain::zkSync,
            4 => L2Chain::Starknet,
            5 => L2Chain::PolygonZK,
            6 => L2Chain::Linea,
            _ => L2Chain::Scroll,
        }
    }
}

/// Health of the sequencer of each chain.
#[derive(Debug)]
pub struct L2SequencerHealth {
    /// Sequencer active flag.
    pub is_active: [bool; 8],
    /// Last heartbeat timestamp (cycles).
    pub last_heartbeat: [u64; 8],
    /// Batch submission latency (microseconds).
    pub batch_latency_us: [u64; 8],
    /// Pending batch count.
    pub pending_batches: [u64; 8],
    /// Health score (0-100 scaled by 1e6).
    pub health_score: [i64; 8],
}

/// Batch submissions of each chain.
#[derive(Debug)]
pub struct BatchSubmissionTracker {
    /// Total batches submitted per chain.
    pub total_submitted: [u64; 8],
    /// Failed submissions per chain.
    pub failed_submissions: [u64; 8],
    /// Average batch size (bytes).
    pub avg_batch_size: [u64; 8],
    /// Last batch L1 block number.
    pub last_l1_block: [u64; 8],
    /// Gas used for last batch.
    pub last_batch_gas: [u64; 8],
}

impl Default for L2SequencerHealth {
    fn default() -> (r: Self)
        ensures
            forall|i: int| 0 <= i < MAX_L2_CHAINS ==> !r.is_active@[i],
            forall|i: int| 0 <= i < MAX_L2_CHAINS ==> r.last_heartbeat@[i] == 0,
            forall|i: int| 0 <= i < MAX_L2_CHAINS ==> r.batch_latency_us@[i] == 0,
            forall|i: int| 0 <= i < MAX_L2_CHAINS ==> r.pending_batches@[i] == 0,
            forall|i: int| 0 <= i < MAX_L2_CHAINS ==> r.health_score@[i] == 0,
    {
        L2SequencerHealth {
            is_active: [false;8],
            last_heartbeat: [0u64;8],
            batch_latency_us: [0u64;8],
            pending_batches: [0u64;8],
            health_score: [0i64;8],
        }
    }
}

impl Default for BatchSubmissionTracker {
    fn default() -> (r: Self)
        ensures
            forall|i: int| 0 <= i < MAX_L2_CHAINS ==> r.total_submitted@[i] == 0,
            forall|i: int| 0 <= i < MAX_L2_CHAINS ==> r.failed_submissions@[i] == 0,
            forall|i: int| 0 <= i < MAX_L2_CHAINS ==> r.avg_batch_size@[i] == 0,
            forall|i: int| 0 <= i < MAX_L2_CHAINS ==> r.last_l1_block@[i] == 0,
            forall|i: int| 0 <= i < MAX_L2_CHAINS ==> r.last_batch_gas@[i] == 0,
    {
        BatchSubmissionTracker {
            total_submitted: [0u64;8],
            failed_submissions: [0u64;8],
            avg_batch_size: [0u64;8],
            last_l1_block: [0u64;8],
            last_batch_gas: [0u64;8],
        }
    }
}

/// Health that a backlog leaves at most: one percent is lost for every ten
/// pending batches.
pub open spec fn backlog_health(count: int) -> int {
    max(FULL_HEALTH - (count / 10) * MICRO, 0)
}

/// Moving average with the newest value weighing a quarter.
pub open spec fn quarter_average(avg: int, value: int) -> int {
    (avg * 3 + value) / 4
}

/// A moving average lies between the average before and the new value.
pub proof fn lemma_average_between(avg: int, value: int)
    ensures
        min(avg, value) <= quarter_average(avg, value) <= max(avg, value),
{
}

impl L2SequencerHealth {
    /// Whether the sequencer in row `i` is active and its last heartbeat less
    /// than `max_age` cycles old.
    pub open spec fn healthy(&self, i: int, max_age: u64, now: u64) -> bool {
        self.is_active@[i] && now.wrapping_sub(self.last_heartbeat@[i]) < max_age
    }

    /// Start health tracking for a chain at time `now`.
    pub fn init_chain(&mut self, chain: L2Chain, initial_health: i64, now: u64)
        ensures
            final(self).is_active@ == old(self).is_active@.update(chain.spec_index(), true),
            final(self).last_heartbeat@ == old(self).last_heartbeat@.update(chain.spec_index(), now),
            final(self).health_score@ == old(self).health_score@.update(
                chain.spec_index(),
                initial_health,
            ),
            final(self).batch_latency_us == old(self).batch_latency_us,
            final(self).pending_batches == old(self).pending_batches,
    {
        let idx: usize = chain.index();
        self.is_active[idx] = true;
        self.last_heartbeat[idx] = now;
        self.health_score[idx] = initial_health;
    }

    /// Note a heartbeat of a chain at time `now`.
    pub fn heartbeat(&mut self, chain: L2Chain, now: u64)
        ensures
            final(self).last_heartbeat@ == old(self).last_heartbeat@.update(chain.spec_index(), now),
            *final(self) == (L2SequencerHealth {
                last_heartbeat: final(self).last_heartbeat,
                ..*old(self)
            }),
    {
        self.last_heartbeat[chain.index()] = now;
    }

    /// Check if a sequencer is healthy at time `now`, by the age of its heartbeat.
    pub fn is_healthy(&self, chain: L2Chain, max_age_cycles: u64, now: u64) -> (r: bool)
        ensures
            r == self.healthy(chain.spec_index(), max_age_cycles, now),
    {
        let idx: usize = chain.index();
        if !self.is_active[idx] {
            return false;
        }
        now.wrapping_sub(self.last_heartbeat[idx]) < max_age_cycles
    }

    /// Add a batch submission latency to the moving average.
    pub fn update_batch_latency(&mut self, chain: L2Chain, latency_us: u64)
        requires
            old(self).batch_latency_us@[chain.spec_index()] * 3 + latency_us <= u64::MAX,
        ensures
            final(self).batch_latency_us@ == old(self).batch_latency_us@.update(
                chain.spec_index(),
                quarter_average(
                    old(self).batch_latency_us@[chain.spec_index()] as int,
                    latency_us as int,
                ) as u64,
            ),
            *final(self) == (L2SequencerHealth {
                batch_latency_us: final(self).batch_latency_us,
                ..*old(self)
            }),
    {
        let idx: usize = chain.index();
        self.batch_latency_us[idx] = (self.batch_latency_us[idx] * 3 + latency_us) / 4;
    }

    /// Note the pending batch count. The health score falls to what the backlog
    /// leaves; it does not rise.
    pub fn update_pending_batches(&mut self, chain: L2Chain, count: u64)
        requires
            (count / 10) * MICRO <= i64::MAX,
        ensures
            final(self).pending_batches@ == old(self).pending_batches@.update(
                chain.spec_index(),
                count,
            ),
            final(self).health_score@ == old(self).health_score@.update(
                chain.spec_index(),
                min(
                    backlog_health(count as int),
                    old(self).health_score@[chain.spec_index()] as int,
                ) as i64,
            ),
            *final(self) == (L2SequencerHealth {
                pending_batches: final(self).pending_batches,
                health_score: final(self).health_score,
                ..*old(self)
            }),
    {
        let idx: usize = chain.index();
        self.pending_batches[idx] = count;
        let penalty: i64 = ((count / 10) * MICRO) as i64;
        let left: i64 = FULL_HEALTH - penalty;
        let bounded: i64 = if left > 0 {
            left
        } else {
            0
        };
        if bounded < self.health_score[idx] {
            self.health_score[idx] = bounded;
        }
        assert(self.health_score@ =~= old(self).health_score@.update(
            idx as int,
            min(backlog_health(count as int), old(self).health_score@[idx as int] as int) as i64,
        ));
    }

    /// Health score of a chain (scaled by 1e6).
    pub fn get_health_score(&self, chain: L2Chain) -> (r: i64)
        ensures
            r == self.health_score@[chain.spec_index()],
    {
        self.health_score[chain.index()]
    }

    /// Average batch latency.
    pub fn get_batch_latency_us(&self, chain: L2Chain) -> (r: u64)
        ensures
            r == self.batch_latency_us@[chain.spec_index()],
    {
        self.batch_latency_us[chain.index()]
    }

    /// Health check of up to four chains at time `now`: bit `i` of the mask is
    /// that of chain `chains[i]`.
    pub fn simd_health_check<const N: usize>(&self, chains: [L2Chain; N], max_age: u64, now: u64) -> (r:
        u32)
        requires
            N <= 4,
        ensures
            r == bit_mask(
                Seq::new(N as nat, |i: int| self.healthy(chains@[i].spec_index(), max_age, now)),
            ),
    {
        let mut flags = [false;N];
        let mut i: usize = 0;
        while i < N
            invariant
                i <= N,
                forall|k: int|
                    0 <= k < i ==> flags@[k] == self.healthy(chains@[k].spec_index(), max_age, now),
            decreases N - i,
        {
            flags[i] = self.is_healthy(chains[i], max_age, now);
            i = i + 1;
        }
        assert(flags@ =~= Seq::new(
            N as nat,
            |i: int| self.healthy(chains@[i].spec_index(), max_age, now),
        ));
        pack_flags(&flags)
    }

    /// Mark a sequencer as inactive; its score falls to zero.
    pub fn mark_inactive(&mut self, chain: L2Chain)
        ensures
            final(self).is_active@ == old(self).is_active@.update(chain.spec_index(), false),
            final(self).health_score@ == old(self).health_score@.update(chain.spec_index(), 0),
            *final(self) == (L2SequencerHealth {
                is_active: final(self).is_active,
                health_score: final(self).health_score,
                ..*old(self)
            }),
    {
        let idx: usize = chain.index();
        self.is_active[idx] = false;
        self.health_score[idx] = 0;
    }

    /// Mark a sequencer as active at time `now`, in full health.
    pub fn mark_active(&mut self, chain: L2Chain, now: u64)
        ensures
            final(self).is_active@ == old(self).is_active@.update(chain.spec_index(), true),
            final(self).last_heartbeat@ == old(self).last_heartbeat@.update(chain.spec_index(), now),
            final(self).health_score@ == old(self).health_score@.update(
                chain.spec_index(),
                FULL_HEALTH,
            ),
            final(self).batch_latency_us == old(self).batch_latency_us,
            final(self).pending_batches == old(self).pending_batches,
    {
        let idx: usize = chain.index();
        self.is_active[idx] = true;
        self.last_heartbeat[idx] = now;
        self.health_score[idx] = FULL_HEALTH;
    }

    /// Whether the chain in row `i` may be routed to.
    pub open spec fn eligible(&self, i: int, min_health: i64) -> bool {
        self.is_active@[i] && self.health_score@[i] > min_health
    }

    /// Best chain for routing: the first one with the highest score among those
    /// that are active and above `min_health`.
    pub fn get_best_chain(&self, min_health: i64) -> (r: Option<L2Chain>)
        ensures
            match r {
                Some(chain) => {
                    let best = chain.spec_index();
                    &&& self.eligible(best, min_health)
                    &&& forall|j: int|
                        0 <= j < MAX_L2_CHAINS && #[trigger] self.eligible(j, min_health)
                            ==> self.health_score@[j] <= self.health_score@[best]
                    &&& forall|j: int|
                        0 <= j < best && #[trigger] self.eligible(j, min_health)
                            ==> self.health_score@[j] < self.health_score@[best]
                },
                None => forall|j: int|
                    0 <= j < MAX_L2_CHAINS ==> !#[trigger] self.eligible(j, min_health),
            },
    {
        let mut scores = [min_health;8];
        let mut i: usize = 0;
        while i < MAX_L2_CHAINS
            invariant
                i <= MAX_L2_CHAINS,
                forall|k: int| i <= k < MAX_L2_CHAINS ==> scores@[k] == min_health,
                forall|k: int|
                    0 <= k < i ==> #[trigger] scores@[k] == if self.is_active@[k] {
                        self.health_score@[k]
                    } else {
                        min_health
                    },
            decreases MAX_L2_CHAINS - i,
        {
            if self.is_active[i] {
                scores[i] = self.health_score[i];
            }
            i = i + 1;
        }
        match best_above(&scores, min_health) {
            Some(idx) => {
                assert(scores@[idx as int] > min_health);
                assert forall|j: int|
                    0 <= j < MAX_L2_CHAINS && #[trigger] self.eligible(
                        j,
                        min_health,
                    ) implies self.health_score@[j] <= self.health_score@[idx as int] by {
                    assert(scores@[j] == self.health_score@[j]);
                }
                assert forall|j: int|
                    0 <= j < idx && #[trigger] self.eligible(
                        j,
                        min_health,
                    ) implies self.health_score@[j] < self.health_score@[idx as int] by {
                    assert(scores@[j] == self.health_score@[j]);
                }
                Some(L2Chain::from_index(idx))
            },
            None => {
                assert forall|j: int| 0 <= j < MAX_L2_CHAINS implies !#[trigger] self.eligible(
                    j,
                    min_health,
                ) by {
                    assert(scores@[j] <= min_health);
                }
                None
            },
        }
    }
}

/// A chain that was marked inactive is not healthy and is not routed to.
pub proof fn lemma_inactive_is_avoided(h: L2SequencerHealth, chain: L2Chain)
    requires
        !h.is_active@[chain.spec_index()],
    ensures
        forall|max_age: u64, now: u64| !h.healthy(chain.spec_index(), max_age, now),
        forall|min_health: i64| !h.eligible(chain.spec_index(), min_health),
{
}

/// A larger backlog never leaves more health.
pub proof fn lemma_backlog_lowers_health(a: int, b: int)
    requires
        0 <= a <= b,
    ensures
        0 <= backlog_health(b) <= backlog_health(a) <= FULL_HEALTH,
{
    assert(a / 10 <= b / 10);
}

impl BatchSubmissionTracker {
    /// Record a successful batch submission.
    pub fn record_submission(&mut self, chain: L2Chain, batch_size: u64, l1_block: u64, gas_used: u64)
        requires
            old(self).avg_batch_size@[chain.spec_index()] * 3 + batch_size <= u64::MAX,
        ensures
            final(self).total_submitted@ == old(self).total_submitted@.update(
                chain.spec_index(),
                old(self).total_submitted@[chain.spec_index()].wrapping_add(1),
            ),
            final(self).last_l1_block@ == old(self).last_l1_block@.update(
                chain.spec_index(),
                l1_block,
            ),
            final(self).last_batch_gas@ == old(self).last_batch_gas@.update(
                chain.spec_index(),
                gas_used,
            ),
            final(self).avg_batch_size@ == old(self).avg_batch_size@.update(
                chain.spec_index(),
                quarter_average(
                    old(self).avg_batch_size@[chain.spec_index()] as int,
                    batch_size as int,
                ) as u64,
            ),
            final(self).failed_submissions == old(self).failed_submissions,
    {
        let idx: usize = chain.index();
        self.total_submitted[idx] = self.total_submitted[idx].wrapping_add(1);
        self.last_l1_block[idx] = l1_block;
        self.last_batch_gas[idx] = gas_used;
        self.avg_batch_size[idx] = (self.avg_batch_size[idx] * 3 + batch_size) / 4;
    }

    /// Record a failed batch submission.
    pub fn record_failure(&mut self, chain: L2Chain)
        ensures
            final(self).failed_submissions@ == old(self).failed_submissions@.update(
                chain.spec_index(),
                old(self).failed_submissions@[chain.spec_index()].wrapping_add(1),
            ),
            *final(self) == (BatchSubmissionTracker {
                failed_submissions: final(self).failed_submissions,
                ..*old(self)
            }),
    {
        let idx: usize = chain.index();
        self.failed_submissions[idx] = self.failed_submissions[idx].wrapping_add(1);
    }

    /// Success rate of a chain (scaled by 1e6); one without submissions.
    pub fn get_success_rate(&self, chain: L2Chain) -> (r: i64)
        requires
            self.total_submitted@[chain.spec_index()] > 0 ==> {
                &&& self.failed_submissions@[chain.spec_index()]
                    <= self.total_submitted@[chain.spec_index()]
                &&& (self.total_submitted@[chain.spec_index()]
                    - self.failed_submissions@[chain.spec_index()]) * MICRO <= u64::MAX
            },
        ensures
            ({
                let total = self.total_submitted@[chain.spec_index()];
                let failed = self.failed_submissions@[chain.spec_index()];
                r == if total == 0 {
                    MICRO as int
                } else {
                    ((total - failed) * MICRO) / (total as int)
                }
            }),
            0 <= r <= MICRO,
            self.total_submitted@[chain.spec_index()] > 0 ==> {
                let total = self.total_submitted@[chain.spec_index()];
                let failed = self.failed_submissions@[chain.spec_index()];
                r * total <= (total - failed) * 1_000_000 < (r + 1) * total
            },
    {
        let idx: usize = chain.index();
        let total: u64 = self.total_submitted[idx];
        let failed: u64 = self.failed_submissions[idx];
        if total == 0 {
            return 1_000_000;
        }
        let scaled: u64 = (total - failed) * MICRO;
        assert(scaled as int / total as int <= 1_000_000) by (nonlinear_arith)
            requires
                total > 0,
                scaled == (total - failed) * 1_000_000,
                failed >= 0,
        ;
        let rate: u64 = scaled / total;
        assert(rate * total <= scaled < (rate + 1) * total) by (nonlinear_arith)
            requires
                rate == scaled as int / total as int,
                total > 0,
        ;
        rate as i64
    }

    /// Total submissions.
    pub fn get_total_submissions(&self, chain: L2Chain) -> (r: u64)
        ensures
            r == self.total_submitted@[chain.spec_index()],
    {
        self.total_submitted[chain.index()]
    }

    /// Failure count.
    pub fn get_failure_count(&self, chain: L2Chain) -> (r: u64)
        ensures
            r == self.failed_submissions@[chain.spec_index()],
    {
        self.failed_submissions[chain.index()]
    }
}

/// Every ten pending batches cost one percent of the health, until nothing is left.
pub proof fn lemma_ten_batches_cost_a_percent(count: int)
    requires
        count >= 0,
    ensures
        count < 10 ==> backlog_health(count) == 100_000_000,
        backlog_health(count) >= 1_000_000 ==> backlog_health(count + 10) == backlog_health(count)
            - 1_000_000,
        count >= 1000 ==> backlog_health(count) == 0,
{
}

/// An average moves a quarter of the way to each new value, rounded down.
pub proof fn lemma_quarter_of_the_way(avg: int, value: int)
    ensures
        ({
            let next = quarter_average(avg, value);
            4 * next <= 3 * avg + value < 4 * next + 4
        }),
{
}

/// A chain is healthy exactly while it is active and its last heartbeat is younger than
/// the given age.
pub proof fn lemma_healthy_by_heartbeat(h: L2SequencerHealth, i: int, max_age: u64, now: u64)
    requires
        0 <= i < 8,
        now >= h.last_heartbeat@[i],
    ensures
        h.healthy(i, max_age, now) == (h.is_active@[i] && now - h.last_heartbeat@[i] < max_age),
{
}

/// Every chain has a place of its own.
pub proof fn lemma_chains_apart(a: L2Chain, b: L2Chain)
    ensures
        0 <= a.spec_index() < 8,
        a.spec_index() == b.spec_index() ==> a == b,
        L2Chain::Arbitrum.spec_index() == 0,
        L2Chain::Optimism.spec_index() == 1,
        L2Chain::Base.spec_index() == 2,
        L2Chain::zkSync.spec_index() == 3,
        L2Chain::Starknet.spec_index() == 4,
        L2Chain::PolygonZK.spec_index() == 5,
        L2Chain::Linea.spec_index() == 6,
        L2Chain::Scroll.spec_index() == 7,
{
}

/// A chain may be routed to when it is active and its health is above the demand, not
/// merely equal to it.
pub proof fn lemma_routed_above_demand(h: L2SequencerHealth, i: int, min_health: i64)
    ensures
        h.eligible(i, min_health) <==> h.is_active@[i] && h.health_score@[i] >= min_health + 1,
{
}

} // verus!
