//! Staking yield, validator uptime and slashing risk for proof-of-stake networks.

use vstd::prelude::*;
use crate::fixed::{
    div_i64, fits_i64, lemma_tdiv_rounds, lemma_tdiv_unique, max, min, sat_add, saturating_add_i64,
    tdiv,
};

verus! {

broadcast use vstd::array::group_array_axioms;

/// Fixed-point value (scaled by 10^8).
pub type FixedValue = i64;

/// Scale of fixed-point values.
pub const SCALE: i64 = 100_000_000;

/// One hundred percent.
pub const FULL_UPTIME: i64 = 10_000_000_000;

/// Maximum validators tracked.
pub const MAX_VALIDATORS: usize = 512;

/// Validator status.
#[derive(Debug, Clone, Copy, PartialEq, Eq, Structural)]
pub enum ValidatorStatus {
    Active,
    Inactive,
    Slashed,
    Jailed,
}

/// Validator data.
#[derive(Debug, Clone, Copy)]
pub struct ValidatorData {
    /// Validator ID / address hash.
    pub validator_id: u64,
    /// Chain ID.
    pub chain_id: u32,
    /// Staked amount (fixed-point USD).
    pub staked_amount: i64,
    /// Current APY.
    pub current_apy: FixedValue,
    /// Uptime percentage (fixed-point, 0-100).
    pub uptime_pct: FixedValue,
    /// Consecutive missed blocks.
    pub missed_blocks: u64,
    /// Total blocks proposed.
    pub total_proposed: u64,
    /// Slashing risk score (0-100, higher = riskier).
    pub risk_score: u8,
    /// Validator status.
    pub status: ValidatorStatus,
    /// Last heartbeat timestamp (ns).
    pub last_heartbeat_ns: u64,
}

impl ValidatorData {
    /// Validator without history.
    pub open spec fn spec_default() -> Self {
        ValidatorData {
            validator_id: 0,
            chain_id: 0,
            staked_amount: 0,
            current_apy: 0,
            uptime_pct: FULL_UPTIME,
            missed_blocks: 0,
            total_proposed: 0,
            risk_score: 0,
            status: ValidatorStatus::Active,
            last_heartbeat_ns: 0,
        }
    }
}

impl Default for ValidatorData {
    fn default() -> (r: Self)
        ensures
            r == ValidatorData::spec_default(),
    {
        ValidatorData {
            validator_id: 0,
            chain_id: 0,
            staked_amount: 0,
            current_apy: 0,
            uptime_pct: FULL_UPTIME,
            missed_blocks: 0,
            total_proposed: 0,
            risk_score: 0,
            status: ValidatorStatus::Active,
            last_heartbeat_ns: 0,
        }
    }
}

/// Sums over validators; those that were slashed are only counted.
pub struct Totals {
    /// Staked amount.
    pub staked: int,
    /// Sum of yields.
    pub apy: int,
    /// Sum of uptimes.
    pub uptime: int,
    /// Slashed validators.
    pub slashed: int,
    /// Other validators.
    pub active: int,
}

/// Sums over validators, each held within the range of its type.
pub open spec fn totals(s: Seq<ValidatorData>) -> Totals
    decreases s.len(),
{
    if s.len() == 0 {
        Totals { staked: 0, apy: 0, uptime: 0, slashed: 0, active: 0 }
    } else {
        let t = totals(s.drop_last());
        let v = s.last();
        if v.status == ValidatorStatus::Slashed {
            Totals { slashed: t.slashed + 1, ..t }
        } else {
            Totals {
                staked: sat_add(t.staked, v.staked_amount as int),
                apy: sat_add(t.apy, v.current_apy as int),
                uptime: sat_add(t.uptime, v.uptime_pct as int),
                active: t.active + 1,
                ..t
            }
        }
    }
}

/// Every validator is counted once.
pub proof fn lemma_totals_count(s: Seq<ValidatorData>)
    ensures
        totals(s).slashed + totals(s).active == s.len(),
        0 <= totals(s).slashed,
        0 <= totals(s).active,
        fits_i64(totals(s).staked),
        fits_i64(totals(s).apy),
        fits_i64(totals(s).uptime),
    decreases s.len(),
{
    if s.len() > 0 {
        lemma_totals_count(s.drop_last());
    }
}

/// Place of a validator in a list.
pub open spec fn validator_at(s: Seq<ValidatorData>, id: u64, i: int) -> bool {
    0 <= i < s.len() && s[i].validator_id == id && forall|j: int|
        0 <= j < i ==> (#[trigger] s[j]).validator_id != id
}

/// No two validators have one ID.
pub open spec fn distinct_validators(s: Seq<ValidatorData>) -> bool {
    forall|i: int, j: int|
        0 <= i < j < s.len() ==> (#[trigger] s[i]).validator_id != (#[trigger] s[j]).validator_id
}

/// Risk score: missed blocks (up to 50), percent of downtime (up to 30), and 20
/// for fewer than ten proposals.
pub open spec fn risk(missed_blocks: int, uptime_pct: int, total_proposed: int) -> int {
    min(missed_blocks, 50) + min(max(FULL_UPTIME - uptime_pct, 0) / (SCALE as int), 30) + (
    if total_proposed < 10 {
        20int
    } else {
        0
    })
}

/// The risk score is at most 100. It does not fall when more blocks are missed,
/// nor when the uptime falls, nor when fewer blocks were proposed.
pub proof fn lemma_risk_monotone(m1: int, m2: int, u1: int, u2: int, p1: int, p2: int)
    requires
        0 <= m1 <= m2,
        u2 <= u1,
        p2 <= p1,
    ensures
        0 <= risk(m1, u1, p1) <= risk(m2, u2, p2) <= 100,
{
    let a = max(FULL_UPTIME - u1, 0);
    let b = max(FULL_UPTIME - u2, 0);
    assert(a / (SCALE as int) <= b / (SCALE as int));
}

/// Number of validators at or above a risk score.
pub open spec fn risky(s: Seq<ValidatorData>, threshold: u8) -> int
    decreases s.len(),
{
    if s.len() == 0 {
        0
    } else {
        risky(s.drop_last(), threshold) + (if s.last().risk_score >= threshold {
            1int
        } else {
            0
        })
    }
}

/// Validator metrics tracker.
#[derive(Debug)]
pub struct ValidatorMetricsTracker {
    /// Validators.
    pub validators: [ValidatorData; 512],
    /// Validator count.
    pub validator_count: u64,
    /// Total staked across all validators.
    pub total_staked: i64,
    /// Average network APY.
    pub avg_apy: i64,
    /// Network-wide uptime.
    pub network_uptime: i64,
    /// Slashed validator count.
    pub slashed_count: u64,
    /// High-risk validator threshold.
    pub high_risk_threshold: u8,
}

impl ValidatorMetricsTracker {
    /// Validators known.
    pub open spec fn known(&self) -> Seq<ValidatorData> {
        self.validators@.take(self.validator_count as int)
    }

    /// The count is within bounds, and no validator is listed twice.
    pub open spec fn wf(&self) -> bool {
        self.validator_count <= MAX_VALIDATORS && distinct_validators(self.known())
    }

    /// Empty tracker.
    pub fn new(high_risk_threshold: u8) -> (r: Self)
        ensures
            r.wf(),
            r.known() == Seq::<ValidatorData>::empty(),
            r.total_staked == 0,
            r.avg_apy == 0,
            r.network_uptime == FULL_UPTIME,
            r.slashed_count == 0,
            r.high_risk_threshold == high_risk_threshold,
    {
        let r = ValidatorMetricsTracker {
            validators: [ValidatorData::default();512],
            validator_count: 0,
            total_staked: 0,
            avg_apy: 0,
            network_uptime: FULL_UPTIME,
            slashed_count: 0,
            high_risk_threshold,
        };
        assert(r.known() =~= Seq::<ValidatorData>::empty());
        r
    }

    /// Status of a validator with the given record.
    pub open spec fn status(&self, risk_score: int, missed_blocks: u64) -> ValidatorStatus {
        if risk_score >= self.high_risk_threshold {
            ValidatorStatus::Jailed
        } else if missed_blocks > 100 {
            ValidatorStatus::Inactive
        } else {
            ValidatorStatus::Active
        }
    }

    /// Validators after an update: the entry of the validator is replaced, or a
    /// new one is added if there is room.
    pub open spec fn validators_after(
        s: Seq<ValidatorData>,
        t: Seq<ValidatorData>,
        update: ValidatorData,
    ) -> bool {
        &&& forall|i: int|
            #![trigger s[i]]
            validator_at(s, update.validator_id, i) ==> t == s.update(i, update)
        &&& (forall|i: int|
            0 <= i < s.len() ==> (#[trigger] s[i]).validator_id != update.validator_id) ==> t
            == if s.len() < MAX_VALIDATORS {
            s.push(update)
        } else {
            s
        }
    }

    /// Whether an update of a validator is taken: it is known, or there is room.
    pub open spec fn accepts(&self, id: u64) -> bool {
        self.validator_count < MAX_VALIDATORS || exists|i: int|
            0 <= i < self.known().len() && (#[trigger] self.known()[i]).validator_id == id
    }

    /// The aggregates are those of the validators known. Averages are over the
    /// validators that were not slashed; without any, they are as before.
    pub open spec fn aggregates_of(&self, prior: ValidatorMetricsTracker) -> bool {
        let t = totals(self.known());
        &&& self.total_staked == t.staked
        &&& self.slashed_count == t.slashed
        &&& self.avg_apy == if t.active > 0 {
            tdiv(t.apy, t.active)
        } else {
            prior.avg_apy as int
        }
        &&& self.network_uptime == if t.active > 0 {
            tdiv(t.uptime, t.active)
        } else {
            prior.network_uptime as int
        }
    }

    /// Update the record of a validator. A new validator for which there is no
    /// room changes nothing.
    pub fn update_validator(
        &mut self,
        validator_id: u64,
        chain_id: u32,
        staked_amount: i64,
        apy_bps: FixedValue,
        uptime_pct: FixedValue,
        missed_blocks: u64,
        total_proposed: u64,
        timestamp_ns: u64,
    )
        requires
            old(self).wf(),
            old(self).accepts(validator_id) ==> fits_i64(FULL_UPTIME - uptime_pct),
        ensures
            final(self).wf(),
            ({
                let score = risk(missed_blocks as int, uptime_pct as int, total_proposed as int);
                Self::validators_after(
                    old(self).known(),
                    final(self).known(),
                    ValidatorData {
                        validator_id,
                        chain_id,
                        staked_amount,
                        current_apy: apy_bps,
                        uptime_pct,
                        missed_blocks,
                        total_proposed,
                        risk_score: score as u8,
                        status: old(self).status(score, missed_blocks),
                        last_heartbeat_ns: timestamp_ns,
                    },
                )
            }),
            old(self).accepts(validator_id) ==> final(self).aggregates_of(*old(self)),
            !old(self).accepts(validator_id) ==> *final(self) == *old(self),
            final(self).high_risk_threshold == old(self).high_risk_threshold,
    {
        let count: usize = self.validator_count as usize;
        let ghost before = self.known();
        let mut idx: usize = 0;
        while idx < count && self.validators[idx].validator_id != validator_id
            invariant
                *self == *old(self),
                self.wf(),
                before == self.known(),
                idx <= count == self.validator_count,
                forall|k: int| 0 <= k < idx ==> (#[trigger] before[k]).validator_id != validator_id,
            decreases count - idx,
        {
            assert(before[idx as int].validator_id != validator_id);
            idx = idx + 1;
        }
        if idx == count && count >= MAX_VALIDATORS {
            return ;
        }
        proof {
            if idx < count {
                assert(before[idx as int].validator_id == validator_id);
                assert(validator_at(before, validator_id, idx as int));
            }
            assert(old(self).accepts(validator_id));
        }
        let risk_score: u8 = self.calculate_risk_score(missed_blocks, uptime_pct, total_proposed);
        let status = if risk_score >= self.high_risk_threshold {
            ValidatorStatus::Jailed
        } else if missed_blocks > 100 {
            ValidatorStatus::Inactive
        } else {
            ValidatorStatus::Active
        };
        let entry = ValidatorData {
            validator_id,
            chain_id,
            staked_amount,
            current_apy: apy_bps,
            uptime_pct,
            missed_blocks,
            total_proposed,
            risk_score,
            status,
            last_heartbeat_ns: timestamp_ns,
        };
        self.validators[idx] = entry;
        if idx == count {
            self.validator_count = (count + 1) as u64;
            assert(self.known() =~= before.push(entry));
        } else {
            assert(self.known() =~= before.update(idx as int, entry));
        }
        self.recalculate_aggregates();
    }

    /// Risk score of a record (0-100).
    pub fn calculate_risk_score(
        &self,
        missed_blocks: u64,
        uptime_pct: FixedValue,
        total_proposed: u64,
    ) -> (r: u8)
        requires
            fits_i64(FULL_UPTIME - uptime_pct),
        ensures
            r == risk(missed_blocks as int, uptime_pct as int, total_proposed as int),
            r <= 100,
    {
        let miss_risk: u8 = if missed_blocks < 50 {
            missed_blocks as u8
        } else {
            50
        };
        let down: i64 = FULL_UPTIME - uptime_pct;
        let deficit: i64 = (if down > 0 {
            down
        } else {
            0
        }) / SCALE;
        let uptime_risk: u8 = if deficit < 30 {
            deficit as u8
        } else {
            30
        };
        let proposal_risk: u8 = if total_proposed < 10 {
            20
        } else {
            0
        };
        miss_risk + uptime_risk + proposal_risk
    }

    /// Recalculate aggregate metrics.
    fn recalculate_aggregates(&mut self)
        requires
            old(self).validator_count <= MAX_VALIDATORS,
        ensures
            final(self).aggregates_of(*old(self)),
            *final(self) == (ValidatorMetricsTracker {
                total_staked: final(self).total_staked,
                avg_apy: final(self).avg_apy,
                network_uptime: final(self).network_uptime,
                slashed_count: final(self).slashed_count,
                ..*old(self)
            }),
    {
        let ghost all = self.known();
        let count: usize = self.validator_count as usize;
        let mut total_staked: i64 = 0;
        let mut total_apy: i64 = 0;
        let mut total_uptime: i64 = 0;
        let mut slashed: u64 = 0;
        let mut active_count: i64 = 0;
        let mut i: usize = 0;
        while i < count
            invariant
                *self == *old(self),
                all == self.known(),
                i <= count == self.validator_count,
                count <= MAX_VALIDATORS,
                total_staked == totals(all.take(i as int)).staked,
                total_apy == totals(all.take(i as int)).apy,
                total_uptime == totals(all.take(i as int)).uptime,
                slashed == totals(all.take(i as int)).slashed,
                active_count == totals(all.take(i as int)).active,
            decreases count - i,
        {
            proof {
                lemma_totals_count(all.take(i as int));
                assert(all.take(i + 1).drop_last() =~= all.take(i as int));
                assert(all[i as int] == self.validators@[i as int]);
            }
            let v = self.validators[i];
            if v.status != ValidatorStatus::Slashed {
                total_staked = saturating_add_i64(total_staked, v.staked_amount);
                total_apy = saturating_add_i64(total_apy, v.current_apy);
                total_uptime = saturating_add_i64(total_uptime, v.uptime_pct);
                active_count = active_count + 1;
            } else {
                slashed = slashed + 1;
            }
            i = i + 1;
        }
        assert(all.take(count as int) =~= all);
        self.total_staked = total_staked;
        self.slashed_count = slashed;
        if active_count > 0 {
            self.avg_apy = div_i64(total_apy, active_count);
            self.network_uptime = div_i64(total_uptime, active_count);
        }
    }

    /// Total staked amount.
    pub fn get_total_staked(&self) -> (r: i64)
        ensures
            r == self.total_staked,
    {
        self.total_staked
    }

    /// Average APY.
    pub fn get_avg_apy(&self) -> (r: FixedValue)
        ensures
            r == self.avg_apy,
    {
        self.avg_apy
    }

    /// Network uptime.
    pub fn get_network_uptime(&self) -> (r: FixedValue)
        ensures
            r == self.network_uptime,
    {
        self.network_uptime
    }

    /// Slashed count.
    pub fn get_slashed_count(&self) -> (r: u64)
        ensures
            r == self.slashed_count,
    {
        self.slashed_count
    }

    /// Record of a validator.
    pub fn get_validator(&self, validator_id: u64) -> (r: Option<&ValidatorData>)
        requires
            self.wf(),
        ensures
            match r {
                Some(v) => self.known().contains(*v) && v.validator_id == validator_id,
                None => forall|i: int|
                    0 <= i < self.known().len() ==> (#[trigger] self.known()[i]).validator_id
                        != validator_id,
            },
    {
        let count: usize = self.validator_count as usize;
        let mut i: usize = 0;
        while i < count
            invariant
                self.wf(),
                i <= count == self.validator_count,
                forall|k: int|
                    0 <= k < i ==> (#[trigger] self.known()[k]).validator_id != validator_id,
            decreases count - i,
        {
            assert(self.known()[i as int] == self.validators@[i as int]);
            if self.validators[i].validator_id == validator_id {
                return Some(&self.validators[i]);
            }
            i = i + 1;
        }
        None
    }

    /// Number of high-risk validators.
    pub fn get_high_risk_count(&self) -> (r: u64)
        requires
            self.wf(),
        ensures
            r == risky(self.known(), self.high_risk_threshold),
    {
        let ghost all = self.known();
        let count: usize = self.validator_count as usize;
        let mut n: u64 = 0;
        let mut i: usize = 0;
        while i < count
            invariant
                self.wf(),
                all == self.known(),
                i <= count == self.validator_count,
                n <= i,
                n == risky(all.take(i as int), self.high_risk_threshold),
            decreases count - i,
        {
            assert(all.take(i + 1).drop_last() =~= all.take(i as int));
            assert(all[i as int] == self.validators@[i as int]);
            if self.validators[i].risk_score >= self.high_risk_threshold {
                n = n + 1;
            }
            i = i + 1;
        }
        assert(all.take(count as int) =~= all);
        n
    }
}

/// Staking yield calculator with compounding.
#[derive(Debug)]
pub struct StakingYieldCalculator {
    /// Base APY (fixed-point).
    pub base_apy: FixedValue,
    /// Compounding frequency per year.
    pub compound_freq: u32,
    /// Validator commission (basis points).
    pub commission_bps: u32,
    /// Fills the cache line.
    pub padding: [u8; 52],
}

impl StakingYieldCalculator {
    /// Calculator for a yield and a commission in basis points.
    pub fn new(base_apy_bps: u32, compound_freq: u32, commission_bps: u32) -> (r: Self)
        ensures
            r.base_apy == base_apy_bps * SCALE / 100,
            r.compound_freq == compound_freq,
            r.commission_bps == commission_bps,
    {
        StakingYieldCalculator {
            base_apy: (base_apy_bps as i64) * SCALE / 100,
            compound_freq,
            commission_bps,
            padding: [0u8;52],
        }
    }

    /// Yield after commission.
    pub open spec fn net_apy(&self) -> int {
        tdiv(self.base_apy * (10_000 - self.commission_bps), 10_000)
    }

    /// Yield of one compounding period.
    pub open spec fn period_rate(&self) -> int {
        tdiv(self.net_apy(), self.compound_freq as int)
    }

    /// Second-order term of compounding.
    pub open spec fn compounding(&self) -> int {
        tdiv(
            tdiv(self.period_rate() * self.period_rate(), SCALE as int) * self.compound_freq,
            2,
        )
    }

    /// Yield after commission and compounding.
    pub open spec fn effective_apy(&self) -> int {
        if self.compound_freq > 0 {
            self.net_apy() + self.compounding()
        } else {
            self.net_apy()
        }
    }

    /// Every step of the calculation is representable.
    pub open spec fn in_range(&self) -> bool {
        &&& fits_i64(self.base_apy * (10_000 - self.commission_bps))
        &&& self.compound_freq > 0 ==> {
            &&& fits_i64(self.period_rate() * self.period_rate())
            &&& fits_i64(
                tdiv(self.period_rate() * self.period_rate(), SCALE as int) * self.compound_freq,
            )
            &&& fits_i64(self.effective_apy())
        }
    }

    /// Effective APY after commission and compounding.
    pub fn calculate_effective_apy(&self) -> (r: FixedValue)
        requires
            self.in_range(),
        ensures
            r == self.effective_apy(),
    {
        let net: i64 = div_i64(self.base_apy * (10_000 - self.commission_bps as i64), 10_000);
        if self.compound_freq > 0 {
            let freq: i64 = self.compound_freq as i64;
            let rate: i64 = div_i64(net, freq);
            net + div_i64(div_i64(rate * rate, SCALE) * freq, 2)
        } else {
            net
        }
    }

    /// Rewards of a stake over a number of days, at the daily share of the yield.
    pub open spec fn rewards(&self, stake_amount: int, days: int) -> int {
        tdiv(stake_amount * tdiv(self.effective_apy(), 365) * days, SCALE as int)
    }

    /// Expected rewards for a stake over a number of days.
    pub fn calculate_rewards(&self, stake_amount: i64, days: u32) -> (r: i64)
        requires
            self.in_range(),
            fits_i64(stake_amount * tdiv(self.effective_apy(), 365)),
            fits_i64(stake_amount * tdiv(self.effective_apy(), 365) * days),
        ensures
            r == self.rewards(stake_amount as int, days as int),
    {
        let daily: i64 = div_i64(self.calculate_effective_apy(), 365);
        div_i64(stake_amount * daily * days as i64, SCALE)
    }
}

/// The parts of the risk: each missed block counts one, up to fifty; each whole percent of
/// uptime that is missing counts one, up to thirty; fewer than ten proposals count twenty.
pub proof fn lemma_risk_parts(missed: int, uptime: int, proposed: int)
    requires
        0 <= missed,
        0 <= uptime <= 10_000_000_000,
    ensures
        missed < 50 ==> risk(missed + 1, uptime, proposed) == risk(missed, uptime, proposed) + 1,
        missed >= 50 ==> risk(missed, uptime, proposed) == risk(50, uptime, proposed),
        7_000_000_000 < uptime && uptime >= 100_000_000 ==> risk(
            missed,
            uptime - 100_000_000,
            proposed,
        ) == risk(missed, uptime, proposed) + 1,
        uptime <= 7_000_000_000 ==> risk(missed, uptime, proposed) == risk(
            missed,
            7_000_000_000,
            proposed,
        ),
        risk(0, 10_000_000_000, 10) == 0,
        proposed < 10 ==> risk(missed, uptime, proposed) == risk(missed, uptime, 10) + 20,
        proposed >= 10 ==> risk(missed, uptime, proposed) == risk(missed, uptime, 10),
{
}

/// A validator is jailed from the risk threshold on, else inactive with more than a
/// hundred missed blocks, else active.
pub proof fn lemma_status_when(t: ValidatorMetricsTracker, score: int, missed: u64)
    ensures
        t.status(score, missed) == ValidatorStatus::Jailed <==> score >= t.high_risk_threshold,
        t.status(score, missed) == ValidatorStatus::Active <==> score < t.high_risk_threshold
            && missed <= 100,
        t.status(score, missed) == ValidatorStatus::Inactive <==> score < t.high_risk_threshold
            && missed > 100,
{
}

/// A slashed validator is counted as such and adds to nothing else; any other adds its
/// stake, its yield and its uptime, as long as the sums fit.
pub proof fn lemma_totals_add_up(s: Seq<ValidatorData>, v: ValidatorData)
    requires
        fits_i64(totals(s).staked + v.staked_amount),
        fits_i64(totals(s).apy + v.current_apy),
        fits_i64(totals(s).uptime + v.uptime_pct),
    ensures
        ({
            let (t, u) = (totals(s), totals(s.push(v)));
            if v.status == ValidatorStatus::Slashed {
                u == (Totals { slashed: t.slashed + 1, ..t })
            } else {
                &&& u.staked == t.staked + v.staked_amount
                &&& u.apy == t.apy + v.current_apy
                &&& u.uptime == t.uptime + v.uptime_pct
                &&& u.active == t.active + 1
                &&& u.slashed == t.slashed
            }
        }),
        totals(Seq::<ValidatorData>::empty()) == (Totals {
            staked: 0,
            apy: 0,
            uptime: 0,
            slashed: 0,
            active: 0,
        }),
{
    assert(s.push(v).drop_last() =~= s);
}

/// The average yield and uptime times the number of validators that count are the sums,
/// short of them by less than that number.
pub proof fn lemma_averages(t: ValidatorMetricsTracker, prior: ValidatorMetricsTracker)
    requires
        t.aggregates_of(prior),
        totals(t.known()).active > 0,
        totals(t.known()).apy >= 0,
        totals(t.known()).uptime >= 0,
    ensures
        ({
            let s = totals(t.known());
            &&& t.avg_apy * s.active <= s.apy < (t.avg_apy + 1) * s.active
            &&& t.network_uptime * s.active <= s.uptime < (t.network_uptime + 1) * s.active
        }),
{
    let s = totals(t.known());
    let n = s.active;
    lemma_tdiv_rounds(s.apy, n);
    lemma_tdiv_rounds(s.uptime, n);
    let (a, u) = (tdiv(s.apy, n), tdiv(s.uptime, n));
    assert((a + 1) * n == a * n + n && (u + 1) * n == u * n + n) by (nonlinear_arith);
}

/// The number of risky validators counts each one at or above the threshold once.
pub proof fn lemma_risky_counts(s: Seq<ValidatorData>, v: ValidatorData, threshold: u8)
    ensures
        risky(Seq::<ValidatorData>::empty(), threshold) == 0,
        risky(s.push(v), threshold) == risky(s, threshold) + if v.risk_score >= threshold {
            1int
        } else {
            0
        },
{
    assert(s.push(v).drop_last() =~= s);
}

/// The yield after commission is the rest of the whole of ten thousand basis points of the
/// base yield; a period earns its part of it; the gain from compounding is half of the
/// square of a period's yield for each period, and is never negative. Each step is rounded
/// down.
pub proof fn lemma_effective_yield(c: StakingYieldCalculator)
    requires
        c.base_apy >= 0,
        c.commission_bps <= 10_000,
        c.compound_freq > 0,
    ensures
        ({
            let (net, p) = (c.net_apy(), c.period_rate());
            let square = p * p / 100_000_000;
            let gain = c.effective_apy() - net;
            &&& net * 10_000 <= c.base_apy * (10_000 - c.commission_bps) < (net + 1) * 10_000
            &&& p * c.compound_freq <= net < (p + 1) * c.compound_freq
            &&& 2 * gain <= square * c.compound_freq < 2 * gain + 2
            &&& 0 <= net <= c.base_apy
            &&& gain >= 0
        }),
{
    let (b, k) = (c.base_apy as int, 10_000 - c.commission_bps);
    let x = b * k;
    assert(0 <= x <= b * 10_000) by (nonlinear_arith)
        requires
            x == b * k,
            b >= 0,
            0 <= k <= 10_000,
    ;
    lemma_tdiv_rounds(x, 10_000);
    let net = c.net_apy();
    let f = c.compound_freq as int;
    lemma_tdiv_rounds(net, f);
    let p = c.period_rate();
    assert((p + 1) * f == p * f + f) by (nonlinear_arith);
    let y = p * p;
    assert(y >= 0) by (nonlinear_arith)
        requires
            y == p * p,
    ;
    let square = tdiv(y, 100_000_000);
    assert(square == y / 100_000_000);
    let z = square * f;
    assert(z >= 0) by (nonlinear_arith)
        requires
            z == square * f,
            square >= 0,
            f > 0,
    ;
    lemma_tdiv_rounds(z, 2);
}

/// Without compounding the yield is that after commission.
pub proof fn lemma_simple_yield(c: StakingYieldCalculator)
    requires
        c.compound_freq == 0,
    ensures
        c.effective_apy() == c.net_apy(),
{
}

/// Rewards are the stake times the yield of a day times the days; a day's yield is a
/// 365th of the yield of a year.
pub proof fn lemma_rewards_by_day(c: StakingYieldCalculator, stake_amount: int, days: int, day: int)
    requires
        stake_amount >= 0,
        days >= 0,
        c.effective_apy() >= 0,
        day * 365 <= c.effective_apy() < (day + 1) * 365,
    ensures
        ({
            let exact = stake_amount * day * days;
            let r = c.rewards(stake_amount, days);
            r * 100_000_000 <= exact < (r + 1) * 100_000_000
        }),
{
    lemma_tdiv_unique(c.effective_apy(), 365, day);
    let exact = stake_amount * day * days;
    assert(exact >= 0) by (nonlinear_arith)
        requires
            exact == stake_amount * day * days,
            stake_amount >= 0,
            day >= 0,
            days >= 0,
    ;
    lemma_tdiv_rounds(exact, 100_000_000);
}

/// News of a validator that is listed takes the place of what was known of it and of
/// nothing else. News of another is added at the end while there are fewer than five
/// hundred and twelve.
pub proof fn lemma_news_replaces(
    s: Seq<ValidatorData>,
    t: Seq<ValidatorData>,
    update: ValidatorData,
    i: int,
)
    requires
        ValidatorMetricsTracker::validators_after(s, t, update),
        distinct_validators(s),
    ensures
        0 <= i < s.len() && s[i].validator_id == update.validator_id ==> t.len() == s.len() && t[i]
            == update && forall|j: int| 0 <= j < s.len() && j != i ==> #[trigger] t[j] == s[j],
        (forall|j: int| 0 <= j < s.len() ==> (#[trigger] s[j]).validator_id != update.validator_id)
            && s.len() < 512 ==> t == s.push(update),
        (forall|j: int| 0 <= j < s.len() ==> (#[trigger] s[j]).validator_id != update.validator_id)
            && s.len() >= 512 ==> t == s,
{
    if 0 <= i < s.len() && s[i].validator_id == update.validator_id {
        assert(validator_at(s, update.validator_id, i));
    }
}

} // verus!
