//! Walk-forward optimization: parameter bookkeeping, per-period results, a
//! memory budget with a circuit breaker, and shadow-mode logging.
//!
//! Scores are kept as an opaque type `F`, so that the caller decides how they
//! are represented and compared; what the optimizer does with them is decided
//! here.

use vstd::prelude::*;

verus! {

/// Maximum optimization parameters of a typical optimizer.
pub const MAX_PARAMS: usize = 16;

/// Maximum periods of a typical optimizer.
pub const MAX_PERIODS: usize = 256;

/// Result of one optimization run; the scores have type `F`.
#[derive(Clone, Copy, Debug)]
pub struct OptResult<F> {
    pub sharpe_ratio: F,
    pub max_drawdown: F,
    pub total_return: F,
    pub win_rate: F,
    pub profit_factor: F,
    pub trades_count: u64,
}

impl<F: Copy> OptResult<F> {
    /// Result of a run without trades, every score being `zero`.
    pub fn new(zero: F) -> (r: Self)
        ensures
            r == blank_result(zero),
    {
        OptResult {
            sharpe_ratio: zero,
            max_drawdown: zero,
            total_return: zero,
            win_rate: zero,
            profit_factor: zero,
            trades_count: 0,
        }
    }
}

/// Result of a run without trades.
pub open spec fn blank_result<F>(zero: F) -> OptResult<F> {
    OptResult {
        sharpe_ratio: zero,
        max_drawdown: zero,
        total_return: zero,
        win_rate: zero,
        profit_factor: zero,
        trades_count: 0,
    }
}

/// Parameter set with room for `MAX_PARAMS` values.
#[derive(Clone, Copy, Debug)]
pub struct ParamSet<F, const MAX_PARAMS: usize> {
    pub values: [F; MAX_PARAMS],
    pub count: usize,
}

impl<F: Copy, const MAX_PARAMS: usize> ParamSet<F, MAX_PARAMS> {
    /// Empty parameter set.
    pub fn new(zero: F) -> (r: Self)
        ensures
            r.count == 0,
            r.values@ == Seq::new(MAX_PARAMS as nat, |i: int| zero),
    {
        let r = ParamSet { values: [zero; MAX_PARAMS], count: 0 };
        assert(r.values@ =~= Seq::new(MAX_PARAMS as nat, |i: int| zero));
        r
    }
}

/// Number of results with trades among the first `n`.
pub open spec fn traded_count<F>(results: Seq<OptResult<F>>, n: int) -> int
    decreases n,
{
    if n <= 0 {
        0
    } else {
        traded_count(results, n - 1) + if results[n - 1].trades_count > 0 {
            1int
        } else {
            0
        }
    }
}

/// Trades over the first `n` results.
pub open spec fn trades_total<F>(results: Seq<OptResult<F>>, n: int) -> int
    decreases n,
{
    if n <= 0 {
        0
    } else {
        trades_total(results, n - 1) + results[n - 1].trades_count
    }
}

/// `idx` lists, in increasing order, exactly the periods below `n` that have
/// trades.
pub open spec fn lists_traded<F>(results: Seq<OptResult<F>>, n: int, idx: Seq<usize>) -> bool {
    &&& forall|k: int|
        0 <= k < idx.len() ==> (#[trigger] idx[k]) < n && results[idx[k] as int].trades_count > 0
    &&& forall|j: int, k: int| 0 <= j < k < idx.len() ==> idx[j] < idx[k]
    &&& forall|p: int|
        0 <= p < n && (#[trigger] results[p]).trades_count > 0 ==> exists|k: int|
            0 <= k < idx.len() && idx[k] == p
}

/// Integer part of an aggregate: which periods count, and their trades.
#[derive(Debug)]
pub struct TradedPeriods {
    /// Periods with trades, in increasing order.
    pub periods: Vec<usize>,
    /// Trades over all periods.
    pub trades: u64,
}

fn traded_periods<F>(results: &Vec<OptResult<F>>) -> (r: TradedPeriods)
    requires
        trades_total(results@, results@.len() as int) <= u64::MAX,
    ensures
        r.trades == trades_total(results@, results@.len() as int),
        lists_traded(results@, results@.len() as int, r.periods@),
        r.periods@.len() == traded_count(results@, results@.len() as int),
{
    let mut periods: Vec<usize> = Vec::new();
    let mut trades: u64 = 0;
    let mut i: usize = 0;
    while i < results.len()
        invariant
            i <= results@.len(),
            trades == trades_total(results@, i as int),
            periods@.len() == traded_count(results@, i as int),
            lists_traded(results@, i as int, periods@),
            trades_total(results@, results@.len() as int) <= u64::MAX,
        decreases results@.len() - i,
    {
        let ghost before = periods@;
        proof {
            lemma_trades_monotonic(results@, i + 1, results@.len() as int);
        }
        if results[i].trades_count > 0 {
            periods.push(i);
            assert forall|p: int|
                0 <= p < i + 1 && (#[trigger] results@[p]).trades_count > 0 implies exists|k: int|
                0 <= k < periods@.len() && periods@[k] == p by {
                if p == i {
                    assert(periods@[before.len() as int] == p);
                } else {
                    let k = choose|k: int| 0 <= k < before.len() && before[k] == p;
                    assert(periods@[k] == p);
                }
            }
        }
        trades = trades + results[i].trades_count;
        i = i + 1;
    }
    TradedPeriods { periods, trades }
}

proof fn lemma_trades_monotonic<F>(results: Seq<OptResult<F>>, a: int, b: int)
    requires
        0 <= a <= b,
    ensures
        0 <= trades_total(results, a) <= trades_total(results, b),
    decreases b,
{
    if a < b {
        lemma_trades_monotonic(results, a, b - 1);
    } else if a > 0 {
        lemma_trades_monotonic(results, a - 1, b - 1);
    }
}

/// Walk-forward optimizer over `MAX_PERIODS` periods.
pub struct WalkForwardOptimizer<F, const MAX_PARAMS: usize, const MAX_PERIODS: usize> {
    /// Current parameter values.
    pub params: ParamSet<F, MAX_PARAMS>,
    /// Best parameters found.
    pub best_params: ParamSet<F, MAX_PARAMS>,
    /// Best result.
    pub best_result: OptResult<F>,
    /// In-sample results per period.
    pub is_results: Vec<OptResult<F>>,
    /// Out-of-sample results per period.
    pub oos_results: Vec<OptResult<F>>,
    pub current_period: u64,
    pub total_periods: u64,
    /// Memory accounted for, in bytes.
    pub memory_used: u64,
    /// Memory limit in bytes.
    pub memory_limit: u64,
    pub circuit_breaker: bool,
    pub is_running: bool,
    pub shadow_mode: bool,
    pub shadow_log_count: u64,
}

impl<F: Copy, const MAX_PARAMS: usize, const MAX_PERIODS: usize> WalkForwardOptimizer<
    F,
    MAX_PARAMS,
    MAX_PERIODS,
> {
    /// One result slot per period, and memory within the limit.
    pub open spec fn wf(&self) -> bool {
        &&& self.is_results@.len() == MAX_PERIODS
        &&& self.oos_results@.len() == MAX_PERIODS
        &&& self.memory_used <= self.memory_limit
        &&& self.params.count <= MAX_PARAMS
        &&& self.best_params.count <= MAX_PARAMS
    }

    fn blank_results(zero: F) -> (r: Vec<OptResult<F>>)
        ensures
            r@ == Seq::new(MAX_PERIODS as nat, |i: int| blank_result(zero)),
    {
        let mut r: Vec<OptResult<F>> = Vec::new();
        let mut i: usize = 0;
        while i < MAX_PERIODS
            invariant
                i <= MAX_PERIODS,
                r@.len() == i,
                forall|j: int| 0 <= j < i ==> r@[j] == blank_result(zero),
            decreases MAX_PERIODS - i,
        {
            r.push(OptResult::new(zero));
            i = i + 1;
        }
        assert(r@ =~= Seq::new(MAX_PERIODS as nat, |i: int| blank_result(zero)));
        r
    }

    /// Idle optimizer with a memory limit in bytes; `zero` is the score that
    /// blank results and parameters hold.
    pub fn new(memory_limit: u64, zero: F) -> (r: Self)
        ensures
            r.wf(),
            r.params.count == 0,
            r.best_params.count == 0,
            r.params.values@ == Seq::new(MAX_PARAMS as nat, |i: int| zero),
            r.best_params.values@ == Seq::new(MAX_PARAMS as nat, |i: int| zero),
            r.best_result == blank_result(zero),
            r.is_results@ == Seq::new(MAX_PERIODS as nat, |i: int| blank_result(zero)),
            r.oos_results@ == Seq::new(MAX_PERIODS as nat, |i: int| blank_result(zero)),
            r.current_period == 0,
            r.total_periods == 0,
            r.memory_used == 0,
            r.memory_limit == memory_limit,
            !r.circuit_breaker,
            !r.is_running,
            !r.shadow_mode,
            r.shadow_log_count == 0,
    {
        WalkForwardOptimizer {
            params: ParamSet::new(zero),
            best_params: ParamSet::new(zero),
            best_result: OptResult::new(zero),
            is_results: Self::blank_results(zero),
            oos_results: Self::blank_results(zero),
            current_period: 0,
            total_periods: 0,
            memory_used: 0,
            memory_limit,
            circuit_breaker: false,
            is_running: false,
            shadow_mode: false,
            shadow_log_count: 0,
        }
    }

    /// Account for `additional` bytes. A request that would exceed the limit
    /// is refused and trips the circuit breaker.
    pub fn check_memory(&mut self, additional: u64) -> (r: bool)
        requires
            old(self).wf(),
            old(self).memory_used + additional <= u64::MAX,
        ensures
            final(self).wf(),
            r == (old(self).memory_used + additional <= old(self).memory_limit),
            *final(self) == if r {
                WalkForwardOptimizer {
                    memory_used: (old(self).memory_used + additional) as u64,
                    ..*old(self)
                }
            } else {
                WalkForwardOptimizer { circuit_breaker: true, ..*old(self) }
            },
    {
        if self.memory_used + additional > self.memory_limit {
            self.circuit_breaker = true;
            return false;
        }
        self.memory_used = self.memory_used + additional;
        true
    }

    /// Forget the memory accounted for.
    pub fn reset_memory_tracker(&mut self)
        requires
            old(self).wf(),
        ensures
            final(self).wf(),
            *final(self) == (WalkForwardOptimizer { memory_used: 0, ..*old(self) }),
    {
        self.memory_used = 0;
    }

    /// Set the parameters; more than `MAX_PARAMS` values are refused. Values
    /// behind the new ones stay as they were.
    pub fn set_params(&mut self, values: &[F]) -> (r: bool)
        requires
            old(self).wf(),
        ensures
            final(self).wf(),
            r == (values@.len() <= MAX_PARAMS),
            !r ==> *final(self) == *old(self),
            *final(self) == (WalkForwardOptimizer { params: final(self).params, ..*old(self) }),
            r ==> final(self).params.count == values@.len(),
            r ==> final(self).params.values@ == values@ + old(self).params.values@.skip(
                values@.len() as int,
            ),
    {
        if values.len() > MAX_PARAMS {
            return false;
        }
        let mut params = self.params;
        params.count = values.len();
        let mut i: usize = 0;
        while i < values.len()
            invariant
                i <= values@.len() <= MAX_PARAMS,
                params.count == values@.len(),
                forall|j: int| 0 <= j < i ==> params.values@[j] == values@[j],
                forall|j: int|
                    i <= j < MAX_PARAMS ==> params.values@[j] == self.params.values@[j],
            decreases values@.len() - i,
        {
            params.values[i] = values[i];
            i = i + 1;
        }
        assert(params.values@ =~= values@ + self.params.values@.skip(values@.len() as int));
        self.params = params;
        true
    }

    /// Record the result of one run. `improves` says whether its Sharpe ratio
    /// exceeds that of the best result so far; then the result and the
    /// current parameters become the best ones. An active circuit breaker and
    /// a period out of range refuse the run.
    pub fn run_iteration(
        &mut self,
        period: usize,
        is_sample: bool,
        result: OptResult<F>,
        improves: bool,
    ) -> (r: bool)
        requires
            old(self).wf(),
        ensures
            final(self).wf(),
            r == (!old(self).circuit_breaker && period < MAX_PERIODS),
            !r ==> *final(self) == *old(self),
            r ==> {
                &&& *final(self) == (WalkForwardOptimizer {
                    is_results: final(self).is_results,
                    oos_results: final(self).oos_results,
                    best_result: if improves {
                        result
                    } else {
                        old(self).best_result
                    },
                    best_params: if improves {
                        old(self).params
                    } else {
                        old(self).best_params
                    },
                    current_period: old(self).current_period.wrapping_add(1),
                    shadow_log_count: if old(self).shadow_mode {
                        old(self).shadow_log_count.wrapping_add(1)
                    } else {
                        old(self).shadow_log_count
                    },
                    ..*old(self)
                })
                &&& final(self).is_results@ == if is_sample {
                    old(self).is_results@.update(period as int, result)
                } else {
                    old(self).is_results@
                }
                &&& final(self).oos_results@ == if is_sample {
                    old(self).oos_results@
                } else {
                    old(self).oos_results@.update(period as int, result)
                }
            },
    {
        if self.circuit_breaker {
            return false;
        }
        if period >= MAX_PERIODS {
            return false;
        }
        if is_sample {
            self.is_results.set(period, result);
        } else {
            self.oos_results.set(period, result);
        }
        if improves {
            self.best_result = result;
            self.best_params = self.params;
        }
        self.current_period = self.current_period.wrapping_add(1);
        if self.shadow_mode {
            self.shadow_log_count = self.shadow_log_count.wrapping_add(1);
        }
        true
    }

    /// The in-sample periods that an aggregate runs over, and their trades.
    pub fn aggregate_is_stats(&self) -> (r: TradedPeriods)
        requires
            self.wf(),
            trades_total(self.is_results@, MAX_PERIODS as int) <= u64::MAX,
        ensures
            r.trades == trades_total(self.is_results@, MAX_PERIODS as int),
            lists_traded(self.is_results@, MAX_PERIODS as int, r.periods@),
            r.periods@.len() == traded_count(self.is_results@, MAX_PERIODS as int),
    {
        traded_periods(&self.is_results)
    }

    /// The out-of-sample periods that an aggregate runs over, and their
    /// trades.
    pub fn aggregate_oos_stats(&self) -> (r: TradedPeriods)
        requires
            self.wf(),
            trades_total(self.oos_results@, MAX_PERIODS as int) <= u64::MAX,
        ensures
            r.trades == trades_total(self.oos_results@, MAX_PERIODS as int),
            lists_traded(self.oos_results@, MAX_PERIODS as int, r.periods@),
            r.periods@.len() == traded_count(self.oos_results@, MAX_PERIODS as int),
    {
        traded_periods(&self.oos_results)
    }

    /// Log runs from now on.
    pub fn enable_shadow_mode(&mut self)
        requires
            old(self).wf(),
        ensures
            final(self).wf(),
            *final(self) == (WalkForwardOptimizer { shadow_mode: true, ..*old(self) }),
    {
        self.shadow_mode = true;
    }

    /// Log runs no longer.
    pub fn disable_shadow_mode(&mut self)
        requires
            old(self).wf(),
        ensures
            final(self).wf(),
            *final(self) == (WalkForwardOptimizer { shadow_mode: false, ..*old(self) }),
    {
        self.shadow_mode = false;
    }

    /// Number of runs logged in shadow mode.
    pub fn shadow_log_count(&self) -> (r: u64)
        ensures
            r == self.shadow_log_count,
    {
        self.shadow_log_count
    }

    /// Best parameters found.
    pub fn get_best_params(&self) -> (r: ParamSet<F, MAX_PARAMS>)
        ensures
            r == self.best_params,
    {
        self.best_params
    }

    /// Best result found.
    pub fn get_best_result(&self) -> (r: OptResult<F>)
        ensures
            r == self.best_result,
    {
        self.best_result
    }

    /// Start an optimization over `periods` periods and release the circuit
    /// breaker.
    pub fn start(&mut self, periods: usize)
        requires
            old(self).wf(),
        ensures
            final(self).wf(),
            *final(self) == (WalkForwardOptimizer {
                total_periods: periods as u64,
                current_period: 0,
                is_running: true,
                circuit_breaker: false,
                ..*old(self)
            }),
    {
        self.total_periods = periods as u64;
        self.current_period = 0;
        self.is_running = true;
        self.circuit_breaker = false;
    }

    /// Stop the optimization.
    pub fn stop(&mut self)
        requires
            old(self).wf(),
        ensures
            final(self).wf(),
            *final(self) == (WalkForwardOptimizer { is_running: false, ..*old(self) }),
    {
        self.is_running = false;
    }

    /// The circuit breaker has tripped.
    pub fn is_circuit_breaker_active(&self) -> (r: bool)
        ensures
            r == self.circuit_breaker,
    {
        self.circuit_breaker
    }

    /// Forget the best result, the position and the log; `zero` is the score
    /// that blank results hold.
    pub fn reset(&mut self, zero: F)
        requires
            old(self).wf(),
        ensures
            final(self).wf(),
            *final(self) == (WalkForwardOptimizer {
                current_period: 0,
                is_running: false,
                circuit_breaker: false,
                best_result: blank_result(zero),
                best_params: final(self).best_params,
                shadow_log_count: 0,
                ..*old(self)
            }),
            final(self).best_params.count == 0,
            final(self).best_params.values@ == Seq::new(MAX_PARAMS as nat, |i: int| zero),
    {
        self.current_period = 0;
        self.is_running = false;
        self.circuit_breaker = false;
        self.best_result = OptResult::new(zero);
        self.best_params = ParamSet::new(zero);
        self.shadow_log_count = 0;
    }
}

/// Typical configuration.
pub type CryptoWalkForward<F> = WalkForwardOptimizer<F, MAX_PARAMS, MAX_PERIODS>;

/// The trades of all periods are added up, and each period with trades is counted once.
pub proof fn lemma_periods_add_up<F>(results: Seq<OptResult<F>>, n: int)
    requires
        0 <= n < results.len(),
    ensures
        trades_total(results, 0) == 0,
        traded_count(results, 0) == 0,
        trades_total(results, n + 1) == trades_total(results, n) + results[n].trades_count,
        results[n].trades_count > 0 ==> traded_count(results, n + 1) == traded_count(results, n)
            + 1,
        results[n].trades_count == 0 ==> traded_count(results, n + 1) == traded_count(results, n),
{
}

} // verus!
