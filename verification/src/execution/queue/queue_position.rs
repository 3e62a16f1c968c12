//! Queue position estimator: what trades ahead of an order moves it forward.

use vstd::prelude::*;
use crate::fixed::{clamp, lemma_tdiv_rounds, max, min, seq_sum, tdiv};
use crate::ring::{lemma_ring_drop, lemma_ring_push, pushed, ring};

verus! {

broadcast use vstd::array::group_array_axioms;

/// Fixed-point scaling factor (10^8).
pub const FIXED_SCALE: i64 = 100_000_000;

/// Slots of the trade flow buffer.
pub const MAX_QUEUE_DEPTH: usize = 1024;

/// Trades that the buffer remembers.
pub const FLOW_WINDOW: usize = 1023;

/// Factor of the order ID hash.
pub const HASH_FACTOR: u64 = 0x517c_c1b7_2722_0a95;

/// Microseconds in a second.
pub const MICRO: u128 = 1_000_000;

/// Circular buffer for trade flow.
#[derive(Debug)]
pub struct TradeFlowBuffer {
    /// Volumes, in a ring.
    pub data: [i64; 1024],
    /// Volumes written in all.
    pub head: u64,
    /// Volumes gone in all.
    pub tail: u64,
    /// Running sum of the volumes remembered.
    pub sum: u64,
    /// Fills the cache line.
    pub padding: [u8; 40],
}

impl View for TradeFlowBuffer {
    type V = Seq<i64>;

    /// Volumes remembered, oldest first.
    open spec fn view(&self) -> Seq<i64> {
        ring(self.data@, self.head as int, self.head - self.tail)
    }
}

/// Sum of unsigned numbers, held at the largest one.
pub open spec fn sat_up(a: int, b: int) -> int {
    min(a + b, u64::MAX as int)
}

/// Difference of unsigned numbers, held at zero.
pub open spec fn sat_down(a: int, b: int) -> int {
    max(a - b, 0)
}

impl TradeFlowBuffer {
    /// No more volumes are remembered than the window holds.
    pub open spec fn wf(&self) -> bool {
        self.tail <= self.head && self.head - self.tail <= FLOW_WINDOW
    }

    /// The running sum is the sum of the volumes remembered, none of which is
    /// negative.
    pub open spec fn exact(&self) -> bool {
        &&& self.sum == seq_sum(self@)
        &&& forall|i: int| 0 <= i < self@.len() ==> #[trigger] self@[i] >= 0
    }

    /// Nothing was ever remembered.
    pub open spec fn empty(&self) -> bool {
        &&& self@ == Seq::<i64>::empty()
        &&& self.data@ == Seq::new(1024, |i: int| 0i64)
        &&& self.head == 0
        &&& self.tail == 0
        &&& self.sum == 0
        &&& self.padding@ == Seq::new(40, |i: int| 0u8)
    }

    /// Empty buffer.
    fn new() -> (r: Self)
        ensures
            r.wf(),
            r.empty(),
    {
        let r = TradeFlowBuffer { data: [0i64;1024], head: 0, tail: 0, sum: 0, padding: [0u8;40] };
        assert(r@ =~= Seq::<i64>::empty());
        assert(r.data@ =~= Seq::new(1024, |i: int| 0i64));
        assert(r.padding@ =~= Seq::new(40, |i: int| 0u8));
        r
    }

    /// Running sum after one more volume.
    pub open spec fn next_sum(&self, volume: i64) -> int {
        sat_up(
            if self@.len() == FLOW_WINDOW {
                sat_down(self.sum as int, self@[0] as u64 as int)
            } else {
                self.sum as int
            },
            volume as u64 as int,
        )
    }

    /// Remember a volume. The oldest one leaves when the window is full.
    pub fn push(&mut self, volume: i64)
        requires
            old(self).wf(),
            old(self).head < u64::MAX,
        ensures
            final(self).wf(),
            final(self)@ == pushed(old(self)@, FLOW_WINDOW as int, volume),
            final(self).sum == old(self).next_sum(volume),
            final(self).head == old(self).head + 1,
    {
        let head: u64 = self.head;
        let ghost items = self@;
        if head - self.tail >= FLOW_WINDOW as u64 {
            let oldest: i64 = self.data[(self.tail % 1024) as usize];
            assert(oldest == items[0]);
            self.sum = self.sum.saturating_sub(oldest as u64);
            proof {
                lemma_ring_drop(self.data@, head as int, head - self.tail);
            }
            self.tail = self.tail + 1;
        }
        proof {
            lemma_ring_push(self.data@, head as int, head - self.tail, volume);
        }
        self.data[(head % 1024) as usize] = volume;
        self.sum = self.sum.saturating_add(volume as u64);
        self.head = head + 1;
    }

    /// Running sum as a signed number.
    pub fn total_flow(&self) -> (r: i64)
        ensures
            r == self.sum as i64,
    {
        self.sum as i64
    }

    /// Forget everything.
    pub fn clear(&mut self)
        ensures
            final(self).wf(),
            final(self)@ == Seq::<i64>::empty(),
            final(self).sum == 0,
            final(self).head == 0,
    {
        self.head = 0;
        self.tail = 0;
        self.sum = 0;
        assert(self@ =~= Seq::<i64>::empty());
    }
}

/// A sum loses its first number with it.
proof fn lemma_sum_drop_first(s: Seq<i64>)
    requires
        s.len() > 0,
    ensures
        seq_sum(s) == s[0] + seq_sum(s.drop_first()),
    decreases s.len(),
{
    if s.len() > 1 {
        let t = s.drop_first();
        lemma_sum_drop_first(s.drop_last());
        assert(s.drop_last().drop_first() =~= t.drop_last());
    } else {
        assert(s.drop_first() =~= Seq::<i64>::empty());
        assert(s.drop_last() =~= Seq::<i64>::empty());
    }
}

/// A sum of numbers none of which is negative is not negative.
proof fn lemma_sum_nonneg(s: Seq<i64>)
    requires
        forall|i: int| 0 <= i < s.len() ==> #[trigger] s[i] >= 0,
    ensures
        seq_sum(s) >= 0,
    decreases s.len(),
{
    if s.len() > 0 {
        lemma_sum_nonneg(s.drop_last());
    }
}

/// As long as volumes are not negative and their sum is representable, the
/// running sum is exact.
pub proof fn lemma_running_sum_exact(before: TradeFlowBuffer, after: TradeFlowBuffer, volume: i64)
    requires
        before.wf(),
        before.exact(),
        volume >= 0,
        before.sum + volume <= u64::MAX,
        after@ == pushed(before@, FLOW_WINDOW as int, volume),
        after.sum == before.next_sum(volume),
    ensures
        after.exact(),
{
    let s = before@;
    if s.len() == FLOW_WINDOW {
        lemma_sum_drop_first(s);
        let t = s.drop_first();
        assert forall|i: int| 0 <= i < t.len() implies #[trigger] t[i] >= 0 by {
            assert(s[i + 1] >= 0);
        }
        lemma_sum_nonneg(t);
        assert(s[0] >= 0);
        assert(t.push(volume).drop_last() =~= t);
        assert forall|i: int| 0 <= i < after@.len() implies #[trigger] after@[i] >= 0 by {
            if i < t.len() {
                assert(t[i] >= 0);
            }
        }
    } else {
        assert(s.push(volume).drop_last() =~= s);
        assert forall|i: int| 0 <= i < after@.len() implies #[trigger] after@[i] >= 0 by {
            if i < s.len() {
                assert(s[i] >= 0);
            }
        }
    }
}

/// Queue position state.
#[derive(Debug, Clone, Copy)]
pub struct QueuePositionState {
    /// Initial position in queue (shares).
    pub initial_position: i64,
    /// Estimated current position.
    pub current_position: i64,
    /// Total size ahead.
    pub queue_size_ahead: i64,
    /// Hash of the order ID.
    pub order_id_hash: u64,
    /// Time of placement.
    pub timestamp_cycles: u64,
    /// Is the order still active.
    pub is_active: bool,
    /// Was the order filled.
    pub was_filled: bool,
    /// Fills the cache line.
    pub padding: [u8; 22],
}

impl QueuePositionState {
    /// No order.
    pub open spec fn spec_default() -> Self {
        QueuePositionState {
            initial_position: 0,
            current_position: 0,
            queue_size_ahead: 0,
            order_id_hash: 0,
            timestamp_cycles: 0,
            is_active: false,
            was_filled: false,
            padding: vstd::array::spec_array_fill_for_copy_type::<u8, 22>(0u8),
        }
    }
}

impl Default for QueuePositionState {
    fn default() -> (r: Self)
        ensures
            r == QueuePositionState::spec_default(),
    {
        QueuePositionState {
            initial_position: 0,
            current_position: 0,
            queue_size_ahead: 0,
            order_id_hash: 0,
            timestamp_cycles: 0,
            is_active: false,
            was_filled: false,
            padding: [0u8;22],
        }
    }
}

/// Queue position estimator.
#[derive(Debug)]
pub struct QueuePositionEstimator {
    /// State of the order.
    pub state: QueuePositionState,
    /// Trades ahead of it.
    pub trade_flow: TradeFlowBuffer,
    /// Queue size at placement.
    pub initial_queue_size: u64,
    /// Shares per second of clock cycles (scaled by 10^6).
    pub depletion_rate: u64,
    /// Estimated time to fill.
    pub estimated_fill_time: u64,
    /// Set if adverse selection was detected.
    pub toxicity_flag: bool,
    /// Fills the cache line.
    pub padding: [u8; 39],
}

/// Position once a flow has gone by.
pub open spec fn position_after(initial: int, flow: int) -> int {
    clamp(initial - flow, i64::MIN as int, i64::MAX as int)
}

/// Depletion rate of a flow over a time.
pub open spec fn rate_of(flow: int, elapsed: int) -> u64 {
    ((flow * MICRO) / max(elapsed, 1)) as u64
}

impl QueuePositionEstimator {
    /// The flow buffer is well formed.
    pub open spec fn wf(&self) -> bool {
        self.trade_flow.wf()
    }

    /// Estimator without an order.
    pub fn new() -> (r: Self)
        ensures
            r.wf(),
            r.state == QueuePositionState::spec_default(),
            r.trade_flow.empty(),
            r.initial_queue_size == 0,
            r.depletion_rate == 0,
            r.estimated_fill_time == 0,
            !r.toxicity_flag,
            r.padding@ == Seq::new(39, |i: int| 0u8),
    {
        let r = QueuePositionEstimator {
            state: QueuePositionState::default(),
            trade_flow: TradeFlowBuffer::new(),
            initial_queue_size: 0,
            depletion_rate: 0,
            estimated_fill_time: 0,
            toxicity_flag: false,
            padding: [0u8;39],
        };
        assert(r.padding@ =~= Seq::new(39, |i: int| 0u8));
        r
    }

    /// Start with an order that was placed at time `now`.
    pub fn initialize(&mut self, order_id: u64, initial_pos: i64, queue_size: i64, now: u64)
        ensures
            final(self).wf(),
            final(self).state == (QueuePositionState {
                initial_position: initial_pos,
                current_position: initial_pos,
                queue_size_ahead: queue_size,
                order_id_hash: order_id.wrapping_mul(HASH_FACTOR),
                timestamp_cycles: now,
                is_active: true,
                was_filled: false,
                ..old(self).state
            }),
            final(self).trade_flow@ == Seq::<i64>::empty(),
            final(self).trade_flow.sum == 0,
            final(self).trade_flow.head == 0,
            final(self).initial_queue_size == queue_size as u64,
            final(self).depletion_rate == old(self).depletion_rate,
            final(self).estimated_fill_time == old(self).estimated_fill_time,
            !final(self).toxicity_flag,
    {
        self.initial_queue_size = queue_size as u64;
        self.state.order_id_hash = order_id.wrapping_mul(HASH_FACTOR);
        self.state.initial_position = initial_pos;
        self.state.current_position = initial_pos;
        self.state.queue_size_ahead = queue_size;
        self.state.timestamp_cycles = now;
        self.state.is_active = true;
        self.state.was_filled = false;
        self.trade_flow.clear();
        self.toxicity_flag = false;
    }

    /// Note a trade at time `now`; only trades ahead of the order move it. The
    /// order counts as filled when its position reaches zero. Nothing changes
    /// without an active order.
    pub fn update_trade_flow(&mut self, trade_volume: i64, is_ahead: bool, now: u64)
        requires
            old(self).wf(),
            old(self).state.is_active ==> old(self).trade_flow.head < u64::MAX,
        ensures
            final(self).wf(),
            !old(self).state.is_active ==> *final(self) == *old(self),
            old(self).state.is_active ==> {
                let volume = if is_ahead {
                    trade_volume
                } else {
                    0
                };
                let flow = final(self).trade_flow.sum as i64;
                let position = position_after(old(self).state.initial_position as int, flow as int);
                let elapsed = now.wrapping_sub(old(self).state.timestamp_cycles);
                let rate = rate_of(flow as int, elapsed as int);
                &&& final(self).trade_flow@ == pushed(
                    old(self).trade_flow@,
                    FLOW_WINDOW as int,
                    volume,
                )
                &&& final(self).trade_flow.sum == old(self).trade_flow.next_sum(volume)
                &&& final(self).trade_flow.head == old(self).trade_flow.head + 1
                &&& final(self).state == (QueuePositionState {
                    current_position: max(position, 0) as i64,
                    was_filled: old(self).state.was_filled || position <= 0,
                    is_active: position > 0,
                    ..old(self).state
                })
                &&& final(self).depletion_rate == if flow > 0 {
                    rate
                } else {
                    old(self).depletion_rate
                }
                &&& final(self).estimated_fill_time == if flow > 0 && position > 0 && rate > 0 {
                    ((position * MICRO) / (rate as int)) as u64
                } else {
                    old(self).estimated_fill_time
                }
                &&& final(self).initial_queue_size == old(self).initial_queue_size
                &&& final(self).toxicity_flag == old(self).toxicity_flag
            },
    {
        if !self.state.is_active {
            return ;
        }
        let volume: i64 = if is_ahead {
            trade_volume
        } else {
            0
        };
        self.trade_flow.push(volume);
        let flow: i64 = self.trade_flow.total_flow();
        let wide: i128 = self.state.initial_position as i128 - flow as i128;
        let position: i64 = if wide > i64::MAX as i128 {
            i64::MAX
        } else if wide < i64::MIN as i128 {
            i64::MIN
        } else {
            wide as i64
        };
        let filled = position <= 0;
        self.state.current_position = if position > 0 {
            position
        } else {
            0
        };
        self.state.was_filled = self.state.was_filled || filled;
        self.state.is_active = !filled;
        if flow > 0 {
            let elapsed: u64 = now.wrapping_sub(self.state.timestamp_cycles);
            let divisor: u64 = if elapsed > 1 {
                elapsed
            } else {
                1
            };
            let rate: u64 = ((flow as u128 * MICRO) / divisor as u128) as u64;
            self.depletion_rate = rate;
            if self.state.current_position > 0 && rate > 0 {
                let remaining: u128 = self.state.current_position as u128;
                self.estimated_fill_time = ((remaining * MICRO) / rate as u128) as u64;
            }
        }
    }

    /// Shares that trade within a time at the current rate.
    pub open spec fn expected_depletion(&self, time_horizon_us: u64) -> i64 {
        ((self.depletion_rate * time_horizon_us) / (MICRO as int)) as i64
    }

    /// Probability of a fill within a time (fixed-point): certain once filled or
    /// when the expected depletion covers the position, else their ratio.
    pub open spec fn probability(&self, time_horizon_us: u64) -> i64 {
        if self.state.was_filled {
            FIXED_SCALE
        } else if !self.state.is_active || self.depletion_rate == 0 {
            0
        } else if self.expected_depletion(time_horizon_us) >= self.state.current_position {
            FIXED_SCALE
        } else {
            tdiv(
                self.expected_depletion(time_horizon_us) * FIXED_SCALE,
                max(self.state.current_position as int, 1),
            ) as i64
        }
    }

    /// Probability of a fill within a time in microseconds (fixed-point).
    pub fn fill_probability(&self, time_horizon_us: u64) -> (r: i64)
        ensures
            r == self.probability(time_horizon_us),
    {
        if !self.state.is_active || self.state.was_filled {
            return if self.state.was_filled {
                FIXED_SCALE
            } else {
                0
            };
        }
        let rate: u64 = self.depletion_rate;
        if rate == 0 {
            return 0;
        }
        assert(0 <= rate * time_horizon_us <= 0xffff_ffff_ffff_ffff * 0xffff_ffff_ffff_ffff)
            by (nonlinear_arith)
            requires
                0 <= rate <= 0xffff_ffff_ffff_ffff,
                0 <= time_horizon_us <= 0xffff_ffff_ffff_ffff,
        ;
        let expected: i64 = ((rate as u128 * time_horizon_us as u128) / MICRO) as i64;
        let remaining: i64 = self.state.current_position;
        if expected >= remaining {
            FIXED_SCALE
        } else {
            let divisor: i64 = if remaining > 1 {
                remaining
            } else {
                1
            };
            crate::fixed::div_i128(expected as i128 * FIXED_SCALE as i128, divisor as i128) as i64
        }
    }

    /// Check if the order should be cancelled: it is marked toxic, or its
    /// probability of a fill within a millisecond is below a threshold.
    pub fn should_cancel_toxic(&self, threshold: i64) -> (r: bool)
        ensures
            r == (self.toxicity_flag || self.probability(1000) < threshold),
    {
        self.toxicity_flag || self.fill_probability(1000) < threshold
    }

    /// Mark the order as toxic.
    pub fn mark_toxic(&mut self)
        ensures
            *final(self) == (QueuePositionEstimator { toxicity_flag: true, ..*old(self) }),
    {
        self.toxicity_flag = true;
    }

    /// Current position.
    pub fn current_position(&self) -> (r: i64)
        ensures
            r == self.state.current_position,
    {
        self.state.current_position
    }

    /// Estimated time to fill in microseconds.
    pub fn estimated_fill_time_us(&self) -> (r: u64)
        ensures
            r == self.estimated_fill_time,
    {
        self.estimated_fill_time
    }

    /// Cancel the order.
    pub fn cancel(&mut self)
        ensures
            *final(self) == (QueuePositionEstimator {
                state: QueuePositionState { is_active: false, ..old(self).state },
                ..*old(self)
            }),
    {
        self.state.is_active = false;
    }
}

/// The order never moves back as trades go by ahead of it: more flow leaves a
/// position that is no larger.
pub proof fn lemma_flow_moves_forward(initial: int, a: int, b: int)
    requires
        a <= b,
    ensures
        position_after(initial, b) <= position_after(initial, a),
{
}

/// What trades ahead of the order brings it forward by as much.
pub proof fn lemma_position_less_flow(initial: int, flow: int)
    requires
        -0x8000_0000_0000_0000 <= initial - flow <= 0x7fff_ffff_ffff_ffff,
    ensures
        position_after(initial, flow) == initial - flow,
{
}

/// The depletion rate is the flow over the time that it took, in millionths and rounded
/// down; a time of nothing counts as one.
pub proof fn lemma_rate_is_flow_over_time(flow: int, elapsed: int)
    requires
        0 <= flow <= 1_000_000_000_000,
        0 <= elapsed,
    ensures
        ({
            let t = if elapsed > 0 {
                elapsed
            } else {
                1
            };
            rate_of(flow, elapsed) * t <= flow * 1_000_000 < (rate_of(flow, elapsed) + 1) * t
        }),
{
    let t = if elapsed > 0 {
        elapsed
    } else {
        1
    };
    let q = (flow * 1_000_000) / t;
    assert(0 <= q <= flow * 1_000_000 && q * t <= flow * 1_000_000 < (q + 1) * t)
        by (nonlinear_arith)
        requires
            q == (flow * 1_000_000) / t,
            t > 0,
            flow >= 0,
    ;
}

/// An order that was filled is filled for certain; one that is not active, or that nothing
/// trades ahead of, is not filled; for any other the probability is the share of its
/// position that trades within the time, and one if all of it does.
pub proof fn lemma_fill_probability(e: QueuePositionEstimator, time_us: u64, volume: int)
    requires
        e.state.current_position > 0,
        volume * 1_000_000 <= e.depletion_rate * time_us < (volume + 1) * 1_000_000,
        volume <= 0x7fff_ffff_ffff_ffff,
    ensures
        ({
            let p = e.probability(time_us);
            let position = e.state.current_position;
            if e.state.was_filled {
                p == 100_000_000
            } else if !e.state.is_active || e.depletion_rate == 0 {
                p == 0
            } else if volume >= position {
                p == 100_000_000
            } else {
                p * position <= volume * 100_000_000 < (p + 1) * position
            }
        }),
{
    let x = e.depletion_rate * time_us;
    assert(x >= 0) by (nonlinear_arith)
        requires
            x == e.depletion_rate * time_us,
            e.depletion_rate >= 0,
            time_us >= 0,
    ;
    assert(x / 1_000_000 == volume);
    let d = e.state.current_position as int;
    if volume < d {
        let y = volume * 100_000_000;
        lemma_tdiv_rounds(y, d);
        let q = tdiv(y, d);
        assert((q + 1) * d == q * d + d) by (nonlinear_arith);
        assert(0 <= q < 100_000_000) by (nonlinear_arith)
            requires
                0 <= y - q * d < d,
                0 <= y < 100_000_000 * d,
                d > 0,
        ;
    }
}

} // verus!
