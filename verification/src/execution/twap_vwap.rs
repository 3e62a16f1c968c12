//! TWAP, VWAP and POV execution: a parent order is cut into child orders, which
//! a timer wheel hands out slot by slot.

use vstd::prelude::*;
use crate::fixed::{cast_i64, div_i64, fits_i64, lemma_tdiv_unique, max, min, tdiv};

verus! {

broadcast use vstd::array::group_array_axioms;

/// Maximum number of child orders.
pub const MAX_CHILD_ORDERS: usize = 256;

/// Timer wheel slots.
pub const TIMER_WHEEL_SLOTS: usize = 65536;

/// Orders that a timer slot holds.
pub const SLOT_ORDERS: usize = 16;

/// Buckets of the volume profile: quarter hours of a day.
pub const VWAP_BUCKETS: u16 = 96;

/// Share of the volume in each bucket (basis points).
pub const BUCKET_BP: u64 = 104;

/// Milliseconds in a bucket.
pub const BUCKET_MS: u64 = 900_000;

/// Clock cycles in a millisecond.
pub const CYCLES_PER_MS: u64 = 3_000_000;

/// Basis points in the whole.
pub const BPS: u64 = 10_000;

/// Algorithm type.
#[derive(Debug, Clone, Copy, PartialEq, Eq, Structural)]
pub enum AlgoType {
    Twap,
    Vwap,
    Pov,
}

impl AlgoType {
    /// Number of the algorithm.
    pub open spec fn spec_code(self) -> u8 {
        match self {
            AlgoType::Twap => 0,
            AlgoType::Vwap => 1,
            AlgoType::Pov => 2,
        }
    }

    /// Number of the algorithm.
    pub fn code(self) -> (r: u8)
        ensures
            r == self.spec_code(),
    {
        match self {
            AlgoType::Twap => 0,
            AlgoType::Vwap => 1,
            AlgoType::Pov => 2,
        }
    }
}

/// Order side.
#[derive(Debug, Clone, Copy, PartialEq, Eq, Structural)]
pub enum Side {
    Buy,
    Sell,
}

impl Side {
    /// Number of the side.
    pub open spec fn spec_code(self) -> u8 {
        match self {
            Side::Buy => 0,
            Side::Sell => 1,
        }
    }

    /// Number of the side.
    pub fn code(self) -> (r: u8)
        ensures
            r == self.spec_code(),
    {
        match self {
            Side::Buy => 0,
            Side::Sell => 1,
        }
    }
}

/// Child order.
#[derive(Debug, Clone, Copy)]
pub struct ChildOrder {
    /// Order ID, counting from one.
    pub order_id: u64,
    /// Parent order ID.
    pub parent_id: u64,
    /// Quantity.
    pub quantity: u64,
    /// Price; zero for a market order.
    pub price: u64,
    /// Side, by number.
    pub side: u8,
    /// Venue.
    pub venue_id: u8,
    /// Timer slot.
    pub time_slot: u16,
    /// 0=pending, 1=submitted, 2=filled, 3=cancelled.
    pub status: u8,
    /// Quantity filled.
    pub fill_qty: u64,
    /// Fill price.
    pub fill_price: u64,
    /// Time of the fill.
    pub timestamp_cycles: u64,
    /// Fills the cache line.
    pub _padding: [u8; 3],
}

impl ChildOrder {
    /// Unused entry.
    pub open spec fn spec_empty() -> Self {
        ChildOrder {
            order_id: 0,
            parent_id: 0,
            quantity: 0,
            price: 0,
            side: 0,
            venue_id: 0,
            time_slot: 0,
            status: 0,
            fill_qty: 0,
            fill_price: 0,
            timestamp_cycles: 0,
            _padding: vstd::array::spec_array_fill_for_copy_type::<u8, 3>(0u8),
        }
    }

    /// Pending market order.
    pub open spec fn spec_slice(order_id: u64, quantity: u64, side: u8, time_slot: u16) -> Self {
        ChildOrder {
            order_id,
            parent_id: 1,
            quantity,
            side,
            time_slot,
            ..ChildOrder::spec_empty()
        }
    }

    /// Unused entry.
    fn empty() -> (r: Self)
        ensures
            r == Self::spec_empty(),
    {
        ChildOrder {
            order_id: 0,
            parent_id: 0,
            quantity: 0,
            price: 0,
            side: 0,
            venue_id: 0,
            time_slot: 0,
            status: 0,
            fill_qty: 0,
            fill_price: 0,
            timestamp_cycles: 0,
            _padding: [0u8;3],
        }
    }

    /// Pending market order.
    fn slice(order_id: u64, quantity: u64, side: u8, time_slot: u16) -> (r: Self)
        ensures
            r == Self::spec_slice(order_id, quantity, side, time_slot),
    {
        let mut order = ChildOrder::empty();
        order.order_id = order_id;
        order.parent_id = 1;
        order.quantity = quantity;
        order.side = side;
        order.time_slot = time_slot;
        order
    }
}

/// Timer wheel slot.
#[derive(Debug)]
pub struct TimerSlot {
    /// Places of the child orders that are due.
    pub order_indices: Vec<u16>,
}

impl TimerSlot {
    /// Empty slot.
    fn new() -> (r: Self)
        ensures
            r.order_indices@ == Seq::<u16>::empty(),
    {
        TimerSlot { order_indices: Vec::new() }
    }

    /// Add a child order, if there is room.
    fn insert(&mut self, order_idx: u16)
        ensures
            final(self).order_indices@ == added(old(self).order_indices@, order_idx),
    {
        if self.order_indices.len() < SLOT_ORDERS {
            self.order_indices.push(order_idx);
        }
    }
}

/// Slot after an addition: a full slot takes no more.
pub open spec fn added(slot: Seq<u16>, order_idx: u16) -> Seq<u16> {
    if slot.len() < SLOT_ORDERS {
        slot.push(order_idx)
    } else {
        slot
    }
}

/// Wheel after an order was added to a slot.
pub open spec fn placed(wheel: Seq<Seq<u16>>, order_idx: u16, slot: int) -> Seq<Seq<u16>> {
    wheel.update(slot, added(wheel[slot], order_idx))
}

/// Wheel after the first `n` orders were added, each to its slot.
pub open spec fn placed_all(wheel: Seq<Seq<u16>>, slots: spec_fn(int) -> u16, n: nat) -> Seq<
    Seq<u16>,
>
    decreases n,
{
    if n == 0 {
        wheel
    } else {
        placed(
            placed_all(wheel, slots, (n - 1) as nat),
            (n - 1) as u16,
            slots(n - 1) as int,
        )
    }
}

/// Quantity of a TWAP slice: an equal share, the first slices taking one unit of
/// the remainder each.
pub open spec fn twap_quantity(parent: int, slices: int, i: int) -> int {
    parent / slices + (if i < parent % slices {
        1int
    } else {
        0
    })
}

/// Sum of the first `n` TWAP slices.
pub open spec fn twap_sum(parent: int, slices: int, n: nat) -> int
    decreases n,
{
    if n == 0 {
        0
    } else {
        twap_sum(parent, slices, (n - 1) as nat) + twap_quantity(parent, slices, n - 1)
    }
}

/// Sum of the first `n` TWAP slices in closed form.
proof fn lemma_twap_sum(parent: int, slices: int, n: nat)
    requires
        0 <= parent,
        0 < slices,
        n <= slices,
    ensures
        twap_sum(parent, slices, n) == n * (parent / slices) + min(n as int, parent % slices),
    decreases n,
{
    vstd::arithmetic::div_mod::lemma_mod_bound(parent, slices);
    if n > 0 {
        lemma_twap_sum(parent, slices, (n - 1) as nat);
        let q = parent / slices;
        assert(n * q == (n - 1) * q + q) by (nonlinear_arith);
    } else {
        assert(n * (parent / slices) == 0) by (nonlinear_arith)
            requires
                n == 0,
        ;
    }
}

/// The TWAP slices add up to the parent quantity.
pub proof fn lemma_twap_complete(parent: int, slices: nat)
    requires
        0 <= parent,
        0 < slices,
    ensures
        twap_sum(parent, slices as int, slices) == parent,
{
    lemma_twap_sum(parent, slices as int, slices);
    vstd::arithmetic::div_mod::lemma_fundamental_div_mod(parent, slices as int);
    vstd::arithmetic::div_mod::lemma_mod_bound(parent, slices as int);
}

/// Even share of the volume profile.
pub open spec fn vwap_share(parent: int) -> int {
    (parent * BUCKET_BP) / (BPS as int)
}

/// Quantity of a VWAP slice: the share of its bucket, the last bucket taking what
/// is left.
pub open spec fn vwap_quantity(parent: int, i: int) -> int {
    if i == VWAP_BUCKETS - 1 {
        parent - i * vwap_share(parent)
    } else {
        vwap_share(parent)
    }
}

/// Sum of the first `n` VWAP slices.
pub open spec fn vwap_sum(parent: int, n: nat) -> int
    decreases n,
{
    if n == 0 {
        0
    } else {
        vwap_sum(parent, (n - 1) as nat) + vwap_quantity(parent, n - 1)
    }
}

/// The VWAP slices of a whole day add up to the parent quantity, and none is
/// negative.
pub proof fn lemma_vwap_complete(parent: int)
    requires
        0 <= parent,
    ensures
        vwap_sum(parent, VWAP_BUCKETS as nat) == parent,
        forall|i: int| 0 <= i < VWAP_BUCKETS ==> vwap_quantity(parent, i) >= 0,
{
    lemma_vwap_sum(parent, 95);
}

/// Sum of the first `n` VWAP slices before the last one.
proof fn lemma_vwap_sum(parent: int, n: nat)
    requires
        n < VWAP_BUCKETS,
    ensures
        vwap_sum(parent, n) == n * vwap_share(parent),
    decreases n,
{
    if n > 0 {
        lemma_vwap_sum(parent, (n - 1) as nat);
        let s = vwap_share(parent);
        assert(n * s == (n - 1) * s + s) by (nonlinear_arith);
    } else {
        assert(n * vwap_share(parent) == 0) by (nonlinear_arith)
            requires
                n == 0,
        ;
    }
}

/// Timer slot of a TWAP slice.
pub open spec fn twap_slot(duration_ms: int, slices: int, i: int) -> u16 {
    ((((duration_ms * i) / slices) * CYCLES_PER_MS) % 65536) as u16
}

/// Timer slot of a VWAP slice.
pub open spec fn vwap_slot(i: int) -> u16 {
    ((i * BUCKET_MS * CYCLES_PER_MS) % 65536) as u16
}

/// Average price after one more fill.
pub open spec fn average(avg: int, filled: int, price: int, qty: int) -> int {
    if filled + qty > 0 {
        (avg * filled + price * qty) / (filled + qty)
    } else {
        0
    }
}

/// An average lies between the smaller and the larger of what it is made of.
pub proof fn lemma_average_between(avg: int, filled: int, price: int, qty: int)
    requires
        0 <= avg,
        0 <= filled,
        0 <= price,
        0 <= qty,
        filled + qty > 0,
    ensures
        average(avg, filled, price, qty) <= max(avg, price),
        min(avg, price) <= average(avg, filled, price, qty),
{
    let hi = max(avg, price);
    let lo = min(avg, price);
    let n = filled + qty;
    let total = avg * filled + price * qty;
    assert(lo * n <= total <= hi * n) by (nonlinear_arith)
        requires
            n == filled + qty,
            total == avg * filled + price * qty,
            0 <= filled,
            0 <= qty,
            lo <= avg <= hi,
            lo <= price <= hi,
    ;
    assert(lo <= total / n <= hi) by (nonlinear_arith)
        requires
            lo * n <= total <= hi * n,
            n > 0,
    ;
}

/// Execution algorithm state.
#[derive(Debug)]
pub struct ExecutionAlgo {
    /// Child orders.
    pub child_orders: [ChildOrder; 256],
    /// Number of child orders created.
    pub num_children: u64,
    /// Total parent order quantity.
    pub parent_qty: u64,
    /// Filled quantity.
    pub filled_qty: u64,
    /// Average fill price.
    pub avg_fill_price: u64,
    /// Algorithm type, by number.
    pub algo_type: u8,
    /// Side, by number.
    pub side: u8,
    /// Active flag.
    pub active: bool,
    /// Start time (cycles).
    pub start_time: u64,
    /// End time (cycles).
    pub end_time: u64,
    /// Duration in milliseconds.
    pub duration_ms: u64,
    /// Number of slices.
    pub num_slices: u16,
    /// Current slice index.
    pub current_slice: u64,
    /// Participation rate (basis points).
    pub pov_rate_bp: u16,
    /// Timer wheel.
    pub timer_wheel: Vec<TimerSlot>,
    /// Current timer position.
    pub timer_position: u64,
}

impl ExecutionAlgo {
    /// The wheel has its slots.
    pub open spec fn wf(&self) -> bool {
        self.timer_wheel@.len() == TIMER_WHEEL_SLOTS
    }

    /// Child orders that are due in each slot.
    pub open spec fn wheel(&self) -> Seq<Seq<u16>> {
        self.timer_wheel@.map_values(|s: TimerSlot| s.order_indices@)
    }

    /// Nothing was sliced, filled or started.
    pub open spec fn fresh(&self) -> bool {
        &&& self.wf()
        &&& forall|i: int|
            0 <= i < MAX_CHILD_ORDERS ==> self.child_orders@[i] == ChildOrder::spec_empty()
        &&& forall|i: int| 0 <= i < TIMER_WHEEL_SLOTS ==> (#[trigger] self.wheel()[i]).len() == 0
        &&& self.num_children == 0
        &&& self.filled_qty == 0
        &&& self.avg_fill_price == 0
        &&& self.side == Side::Buy.spec_code()
        &&& !self.active
        &&& self.start_time == 0
        &&& self.end_time == 0
        &&& self.current_slice == 0
        &&& self.timer_position == 0
    }

    /// Algorithm that was not started.
    fn create(
        algo_type: AlgoType,
        parent_qty: u64,
        duration_ms: u64,
        num_slices: u16,
        pov_rate_bp: u16,
    ) -> (r: Self)
        ensures
            r.fresh(),
            r.algo_type == algo_type.spec_code(),
            r.parent_qty == parent_qty,
            r.duration_ms == duration_ms,
            r.num_slices == num_slices,
            r.pov_rate_bp == pov_rate_bp,
    {
        let mut timer_wheel: Vec<TimerSlot> = Vec::new();
        while timer_wheel.len() < TIMER_WHEEL_SLOTS
            invariant
                timer_wheel@.len() <= TIMER_WHEEL_SLOTS,
                forall|i: int|
                    0 <= i < timer_wheel@.len() ==> (#[trigger] timer_wheel@[i]).order_indices@.len()
                        == 0,
            decreases TIMER_WHEEL_SLOTS - timer_wheel@.len(),
        {
            timer_wheel.push(TimerSlot::new());
        }
        ExecutionAlgo {
            child_orders: [ChildOrder::empty();256],
            num_children: 0,
            parent_qty,
            filled_qty: 0,
            avg_fill_price: 0,
            algo_type: algo_type.code(),
            side: Side::Buy.code(),
            active: false,
            start_time: 0,
            end_time: 0,
            duration_ms,
            num_slices,
            current_slice: 0,
            pov_rate_bp,
            timer_wheel,
            timer_position: 0,
        }
    }

    /// New TWAP execution algorithm.
    pub fn new_twap(parent_qty: u64, duration_ms: u64, num_slices: u16) -> (r: Self)
        ensures
            r.fresh(),
            r.algo_type == AlgoType::Twap.spec_code(),
            r.parent_qty == parent_qty,
            r.duration_ms == duration_ms,
            r.num_slices == num_slices,
            r.pov_rate_bp == 0,
    {
        Self::create(AlgoType::Twap, parent_qty, duration_ms, num_slices, 0)
    }

    /// New VWAP execution algorithm, with a slice for each bucket of the profile.
    pub fn new_vwap(parent_qty: u64, duration_ms: u64) -> (r: Self)
        ensures
            r.fresh(),
            r.algo_type == AlgoType::Vwap.spec_code(),
            r.parent_qty == parent_qty,
            r.duration_ms == duration_ms,
            r.num_slices == VWAP_BUCKETS,
            r.pov_rate_bp == 0,
    {
        Self::create(AlgoType::Vwap, parent_qty, duration_ms, VWAP_BUCKETS, 0)
    }

    /// New POV execution algorithm.
    pub fn new_pov(parent_qty: u64, participation_rate_bp: u16) -> (r: Self)
        ensures
            r.fresh(),
            r.algo_type == AlgoType::Pov.spec_code(),
            r.parent_qty == parent_qty,
            r.duration_ms == 0,
            r.num_slices == 0,
            r.pov_rate_bp == participation_rate_bp,
    {
        Self::create(AlgoType::Pov, parent_qty, 0, 0, participation_rate_bp)
    }

    /// Set the order side.
    pub fn set_side(&mut self, side: Side)
        ensures
            *final(self) == (ExecutionAlgo { side: side.spec_code(), ..*old(self) }),
    {
        self.side = side.code();
    }

    /// Child order `i` after slicing, where `n` orders are made.
    pub open spec fn sliced(&self, twap: bool, i: int, n: int) -> ChildOrder {
        if i >= n {
            self.child_orders@[i]
        } else if twap {
            ChildOrder::spec_slice(
                (i + 1) as u64,
                twap_quantity(self.parent_qty as int, self.num_slices as int, i) as u64,
                self.side,
                twap_slot(self.duration_ms as int, self.num_slices as int, i),
            )
        } else {
            ChildOrder::spec_slice(
                (i + 1) as u64,
                vwap_quantity(self.parent_qty as int, i) as u64,
                self.side,
                vwap_slot(i),
            )
        }
    }

    /// Whether TWAP slicing makes any orders.
    pub open spec fn twap_ok(&self) -> bool {
        0 < self.num_slices <= MAX_CHILD_ORDERS
    }

    /// The state after slicing, but for orders and wheel.
    pub open spec fn sliced_frame(&self, prior: ExecutionAlgo) -> bool {
        *self == (ExecutionAlgo {
            child_orders: self.child_orders,
            num_children: self.num_children,
            timer_wheel: self.timer_wheel,
            ..prior
        })
    }

    /// The child orders that TWAP slicing leaves.
    pub open spec fn twap_result(&self, prior: ExecutionAlgo) -> bool {
        if prior.twap_ok() {
            &&& forall|i: int|
                0 <= i < MAX_CHILD_ORDERS ==> #[trigger] self.child_orders@[i] == prior.sliced(
                    true,
                    i,
                    prior.num_slices as int,
                )
            &&& self.wheel() == placed_all(
                prior.wheel(),
                |i: int|
                    twap_slot(prior.duration_ms as int, prior.num_slices as int, i),
                prior.num_slices as nat,
            )
            &&& self.num_children == prior.num_slices
        } else {
            &&& self.child_orders == prior.child_orders
            &&& self.wheel() == prior.wheel()
            &&& self.num_children == prior.num_children
        }
    }

    /// The child orders that VWAP slicing leaves.
    pub open spec fn vwap_result(&self, prior: ExecutionAlgo) -> bool {
        let n = min(prior.num_slices as int, VWAP_BUCKETS as int);
        &&& forall|i: int|
            0 <= i < MAX_CHILD_ORDERS ==> #[trigger] self.child_orders@[i] == prior.sliced(
                false,
                i,
                n,
            )
        &&& self.wheel() == placed_all(prior.wheel(), |i: int| vwap_slot(i), n as nat)
        &&& self.num_children == prior.num_slices
    }

    /// Start the algorithm at time `now`: TWAP and VWAP orders are sliced.
    pub fn start(&mut self, now: u64)
        requires
            old(self).wf(),
            now + old(self).duration_ms * CYCLES_PER_MS <= u64::MAX,
        ensures
            final(self).wf(),
            final(self).active,
            final(self).start_time == now,
            final(self).end_time == now + old(self).duration_ms * CYCLES_PER_MS,
            final(self).end_time == now + old(self).duration_ms * 3_000_000,
            ({
                let started = ExecutionAlgo {
                    active: true,
                    start_time: now,
                    end_time: (now + old(self).duration_ms * CYCLES_PER_MS) as u64,
                    ..*old(self)
                };
                &&& final(self).sliced_frame(started)
                &&& old(self).algo_type == 0 ==> final(self).twap_result(started)
                &&& old(self).algo_type == 1 ==> final(self).vwap_result(started)
                &&& old(self).algo_type > 1 ==> *final(self) == started
            }),
    {
        self.start_time = now;
        self.end_time = now + self.duration_ms * CYCLES_PER_MS;
        self.active = true;
        if self.algo_type == 0 {
            self.generate_twap_slices();
        } else if self.algo_type == 1 {
            self.generate_vwap_slices();
        }
    }

    /// Generate TWAP child orders: equal shares at equal distances in time. Nothing
    /// happens without slices or with too many of them.
    pub fn generate_twap_slices(&mut self)
        requires
            old(self).wf(),
        ensures
            final(self).wf(),
            final(self).sliced_frame(*old(self)),
            final(self).twap_result(*old(self)),
    {
        let n: u64 = self.num_slices as u64;
        if n == 0 || n > MAX_CHILD_ORDERS as u64 {
            return ;
        }
        let share: u64 = self.parent_qty / n;
        let remainder: u64 = self.parent_qty % n;
        let ghost slots = |i: int|
            twap_slot(
                old(self).duration_ms as int,
                old(self).num_slices as int,
                i,
            );
        let mut i: u64 = 0;
        while i < n
            invariant
                self.wf(),
                self.sliced_frame(*old(self)),
                0 < n == old(self).num_slices,
                n <= MAX_CHILD_ORDERS,
                i <= n,
                share == old(self).parent_qty as int / n as int,
                remainder == old(self).parent_qty as int % n as int,
                slots == (|i: int|
                    twap_slot(
                        old(self).duration_ms as int,
                        old(self).num_slices as int,
                        i,
                    )),
                forall|k: int|
                    0 <= k < MAX_CHILD_ORDERS ==> #[trigger] self.child_orders@[k] == old(self).sliced(true, k, if k < i {
                        n as int
                    } else {
                        0
                    }),
                self.wheel() == placed_all(old(self).wheel(), slots, i as nat),
            decreases n - i,
        {
            proof {
                let p = self.parent_qty as int;
                vstd::arithmetic::div_mod::lemma_fundamental_div_mod(p, n as int);
                assert(share + 1 <= u64::MAX || remainder <= i) by (nonlinear_arith)
                    requires
                        p == n * share + remainder,
                        p <= u64::MAX,
                        n > 0,
                        i >= 0,
                ;
                assert(0 <= self.duration_ms * i <= 0xffff_ffff_ffff_ffff * 256) by (nonlinear_arith)
                    requires
                        0 <= i <= 256,
                        0 <= self.duration_ms <= 0xffff_ffff_ffff_ffff,
                ;
            }
            let qty: u64 = if i < remainder {
                share + 1
            } else {
                share
            };
            let offset_ms: u128 = (self.duration_ms as u128 * i as u128) / n as u128;
            proof {
                let d = self.duration_ms as int;
                assert(0 <= offset_ms <= 0xffff_ffff_ffff_ffff) by (nonlinear_arith)
                    requires
                        offset_ms == (d * i) / (n as int),
                        0 <= i < n,
                        0 <= d <= 0xffff_ffff_ffff_ffff,
                ;
                assert(CYCLES_PER_MS as u128 == 3_000_000);
            }
            let time_slot: u16 = ((offset_ms * CYCLES_PER_MS as u128) % 65536) as u16;
            self.child_orders[i as usize] = ChildOrder::slice(i + 1, qty, self.side, time_slot);
            self.add_to_timer_wheel(i as u16, time_slot);
            i = i + 1;
        }
        self.num_children = n;
    }

    /// Generate VWAP child orders by the volume profile.
    pub fn generate_vwap_slices(&mut self)
        requires
            old(self).wf(),
        ensures
            final(self).wf(),
            final(self).sliced_frame(*old(self)),
            final(self).vwap_result(*old(self)),
    {
        let parent: u64 = self.parent_qty;
        let share: u64 = ((parent as u128 * BUCKET_BP as u128) / BPS as u128) as u64;
        let n: u16 = if self.num_slices < VWAP_BUCKETS {
            self.num_slices
        } else {
            VWAP_BUCKETS
        };
        let ghost slots = |i: int| vwap_slot(i);
        let mut i: u16 = 0;
        while i < n
            invariant
                self.wf(),
                self.sliced_frame(*old(self)),
                parent == old(self).parent_qty,
                share == vwap_share(parent as int),
                n <= VWAP_BUCKETS,
                n == min(old(self).num_slices as int, VWAP_BUCKETS as int),
                i <= n,
                slots == (|i: int| vwap_slot(i)),
                forall|k: int|
                    0 <= k < MAX_CHILD_ORDERS ==> #[trigger] self.child_orders@[k] == old(self).sliced(false, k, if k < i {
                        n as int
                    } else {
                        0
                    }),
                self.wheel() == placed_all(old(self).wheel(), slots, i as nat),
            decreases n - i,
        {
            assert(i * share <= parent && i * share >= 0) by (nonlinear_arith)
                requires
                    0 <= i <= 95,
                    share == (parent * 104) / 10_000,
                    parent >= 0,
            ;
            let qty: u64 = if i == VWAP_BUCKETS - 1 {
                parent - i as u64 * share
            } else {
                share
            };
            let time_slot: u16 = ((i as u64 * BUCKET_MS * CYCLES_PER_MS) % 65536) as u16;
            self.child_orders[i as usize] = ChildOrder::slice(
                i as u64 + 1,
                qty,
                self.side,
                time_slot,
            );
            self.add_to_timer_wheel(i, time_slot);
            i = i + 1;
        }
        self.num_children = self.num_slices as u64;
    }

    /// Add a child order to a timer slot.
    fn add_to_timer_wheel(&mut self, order_idx: u16, slot: u16)
        requires
            old(self).wf(),
        ensures
            final(self).wf(),
            final(self).wheel() == placed(old(self).wheel(), order_idx, slot as int),
            *final(self) == (ExecutionAlgo { timer_wheel: final(self).timer_wheel, ..*old(self) }),
    {
        self.timer_wheel[slot as usize].insert(order_idx);
        assert(self.wheel() =~= placed(old(self).wheel(), order_idx, slot as int));
    }

    /// The child order that is due: the first one in the current slot, if it is
    /// pending and not empty.
    pub open spec fn due(&self) -> Option<ChildOrder> {
        let slot = self.wheel()[self.timer_position as int % 65536];
        if !self.active || slot.len() == 0 || slot[0] >= MAX_CHILD_ORDERS {
            None
        } else {
            let order = self.child_orders@[slot[0] as int];
            if order.status == 0 && order.quantity > 0 {
                Some(order)
            } else {
                None
            }
        }
    }

    /// The next child order to submit, if one is due.
    pub fn get_next_order(&self) -> (r: Option<ChildOrder>)
        requires
            self.wf(),
        ensures
            r == self.due(),
    {
        if !self.active {
            return None;
        }
        let slot = &self.timer_wheel[(self.timer_position % 65536) as usize];
        if slot.order_indices.len() == 0 {
            return None;
        }
        let order_idx: usize = slot.order_indices[0] as usize;
        if order_idx < MAX_CHILD_ORDERS {
            let order = self.child_orders[order_idx];
            if order.status == 0 && order.quantity > 0 {
                return Some(order);
            }
        }
        None
    }

    /// Advance the timer wheel: the current slot is emptied.
    pub fn advance_timer(&mut self)
        requires
            old(self).wf(),
        ensures
            final(self).wf(),
            final(self).wheel() == old(self).wheel().update(
                old(self).timer_position as int % 65536,
                Seq::<u16>::empty(),
            ),
            *final(self) == (ExecutionAlgo {
                timer_wheel: final(self).timer_wheel,
                timer_position: old(self).timer_position.wrapping_add(1),
                ..*old(self)
            }),
    {
        let slot_idx: usize = (self.timer_position % 65536) as usize;
        self.timer_position = self.timer_position.wrapping_add(1);
        self.timer_wheel[slot_idx] = TimerSlot::new();
        assert(self.wheel() =~= old(self).wheel().update(slot_idx as int, Seq::<u16>::empty()));
    }

    /// Note the fill of a child order at time `now`. An unknown order changes
    /// nothing.
    pub fn update_fill(&mut self, order_id: u64, fill_qty: u64, fill_price: u64, now: u64)
        requires
            1 <= order_id <= MAX_CHILD_ORDERS ==> {
                &&& old(self).filled_qty + fill_qty <= u64::MAX
                &&& old(self).avg_fill_price * old(self).filled_qty + fill_price * fill_qty
                    <= u128::MAX
            },
        ensures
            !(1 <= order_id <= MAX_CHILD_ORDERS) ==> *final(self) == *old(self),
            1 <= order_id <= MAX_CHILD_ORDERS ==> {
                &&& final(self).child_orders@ == old(self).child_orders@.update(
                    order_id - 1,
                    ChildOrder {
                        status: 2,
                        fill_qty,
                        fill_price,
                        timestamp_cycles: now,
                        ..old(self).child_orders@[order_id - 1]
                    },
                )
                &&& final(self).filled_qty == old(self).filled_qty + fill_qty
                &&& final(self).avg_fill_price == average(
                    old(self).avg_fill_price as int,
                    old(self).filled_qty as int,
                    fill_price as int,
                    fill_qty as int,
                )
                &&& *final(self) == (ExecutionAlgo {
                    child_orders: final(self).child_orders,
                    filled_qty: final(self).filled_qty,
                    avg_fill_price: final(self).avg_fill_price,
                    ..*old(self)
                })
            },
    {
        if order_id == 0 || order_id > MAX_CHILD_ORDERS as u64 {
            return ;
        }
        let idx: usize = (order_id - 1) as usize;
        let mut order = self.child_orders[idx];
        order.status = 2;
        order.fill_qty = fill_qty;
        order.fill_price = fill_price;
        order.timestamp_cycles = now;
        self.child_orders[idx] = order;
        let filled: u64 = self.filled_qty;
        let avg: u64 = self.avg_fill_price;
        let new_filled: u64 = filled + fill_qty;
        self.filled_qty = new_filled;
        assert(avg * filled >= 0 && fill_price * fill_qty >= 0) by (nonlinear_arith)
            requires
                avg >= 0,
                filled >= 0,
                fill_price >= 0,
                fill_qty >= 0,
        ;
        if new_filled > 0 {
            let value: u128 = avg as u128 * filled as u128 + fill_price as u128 * fill_qty as u128;
            proof {
                lemma_average_between(
                    avg as int,
                    filled as int,
                    fill_price as int,
                    fill_qty as int,
                );
            }
            self.avg_fill_price = (value / new_filled as u128) as u64;
        } else {
            self.avg_fill_price = 0;
        }
    }

    /// Check if the algorithm is complete.
    pub fn is_complete(&self) -> (r: bool)
        ensures
            r == (self.filled_qty >= self.parent_qty),
    {
        self.filled_qty >= self.parent_qty
    }

    /// Execution progress (basis points), modulo 2^16; zero without quantity.
    pub fn get_progress_bp(&self) -> (r: u16)
        ensures
            r == if self.parent_qty == 0 {
                0
            } else {
                ((self.filled_qty * BPS) / (self.parent_qty as int)) % 65536
            },
            0 < self.parent_qty && self.filled_qty <= self.parent_qty ==> r * self.parent_qty
                <= self.filled_qty * 10_000 < (r + 1) * self.parent_qty,
    {
        proof {
            let (f, p) = (self.filled_qty as int, self.parent_qty as int);
            if 0 < p && f <= p {
                let q = (f * 10_000) / p;
                assert(0 <= q <= 10_000 && q * p <= f * 10_000 < (q + 1) * p) by (nonlinear_arith)
                    requires
                        q == (f * 10_000) / p,
                        0 <= f <= p,
                        0 < p,
                ;
            }
        }
        if self.parent_qty == 0 {
            return 0;
        }
        let bp: u128 = (self.filled_qty as u128 * BPS as u128) / self.parent_qty as u128;
        (bp % 65536) as u16
    }

    /// How much worse than the arrival price the average fill is.
    pub open spec fn shortfall(&self, arrival_price: u64) -> int {
        if self.side == Side::Buy.spec_code() {
            self.avg_fill_price as i64 - arrival_price as i64
        } else {
            arrival_price as i64 - self.avg_fill_price as i64
        }
    }

    /// Slippage against the arrival price in basis points, as a 16-bit number;
    /// zero without a price or a fill.
    pub fn get_slippage_bp(&self, arrival_price: u64) -> (r: i16)
        requires
            arrival_price != 0 && self.avg_fill_price != 0 ==> {
                &&& fits_i64(self.shortfall(arrival_price))
                &&& fits_i64(self.shortfall(arrival_price) * BPS)
                &&& self.shortfall(arrival_price) * BPS > i64::MIN
            },
        ensures
            r == if arrival_price == 0 || self.avg_fill_price == 0 {
                0
            } else {
                tdiv(self.shortfall(arrival_price) * BPS, arrival_price as i64 as int) as i16
            },
    {
        if arrival_price == 0 {
            return 0;
        }
        if self.avg_fill_price == 0 {
            return 0;
        }
        let avg: i64 = cast_i64(self.avg_fill_price);
        let arrival: i64 = cast_i64(arrival_price);
        let diff: i64 = if self.side == Side::Buy.code() {
            avg - arrival
        } else {
            arrival - avg
        };
        div_i64(diff * 10_000, arrival) as i16
    }

    /// Stop the algorithm.
    pub fn stop(&mut self)
        ensures
            *final(self) == (ExecutionAlgo { active: false, ..*old(self) }),
    {
        self.active = false;
    }

    /// Remaining quantity to execute.
    pub fn get_remaining_qty(&self) -> (r: u64)
        ensures
            r == max(self.parent_qty - self.filled_qty, 0),
    {
        self.parent_qty.saturating_sub(self.filled_qty)
    }

    /// POV order size: the participation rate of the market volume.
    pub fn calculate_pov_size(&self, market_volume: u64) -> (r: u64)
        requires
            market_volume * self.pov_rate_bp <= u64::MAX,
        ensures
            r == (market_volume * self.pov_rate_bp) / (BPS as int),
            r * 10_000 <= market_volume * self.pov_rate_bp < (r + 1) * 10_000,
    {
        if market_volume == 0 {
            assert(market_volume * self.pov_rate_bp == 0) by (nonlinear_arith)
                requires
                    market_volume == 0,
            ;
            return 0;
        }
        (market_volume * self.pov_rate_bp as u64) / BPS
    }
}

impl Default for ExecutionAlgo {
    fn default() -> (r: Self)
        ensures
            r.fresh(),
            r.algo_type == AlgoType::Twap.spec_code(),
            r.parent_qty == 1000,
            r.duration_ms == 60000,
            r.num_slices == 60,
            r.pov_rate_bp == 0,
    {
        Self::new_twap(1000, 60000, 60)
    }
}

/// The slot of a slice is the time that it is due at, counted in cycles and taken around
/// the wheel: with `offset` the whole milliseconds of its share of the duration, slice `i`
/// of `slices` being due after `i / slices` of it.
pub proof fn lemma_twap_due_in_proportion(duration_ms: int, slices: int, i: int, offset: int)
    requires
        0 <= duration_ms,
        0 < slices,
        0 <= i,
        offset * slices <= duration_ms * i < (offset + 1) * slices,
    ensures
        (offset * 3_000_000 - twap_slot(duration_ms, slices, i)) % 65536 == 0,
        i == 0 ==> twap_slot(duration_ms, slices, i) == 0,
{
    let x = duration_ms * i;
    assert(x >= 0) by (nonlinear_arith)
        requires
            x == duration_ms * i,
            duration_ms >= 0,
            i >= 0,
    ;
    assert((offset + 1) * slices == offset * slices + slices) by (nonlinear_arith);
    lemma_tdiv_unique(x, slices, offset);
    let c = offset * 3_000_000;
    assert((c - c % 65536) % 65536 == 0);
    if i == 0 {
        assert(x == 0) by (nonlinear_arith)
            requires
                x == duration_ms * i,
                i == 0,
        ;
        assert(offset == 0) by (nonlinear_arith)
            requires
                offset * slices <= 0 < offset * slices + slices,
                slices > 0,
        ;
    }
}

/// The child orders of a TWAP order are spread over its duration: the first one is due at
/// once, and each later one after a step of the duration divided by the number of slices,
/// rounded down or up. Gives the step from slice `i` to the next.
pub proof fn lemma_twap_spread(prior: ExecutionAlgo, post: ExecutionAlgo, i: int) -> (step: int)
    requires
        post.twap_result(prior),
        0 < prior.num_slices <= 256,
        0 <= i,
        i + 1 < prior.num_slices,
    ensures
        post.child_orders@[0].time_slot == 0,
        prior.duration_ms - prior.num_slices < step * prior.num_slices < prior.duration_ms
            + prior.num_slices,
        (post.child_orders@[i + 1].time_slot - post.child_orders@[i].time_slot - step * 3_000_000)
            % 65536 == 0,
{
    let (d, n) = (prior.duration_ms as int, prior.num_slices as int);
    assert(post.child_orders@[0] == prior.sliced(true, 0, n));
    assert(post.child_orders@[i] == prior.sliced(true, i, n));
    assert(post.child_orders@[i + 1] == prior.sliced(true, i + 1, n));
    let (x, y) = (d * i, d * (i + 1));
    assert(y == x + d && x >= 0) by (nonlinear_arith)
        requires
            x == d * i,
            y == d * (i + 1),
            d >= 0,
            i >= 0,
    ;
    assert(d * 0 == 0);
    let (a, b) = (x / n, y / n);
    vstd::arithmetic::div_mod::lemma_fundamental_div_mod(x, n);
    vstd::arithmetic::div_mod::lemma_fundamental_div_mod(y, n);
    vstd::arithmetic::div_mod::lemma_mod_bound(x, n);
    vstd::arithmetic::div_mod::lemma_mod_bound(y, n);
    assert(a * n == n * a && b * n == n * b && (a + 1) * n == a * n + n && (b + 1) * n == b * n + n
        && (b - a) * n == b * n - a * n && 0 * n == 0 && (0 + 1) * n == n) by (nonlinear_arith);
    lemma_twap_due_in_proportion(d, n, i, a);
    lemma_twap_due_in_proportion(d, n, i + 1, b);
    lemma_twap_due_in_proportion(d, n, 0, 0);
    b - a
}

/// Sum of the quantities of the first `n` child orders.
pub open spec fn ordered(orders: Seq<ChildOrder>, n: nat) -> int
    decreases n,
{
    if n == 0 {
        0
    } else {
        ordered(orders, (n - 1) as nat) + orders[n - 1].quantity
    }
}

/// The child orders of a TWAP order are numbered from one, are of its side, wait to be
/// submitted, and share its quantity evenly: no two differ by more than one unit, and
/// together they make up all of it.
pub proof fn lemma_twap_shares(prior: ExecutionAlgo, post: ExecutionAlgo)
    requires
        post.twap_result(prior),
        0 < prior.num_slices <= 256,
    ensures
        post.num_children == prior.num_slices,
        ordered(post.child_orders@, prior.num_slices as nat) == prior.parent_qty,
        forall|i: int|
            0 <= i < prior.num_slices ==> {
                let o = #[trigger] post.child_orders@[i];
                &&& o.order_id == i + 1
                &&& o.side == prior.side
                &&& o.status == 0
                &&& o.fill_qty == 0
                &&& o.price == 0
                &&& prior.parent_qty - prior.num_slices < o.quantity * prior.num_slices
                    < prior.parent_qty + prior.num_slices
            },
        forall|i: int, j: int|
            0 <= i < j < prior.num_slices ==> 0 <= (#[trigger] post.child_orders@[i]).quantity - (
            #[trigger] post.child_orders@[j]).quantity <= 1,
{
    let (p, n) = (prior.parent_qty as int, prior.num_slices as int);
    vstd::arithmetic::div_mod::lemma_fundamental_div_mod(p, n);
    vstd::arithmetic::div_mod::lemma_mod_bound(p, n);
    let (q, r) = (p / n, p % n);
    assert(0 <= q <= p) by (nonlinear_arith)
        requires
            q == p / n,
            p >= 0,
            n > 0,
    ;
    assert(q < u64::MAX || r == 0) by (nonlinear_arith)
        requires
            p == n * q + r,
            p <= u64::MAX,
            0 <= r < n,
            n > 0,
    ;
    assert forall|i: int| 0 <= i < n implies {
        let o = #[trigger] post.child_orders@[i];
        &&& o.order_id == i + 1
        &&& o.side == prior.side
        &&& o.status == 0
        &&& o.fill_qty == 0
        &&& o.price == 0
        &&& o.quantity == twap_quantity(p, n, i)
        &&& p - n < o.quantity * n < p + n
    } by {
        assert(post.child_orders@[i] == prior.sliced(true, i, n));
        let o = post.child_orders@[i];
        assert(q * n == n * q && (q + 1) * n == n * q + n) by (nonlinear_arith);
    }
    lemma_ordered_twap(post.child_orders@, p, n, n as nat);
    lemma_twap_complete(p, n as nat);
}

proof fn lemma_ordered_twap(orders: Seq<ChildOrder>, parent: int, slices: int, n: nat)
    requires
        n <= slices,
        forall|i: int|
            0 <= i < slices ==> (#[trigger] orders[i]).quantity == twap_quantity(parent, slices, i),
    ensures
        ordered(orders, n) == twap_sum(parent, slices, n),
    decreases n,
{
    if n > 0 {
        lemma_ordered_twap(orders, parent, slices, (n - 1) as nat);
        assert(orders[n - 1].quantity == twap_quantity(parent, slices, n - 1));
    }
}

/// Every child order is put into the slot of its time, unless sixteen were there before,
/// and what is put into the wheel stands nowhere else.
pub proof fn lemma_orders_in_their_slots(
    wheel: Seq<Seq<u16>>,
    slots: spec_fn(int) -> u16,
    n: nat,
    i: int,
)
    requires
        wheel.len() == 65536,
        n <= 256,
        0 <= i < n,
    ensures
        ({
            let w = placed_all(wheel, slots, n);
            &&& w.len() == 65536
            &&& w[slots(i) as int].contains(i as u16) || w[slots(i) as int].len() >= 16
            &&& forall|s: int, k: int|
                0 <= s < 65536 && wheel[s].len() <= k < (#[trigger] w[s]).len() ==> slots(
                    (#[trigger] w[s][k]) as int,
                ) == s && w[s][k] < n
        }),
    decreases n,
{
    let m = (n - 1) as nat;
    let before = placed_all(wheel, slots, m);
    let w = placed_all(wheel, slots, n);
    lemma_placed_grows(wheel, slots, m);
    let at = slots(n - 1) as int;
    if i < m {
        lemma_orders_in_their_slots(wheel, slots, m, i);
        let s = slots(i) as int;
        if before[s].contains(i as u16) {
            let k = choose|k: int| 0 <= k < before[s].len() && before[s][k] == i as u16;
            assert(w[s][k] == i as u16);
        }
    } else {
        if before[at].len() < 16 {
            assert(w[at] == before[at].push((n - 1) as u16));
            assert(w[at][before[at].len() as int] == (n - 1) as u16);
        }
    }
    if m > 0 && i == m {
        lemma_orders_in_their_slots(wheel, slots, m, 0);
    }
    assert forall|s: int, k: int|
        0 <= s < 65536 && wheel[s].len() <= k < (#[trigger] w[s]).len() implies slots(
        (#[trigger] w[s][k]) as int,
    ) == s && w[s][k] < n by {
        if k < before[s].len() {
            assert(w[s][k] == before[s][k]);
            if m == 0 {
                assert(before == wheel);
            }
        } else {
            assert(s == at);
            assert(w[s][k] == (n - 1) as u16);
        }
    }
}

proof fn lemma_placed_grows(wheel: Seq<Seq<u16>>, slots: spec_fn(int) -> u16, n: nat)
    requires
        wheel.len() == 65536,
    ensures
        placed_all(wheel, slots, n).len() == 65536,
        forall|s: int|
            0 <= s < 65536 ==> wheel[s].len() <= (#[trigger] placed_all(
                wheel,
                slots,
                n,
            )[s]).len(),
    decreases n,
{
    if n > 0 {
        lemma_placed_grows(wheel, slots, (n - 1) as nat);
    }
}

/// An order is handed out only while the algorithm is active, in the slot that the timer
/// has come to, and only if it waits to be submitted and has a quantity.
pub proof fn lemma_handed_out_when_due(a: ExecutionAlgo)
    requires
        a.wf(),
    ensures
        a.due() matches Some(order) ==> {
            let slot = a.wheel()[a.timer_position as int % 65536];
            &&& a.active
            &&& slot.len() > 0
            &&& slot[0] < 256
            &&& order == a.child_orders@[slot[0] as int]
            &&& order.status == 0
            &&& order.quantity > 0
        },
        a.due() is None ==> {
            let slot = a.wheel()[a.timer_position as int % 65536];
            !a.active || slot.len() == 0 || slot[0] >= 256 || a.child_orders@[slot[0] as int].status
                != 0 || a.child_orders@[slot[0] as int].quantity == 0
        },
{
}

/// A TWAP order that is started with its wheel empty hands out its first slice first.
pub proof fn lemma_first_slice_first(prior: ExecutionAlgo, post: ExecutionAlgo)
    requires
        prior.fresh(),
        post.wf(),
        0 < prior.num_slices <= 256,
        prior.parent_qty >= prior.num_slices,
        ({
            let started = ExecutionAlgo {
                active: true,
                start_time: post.start_time,
                end_time: post.end_time,
                ..prior
            };
            post.sliced_frame(started) && post.twap_result(started)
        }),
    ensures
        post.due() == Some(post.child_orders@[0]),
        post.child_orders@[0].order_id == 1,
{
    let started = ExecutionAlgo {
        active: true,
        start_time: post.start_time,
        end_time: post.end_time,
        ..prior
    };
    let (d, n) = (prior.duration_ms as int, prior.num_slices as int);
    let slots = |i: int| twap_slot(started.duration_ms as int, started.num_slices as int, i);
    assert(post.child_orders@[0] == started.sliced(true, 0, n));
    assert(d * 0 == 0);
    assert(twap_slot(d, n, 0) == 0) by {
        assert(0int / n == 0) by (nonlinear_arith)
            requires
                n > 0,
        ;
    }
    assert(prior.wheel()[0].len() == 0);
    assert(started.wheel() == prior.wheel());
    lemma_first_stays_first(prior.wheel(), slots, n as nat);
    lemma_twap_shares(started, post);
    assert(post.child_orders@[0].quantity > 0) by (nonlinear_arith)
        requires
            prior.parent_qty - n < post.child_orders@[0].quantity * n,
            prior.parent_qty >= n,
            n > 0,
    ;
}

proof fn lemma_first_stays_first(wheel: Seq<Seq<u16>>, slots: spec_fn(int) -> u16, n: nat)
    requires
        wheel.len() == 65536,
        n > 0,
        slots(0) == 0,
        wheel[0].len() == 0,
    ensures
        placed_all(wheel, slots, n).len() == 65536,
        placed_all(wheel, slots, n)[0].len() > 0,
        placed_all(wheel, slots, n)[0][0] == 0,
    decreases n,
{
    if n > 1 {
        lemma_first_stays_first(wheel, slots, (n - 1) as nat);
    } else {
        assert(placed_all(wheel, slots, 0) == wheel);
    }
}

/// A VWAP slice takes its bucket's share of 104 basis points of the whole, rounded down;
/// the last of the ninety-six takes what is left. Each bucket starts a quarter of an hour
/// after the one before.
pub proof fn lemma_vwap_shares(parent: int, i: int)
    requires
        parent >= 0,
        0 <= i < 96,
    ensures
        i < 95 ==> vwap_quantity(parent, i) * 10_000 <= parent * 104 < (vwap_quantity(parent, i)
            + 1) * 10_000,
        i == 95 ==> vwap_quantity(parent, i) == parent - 95 * vwap_quantity(parent, 0),
        (i * 900_000 * 3_000_000 - vwap_slot(i)) % 65536 == 0,
{
    let c = i * 900_000 * 3_000_000;
    assert((c - c % 65536) % 65536 == 0);
}

/// The average fill price times the quantity filled is what was paid, short of it by less
/// than one for each unit.
pub proof fn lemma_average_is_paid_over_filled(avg: int, filled: int, price: int, qty: int)
    requires
        0 <= avg,
        0 <= filled,
        0 <= price,
        0 <= qty,
        filled + qty > 0,
    ensures
        ({
            let paid = avg * filled + price * qty;
            let next = average(avg, filled, price, qty);
            next * (filled + qty) <= paid < (next + 1) * (filled + qty)
        }),
        filled == 0 ==> average(avg, filled, price, qty) == price,
{
    let n = filled + qty;
    let paid = avg * filled + price * qty;
    let q = paid / n;
    assert(q * n <= paid < (q + 1) * n) by (nonlinear_arith)
        requires
            q == paid / n,
            n > 0,
    ;
    if filled == 0 {
        assert(paid == price * n) by (nonlinear_arith)
            requires
                paid == avg * filled + price * qty,
                filled == 0,
                n == filled + qty,
        ;
        assert(q == price) by (nonlinear_arith)
            requires
                q * n <= price * n < (q + 1) * n,
                n > 0,
        ;
    }
}

/// Slippage is a cost: a buy (side zero) above the arrival price and a sell below it are
/// worse, by the distance.
pub proof fn lemma_slippage_is_cost(a: ExecutionAlgo, arrival_price: u64)
    requires
        arrival_price <= i64::MAX,
        a.avg_fill_price <= i64::MAX,
    ensures
        a.side == 0 ==> a.shortfall(arrival_price) == a.avg_fill_price - arrival_price,
        a.side != 0 ==> a.shortfall(arrival_price) == arrival_price - a.avg_fill_price,
{
}

/// A slice waits to be sent: it bears its number, its quantity, its side and its slot, and
/// neither a price nor a fill.
pub proof fn lemma_slice_waits(order_id: u64, quantity: u64, side: u8, time_slot: u16)
    ensures
        ({
            let slice = ChildOrder::spec_slice(order_id, quantity, side, time_slot);
            &&& slice.order_id == order_id
            &&& slice.parent_id == 1
            &&& slice.quantity == quantity
            &&& slice.side == side
            &&& slice.time_slot == time_slot
            &&& slice.price == 0
            &&& slice.status == 0
            &&& slice.fill_qty == 0
        }),
{
}

/// A slot takes sixteen orders, one behind the other, and passes over the rest.
pub proof fn lemma_slot_takes_sixteen(slot: Seq<u16>, order_idx: u16)
    ensures
        slot.len() < 16 ==> added(slot, order_idx) == slot.push(order_idx),
        slot.len() >= 16 ==> added(slot, order_idx) == slot,
{
}

/// Algorithms and sides have numbers of their own, and nothing filled has no average.
pub proof fn lemma_numbers_of_kinds(avg: int, price: int)
    ensures
        AlgoType::Twap.spec_code() == 0,
        AlgoType::Vwap.spec_code() == 1,
        AlgoType::Pov.spec_code() == 2,
        Side::Buy.spec_code() == 0,
        Side::Sell.spec_code() == 1,
        average(avg, 0, price, 0) == 0,
{
}

} // verus!
