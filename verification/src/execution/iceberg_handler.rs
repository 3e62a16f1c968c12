//! Iceberg and hidden order handler with queue-position-aware fill modeling.

use vstd::prelude::*;
use crate::fixed::{max, min, min_u64};

verus! {

broadcast use vstd::array::group_array_axioms;

/// Maximum number of iceberg orders tracked.
pub const MAX_ICEBERG_ORDERS: usize = 256;

/// Basis points in the whole.
pub const BPS: u64 = 10_000;

/// Iceberg order state.
#[derive(Debug, Clone, Copy, PartialEq, Eq, Structural)]
pub enum IcebergState {
    Pending,
    Active,
    PartiallyFilled,
    Completed,
    Cancelled,
}

impl IcebergState {
    /// Number of the state in an order.
    pub open spec fn spec_code(self) -> u8 {
        match self {
            IcebergState::Pending => 0,
            IcebergState::Active => 1,
            IcebergState::PartiallyFilled => 2,
            IcebergState::Completed => 3,
            IcebergState::Cancelled => 4,
        }
    }

    /// Number of the state in an order.
    pub fn code(self) -> (r: u8)
        ensures
            r == self.spec_code(),
    {
        match self {
            IcebergState::Pending => 0,
            IcebergState::Active => 1,
            IcebergState::PartiallyFilled => 2,
            IcebergState::Completed => 3,
            IcebergState::Cancelled => 4,
        }
    }
}

/// Iceberg order.
#[derive(Debug, Clone, Copy)]
pub struct IcebergOrder {
    /// Unique order ID; zero in a free slot.
    pub order_id: u64,
    /// Total (hidden) quantity.
    pub total_qty: u64,
    /// Visible (displayed) quantity.
    pub visible_qty: u64,
    /// Filled quantity.
    pub filled_qty: u64,
    /// Remaining visible quantity.
    pub remaining_visible: u64,
    /// Order price.
    pub price: u64,
    /// Side (0=buy, 1=sell).
    pub side: u8,
    /// Current state, by number.
    pub state: u8,
    /// Venue ID.
    pub venue_id: u8,
    /// Minimum display quantity.
    pub min_display_qty: u64,
    /// Queue position at venue.
    pub queue_position: u64,
    /// Orders ahead in queue.
    pub orders_ahead: u64,
    /// Volume ahead in queue (base units).
    pub volume_ahead: u64,
    /// Last fill timestamp (cycles).
    pub last_fill_time: u64,
    /// Creation timestamp (cycles).
    pub created_time: u64,
    /// Fill rate estimate.
    pub fill_rate_estimate: u64,
    /// Fills the cache lines.
    pub padding: [u8; 21],
}

impl IcebergOrder {
    /// Free slot.
    pub open spec fn spec_empty() -> Self {
        IcebergOrder {
            order_id: 0,
            total_qty: 0,
            visible_qty: 0,
            filled_qty: 0,
            remaining_visible: 0,
            price: 0,
            side: 0,
            state: IcebergState::Pending.spec_code(),
            venue_id: 0,
            min_display_qty: 0,
            queue_position: 0,
            orders_ahead: 0,
            volume_ahead: 0,
            last_fill_time: 0,
            created_time: 0,
            fill_rate_estimate: 0,
            padding: vstd::array::spec_array_fill_for_copy_type::<u8, 21>(0u8),
        }
    }

    /// Free slot.
    fn empty() -> (r: Self)
        ensures
            r == Self::spec_empty(),
    {
        IcebergOrder {
            order_id: 0,
            total_qty: 0,
            visible_qty: 0,
            filled_qty: 0,
            remaining_visible: 0,
            price: 0,
            side: 0,
            state: IcebergState::Pending.code(),
            venue_id: 0,
            min_display_qty: 0,
            queue_position: 0,
            orders_ahead: 0,
            volume_ahead: 0,
            last_fill_time: 0,
            created_time: 0,
            fill_rate_estimate: 0,
            padding: [0u8;21],
        }
    }

    /// Quantity still to be filled.
    pub open spec fn left(self) -> int {
        max(self.total_qty - self.filled_qty, 0)
    }

    /// Quantity still to be filled that is not displayed.
    pub open spec fn hidden(self) -> int {
        max(self.left() - self.remaining_visible, 0)
    }

    /// What is filled and what is displayed is part of the total.
    pub open spec fn consistent(self) -> bool {
        self.filled_qty + self.remaining_visible <= self.total_qty
    }

    /// The order is active: created, and neither completed nor cancelled.
    pub open spec fn live(self) -> bool {
        self.state == IcebergState::Active.spec_code() || self.state
            == IcebergState::PartiallyFilled.spec_code()
    }

    /// What the order adds to the number of active orders.
    pub open spec fn counts(self) -> int {
        if self.live() {
            1
        } else {
            0
        }
    }

    /// The order after a fill of its own at time `now`, whatever state it was in: when
    /// nothing of it is displayed any more, the display is refilled from the hidden
    /// quantity.
    pub open spec fn after_fill(self, fill_qty: u64, now: u64) -> Self {
        let filled = self.filled_qty + fill_qty;
        let shown = max(self.remaining_visible - fill_qty, 0);
        IcebergOrder {
            filled_qty: filled as u64,
            remaining_visible: (if shown == 0 && filled < self.total_qty {
                min(self.min_display_qty as int, self.total_qty - filled)
            } else {
                shown
            }) as u64,
            last_fill_time: now,
            state: if filled >= self.total_qty {
                IcebergState::Completed.spec_code()
            } else if filled > 0 {
                IcebergState::PartiallyFilled.spec_code()
            } else {
                self.state
            },
            ..self
        }
    }

    /// What the order adds to the number of active orders.
    fn count(&self) -> (r: u64)
        ensures
            r == self.counts(),
    {
        if self.state == IcebergState::Active.code() || self.state
            == IcebergState::PartiallyFilled.code() {
            1
        } else {
            0
        }
    }

    /// Remaining hidden quantity.
    pub fn remaining_hidden(&self) -> (r: u64)
        ensures
            r == self.hidden(),
    {
        self.total_qty.saturating_sub(self.filled_qty).saturating_sub(self.remaining_visible)
    }

    /// Total remaining quantity.
    pub fn remaining_total(&self) -> (r: u64)
        ensures
            r == self.left(),
    {
        self.total_qty.saturating_sub(self.filled_qty)
    }
}

/// Displayed and hidden quantity make up what is left.
pub proof fn lemma_quantities_add_up(order: IcebergOrder)
    requires
        order.consistent(),
    ensures
        order.remaining_visible + order.hidden() == order.left(),
        order.filled_qty + order.left() == order.total_qty,
{
}

/// A fill of no more than what is left keeps the quantities consistent, and an
/// order that is not completed goes on displaying something.
pub proof fn lemma_fill_keeps_quantities(order: IcebergOrder, fill_qty: u64, now: u64)
    requires
        order.consistent(),
        fill_qty <= order.left(),
        order.min_display_qty > 0,
    ensures
        order.after_fill(fill_qty, now).consistent(),
        order.after_fill(fill_qty, now).left() == order.left() - fill_qty,
        order.after_fill(fill_qty, now).left() > 0 ==> order.after_fill(
            fill_qty,
            now,
        ).remaining_visible > 0,
{
}

/// Number of active orders.
pub open spec fn live_count(orders: Seq<IcebergOrder>) -> int
    decreases orders.len(),
{
    if orders.len() == 0 {
        0
    } else {
        live_count(orders.drop_last()) + orders.last().counts()
    }
}

/// Replacing one order changes the number by what that order counts.
proof fn lemma_live_update(orders: Seq<IcebergOrder>, i: int, order: IcebergOrder)
    requires
        0 <= i < orders.len(),
    ensures
        live_count(orders.update(i, order)) == live_count(orders) - orders[i].counts()
            + order.counts(),
        orders[i].counts() <= live_count(orders) <= orders.len(),
    decreases orders.len(),
{
    let t = orders.update(i, order);
    if i == orders.len() - 1 {
        assert(t.drop_last() =~= orders.drop_last());
        lemma_live_bound(orders.drop_last());
    } else {
        assert(t.drop_last() =~= orders.drop_last().update(i, order));
        lemma_live_update(orders.drop_last(), i, order);
    }
}

/// No more orders are active than there are, and none where none is live.
proof fn lemma_live_bound(orders: Seq<IcebergOrder>)
    ensures
        0 <= live_count(orders) <= orders.len(),
        (forall|i: int| 0 <= i < orders.len() ==> !(#[trigger] orders[i]).live()) ==> live_count(
            orders,
        ) == 0,
    decreases orders.len(),
{
    if orders.len() > 0 {
        lemma_live_bound(orders.drop_last());
        assert(forall|i: int|
            0 <= i < orders.len() - 1 ==> orders.drop_last()[i] == #[trigger] orders[i]);
    }
}

/// Queue position tracker for fill modeling.
#[derive(Debug, Clone, Copy)]
pub struct QueuePosition {
    /// Our position in queue (1-indexed).
    pub position: u64,
    /// Total volume at our price level.
    pub level_volume: u64,
    /// Volume ahead of us.
    pub volume_ahead: u64,
    /// Recent fill volume at this level.
    pub recent_fill_volume: u64,
    /// Recent fill count.
    pub recent_fill_count: u64,
}

impl QueuePosition {
    /// Tracker without data.
    pub open spec fn spec_new() -> Self {
        QueuePosition {
            position: 0,
            level_volume: 0,
            volume_ahead: 0,
            recent_fill_volume: 0,
            recent_fill_count: 0,
        }
    }

    /// Average recent fill; zero without fills.
    pub open spec fn fill_rate(self) -> int {
        if self.recent_fill_count == 0 {
            0
        } else {
            self.recent_fill_volume as int / self.recent_fill_count as int
        }
    }

    /// Tracker without data.
    pub fn new() -> (r: Self)
        ensures
            r == Self::spec_new(),
    {
        QueuePosition {
            position: 0,
            level_volume: 0,
            volume_ahead: 0,
            recent_fill_volume: 0,
            recent_fill_count: 0,
        }
    }

    /// Note a position.
    pub fn update_position(&mut self, pos: u64, vol_ahead: u64, level_vol: u64)
        ensures
            *final(self) == (QueuePosition {
                position: pos,
                volume_ahead: vol_ahead,
                level_volume: level_vol,
                ..*old(self)
            }),
    {
        self.position = pos;
        self.volume_ahead = vol_ahead;
        self.level_volume = level_vol;
    }

    /// Note a fill.
    pub fn record_fill_at_level(&mut self, fill_qty: u64)
        ensures
            *final(self) == (QueuePosition {
                recent_fill_volume: old(self).recent_fill_volume.wrapping_add(fill_qty),
                recent_fill_count: old(self).recent_fill_count.wrapping_add(1),
                ..*old(self)
            }),
    {
        self.recent_fill_volume = self.recent_fill_volume.wrapping_add(fill_qty);
        self.recent_fill_count = self.recent_fill_count.wrapping_add(1);
    }

    /// Average recent fill; zero without fills.
    pub fn get_fill_rate(&self) -> (r: u64)
        ensures
            r == self.fill_rate(),
    {
        if self.recent_fill_count == 0 {
            return 0;
        }
        self.recent_fill_volume / self.recent_fill_count
    }

    /// Forget recent fills.
    pub fn reset_recent(&mut self)
        ensures
            *final(self) == (QueuePosition {
                recent_fill_volume: 0,
                recent_fill_count: 0,
                ..*old(self)
            }),
    {
        self.recent_fill_volume = 0;
        self.recent_fill_count = 0;
    }
}

/// Iceberg order handler.
#[derive(Debug)]
pub struct IcebergHandler {
    /// Iceberg orders.
    pub orders: [IcebergOrder; 256],
    /// Number of active orders.
    pub num_active: u64,
    /// Queue position trackers.
    pub queue_positions: [QueuePosition; 256],
    /// Default minimum display ratio (basis points).
    pub default_display_ratio_bp: u64,
    /// Aggressive refill threshold (queue position).
    pub aggressive_refill_threshold: u64,
    /// Enable queue position tracking.
    pub queue_tracking_enabled: bool,
}

/// Display quantity of an order: its share of the total, at least one unit.
pub open spec fn min_display(total_qty: int, ratio_bp: int) -> int {
    max((total_qty * ratio_bp) / (BPS as int), 1)
}

impl IcebergHandler {
    /// The display ratio is at most the whole, and the number of active orders is that of
    /// the orders that are active.
    pub open spec fn wf(&self) -> bool {
        &&& self.default_display_ratio_bp <= BPS
        &&& self.num_active == live_count(self.orders@)
    }

    /// Handler without orders.
    pub fn new() -> (r: Self)
        ensures
            r.wf(),
            forall|i: int|
                0 <= i < MAX_ICEBERG_ORDERS ==> r.orders@[i] == IcebergOrder::spec_empty(),
            forall|i: int|
                0 <= i < MAX_ICEBERG_ORDERS ==> r.queue_positions@[i] == QueuePosition::spec_new(),
            r.num_active == 0,
            r.default_display_ratio_bp == 1000,
            r.aggressive_refill_threshold == 10,
            r.queue_tracking_enabled,
    {
        let r = IcebergHandler {
            orders: [IcebergOrder::empty();256],
            num_active: 0,
            queue_positions: [QueuePosition::new();256],
            default_display_ratio_bp: 1000,
            aggressive_refill_threshold: 10,
            queue_tracking_enabled: true,
        };
        proof {
            lemma_live_bound(r.orders@);
        }
        r
    }

    /// `slot` is the first free slot, if there is one.
    pub open spec fn first_free(&self, slot: Option<u64>) -> bool {
        match slot {
            Some(i) => i < MAX_ICEBERG_ORDERS && self.orders@[i as int].order_id == 0
                && forall|j: int| 0 <= j < i ==> (#[trigger] self.orders@[j]).order_id != 0,
            None => forall|j: int|
                0 <= j < MAX_ICEBERG_ORDERS ==> (#[trigger] self.orders@[j]).order_id != 0,
        }
    }

    /// The order that a request creates at time `now`.
    pub open spec fn created(
        &self,
        order_id: u64,
        total_qty: u64,
        price: u64,
        side: u8,
        venue_id: u8,
        now: u64,
    ) -> IcebergOrder {
        let display = min_display(total_qty as int, self.default_display_ratio_bp as int);
        let visible = min(display, total_qty as int) as u64;
        IcebergOrder {
            order_id,
            total_qty,
            visible_qty: visible,
            filled_qty: 0,
            remaining_visible: visible,
            price,
            side,
            state: IcebergState::Active.spec_code(),
            venue_id,
            min_display_qty: display as u64,
            queue_position: 1,
            orders_ahead: 0,
            volume_ahead: 0,
            last_fill_time: 0,
            created_time: now,
            fill_rate_estimate: 0,
            ..IcebergOrder::spec_empty()
        }
    }

    /// Create a new iceberg order at time `now`, in the first free slot: one that holds
    /// no order ID. Gives the slot. Nothing is created without quantity, price or a free
    /// slot. An order with ID zero leaves its slot free for the next one.
    pub fn create_iceberg(
        &mut self,
        order_id: u64,
        total_qty: u64,
        price: u64,
        side: u8,
        venue_id: u8,
        now: u64,
    ) -> (r: Option<u64>)
        requires
            old(self).wf(),
        ensures
            final(self).wf(),
            total_qty == 0 || price == 0 ==> r is None,
            total_qty > 0 && price > 0 ==> old(self).first_free(r),
            r is None ==> *final(self) == *old(self),
            r is Some ==> {
                let order = old(self).created(order_id, total_qty, price, side, venue_id, now);
                &&& order.consistent()
                &&& final(self).orders@ == old(self).orders@.update(r->0 as int, order)
                &&& *final(self) == (IcebergHandler {
                    orders: final(self).orders,
                    num_active: (old(self).num_active - old(self).orders@[r->0 as int].counts()
                        + 1) as u64,
                    ..*old(self)
                })
            },
    {
        if total_qty == 0 || price == 0 {
            return None;
        }
        let mut idx: usize = 0;
        while idx < MAX_ICEBERG_ORDERS && self.orders[idx].order_id != 0
            invariant
                idx <= MAX_ICEBERG_ORDERS,
                *self == *old(self),
                forall|j: int| 0 <= j < idx ==> (#[trigger] self.orders@[j]).order_id != 0,
            decreases MAX_ICEBERG_ORDERS - idx,
        {
            idx = idx + 1;
        }
        if idx >= MAX_ICEBERG_ORDERS {
            return None;
        }
        let display: u64 = Self::calculate_min_display(total_qty, self.default_display_ratio_bp);
        let visible: u64 = min_u64(display, total_qty);
        let mut order = IcebergOrder::empty();
        order.order_id = order_id;
        order.total_qty = total_qty;
        order.visible_qty = visible;
        order.remaining_visible = visible;
        order.price = price;
        order.side = side;
        order.state = IcebergState::Active.code();
        order.venue_id = venue_id;
        order.min_display_qty = display;
        order.queue_position = 1;
        order.created_time = now;
        proof {
            lemma_live_update(self.orders@, idx as int, order);
        }
        self.num_active = self.num_active - self.orders[idx].count() + 1;
        self.orders[idx] = order;
        Some(idx as u64)
    }

    /// Display quantity of an order.
    fn calculate_min_display(total_qty: u64, ratio_bp: u64) -> (r: u64)
        requires
            ratio_bp <= BPS,
        ensures
            r == min_display(total_qty as int, ratio_bp as int),
    {
        assert(0 <= total_qty * ratio_bp <= total_qty * 10_000) by (nonlinear_arith)
            requires
                ratio_bp <= 10_000,
        ;
        let base: u128 = (total_qty as u128 * ratio_bp as u128) / BPS as u128;
        if base > 1 {
            base as u64
        } else {
            1
        }
    }

    /// The order after its queue position was reported.
    pub open spec fn positioned(order: IcebergOrder, position: u64, volume_ahead: u64) -> IcebergOrder {
        IcebergOrder {
            queue_position: position,
            orders_ahead: max(position - 1, 0) as u64,
            volume_ahead,
            ..order
        }
    }

    /// Update a queue position from market data. An unknown slot changes nothing.
    pub fn update_queue_position(
        &mut self,
        order_idx: u64,
        position: u64,
        volume_ahead: u64,
        level_volume: u64,
    )
        requires
            old(self).wf(),
        ensures
            final(self).wf(),
            order_idx >= MAX_ICEBERG_ORDERS ==> *final(self) == *old(self),
            order_idx < MAX_ICEBERG_ORDERS ==> {
                let i = order_idx as int;
                &&& final(self).orders@ == old(self).orders@.update(
                    i,
                    Self::positioned(old(self).orders@[i], position, volume_ahead),
                )
                &&& final(self).queue_positions@ == if old(self).queue_tracking_enabled {
                    old(self).queue_positions@.update(
                        i,
                        QueuePosition {
                            position,
                            volume_ahead,
                            level_volume,
                            ..old(self).queue_positions@[i]
                        },
                    )
                } else {
                    old(self).queue_positions@
                }
                &&& *final(self) == (IcebergHandler {
                    orders: final(self).orders,
                    queue_positions: final(self).queue_positions,
                    ..*old(self)
                })
            },
    {
        if order_idx >= MAX_ICEBERG_ORDERS as u64 {
            return ;
        }
        let idx: usize = order_idx as usize;
        let mut order = self.orders[idx];
        order.queue_position = position;
        order.orders_ahead = position.saturating_sub(1);
        order.volume_ahead = volume_ahead;
        proof {
            lemma_live_update(self.orders@, idx as int, order);
        }
        self.orders[idx] = order;
        if self.queue_tracking_enabled {
            let mut tracker = self.queue_positions[idx];
            tracker.update_position(position, volume_ahead, level_volume);
            self.queue_positions[idx] = tracker;
        }
    }

    /// Process a fill at the price level of an order at time `now`. An order that it
    /// completes is no longer active. An unknown slot changes nothing.
    pub fn process_level_fill(&mut self, order_idx: u64, fill_qty: u64, is_our_fill: bool, now: u64)
        requires
            old(self).wf(),
            order_idx < MAX_ICEBERG_ORDERS && is_our_fill ==> old(self).orders@[order_idx as int].filled_qty + fill_qty <= u64::MAX,
        ensures
            final(self).wf(),
            order_idx >= MAX_ICEBERG_ORDERS ==> *final(self) == *old(self),
            order_idx < MAX_ICEBERG_ORDERS ==> {
                let i = order_idx as int;
                let q = old(self).queue_positions@[i];
                let order = old(self).orders@[i];
                &&& final(self).queue_positions@ == old(self).queue_positions@.update(
                    i,
                    QueuePosition {
                        recent_fill_volume: q.recent_fill_volume.wrapping_add(fill_qty),
                        recent_fill_count: q.recent_fill_count.wrapping_add(1),
                        ..q
                    },
                )
                &&& final(self).orders@ == if is_our_fill {
                    old(self).orders@.update(i, order.after_fill(fill_qty, now))
                } else {
                    old(self).orders@
                }
                &&& *final(self) == (IcebergHandler {
                    orders: final(self).orders,
                    queue_positions: final(self).queue_positions,
                    num_active: if is_our_fill {
                        (old(self).num_active - order.counts() + order.after_fill(
                            fill_qty,
                            now,
                        ).counts()) as u64
                    } else {
                        old(self).num_active
                    },
                    ..*old(self)
                })
            },
    {
        if order_idx >= MAX_ICEBERG_ORDERS as u64 {
            return ;
        }
        let idx: usize = order_idx as usize;
        let mut tracker = self.queue_positions[idx];
        tracker.record_fill_at_level(fill_qty);
        self.queue_positions[idx] = tracker;
        if is_our_fill {
            let mut order = self.orders[idx];
            order.filled_qty = order.filled_qty + fill_qty;
            order.remaining_visible = order.remaining_visible.saturating_sub(fill_qty);
            order.last_fill_time = now;
            if order.filled_qty >= order.total_qty {
                order.state = IcebergState::Completed.code();
            } else {
                if order.filled_qty > 0 {
                    order.state = IcebergState::PartiallyFilled.code();
                }
                if order.remaining_visible == 0 {
                    order.remaining_visible = min_u64(
                        order.min_display_qty,
                        order.remaining_hidden(),
                    );
                }
            }
            proof {
                lemma_live_update(self.orders@, idx as int, order);
            }
            self.num_active = self.num_active - self.orders[idx].count() + order.count();
            self.orders[idx] = order;
        }
    }

    /// Estimated time to fill in milliseconds: the volume ahead over the average
    /// recent fill. Without an estimate, the largest number.
    pub fn estimate_fill_time_ms(&self, order_idx: u64) -> (r: u64)
        ensures
            r == if order_idx >= MAX_ICEBERG_ORDERS || self.queue_positions@[order_idx as int].fill_rate()
                == 0 {
                u64::MAX as int
            } else {
                self.orders@[order_idx as int].volume_ahead as int
                    / self.queue_positions@[order_idx as int].fill_rate()
            },
    {
        if order_idx >= MAX_ICEBERG_ORDERS as u64 {
            return u64::MAX;
        }
        let idx: usize = order_idx as usize;
        let fill_rate: u64 = self.queue_positions[idx].get_fill_rate();
        if fill_rate == 0 {
            return u64::MAX;
        }
        self.orders[idx].volume_ahead / fill_rate
    }

    /// Probability of a fill within a time (basis points): the expected volume
    /// over the volume ahead.
    pub open spec fn probability(&self, i: int, time_ms: u64) -> int {
        let ahead = self.orders@[i].volume_ahead as int;
        let expected = self.queue_positions@[i].fill_rate() * time_ms;
        if self.queue_positions@[i].fill_rate() == 0 || ahead == 0 {
            0
        } else if expected >= ahead {
            BPS as int
        } else {
            (expected * BPS) / ahead
        }
    }

    /// Probability of a fill within a time (0-10000 basis points); zero for an
    /// unknown slot.
    pub fn fill_probability_bp(&self, order_idx: u64, time_ms: u64) -> (r: u16)
        ensures
            r == if order_idx >= MAX_ICEBERG_ORDERS {
                0
            } else {
                self.probability(order_idx as int, time_ms)
            },
            r <= BPS,
    {
        if order_idx >= MAX_ICEBERG_ORDERS as u64 {
            return 0;
        }
        let idx: usize = order_idx as usize;
        let ahead: u64 = self.orders[idx].volume_ahead;
        let rate: u64 = self.queue_positions[idx].get_fill_rate();
        if rate == 0 || ahead == 0 {
            return 0;
        }
        assert(0 <= rate * time_ms <= 0xffff_ffff_ffff_ffff * 0xffff_ffff_ffff_ffff)
            by (nonlinear_arith)
            requires
                0 <= rate <= 0xffff_ffff_ffff_ffff,
                0 <= time_ms <= 0xffff_ffff_ffff_ffff,
        ;
        let expected: u128 = rate as u128 * time_ms as u128;
        if expected >= ahead as u128 {
            10000
        } else {
            let p: u128 = (expected * BPS as u128) / ahead as u128;
            assert(p <= 10_000) by (nonlinear_arith)
                requires
                    p == (expected * 10_000) / (ahead as int),
                    0 <= expected < ahead,
            ;
            p as u16
        }
    }

    /// Cancel what a slot holds. Refused for an unknown slot, and for an order that is
    /// completed or cancelled.
    pub fn cancel_order(&mut self, order_idx: u64) -> (r: bool)
        requires
            old(self).wf(),
        ensures
            final(self).wf(),
            r == (order_idx < MAX_ICEBERG_ORDERS && {
                let state = old(self).orders@[order_idx as int].state;
                state != IcebergState::Completed.spec_code() && state
                    != IcebergState::Cancelled.spec_code()
            }),
            !r ==> *final(self) == *old(self),
            r ==> {
                &&& final(self).orders@ == old(self).orders@.update(
                    order_idx as int,
                    IcebergOrder {
                        state: IcebergState::Cancelled.spec_code(),
                        ..old(self).orders@[order_idx as int]
                    },
                )
                &&& *final(self) == (IcebergHandler {
                    orders: final(self).orders,
                    num_active: (old(self).num_active - old(self).orders@[order_idx as int].counts()) as u64,
                    ..*old(self)
                })
            },
    {
        if order_idx >= MAX_ICEBERG_ORDERS as u64 {
            return false;
        }
        let idx: usize = order_idx as usize;
        let mut order = self.orders[idx];
        if order.state == IcebergState::Completed.code() || order.state
            == IcebergState::Cancelled.code() {
            return false;
        }
        order.state = IcebergState::Cancelled.code();
        proof {
            lemma_live_update(self.orders@, idx as int, order);
        }
        self.num_active = self.num_active - self.orders[idx].count();
        self.orders[idx] = order;
        true
    }

    /// The order in a slot.
    pub fn get_order(&self, order_idx: u64) -> (r: Option<IcebergOrder>)
        ensures
            r == if order_idx >= MAX_ICEBERG_ORDERS {
                None
            } else {
                Some(self.orders@[order_idx as int])
            },
    {
        if order_idx >= MAX_ICEBERG_ORDERS as u64 {
            return None;
        }
        Some(self.orders[order_idx as usize])
    }

    /// Number of active iceberg orders.
    pub fn num_active_orders(&self) -> (r: u64)
        ensures
            r == self.num_active,
    {
        self.num_active
    }

    /// Set the display ratio for new orders, at most the whole.
    pub fn set_display_ratio_bp(&mut self, ratio_bp: u64)
        requires
            old(self).wf(),
        ensures
            final(self).wf(),
            *final(self) == (IcebergHandler {
                default_display_ratio_bp: min(ratio_bp as int, BPS as int) as u64,
                ..*old(self)
            }),
    {
        self.default_display_ratio_bp = min_u64(ratio_bp, BPS);
    }

    /// Set the aggressive refill threshold.
    pub fn set_aggressive_threshold(&mut self, threshold: u64)
        requires
            old(self).wf(),
        ensures
            final(self).wf(),
            *final(self) == (IcebergHandler {
                aggressive_refill_threshold: threshold,
                ..*old(self)
            }),
    {
        self.aggressive_refill_threshold = threshold;
    }

    /// Drop all orders.
    pub fn reset_all(&mut self)
        requires
            old(self).wf(),
        ensures
            final(self).wf(),
            forall|i: int|
                0 <= i < MAX_ICEBERG_ORDERS ==> final(self).orders@[i]
                    == IcebergOrder::spec_empty(),
            forall|i: int|
                0 <= i < MAX_ICEBERG_ORDERS ==> final(self).queue_positions@[i]
                    == QueuePosition::spec_new(),
            *final(self) == (IcebergHandler {
                orders: final(self).orders,
                queue_positions: final(self).queue_positions,
                num_active: 0,
                ..*old(self)
            }),
    {
        self.orders = [IcebergOrder::empty();256];
        self.queue_positions = [QueuePosition::new();256];
        self.num_active = 0;
        proof {
            lemma_live_bound(self.orders@);
        }
    }

    /// Order in slot `i` after the positions of four neighbouring slots were
    /// reported.
    pub open spec fn repositioned(
        order: IcebergOrder,
        i: int,
        start: int,
        positions: Seq<u64>,
        volumes: Seq<u64>,
    ) -> IcebergOrder {
        if start <= i < start + 4 {
            Self::positioned(order, positions[i - start], volumes[i - start])
        } else {
            order
        }
    }

    /// Tracker of slot `i` after the positions of four neighbouring slots were
    /// reported, without level volumes.
    pub open spec fn retracked(
        q: QueuePosition,
        i: int,
        start: int,
        positions: Seq<u64>,
        volumes: Seq<u64>,
    ) -> QueuePosition {
        if start <= i < start + 4 {
            QueuePosition {
                position: positions[i - start],
                volume_ahead: volumes[i - start],
                level_volume: 0,
                ..q
            }
        } else {
            q
        }
    }

    /// Update the queue positions of four neighbouring slots. Slots that do not
    /// exist are passed over.
    pub fn update_queue_positions_simd(
        &mut self,
        positions: &[u64; 4],
        volumes_ahead: &[u64; 4],
        start_idx: usize,
    )
        requires
            old(self).wf(),
        ensures
            final(self).wf(),
            forall|i: int|
                0 <= i < MAX_ICEBERG_ORDERS ==> #[trigger] final(self).orders@[i]
                    == Self::repositioned(
                    old(self).orders@[i],
                    i,
                    start_idx as int,
                    positions@,
                    volumes_ahead@,
                ),
            forall|i: int|
                0 <= i < MAX_ICEBERG_ORDERS ==> #[trigger] final(self).queue_positions@[i] == if old(self).queue_tracking_enabled {
                    Self::retracked(
                        old(self).queue_positions@[i],
                        i,
                        start_idx as int,
                        positions@,
                        volumes_ahead@,
                    )
                } else {
                    old(self).queue_positions@[i]
                },
            *final(self) == (IcebergHandler {
                orders: final(self).orders,
                queue_positions: final(self).queue_positions,
                ..*old(self)
            }),
    {
        let mut k: usize = 0;
        while k < 4 && start_idx < MAX_ICEBERG_ORDERS && k < MAX_ICEBERG_ORDERS - start_idx
            invariant
                self.wf(),
                k <= 4,
                k == 0 || start_idx + k <= MAX_ICEBERG_ORDERS,
                forall|i: int|
                    0 <= i < MAX_ICEBERG_ORDERS ==> #[trigger] self.orders@[i] == if start_idx <= i
                        < start_idx + k {
                        Self::positioned(
                            old(self).orders@[i],
                            positions@[i - start_idx],
                            volumes_ahead@[i - start_idx],
                        )
                    } else {
                        old(self).orders@[i]
                    },
                forall|i: int|
                    0 <= i < MAX_ICEBERG_ORDERS ==> #[trigger] self.queue_positions@[i] == if old(self).queue_tracking_enabled && start_idx <= i < start_idx + k {
                        QueuePosition {
                            position: positions@[i - start_idx],
                            volume_ahead: volumes_ahead@[i - start_idx],
                            level_volume: 0,
                            ..old(self).queue_positions@[i]
                        }
                    } else {
                        old(self).queue_positions@[i]
                    },
                *self == (IcebergHandler {
                    orders: self.orders,
                    queue_positions: self.queue_positions,
                    ..*old(self)
                }),
            decreases 4 - k,
        {
            self.update_queue_position(
                (start_idx + k) as u64,
                positions[k],
                volumes_ahead[k],
                0,
            );
            k = k + 1;
        }
    }
}

impl Default for IcebergHandler {
    fn default() -> (r: Self)
        ensures
            r.wf(),
            forall|i: int|
                0 <= i < MAX_ICEBERG_ORDERS ==> r.orders@[i] == IcebergOrder::spec_empty(),
            forall|i: int|
                0 <= i < MAX_ICEBERG_ORDERS ==> r.queue_positions@[i] == QueuePosition::spec_new(),
            r.num_active == 0,
            r.default_display_ratio_bp == 1000,
            r.aggressive_refill_threshold == 10,
            r.queue_tracking_enabled,
    {
        Self::new()
    }
}

/// A new order displays its share of the total, in basis points and rounded down but at
/// least one unit and at most all of it; nothing of it is filled, and the rest is hidden.
pub proof fn lemma_created_displays_share(
    h: IcebergHandler,
    order_id: u64,
    total_qty: u64,
    price: u64,
    side: u8,
    venue_id: u8,
    now: u64,
    share: int,
)
    requires
        total_qty > 0,
        h.default_display_ratio_bp <= 10_000,
        share * 10_000 <= total_qty * h.default_display_ratio_bp < (share + 1) * 10_000,
    ensures
        ({
            let o = h.created(order_id, total_qty, price, side, venue_id, now);
            &&& share >= 1 ==> o.remaining_visible == share
            &&& share < 1 ==> o.remaining_visible == 1
            &&& o.visible_qty == o.remaining_visible
            &&& o.min_display_qty == o.remaining_visible
            &&& o.filled_qty == 0
            &&& o.total_qty == total_qty
            &&& o.order_id == order_id
            &&& o.price == price
            &&& o.side == side
            &&& o.venue_id == venue_id
            &&& o.created_time == now
            &&& o.live()
            &&& o.hidden() == total_qty - o.remaining_visible
        }),
{
    let x = total_qty * h.default_display_ratio_bp;
    assert(0 <= x <= total_qty * 10_000) by (nonlinear_arith)
        requires
            x == total_qty * h.default_display_ratio_bp,
            0 <= h.default_display_ratio_bp <= 10_000,
            total_qty >= 0,
    ;
    assert(x / 10_000 == share);
}

/// A fill adds to what is filled and comes off what is displayed. While something is
/// still displayed, nothing hidden is shown; when the display is used up, it is refilled
/// with the display quantity, or with what is left if that is less. The order is
/// completed exactly when all of it is filled.
pub proof fn lemma_fill_moves_quantity(order: IcebergOrder, fill_qty: u64, now: u64)
    requires
        order.filled_qty + fill_qty <= u64::MAX,
        fill_qty > 0,
    ensures
        ({
            let after = order.after_fill(fill_qty, now);
            let filled = order.filled_qty + fill_qty;
            &&& after.filled_qty == filled
            &&& after.total_qty == order.total_qty
            &&& after.last_fill_time == now
            &&& fill_qty < order.remaining_visible ==> after.remaining_visible
                == order.remaining_visible - fill_qty
            &&& fill_qty >= order.remaining_visible && filled >= order.total_qty
                ==> after.remaining_visible == 0
            &&& fill_qty >= order.remaining_visible && filled < order.total_qty ==> {
                &&& after.remaining_visible <= order.min_display_qty
                &&& after.remaining_visible <= order.total_qty - filled
                &&& after.remaining_visible == order.min_display_qty || after.remaining_visible
                    == order.total_qty - filled
            }
            &&& after.state == 3 <==> filled >= order.total_qty
            &&& after.state == 2 <==> filled < order.total_qty
            &&& after.live() == (filled < order.total_qty)
        }),
{
}

/// The numbers of the states; an order is active in states one and two.
pub proof fn lemma_state_codes(order: IcebergOrder)
    ensures
        IcebergState::Pending.spec_code() == 0,
        IcebergState::Active.spec_code() == 1,
        IcebergState::PartiallyFilled.spec_code() == 2,
        IcebergState::Completed.spec_code() == 3,
        IcebergState::Cancelled.spec_code() == 4,
        order.live() == (order.state == 1 || order.state == 2),
        order.counts() == if order.live() {
            1int
        } else {
            0
        },
{
}

/// At position `n` of the queue there are `n - 1` orders ahead.
pub proof fn lemma_orders_ahead(order: IcebergOrder, position: u64, volume_ahead: u64)
    requires
        position > 0,
    ensures
        IcebergHandler::positioned(order, position, volume_ahead).orders_ahead == position - 1,
        IcebergHandler::positioned(order, position, volume_ahead).queue_position == position,
        IcebergHandler::positioned(order, position, volume_ahead).volume_ahead == volume_ahead,
        IcebergHandler::positioned(order, position, volume_ahead).filled_qty == order.filled_qty,
        IcebergHandler::positioned(order, position, volume_ahead).remaining_visible
            == order.remaining_visible,
{
}

/// The fill rate is the volume of the recent fills over their number, rounded down. A
/// fill is certain once the volume expected in the time covers what is ahead; before, its
/// probability is the share of the one in the other. More time never makes it less
/// likely.
pub proof fn lemma_fill_probability(h: IcebergHandler, i: int, time_ms: u64, more: u64)
    requires
        0 <= i < 256,
        h.queue_positions@[i].recent_fill_count > 0,
        h.orders@[i].volume_ahead > 0,
        time_ms <= more,
    ensures
        ({
            let q = h.queue_positions@[i];
            let rate = q.fill_rate();
            let ahead = h.orders@[i].volume_ahead;
            let p = h.probability(i, time_ms);
            &&& rate * q.recent_fill_count <= q.recent_fill_volume < (rate + 1)
                * q.recent_fill_count
            &&& rate > 0 && rate * time_ms >= ahead ==> p == 10_000
            &&& rate > 0 && rate * time_ms < ahead ==> p * ahead <= rate * time_ms * 10_000 < (p
                + 1) * ahead
            &&& rate == 0 ==> p == 0
            &&& 0 <= p <= h.probability(i, more) <= 10_000
        }),
{
    let q = h.queue_positions@[i];
    let (v, n) = (q.recent_fill_volume as int, q.recent_fill_count as int);
    let rate = v / n;
    assert(rate >= 0 && rate * n <= v < (rate + 1) * n) by (nonlinear_arith)
        requires
            rate == v / n,
            n > 0,
            v >= 0,
    ;
    let ahead = h.orders@[i].volume_ahead as int;
    let (x, y) = (rate * time_ms, rate * more);
    assert(0 <= x <= y) by (nonlinear_arith)
        requires
            x == rate * time_ms,
            y == rate * more,
            rate >= 0,
            0 <= time_ms <= more,
    ;
    let (p, r) = ((x * 10_000) / ahead, (y * 10_000) / ahead);
    assert(p * ahead <= x * 10_000 < (p + 1) * ahead) by (nonlinear_arith)
        requires
            p == (x * 10_000) / ahead,
            ahead > 0,
    ;
    assert(0 <= p <= r && (x < ahead ==> p <= 10_000) && (y < ahead ==> r <= 10_000))
        by (nonlinear_arith)
        requires
            p == (x * 10_000) / ahead,
            r == (y * 10_000) / ahead,
            ahead > 0,
            0 <= x <= y,
    ;
}

/// A report of four positions reaches four neighbouring slots, the first of the four being
/// the one that it begins at. All others stay as they are.
pub proof fn lemma_four_slots_are_reached(
    order: IcebergOrder,
    q: QueuePosition,
    i: int,
    start: int,
    positions: Seq<u64>,
    volumes: Seq<u64>,
)
    requires
        positions.len() == 4,
        volumes.len() == 4,
    ensures
        i < start || i >= start + 4 ==> IcebergHandler::repositioned(
            order,
            i,
            start,
            positions,
            volumes,
        ) == order && IcebergHandler::retracked(q, i, start, positions, volumes) == q,
        start <= i < start + 4 ==> {
            let tracker = IcebergHandler::retracked(q, i, start, positions, volumes);
            &&& tracker.position == positions[i - start]
            &&& tracker.volume_ahead == volumes[i - start]
            &&& tracker.level_volume == 0
            &&& IcebergHandler::repositioned(order, i, start, positions, volumes)
                == IcebergHandler::positioned(order, positions[i - start], volumes[i - start])
        },
{
}

/// An order goes to the lowest slot that holds none, of two hundred and fifty-six.
pub proof fn lemma_lowest_free_slot(h: IcebergHandler, slot: Option<u64>, other: int)
    requires
        h.first_free(slot),
        0 <= other < 256,
    ensures
        slot is None ==> h.orders@[other].order_id != 0,
        slot is Some ==> slot->0 < 256 && h.orders@[slot->0 as int].order_id == 0,
        slot is Some && h.orders@[other].order_id == 0 ==> slot->0 <= other,
{
}

} // verus!
