//! Open interest delta and long/short ratio tracking.

use crate::fixed::{abs, abs_i64, div_i64, fits_i64, lemma_tdiv_rounds, min, min_u64, seq_sum, tdiv};
use vstd::prelude::*;

verus! {

/// Open interest accumulator; amounts are scaled by 1e9.
#[derive(Debug)]
pub struct OiAccumulator {
    pub long_oi: i64,
    pub short_oi: i64,
    /// Sum of the sizes of all changes since the last reset.
    pub oi_delta: i64,
    pub tick_count: u64,
}

/// Circular buffer over the last 256 open interest values, with their sum.
pub struct RollingOiBuffer {
    pub buffer: [i64; 256],
    /// Number of values pushed.
    pub head: u64,
    /// Sum over the buffer.
    pub sum: i64,
}

impl Default for OiAccumulator {
    fn default() -> (r: Self)
        ensures
            r == (OiAccumulator { long_oi: 0, short_oi: 0, oi_delta: 0, tick_count: 0 }),
    {
        OiAccumulator { long_oi: 0, short_oi: 0, oi_delta: 0, tick_count: 0 }
    }
}

impl Default for RollingOiBuffer {
    fn default() -> (r: Self)
        ensures
            r.wf(),
            r.buffer@ == Seq::new(256, |i: int| 0i64),
            r.head == 0,
            r.sum == 0,
    {
        let r = RollingOiBuffer { buffer: [0i64; 256], head: 0, sum: 0 };
        assert(r.buffer@ =~= Seq::new(256, |i: int| 0i64));
        proof {
            crate::fixed::lemma_sum_zeros(r.buffer@);
        }
        r
    }
}

impl OiAccumulator {
    /// Change the long open interest.
    pub fn update_long(&mut self, delta: i64)
        requires
            delta > i64::MIN,
        ensures
            *final(self) == (OiAccumulator {
                long_oi: old(self).long_oi.wrapping_add(delta),
                oi_delta: old(self).oi_delta.wrapping_add(abs(delta as int) as i64),
                ..*old(self)
            }),
    {
        self.long_oi = self.long_oi.wrapping_add(delta);
        self.oi_delta = self.oi_delta.wrapping_add(abs_i64(delta));
    }

    /// Change the short open interest.
    pub fn update_short(&mut self, delta: i64)
        requires
            delta > i64::MIN,
        ensures
            *final(self) == (OiAccumulator {
                short_oi: old(self).short_oi.wrapping_add(delta),
                oi_delta: old(self).oi_delta.wrapping_add(abs(delta as int) as i64),
                ..*old(self)
            }),
    {
        self.short_oi = self.short_oi.wrapping_add(delta);
        self.oi_delta = self.oi_delta.wrapping_add(abs_i64(delta));
    }

    /// Long over short open interest, scaled by 1e9; `i64::MAX` without short
    /// interest.
    pub fn long_short_ratio(&self) -> (r: i64)
        requires
            self.short_oi != 0 ==> fits_i64(self.long_oi * 1_000_000_000) && fits_i64(
                tdiv(self.long_oi * 1_000_000_000, self.short_oi as int),
            ),
        ensures
            r == if self.short_oi == 0 {
                i64::MAX as int
            } else {
                tdiv(self.long_oi * 1_000_000_000, self.short_oi as int)
            },
            self.long_oi >= 0 && self.short_oi > 0 ==> r * self.short_oi <= self.long_oi
                * 1_000_000_000 < (r + 1) * self.short_oi,
    {
        proof {
            if self.long_oi >= 0 && self.short_oi > 0 {
                lemma_ratio_of_interests(self.long_oi as int, self.short_oi as int);
            }
        }
        if self.short_oi == 0 {
            return i64::MAX;
        }
        proof {
            crate::fixed::lemma_tdiv_bound(
                self.long_oi * 1_000_000_000,
                self.short_oi as int,
            );
        }
        div_i64(self.long_oi * 1_000_000_000, self.short_oi)
    }

    /// Long plus short open interest.
    pub fn total_oi(&self) -> (r: i64)
        requires
            fits_i64(self.long_oi + self.short_oi),
        ensures
            r == self.long_oi + self.short_oi,
    {
        self.long_oi + self.short_oi
    }

    /// Size of all changes since the last reset.
    pub fn get_delta(&self) -> (r: i64)
        ensures
            r == self.oi_delta,
    {
        self.oi_delta
    }

    /// Reset the delta accumulator.
    pub fn reset_delta(&mut self)
        ensures
            *final(self) == (OiAccumulator { oi_delta: 0, ..*old(self) }),
    {
        self.oi_delta = 0;
    }
}

impl RollingOiBuffer {
    /// The sum is the sum over the buffer.
    pub open spec fn wf(&self) -> bool {
        self.sum == seq_sum(self.buffer@)
    }

    /// Slot that the next value goes to.
    pub open spec fn slot(&self) -> int {
        self.head as int % 256
    }

    /// Push a value in place of the oldest one.
    pub fn push(&mut self, oi_value: i64)
        requires
            old(self).wf(),
            fits_i64(old(self).sum - old(self).buffer@[old(self).slot()]),
            fits_i64(old(self).sum - old(self).buffer@[old(self).slot()] + oi_value),
        ensures
            final(self).wf(),
            final(self).buffer@ == old(self).buffer@.update(old(self).slot(), oi_value),
            final(self).head == old(self).head.wrapping_add(1),
            final(self).sum == old(self).sum - old(self).buffer@[old(self).slot()] + oi_value,
    {
        let idx: usize = (self.head % 256) as usize;
        proof {
            crate::fixed::lemma_sum_update(self.buffer@, idx as int, oi_value);
        }
        self.head = self.head.wrapping_add(1);
        self.sum = self.sum - self.buffer[idx] + oi_value;
        self.buffer[idx] = oi_value;
    }

    /// Average of the last `count` values, at most 256, given that no more
    /// were pushed.
    pub fn rolling_average(&self, count: u64) -> (r: i64)
        requires
            self.wf(),
        ensures
            r == if count == 0 {
                0
            } else {
                tdiv(seq_sum(self.buffer@), min(count as int, 256))
            },
    {
        let actual_count: u64 = min_u64(count, 256);
        if actual_count == 0 {
            return 0;
        }
        div_i64(self.sum, actual_count as i64)
    }

    /// Change per symbol, for up to four symbols. Four symbols are computed
    /// in one wrapping vector operation.
    pub fn simd_oi_delta<const N: usize>(&self, current: &[i64; N], previous: &[i64; N]) -> (r: [i64;
        N])
        requires
            N <= 4,
            N < 4 ==> forall|i: int|
                0 <= i < N ==> fits_i64(#[trigger] current@[i] - previous@[i]),
        ensures
            forall|i: int|
                0 <= i < N ==> #[trigger] r@[i] == current@[i].wrapping_sub(previous@[i]),
    {
        let mut result = [0i64; N];
        let mut i: usize = 0;
        while i < N
            invariant
                i <= N,
                forall|j: int|
                    0 <= j < i ==> #[trigger] result@[j] == current@[j].wrapping_sub(previous@[j]),
            decreases N - i,
        {
            result[i] = current[i].wrapping_sub(previous[i]);
            i = i + 1;
        }
        result
    }
}

/// Until the buffer wraps around, pushing a value appends it to the values
/// that the average runs over.
pub proof fn lemma_rolling_window(buffer: Seq<i64>, head: int, value: i64)
    requires
        buffer.len() == 256,
        0 <= head < 256,
    ensures
        buffer.update(head % 256, value).take(head + 1) == buffer.take(head).push(value),
{
    assert(buffer.update(head % 256, value).take(head + 1) =~= buffer.take(head).push(value));
}

/// The ratio times the short interest is the long interest, in scaled units and short of
/// it by less than the short interest.
pub proof fn lemma_ratio_of_interests(long: int, short: int)
    requires
        long >= 0,
        short > 0,
    ensures
        ({
            let r = tdiv(long * 1_000_000_000, short);
            r * short <= long * 1_000_000_000 < (r + 1) * short
        }),
{
    let x = long * 1_000_000_000;
    lemma_tdiv_rounds(x, short);
    let q = tdiv(x, short);
    assert((q + 1) * short == q * short + short) by (nonlinear_arith);
}

} // verus!
