//! Detection of clock drift and of timestamps that run backwards.
//!
//! Readings of the cycle counter come from the caller.

use crate::fixed::{
    abs, abs_i64, bit_mask, div_i64, fits_i64, lemma_tdiv_rounds, max, pack_flags, tdiv,
};
use vstd::prelude::*;

verus! {

/// Maximum allowed clock drift in microseconds.
pub const MAX_DRIFT_US: i64 = 100;

/// Smallest step between timestamps that is no time warp: one millisecond
/// back.
pub const TIME_WARP_THRESHOLD_NS: i64 = -1_000_000;

/// Consecutive anomalies that trip the circuit breaker.
pub const CIRCUIT_BREAKER_THRESHOLD: u64 = 3;

/// Guard that halts trading when timestamps run backwards.
#[derive(Debug)]
pub struct TimeWarpGuard {
    /// Last valid timestamp in nanoseconds.
    pub last_timestamp_ns: i64,
    /// Cycle counter at initialisation.
    pub reference_tsc: u64,
    pub accumulated_drift_ns: i64,
    /// Anomalies since the last valid timestamp.
    pub anomaly_count: u64,
    pub circuit_breaker_tripped: bool,
    pub trading_halted: bool,
}

/// Monitor of the offset between the local and a reference clock.
#[derive(Debug)]
pub struct ClockDriftMonitor {
    /// Local minus reference clock, in nanoseconds.
    pub offset_ns: i64,
    pub drift_rate_ns_per_sec: i64,
    /// Time of the last synchronization in microseconds.
    pub last_sync_ts: u64,
    pub sync_interval_us: u64,
    pub max_drift_observed: i64,
}

/// Validator of timestamps against a range and an age limit.
#[derive(Debug)]
pub struct TimestampValidator {
    pub min_valid_ts: i64,
    pub max_valid_ts: i64,
    pub stale_threshold_us: u64,
    pub rejected_count: u64,
}

impl Default for TimeWarpGuard {
    fn default() -> (r: Self)
        ensures
            r == (TimeWarpGuard {
                last_timestamp_ns: 0,
                reference_tsc: 0,
                accumulated_drift_ns: 0,
                anomaly_count: 0,
                circuit_breaker_tripped: false,
                trading_halted: false,
            }),
    {
        TimeWarpGuard {
            last_timestamp_ns: 0,
            reference_tsc: 0,
            accumulated_drift_ns: 0,
            anomaly_count: 0,
            circuit_breaker_tripped: false,
            trading_halted: false,
        }
    }
}

impl Default for ClockDriftMonitor {
    fn default() -> (r: Self)
        ensures
            r == (ClockDriftMonitor {
                offset_ns: 0,
                drift_rate_ns_per_sec: 0,
                last_sync_ts: 0,
                sync_interval_us: 1000,
                max_drift_observed: 0,
            }),
    {
        ClockDriftMonitor {
            offset_ns: 0,
            drift_rate_ns_per_sec: 0,
            last_sync_ts: 0,
            sync_interval_us: 1000,
            max_drift_observed: 0,
        }
    }
}

impl Default for TimestampValidator {
    fn default() -> (r: Self)
        ensures
            r == (TimestampValidator {
                min_valid_ts: 0,
                max_valid_ts: i64::MAX,
                stale_threshold_us: 10_000_000,
                rejected_count: 0,
            }),
    {
        TimestampValidator {
            min_valid_ts: 0,
            max_valid_ts: i64::MAX,
            stale_threshold_us: 10_000_000,
            rejected_count: 0,
        }
    }
}

/// Nanoseconds that `cycles` cycles stand for, at two cycles per nanosecond.
pub fn tsc_to_ns(cycles: u64) -> (r: i64)
    ensures
        r == cycles / 2,
{
    (cycles / 2) as i64
}

impl TimeWarpGuard {
    /// `timestamp_ns` lies further back than the threshold allows.
    pub open spec fn is_time_warp(&self, timestamp_ns: i64) -> bool {
        timestamp_ns - self.last_timestamp_ns < TIME_WARP_THRESHOLD_NS
    }

    /// Progress of the timestamps minus progress of the cycle counter.
    pub open spec fn drift(&self, timestamp_ns: i64, now_tsc: u64) -> int {
        timestamp_ns - self.last_timestamp_ns - (now_tsc.wrapping_sub(self.reference_tsc) / 2)
    }

    /// Consecutive anomalies after `timestamp_ns` was looked at.
    pub open spec fn next_anomalies(&self, timestamp_ns: i64) -> int {
        if self.is_time_warp(timestamp_ns) {
            self.anomaly_count + 1
        } else {
            0
        }
    }

    /// The guard accepts `timestamp_ns`.
    pub open spec fn accepts(&self, timestamp_ns: i64) -> bool {
        !self.circuit_breaker_tripped && !self.is_time_warp(timestamp_ns)
    }

    /// Guard after `timestamp_ns` was looked at.
    pub open spec fn observed(self, timestamp_ns: i64, now_tsc: u64) -> TimeWarpGuard {
        if self.circuit_breaker_tripped {
            self
        } else if self.next_anomalies(timestamp_ns) >= CIRCUIT_BREAKER_THRESHOLD {
            TimeWarpGuard {
                anomaly_count: self.next_anomalies(timestamp_ns) as u64,
                circuit_breaker_tripped: true,
                trading_halted: true,
                ..self
            }
        } else if self.is_time_warp(timestamp_ns) {
            TimeWarpGuard { anomaly_count: self.next_anomalies(timestamp_ns) as u64, ..self }
        } else {
            TimeWarpGuard {
                last_timestamp_ns: timestamp_ns,
                anomaly_count: 0,
                accumulated_drift_ns: (self.accumulated_drift_ns + self.drift(
                    timestamp_ns,
                    now_tsc,
                )) as i64,
                ..self
            }
        }
    }

    /// Start guarding at `initial_ts_ns`; `now_tsc` is the cycle counter.
    pub fn init(&mut self, initial_ts_ns: i64, now_tsc: u64)
        ensures
            *final(self) == (TimeWarpGuard {
                last_timestamp_ns: initial_ts_ns,
                reference_tsc: now_tsc,
                anomaly_count: 0,
                circuit_breaker_tripped: false,
                trading_halted: false,
                ..*old(self)
            }),
    {
        self.last_timestamp_ns = initial_ts_ns;
        self.reference_tsc = now_tsc;
        self.anomaly_count = 0;
        self.circuit_breaker_tripped = false;
        self.trading_halted = false;
    }

    /// Look at an incoming timestamp. True if it is valid; a time warp counts as an
    /// anomaly, and too many of them in a row trip the circuit breaker. A valid
    /// timestamp ends the row.
    pub fn validate_timestamp(&mut self, timestamp_ns: i64, now_tsc: u64) -> (r: bool)
        requires
            !old(self).circuit_breaker_tripped ==> {
                &&& fits_i64(timestamp_ns - old(self).last_timestamp_ns)
                &&& old(self).next_anomalies(timestamp_ns) <= u64::MAX
                &&& old(self).accepts(timestamp_ns) ==> {
                    &&& fits_i64(old(self).drift(timestamp_ns, now_tsc))
                    &&& fits_i64(
                        old(self).accumulated_drift_ns + old(self).drift(timestamp_ns, now_tsc),
                    )
                }
            },
        ensures
            r == old(self).accepts(timestamp_ns),
            *final(self) == old(self).observed(timestamp_ns, now_tsc),
            r ==> final(self).anomaly_count == 0,
    {
        if self.circuit_breaker_tripped {
            return false;
        }
        let delta: i64 = timestamp_ns - self.last_timestamp_ns;
        let is_time_warp = delta < TIME_WARP_THRESHOLD_NS;
        if is_time_warp {
            self.anomaly_count = self.anomaly_count + 1;
            if self.anomaly_count >= CIRCUIT_BREAKER_THRESHOLD {
                self.trip_circuit_breaker();
                return false;
            }
        }
        if !is_time_warp {
            self.anomaly_count = 0;
            self.last_timestamp_ns = timestamp_ns;
            let tsc_delta: u64 = now_tsc.wrapping_sub(self.reference_tsc);
            let expected_ns: i64 = tsc_to_ns(tsc_delta);
            let drift: i64 = delta - expected_ns;
            self.accumulated_drift_ns = self.accumulated_drift_ns + drift;
        }
        !is_time_warp
    }

    /// Trip the circuit breaker and halt trading.
    pub fn trip_circuit_breaker(&mut self)
        ensures
            *final(self) == (TimeWarpGuard {
                circuit_breaker_tripped: true,
                trading_halted: true,
                ..*old(self)
            }),
    {
        self.circuit_breaker_tripped = true;
        self.trading_halted = true;
    }

    /// Reset the circuit breaker, resume trading and forget the anomalies.
    pub fn reset_circuit_breaker(&mut self)
        ensures
            *final(self) == (TimeWarpGuard {
                circuit_breaker_tripped: false,
                trading_halted: false,
                anomaly_count: 0,
                ..*old(self)
            }),
    {
        self.circuit_breaker_tripped = false;
        self.trading_halted = false;
        self.anomaly_count = 0;
    }

    /// Trading is halted.
    pub fn is_trading_halted(&self) -> (r: bool)
        ensures
            r == self.trading_halted,
    {
        self.trading_halted
    }

    /// Accumulated drift.
    pub fn get_accumulated_drift_ns(&self) -> (r: i64)
        ensures
            r == self.accumulated_drift_ns,
    {
        self.accumulated_drift_ns
    }

    /// Number of anomalies since the last valid timestamp.
    pub fn get_anomaly_count(&self) -> (r: u64)
        ensures
            r == self.anomaly_count,
    {
        self.anomaly_count
    }

    /// Look at up to four timestamps without recording anything: bit `i` is
    /// set where timestamp `i` is no time warp. Four timestamps are compared
    /// in one wrapping vector operation.
    pub fn simd_validate_multiple<const N: usize>(&self, timestamps: &[i64; N]) -> (r: u32)
        requires
            N <= 4,
            N < 4 ==> forall|i: int|
                0 <= i < N ==> fits_i64(#[trigger] timestamps@[i] - self.last_timestamp_ns),
        ensures
            r == bit_mask(
                Seq::new(
                    N as nat,
                    |i: int|
                        timestamps@[i].wrapping_sub(self.last_timestamp_ns)
                            >= TIME_WARP_THRESHOLD_NS,
                ),
            ),
    {
        let mut flags = [false; N];
        let mut i: usize = 0;
        while i < N
            invariant
                i <= N,
                forall|j: int|
                    0 <= j < i ==> #[trigger] flags@[j] == (timestamps@[j].wrapping_sub(
                        self.last_timestamp_ns,
                    ) >= TIME_WARP_THRESHOLD_NS),
            decreases N - i,
        {
            flags[i] = timestamps[i].wrapping_sub(self.last_timestamp_ns)
                >= TIME_WARP_THRESHOLD_NS;
            i = i + 1;
        }
        assert(flags@ =~= Seq::new(
            N as nat,
            |i: int|
                timestamps@[i].wrapping_sub(self.last_timestamp_ns) >= TIME_WARP_THRESHOLD_NS,
        ));
        pack_flags(&flags)
    }

    /// Halt trading on an external trigger.
    pub fn force_halt(&mut self)
        ensures
            *final(self) == (TimeWarpGuard {
                circuit_breaker_tripped: true,
                trading_halted: true,
                ..*old(self)
            }),
    {
        self.trip_circuit_breaker();
    }
}

impl ClockDriftMonitor {
    /// Whole seconds since the last synchronization, zero at the first one.
    pub open spec fn elapsed_sec(&self, current_ts_us: u64) -> int {
        if self.last_sync_ts == 0 {
            0
        } else {
            tdiv((max(current_ts_us - self.last_sync_ts, 0) as u64 as i64) as int, 1_000_000)
        }
    }

    /// Synchronize with the reference clock. All times are in microseconds;
    /// the offset is kept in nanoseconds. Once at least a second has passed
    /// since the last synchronization, drift rate and largest drift are
    /// updated.
    pub fn sync(&mut self, reference_ts_us: i64, local_ts_us: i64, current_ts_us: u64)
        requires
            fits_i64(local_ts_us - reference_ts_us),
            fits_i64((local_ts_us - reference_ts_us) * 1000),
            old(self).elapsed_sec(current_ts_us) > 0 ==> (local_ts_us - reference_ts_us) * 1000
                > i64::MIN,
        ensures
            ({
                let offset = (local_ts_us - reference_ts_us) * 1000;
                let sec = old(self).elapsed_sec(current_ts_us);
                *final(self) == ClockDriftMonitor {
                    offset_ns: offset as i64,
                    drift_rate_ns_per_sec: if sec > 0 {
                        tdiv(offset, sec) as i64
                    } else {
                        old(self).drift_rate_ns_per_sec
                    },
                    max_drift_observed: if sec > 0 {
                        max(abs(offset), old(self).max_drift_observed as int) as i64
                    } else {
                        old(self).max_drift_observed
                    },
                    last_sync_ts: current_ts_us,
                    ..*old(self)
                }
            }),
    {
        let offset: i64 = (local_ts_us - reference_ts_us) * 1000;
        self.offset_ns = offset;
        let last_sync: u64 = self.last_sync_ts;
        if last_sync > 0 {
            let elapsed_us: u64 = if current_ts_us > last_sync {
                current_ts_us - last_sync
            } else {
                0
            };
            let elapsed_sec: i64 = div_i64(elapsed_us as i64, 1_000_000);
            if elapsed_sec > 0 {
                self.drift_rate_ns_per_sec = div_i64(offset, elapsed_sec);
                let abs_drift: i64 = abs_i64(offset);
                if abs_drift > self.max_drift_observed {
                    self.max_drift_observed = abs_drift;
                }
            }
        }
        self.last_sync_ts = current_ts_us;
    }

    /// Current offset from the reference.
    pub fn get_offset_ns(&self) -> (r: i64)
        ensures
            r == self.offset_ns,
    {
        self.offset_ns
    }

    /// Drift rate.
    pub fn get_drift_rate_ns_per_sec(&self) -> (r: i64)
        ensures
            r == self.drift_rate_ns_per_sec,
    {
        self.drift_rate_ns_per_sec
    }

    /// Offset that the drift rate predicts.
    pub fn predict_offset_ns(&self, seconds_ahead: i64) -> (r: i64)
        requires
            fits_i64(self.drift_rate_ns_per_sec * seconds_ahead),
            fits_i64(self.offset_ns + self.drift_rate_ns_per_sec * seconds_ahead),
        ensures
            r == self.offset_ns + self.drift_rate_ns_per_sec * seconds_ahead,
    {
        self.offset_ns + self.drift_rate_ns_per_sec * seconds_ahead
    }

    /// The offset exceeds `threshold_ns` either way.
    pub fn is_drift_excessive(&self, threshold_ns: i64) -> (r: bool)
        requires
            self.offset_ns > i64::MIN,
        ensures
            r == (abs(self.offset_ns as int) > threshold_ns),
    {
        abs_i64(self.offset_ns) > threshold_ns
    }

    /// Largest drift observed.
    pub fn get_max_drift_observed(&self) -> (r: i64)
        ensures
            r == self.max_drift_observed,
    {
        self.max_drift_observed
    }

    /// Set the synchronization interval.
    pub fn set_sync_interval_us(&mut self, interval_us: u64)
        ensures
            *final(self) == (ClockDriftMonitor { sync_interval_us: interval_us, ..*old(self) }),
    {
        self.sync_interval_us = interval_us;
    }

    /// The synchronization interval has passed.
    pub fn is_sync_due(&self, current_ts_us: u64) -> (r: bool)
        ensures
            r == (max(current_ts_us - self.last_sync_ts, 0) >= self.sync_interval_us),
    {
        let elapsed: u64 = if current_ts_us > self.last_sync_ts {
            current_ts_us - self.last_sync_ts
        } else {
            0
        };
        elapsed >= self.sync_interval_us
    }
}

impl TimestampValidator {
    /// Age of a timestamp in whole microseconds; a timestamp in the future
    /// has an age beyond any threshold below 2^63.
    pub open spec fn age_us(timestamp_ns: i64, current_time_ns: i64) -> u64 {
        (tdiv(current_time_ns - timestamp_ns, 1000) as i64) as u64
    }

    /// The timestamp lies in the valid range and is not stale.
    pub open spec fn accepts(&self, timestamp_ns: i64, current_time_ns: i64) -> bool {
        &&& self.min_valid_ts <= timestamp_ns <= self.max_valid_ts
        &&& Self::age_us(timestamp_ns, current_time_ns) < self.stale_threshold_us
    }

    /// Set the valid range.
    pub fn set_valid_range(&mut self, min_ts: i64, max_ts: i64)
        ensures
            *final(self) == (TimestampValidator {
                min_valid_ts: min_ts,
                max_valid_ts: max_ts,
                ..*old(self)
            }),
    {
        self.min_valid_ts = min_ts;
        self.max_valid_ts = max_ts;
    }

    /// Validate a timestamp and count it if it is rejected.
    pub fn validate(&mut self, timestamp_ns: i64, current_time_ns: i64) -> (r: bool)
        requires
            fits_i64(current_time_ns - timestamp_ns),
        ensures
            r == old(self).accepts(timestamp_ns, current_time_ns),
            *final(self) == if r {
                *old(self)
            } else {
                TimestampValidator {
                    rejected_count: old(self).rejected_count.wrapping_add(1),
                    ..*old(self)
                }
            },
    {
        let in_range = timestamp_ns >= self.min_valid_ts && timestamp_ns <= self.max_valid_ts;
        let age_ns: i64 = current_time_ns - timestamp_ns;
        let age_us: i64 = div_i64(age_ns, 1000);
        let not_stale = (age_us as u64) < self.stale_threshold_us;
        let is_valid = in_range && not_stale;
        if !is_valid {
            self.rejected_count = self.rejected_count.wrapping_add(1);
        }
        is_valid
    }

    /// Raise the minimum valid timestamp; it never falls.
    pub fn slide_min_window(&mut self, new_min: i64)
        ensures
            *final(self) == (TimestampValidator {
                min_valid_ts: max(new_min as int, old(self).min_valid_ts as int) as i64,
                ..*old(self)
            }),
    {
        if new_min > self.min_valid_ts {
            self.min_valid_ts = new_min;
        }
    }

    /// Number of rejected timestamps.
    pub fn get_rejected_count(&self) -> (r: u64)
        ensures
            r == self.rejected_count,
    {
        self.rejected_count
    }

    /// Set the stale threshold.
    pub fn set_stale_threshold_us(&mut self, threshold_us: u64)
        ensures
            *final(self) == (TimestampValidator { stale_threshold_us: threshold_us, ..*old(self) }),
    {
        self.stale_threshold_us = threshold_us;
    }

    /// The timestamp is stale.
    pub fn is_stale(&self, timestamp_ns: i64, current_time_ns: i64) -> (r: bool)
        requires
            fits_i64(current_time_ns - timestamp_ns),
        ensures
            r == (Self::age_us(timestamp_ns, current_time_ns) >= self.stale_threshold_us),
    {
        let age_ns: i64 = current_time_ns - timestamp_ns;
        let age_us: i64 = div_i64(age_ns, 1000);
        (age_us as u64) >= self.stale_threshold_us
    }
}

/// A tripped circuit breaker stays tripped whatever timestamps come, and
/// accepts none of them.
pub proof fn lemma_breaker_latches(g: TimeWarpGuard, timestamp_ns: i64, now_tsc: u64)
    requires
        g.circuit_breaker_tripped,
    ensures
        !g.accepts(timestamp_ns),
        g.observed(timestamp_ns, now_tsc) == g,
{
}

/// Three time warps in a row trip the circuit breaker of a fresh guard.
pub proof fn lemma_three_warps_trip(
    g: TimeWarpGuard,
    a: i64,
    b: i64,
    c: i64,
    ta: u64,
    tb: u64,
    tc: u64,
)
    requires
        !g.circuit_breaker_tripped,
        g.anomaly_count == 0,
        g.is_time_warp(a),
        g.is_time_warp(b),
        g.is_time_warp(c),
    ensures
        g.observed(a, ta).observed(b, tb).observed(c, tc).circuit_breaker_tripped,
        g.observed(a, ta).observed(b, tb).observed(c, tc).trading_halted,
        !g.observed(a, ta).observed(b, tb).circuit_breaker_tripped,
{
}

/// Only anomalies in a row trip the circuit breaker: two of them, a valid timestamp
/// and one more do not.
pub proof fn lemma_valid_ends_the_row(
    g: TimeWarpGuard,
    a: i64,
    b: i64,
    valid: i64,
    c: i64,
    ta: u64,
    tb: u64,
    tv: u64,
    tc: u64,
)
    requires
        !g.circuit_breaker_tripped,
        g.anomaly_count == 0,
        g.is_time_warp(a),
        g.is_time_warp(b),
        !g.is_time_warp(valid),
    ensures
        ({
            let h = g.observed(a, ta).observed(b, tb).observed(valid, tv);
            &&& h.anomaly_count == 0
            &&& !h.observed(c, tc).circuit_breaker_tripped
            &&& h.observed(c, tc).trading_halted == g.trading_halted
        }),
{
}

/// The last valid timestamp moves back by no more than the threshold.
pub proof fn lemma_last_timestamp_bounded(g: TimeWarpGuard, timestamp_ns: i64, now_tsc: u64)
    ensures
        g.observed(timestamp_ns, now_tsc).last_timestamp_ns - g.last_timestamp_ns
            >= TIME_WARP_THRESHOLD_NS,
{
}

/// A timestamp is a time warp exactly where it lies more than a millisecond before the
/// last one that was accepted.
pub proof fn lemma_warp_is_a_millisecond_back(g: TimeWarpGuard, timestamp_ns: i64)
    ensures
        g.is_time_warp(timestamp_ns) <==> timestamp_ns < g.last_timestamp_ns - 1_000_000,
        !g.circuit_breaker_tripped ==> g.accepts(timestamp_ns) == (timestamp_ns
            >= g.last_timestamp_ns - 1_000_000),
{
}

/// What an observation does to a guard whose breaker is not tripped: a warp is counted and
/// leaves the clock, and the third one in a row halts trading; any other timestamp becomes
/// the last one, ends the row, and adds to the drift what it lies ahead of the cycles that
/// went by since the reference, at two cycles to the nanosecond.
pub proof fn lemma_observation(g: TimeWarpGuard, timestamp_ns: i64, now_tsc: u64)
    requires
        !g.circuit_breaker_tripped,
        g.anomaly_count < 3,
        now_tsc >= g.reference_tsc,
        fits_i64(g.accumulated_drift_ns + g.drift(timestamp_ns, now_tsc)),
    ensures
        ({
            let after = g.observed(timestamp_ns, now_tsc);
            let warp = timestamp_ns < g.last_timestamp_ns - 1_000_000;
            &&& warp ==> after.anomaly_count == g.anomaly_count + 1 && after.last_timestamp_ns
                == g.last_timestamp_ns && after.accumulated_drift_ns == g.accumulated_drift_ns
            &&& after.circuit_breaker_tripped <==> warp && g.anomaly_count == 2
            &&& warp && g.anomaly_count == 2 ==> after.trading_halted
            &&& !warp ==> after.last_timestamp_ns == timestamp_ns && after.anomaly_count == 0
                && after.accumulated_drift_ns == g.accumulated_drift_ns + (timestamp_ns
                - g.last_timestamp_ns) - (now_tsc - g.reference_tsc) / 2
        }),
{
}

/// The age of a timestamp in microseconds, and when it is accepted: within the valid
/// range, and younger than the threshold.
pub proof fn lemma_accepted_when_young(v: TimestampValidator, timestamp_ns: i64, current_time_ns: i64)
    requires
        current_time_ns >= timestamp_ns,
        fits_i64(current_time_ns - timestamp_ns),
    ensures
        ({
            let age = TimestampValidator::age_us(timestamp_ns, current_time_ns);
            &&& age * 1000 <= current_time_ns - timestamp_ns < (age + 1) * 1000
            &&& v.accepts(timestamp_ns, current_time_ns) <==> v.min_valid_ts <= timestamp_ns
                && timestamp_ns <= v.max_valid_ts && age < v.stale_threshold_us
        }),
{
    lemma_tdiv_rounds(current_time_ns - timestamp_ns, 1000);
}

/// Whole seconds since the last synchronisation; none before the first one.
pub proof fn lemma_seconds_since_sync(m: ClockDriftMonitor, current_ts_us: u64)
    requires
        m.last_sync_ts <= current_ts_us <= i64::MAX,
    ensures
        m.last_sync_ts == 0 ==> m.elapsed_sec(current_ts_us) == 0,
        m.last_sync_ts > 0 ==> {
            let s = m.elapsed_sec(current_ts_us);
            s * 1_000_000 <= current_ts_us - m.last_sync_ts < (s + 1) * 1_000_000
        },
{
    lemma_tdiv_rounds(current_ts_us - m.last_sync_ts, 1_000_000);
}

} // verus!
