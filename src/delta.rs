//! Rates and shares from two samples of cumulative counters.
//!
//! Quantities are kept exact, as a numerator over a positive denominator; a
//! share is a fraction of one (a hundredth of it is one percent), and a byte
//! rate is in bytes per millisecond.

use vstd::prelude::*;

verus! {

/// The exact quantity `num / den`.
#[derive(Debug, Clone, Copy, PartialEq, Eq, Structural)]
pub struct Ratio {
    pub num: u64,
    pub den: u64,
}

impl Ratio {
    pub open spec fn wf(self) -> bool {
        self.den > 0
    }

    pub fn zero() -> (r: Ratio)
        ensures
            r == (Ratio { num: 0, den: 1 }),
    {
        Ratio { num: 0, den: 1 }
    }
}

/// `a - b`, or zero where `b` is the larger.
pub open spec fn sat_sub(a: u64, b: u64) -> u64 {
    if a >= b {
        (a - b) as u64
    } else {
        0
    }
}

/// The share of jiffies spent busy between two `(idle, total)` samples: the
/// busy jiffies over all elapsed jiffies, each difference held at zero; zero
/// where no jiffies elapsed.
pub open spec fn cpu_share(prev: (u64, u64), next: (u64, u64)) -> Ratio {
    let idle = sat_sub(next.0, prev.0);
    let total = sat_sub(next.1, prev.1);
    if total == 0 {
        Ratio { num: 0, den: 1 }
    } else {
        Ratio { num: sat_sub(total, idle), den: total }
    }
}

/// Bytes per millisecond between two readings of a byte counter taken
/// `elapsed_ms` apart: the growth of the counter (zero where it went back)
/// over the time, counted as one millisecond where none passed.
pub open spec fn byte_rate_of(prev: u64, next: u64, elapsed_ms: u64) -> Ratio {
    Ratio {
        num: sat_sub(next, prev),
        den: if elapsed_ms == 0 {
            1
        } else {
            elapsed_ms
        },
    }
}

/// The busy share of the CPU between two `(idle, total)` samples.
pub fn cpu_percent(prev: (u64, u64), next: (u64, u64)) -> (r: Ratio)
    ensures
        r == cpu_share(prev, next),
        r.wf(),
        r.num <= r.den,
{
    let idle_delta = next.0.saturating_sub(prev.0);
    let total_delta = next.1.saturating_sub(prev.1);
    if total_delta == 0 {
        return Ratio::zero();
    }
    Ratio { num: total_delta.saturating_sub(idle_delta), den: total_delta }
}

/// The rate of a byte counter between two readings.
pub fn byte_rate(prev: u64, next: u64, elapsed_ms: u64) -> (r: Ratio)
    ensures
        r == byte_rate_of(prev, next, elapsed_ms),
        r.wf(),
{
    let den = if elapsed_ms == 0 {
        1
    } else {
        elapsed_ms
    };
    Ratio { num: next.saturating_sub(prev), den }
}

/// A byte counter that went back between two readings gives a rate of exactly zero.
pub proof fn lemma_counter_regression_rate_is_zero(prev: u64, next: u64, elapsed_ms: u64)
    requires
        next < prev,
    ensures
        byte_rate_of(prev, next, elapsed_ms).num == 0,
        byte_rate_of(prev, next, elapsed_ms).wf(),
{
}

/// A total jiffy counter that went back between two samples gives a busy
/// share of exactly zero, whatever the idle counter did.
pub proof fn lemma_cpu_regression_share_is_zero(prev: (u64, u64), next: (u64, u64))
    requires
        next.1 < prev.1,
    ensures
        cpu_share(prev, next).num == 0,
        cpu_share(prev, next).wf(),
{
}

} // verus!
