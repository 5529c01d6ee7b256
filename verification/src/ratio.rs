//! Exact utilization ratios.
//!
//! The utilization of a load is `busy / (busy + idle)`, a value in the unit
//! interval, and zero when no busy ticks were spent. It is kept as an exact
//! rational — numerator and denominator — rather than rounded, so every
//! statement about it is exact; the renderer scales it to whatever discrete
//! range it needs.

use vstd::arithmetic::div_mod::{lemma_div_is_ordered, lemma_div_multiples_vanish};
use vstd::arithmetic::mul::lemma_mul_inequality;
use vstd::prelude::*;

use crate::cpuinfo::CPULoad;

verus! {

/// An exact ratio `num / den`, always in the unit interval when well formed.
#[derive(Clone, Copy, Debug, PartialEq, Eq, Structural)]
pub struct Ratio {
    /// Numerator: the busy ticks of the interval.
    pub num: u64,
    /// Denominator: all ticks of the interval; wide enough to hold the sum
    /// of two tick counters.
    pub den: u128,
}

impl Ratio {
    /// A ratio is well formed when its denominator is positive and it does
    /// not exceed one; every well-formed ratio lies in `[0, 1]`.
    pub open spec fn wf(self) -> bool {
        1 <= self.den && self.num as int <= self.den as int
    }

    /// The utilization ratio of a load: zero when no busy ticks were spent,
    /// busy over total ticks otherwise.
    pub open spec fn of_load(load: CPULoad) -> Ratio {
        if load.busy == 0 {
            Ratio { num: 0, den: 1 }
        } else {
            Ratio { num: load.busy, den: (load.busy + load.idle) as u128 }
        }
    }

    /// The zero ratio.
    pub fn zero() -> (r: Ratio)
        ensures
            r == (Ratio { num: 0u64, den: 1u128 }),
            r.wf(),
    {
        Ratio { num: 0, den: 1 }
    }

    /// `floor(self * max)`.
    pub open spec fn spec_scaled(self, max: int) -> int {
        (self.num * max) / (self.den as int)
    }

    /// Scale the ratio to a discrete height: `floor(self * max)`. The result
    /// never exceeds `max`, since a well-formed ratio is at most one.
    pub fn scaled(&self, max: usize) -> (r: usize)
        requires
            self.wf(),
        ensures
            r == self.spec_scaled(max as int),
            r <= max,
    {
        proof {
            lemma_mul_inequality(self.num as int, u64::MAX as int, max as int);
            lemma_mul_inequality(max as int, u64::MAX as int, u64::MAX as int);
            assert((self.num as int) * (max as int) <= u128::MAX as int);
        }
        let wide = (self.num as u128) * (max as u128);
        let q = wide / self.den;
        proof {
            lemma_mul_inequality(self.num as int, self.den as int, max as int);
            lemma_div_is_ordered(
                (self.num as int) * (max as int),
                (self.den as int) * (max as int),
                self.den as int,
            );
            lemma_div_multiples_vanish(max as int, self.den as int);
        }
        q as usize
    }
}

/// The utilization ratio of a load. Whatever the inputs — including a load
/// with no ticks at all — the result is a well-formed ratio, so it always
/// lies in the unit interval.
pub fn calc_cpu_load_percentage(load: &CPULoad) -> (r: Ratio)
    ensures
        r == Ratio::of_load(*load),
        r.wf(),
{
    if load.busy == 0 {
        Ratio { num: 0, den: 1 }
    } else {
        let den = (load.busy as u128) + (load.idle as u128);
        Ratio { num: load.busy, den }
    }
}

} // verus!
