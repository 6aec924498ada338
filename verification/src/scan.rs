//! Fixed-step scans of a curve over a closed interval: the sample points,
//! the sums taken over them, and what each defuzzification strategy yields.

use crate::fixed::{floor_ratio, larger, DOMAIN_LIMIT};
use vstd::arithmetic::div_mod::lemma_fundamental_div_mod;
use vstd::prelude::*;

verus! {

/// A membership curve as a mathematical function of the domain point.
pub type Curve = spec_fn(int) -> int;

/// The domains that a scan accepts: empty ones, and those with a positive
/// step whose bounds stay within `DOMAIN_LIMIT`.
pub open spec fn scannable(min: int, max: int, step: int) -> bool {
    min > max || (step > 0 && -DOMAIN_LIMIT <= min && max <= DOMAIN_LIMIT)
}

/// How many points a scan of `[min, max]` in increments of `step` visits.
pub open spec fn sample_count(min: int, max: int, step: int) -> nat {
    if min > max || step <= 0 {
        0
    } else {
        ((max - min) / step + 1) as nat
    }
}

/// The `k`-th point of a scan that starts at `min`.
pub open spec fn sample_point(min: int, step: int, k: int) -> int {
    min + k * step
}

/// The sum of the curve over the first `n` sample points.
pub open spec fn mass(curve: Curve, min: int, step: int, n: nat) -> int
    decreases n,
{
    if n == 0 {
        0
    } else {
        mass(curve, min, step, (n - 1) as nat) + curve(sample_point(min, step, n - 1))
    }
}

/// The sum of point times degree over the first `n` sample points.
pub open spec fn moment(curve: Curve, min: int, step: int, n: nat) -> int
    decreases n,
{
    if n == 0 {
        0
    } else {
        moment(curve, min, step, (n - 1) as nat) + sample_point(min, step, n - 1) * curve(
            sample_point(min, step, n - 1),
        )
    }
}

/// The centre of gravity of the curve over the scan, rounded down; zero
/// where the curve has no mass.
pub open spec fn centroid_value(curve: Curve, min: int, max: int, step: int) -> int {
    let n = sample_count(min, max, step);
    if mass(curve, min, step, n) == 0 {
        0
    } else {
        floor_ratio(moment(curve, min, step, n), mass(curve, min, step, n))
    }
}

/// The largest degree among the first `n` sample points, and at least zero.
pub open spec fn peak(curve: Curve, min: int, step: int, n: nat) -> int
    decreases n,
{
    if n == 0 {
        0
    } else {
        larger(peak(curve, min, step, (n - 1) as nat), curve(sample_point(min, step, n - 1)))
    }
}

/// The sum of those of the first `n` sample points whose degree is `level`.
pub open spec fn tied_sum(curve: Curve, min: int, step: int, n: nat, level: int) -> int
    decreases n,
{
    if n == 0 {
        0
    } else if curve(sample_point(min, step, n - 1)) == level {
        tied_sum(curve, min, step, (n - 1) as nat, level) + sample_point(min, step, n - 1)
    } else {
        tied_sum(curve, min, step, (n - 1) as nat, level)
    }
}

/// The number of those of the first `n` sample points whose degree is `level`.
pub open spec fn tied_count(curve: Curve, min: int, step: int, n: nat, level: int) -> nat
    decreases n,
{
    if n == 0 {
        0
    } else if curve(sample_point(min, step, n - 1)) == level {
        tied_count(curve, min, step, (n - 1) as nat, level) + 1
    } else {
        tied_count(curve, min, step, (n - 1) as nat, level)
    }
}

/// The mean, rounded down, of the sample points at which the curve attains
/// its peak; zero where no sample point does.
pub open spec fn mean_of_maximum_value(curve: Curve, min: int, max: int, step: int) -> int {
    let n = sample_count(min, max, step);
    let top = peak(curve, min, step, n);
    if tied_count(curve, min, step, n, top) == 0 {
        0
    } else {
        floor_ratio(tied_sum(curve, min, step, n, top), tied_count(curve, min, step, n, top) as int)
    }
}

/// The area under the first `n` sample points, each a bar of width `step`.
pub open spec fn area(curve: Curve, min: int, step: int, n: nat) -> int
    decreases n,
{
    if n == 0 {
        0
    } else {
        area(curve, min, step, (n - 1) as nat) + curve(sample_point(min, step, n - 1)) * step
    }
}

/// Whether the bars up to and including the `k`-th hold at least half of `total`.
pub open spec fn reaches_half(curve: Curve, min: int, step: int, total: int, k: int) -> bool {
    2 * area(curve, min, step, (k + 1) as nat) >= total
}

/// The first index from `k` on, below `n`, at which half of `total` is
/// reached; `n` where there is none.
pub open spec fn first_half_index(
    curve: Curve,
    min: int,
    step: int,
    total: int,
    n: nat,
    k: nat,
) -> nat
    decreases n - k,
{
    if k >= n {
        n
    } else if reaches_half(curve, min, step, total, k as int) {
        k
    } else {
        first_half_index(curve, min, step, total, n, k + 1)
    }
}

/// The first sample point at which the area to its left, its own bar
/// included, reaches half of the whole area; `min` where no point does.
pub open spec fn bisector_value(curve: Curve, min: int, max: int, step: int) -> int {
    let n = sample_count(min, max, step);
    let total = area(curve, min, step, n);
    let k = first_half_index(curve, min, step, total, n, 0);
    if k < n {
        sample_point(min, step, k as int)
    } else {
        min
    }
}

/// A point of the scan that does not exceed `max` has an index below the
/// sample count.
pub proof fn lemma_sample_inside(min: int, max: int, step: int, k: int)
    requires
        step > 0,
        k >= 0,
        sample_point(min, step, k) <= max,
    ensures
        k < sample_count(min, max, step),
        min <= max,
{
    assert(k * step >= 0) by (nonlinear_arith)
        requires
            k >= 0,
            step > 0,
    ;
    let q = (max - min) / step;
    lemma_fundamental_div_mod(max - min, step);
    assert(k <= q) by (nonlinear_arith)
        requires
            k * step <= max - min,
            max - min == step * q + (max - min) % step,
            0 <= (max - min) % step < step,
            step > 0,
    ;
}

/// A point of the scan beyond `max` has an index that is not below the
/// sample count.
pub proof fn lemma_sample_outside(min: int, max: int, step: int, k: int)
    requires
        step > 0,
        k >= 0,
        sample_point(min, step, k) > max,
    ensures
        k >= sample_count(min, max, step),
{
    if min <= max {
        let q = (max - min) / step;
        lemma_fundamental_div_mod(max - min, step);
        assert(k > q) by (nonlinear_arith)
            requires
                k * step > max - min,
                max - min == step * q + (max - min) % step,
                0 <= (max - min) % step < step,
                step > 0,
        ;
    }
}

/// Every sample point lies within `[min, max]`.
pub proof fn lemma_sample_within(min: int, max: int, step: int, k: int)
    requires
        step > 0,
        0 <= k < sample_count(min, max, step),
    ensures
        min <= sample_point(min, step, k) <= max,
{
    let q = (max - min) / step;
    lemma_fundamental_div_mod(max - min, step);
    assert(0 <= k * step <= max - min) by (nonlinear_arith)
        requires
            0 <= k <= q,
            max - min == step * q + (max - min) % step,
            0 <= (max - min) % step < step,
            step > 0,
    ;
}

/// A scan with a positive step visits no more points than the interval has
/// integers.
pub proof fn lemma_sample_count_bound(min: int, max: int, step: int)
    requires
        step > 0,
        min <= max,
    ensures
        1 <= sample_count(min, max, step) <= max - min + 1,
{
    let q = (max - min) / step;
    lemma_fundamental_div_mod(max - min, step);
    assert(0 <= q <= max - min) by (nonlinear_arith)
        requires
            max - min == step * q + (max - min) % step,
            0 <= (max - min) % step < step,
            step > 0,
            max - min >= 0,
    ;
}

/// Advancing by one step leads from the `k`-th sample point to the next.
pub proof fn lemma_sample_next(min: int, step: int, k: int)
    ensures
        sample_point(min, step, k + 1) == sample_point(min, step, k) + step,
{
    assert((k + 1) * step == k * step + step) by (nonlinear_arith);
}

/// The peak is never below an earlier peak, nor below zero.
pub proof fn lemma_peak_grows(curve: Curve, min: int, step: int, n: nat)
    ensures
        peak(curve, min, step, n) >= 0,
        n > 0 ==> peak(curve, min, step, n) >= peak(curve, min, step, (n - 1) as nat),
        n > 0 ==> peak(curve, min, step, n) >= curve(sample_point(min, step, n - 1)),
    decreases n,
{
    if n > 0 {
        lemma_peak_grows(curve, min, step, (n - 1) as nat);
    }
}

/// No sample point reaches a level above the peak.
pub proof fn lemma_no_ties_above_peak(curve: Curve, min: int, step: int, n: nat, level: int)
    requires
        level > peak(curve, min, step, n),
    ensures
        tied_sum(curve, min, step, n, level) == 0,
        tied_count(curve, min, step, n, level) == 0,
    decreases n,
{
    if n > 0 {
        lemma_peak_grows(curve, min, step, n);
        lemma_no_ties_above_peak(curve, min, step, (n - 1) as nat, level);
    }
}

} // verus!
