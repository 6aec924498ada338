//! Laws of the set operators, of aggregation and of the defuzzifiers.

use crate::aggregate::{
    aggregate_category, category_of_score, matched, total_weight, weighted_score,
};
use crate::fixed::{
    floor_ratio, larger, lemma_floor_ratio_brackets, lemma_floor_ratio_threshold,
    lemma_floor_ratio_unique, lemma_mean_within, smaller, ONE,
};
use crate::membership::Membership;
use crate::rule::{Consequence, FuzzyRule};
use crate::scan::{
    area, bisector_value, centroid_value, first_half_index, lemma_sample_count_bound,
    lemma_sample_within, mass, mean_of_maximum_value, moment, peak, reaches_half, sample_count,
    sample_point, tied_count, tied_sum, Curve,
};
use vstd::prelude::*;

verus! {

/// Complementing twice restores every degree exactly.
pub proof fn lemma_double_complement(m: Membership, x: int)
    ensures
        m.complemented().complemented().degree(x) == m.degree(x),
{
    reveal_with_fuel(Membership::degree, 3);
}

/// The union does not depend on the order of its operands.
pub proof fn lemma_union_commutes(a: Membership, b: Membership, x: int)
    ensures
        a.union_with(b).degree(x) == b.union_with(a).degree(x),
{
}

/// The intersection does not depend on the order of its operands.
pub proof fn lemma_intersection_commutes(a: Membership, b: Membership, x: int)
    ensures
        a.intersection_with(b).degree(x) == b.intersection_with(a).degree(x),
{
}

/// The union's degree is exactly the larger of the operands' degrees.
pub proof fn lemma_union_is_maximum(a: Membership, b: Membership, x: int)
    ensures
        a.union_with(b).degree(x) == larger(a.degree(x), b.degree(x)),
        a.union_with(b).degree(x) >= a.degree(x),
        a.union_with(b).degree(x) >= b.degree(x),
{
}

/// The intersection's degree is exactly the smaller of the operands'
/// degrees.
pub proof fn lemma_intersection_is_minimum(a: Membership, b: Membership, x: int)
    ensures
        a.intersection_with(b).degree(x) == smaller(a.degree(x), b.degree(x)),
        a.intersection_with(b).degree(x) <= a.degree(x),
        a.intersection_with(b).degree(x) <= b.degree(x),
{
}

/// Where neither operand is negative at `x`, the intersection is not
/// negative there either.
pub proof fn lemma_intersection_not_negative(a: Membership, b: Membership, x: int)
    requires
        a.degree(x) >= 0,
        b.degree(x) >= 0,
    ensures
        0 <= a.intersection_with(b).degree(x) <= smaller(a.degree(x), b.degree(x)),
{
}

/// Normalizing divides the degree by the larger of `ONE` and the degree:
/// degrees up to `ONE` stay as they are, larger ones become `ONE`.
pub proof fn lemma_normalize_is_quotient(m: Membership, x: int)
    ensures
        m.normalized().degree(x) == floor_ratio(
            m.degree(x) * ONE,
            larger(ONE as int, m.degree(x)),
        ),
        m.degree(x) <= ONE ==> m.normalized().degree(x) == m.degree(x),
        m.degree(x) > ONE ==> m.normalized().degree(x) == ONE,
{
    let mu = m.degree(x);
    let d = larger(ONE as int, mu);
    let q = smaller(mu, ONE as int);
    assert(q * d == mu * ONE) by (nonlinear_arith)
        requires
            d == if mu >= ONE {
                mu
            } else {
                ONE as int
            },
            q == if mu <= ONE {
                mu
            } else {
                ONE as int
            },
    ;
    lemma_floor_ratio_unique(mu * ONE, d, q);
}

/// The category of the rounded average is that of the exact average: a
/// score `weighted / total` reaches a threshold exactly when it does so
/// before rounding.
pub proof fn lemma_category_is_exact(weighted: int, total: int)
    requires
        total > 0,
    ensures
        category_of_score(floor_ratio(weighted, total)) == (if 2 * weighted >= 5 * ONE * total {
            "Urgent"@
        } else if 2 * weighted >= 3 * ONE * total {
            "High Priority"@
        } else if 2 * weighted >= ONE * total {
            "Medium Priority"@
        } else {
            "Low Priority"@
        }),
{
    lemma_floor_ratio_threshold(weighted, total, 2_500_000);
    lemma_floor_ratio_threshold(weighted, total, 1_500_000);
    lemma_floor_ratio_threshold(weighted, total, 500_000);
    assert(5 * ONE * total == 2 * (2_500_000 * total) && 3 * ONE * total == 2 * (1_500_000
        * total) && ONE * total == 2 * (500_000 * total)) by (nonlinear_arith)
        requires
            ONE == 1_000_000,
    ;
}

/// The weights and the weighted scores of two runs of results add up.
pub proof fn lemma_sums_are_additive(
    first: Seq<(Consequence, i64)>,
    second: Seq<(Consequence, i64)>,
)
    ensures
        total_weight(first + second) == total_weight(first) + total_weight(second),
        weighted_score(first + second) == weighted_score(first) + weighted_score(second),
    decreases second.len(),
{
    if second.len() == 0 {
        assert(first + second == first);
    } else {
        assert((first + second).drop_last() == first + second.drop_last());
        assert((first + second).last() == second.last());
        lemma_sums_are_additive(first, second.drop_last());
    }
}

/// The order of the matched rules does not affect the category: moving a
/// run of results from the front to the back changes nothing.
pub proof fn lemma_category_ignores_order(
    first: Seq<(Consequence, i64)>,
    second: Seq<(Consequence, i64)>,
)
    ensures
        aggregate_category(first + second) == aggregate_category(second + first),
{
    lemma_sums_are_additive(first, second);
    lemma_sums_are_additive(second, first);
}

/// What two runs of rules match is what the first matches followed by what
/// the second matches.
pub proof fn lemma_matched_is_additive(
    first: Seq<FuzzyRule>,
    second: Seq<FuzzyRule>,
    inputs: Map<Seq<char>, i64>,
)
    ensures
        matched(first + second, inputs) == matched(first, inputs) + matched(second, inputs),
    decreases second.len(),
{
    if second.len() == 0 {
        assert(first + second == first);
        assert(matched(first, inputs) + matched(second, inputs) == matched(first, inputs));
    } else {
        assert((first + second).drop_last() == first + second.drop_last());
        assert((first + second).last() == second.last());
        lemma_matched_is_additive(first, second.drop_last(), inputs);
        if second.last().condition.holds(inputs) {
            let entry = (second.last().consequence, second.last().weight);
            assert((matched(first, inputs) + matched(second.drop_last(), inputs)).push(entry)
                == matched(first, inputs) + matched(second.drop_last(), inputs).push(entry));
        }
    }
}

/// The order of the rules does not affect the decision: moving a run of
/// rules from the front to the back leaves the category as it was.
pub proof fn lemma_decision_ignores_rule_order(
    first: Seq<FuzzyRule>,
    second: Seq<FuzzyRule>,
    inputs: Map<Seq<char>, i64>,
)
    ensures
        aggregate_category(matched(first + second, inputs)) == aggregate_category(
            matched(second + first, inputs),
        ),
{
    lemma_matched_is_additive(first, second, inputs);
    lemma_matched_is_additive(second, first, inputs);
    lemma_category_ignores_order(matched(first, inputs), matched(second, inputs));
}

/// The index that the bisector stops at is the first at which half of the
/// area is reached, and past the last sample only where none reaches it.
pub proof fn lemma_first_half_index(
    curve: Curve,
    min: int,
    step: int,
    total: int,
    n: nat,
    k: nat,
)
    requires
        k <= n,
    ensures
        k <= first_half_index(curve, min, step, total, n, k) <= n,
        first_half_index(curve, min, step, total, n, k) < n ==> reaches_half(
            curve,
            min,
            step,
            total,
            first_half_index(curve, min, step, total, n, k) as int,
        ),
        forall|j: int|
            k <= j < first_half_index(curve, min, step, total, n, k) ==> !reaches_half(
                curve,
                min,
                step,
                total,
                j,
            ),
    decreases n - k,
{
    if k < n && !reaches_half(curve, min, step, total, k as int) {
        lemma_first_half_index(curve, min, step, total, n, k + 1);
    }
}

/// The area under a curve that is nowhere negative on the samples is not
/// negative and does not shrink as bars are added.
pub proof fn lemma_area_grows(curve: Curve, min: int, step: int, n: nat)
    requires
        step > 0,
        forall|j: int| 0 <= j < n ==> curve(#[trigger] sample_point(min, step, j)) >= 0,
    ensures
        area(curve, min, step, n) >= 0,
        n > 0 ==> area(curve, min, step, n) >= area(curve, min, step, (n - 1) as nat),
    decreases n,
{
    if n > 0 {
        lemma_area_grows(curve, min, step, (n - 1) as nat);
        let mu = curve(sample_point(min, step, n - 1));
        assert(mu * step >= 0) by (nonlinear_arith)
            requires
                mu >= 0,
                step > 0,
        ;
    }
}

/// Over a domain that is not empty, the bisector of a curve that is nowhere
/// negative on the samples is a sample point of the domain: the first at
/// which the area to the left, its own bar included, is at least half of the
/// whole area.
pub proof fn lemma_bisector_splits_area(curve: Curve, min: int, max: int, step: int)
    requires
        step > 0,
        min <= max,
        forall|j: int|
            0 <= j < sample_count(min, max, step) ==> curve(
                #[trigger] sample_point(min, step, j),
            ) >= 0,
    ensures
        min <= bisector_value(curve, min, max, step) <= max,
        exists|k: int|
            0 <= k < sample_count(min, max, step) && bisector_value(curve, min, max, step)
                == sample_point(min, step, k) && 2 * area(curve, min, step, (k + 1) as nat)
                >= area(curve, min, step, sample_count(min, max, step)) && 2 * area(
                curve,
                min,
                step,
                k as nat,
            ) <= area(curve, min, step, sample_count(min, max, step)),
{
    let n = sample_count(min, max, step);
    let total = area(curve, min, step, n);
    let k = first_half_index(curve, min, step, total, n, 0);
    lemma_sample_count_bound(min, max, step);
    lemma_first_half_index(curve, min, step, total, n, 0);
    lemma_area_grows(curve, min, step, n);
    if k >= n {
        assert(reaches_half(curve, min, step, total, n - 1));
        assert(false);
    }
    lemma_sample_within(min, max, step, k as int);
    if k > 0 {
        assert(!reaches_half(curve, min, step, total, k - 1));
    }
    assert(0 <= k < sample_count(min, max, step) && bisector_value(curve, min, max, step)
        == sample_point(min, step, k as int) && 2 * area(curve, min, step, (k + 1) as nat)
        >= area(curve, min, step, sample_count(min, max, step)) && 2 * area(
        curve,
        min,
        step,
        k as nat,
    ) <= area(curve, min, step, sample_count(min, max, step)));
}

/// The moment of a curve that is nowhere negative on the samples lies
/// between the mass times the first and the mass times the last sample.
pub proof fn lemma_moment_between(curve: Curve, min: int, max: int, step: int, n: nat)
    requires
        step > 0,
        n <= sample_count(min, max, step),
        forall|j: int| 0 <= j < n ==> curve(#[trigger] sample_point(min, step, j)) >= 0,
    ensures
        mass(curve, min, step, n) >= 0,
        min * mass(curve, min, step, n) <= moment(curve, min, step, n) <= max * mass(
            curve,
            min,
            step,
            n,
        ),
    decreases n,
{
    if n > 0 {
        lemma_moment_between(curve, min, max, step, (n - 1) as nat);
        lemma_sample_within(min, max, step, n - 1);
        let x = sample_point(min, step, n - 1);
        let mu = curve(x);
        let m = mass(curve, min, step, (n - 1) as nat);
        let t = moment(curve, min, step, (n - 1) as nat);
        assert(min * (m + mu) <= t + x * mu <= max * (m + mu)) by (nonlinear_arith)
            requires
                min * m <= t <= max * m,
                min <= x <= max,
                mu >= 0,
        ;
    }
}

/// The centroid of a curve that is nowhere negative on the samples, and
/// not zero on all of them, lies within the domain.
pub proof fn lemma_centroid_within_domain(curve: Curve, min: int, max: int, step: int)
    requires
        step > 0,
        min <= max,
        forall|j: int|
            0 <= j < sample_count(min, max, step) ==> curve(
                #[trigger] sample_point(min, step, j),
            ) >= 0,
        mass(curve, min, step, sample_count(min, max, step)) != 0,
    ensures
        min <= centroid_value(curve, min, max, step) <= max,
{
    let n = sample_count(min, max, step);
    lemma_moment_between(curve, min, max, step, n);
    lemma_mean_within(moment(curve, min, step, n), mass(curve, min, step, n), min, max);
}

/// The sample points tied at a level number at most `n`, and their sum lies
/// between their number times the first and times the last sample.
pub proof fn lemma_tied_between(
    curve: Curve,
    min: int,
    max: int,
    step: int,
    n: nat,
    level: int,
)
    requires
        step > 0,
        n <= sample_count(min, max, step),
    ensures
        tied_count(curve, min, step, n, level) <= n,
        min * tied_count(curve, min, step, n, level) <= tied_sum(curve, min, step, n, level)
            <= max * tied_count(curve, min, step, n, level),
    decreases n,
{
    if n > 0 {
        lemma_tied_between(curve, min, max, step, (n - 1) as nat, level);
        lemma_sample_within(min, max, step, n - 1);
        let x = sample_point(min, step, n - 1);
        let c = tied_count(curve, min, step, (n - 1) as nat, level) as int;
        let t = tied_sum(curve, min, step, (n - 1) as nat, level);
        assert(min * (c + 1) <= t + x <= max * (c + 1)) by (nonlinear_arith)
            requires
                min * c <= t <= max * c,
                min <= x <= max,
        ;
    }
}

/// Among the samples of a curve that is nowhere negative on them, the peak
/// is attained, unless there is no sample at all.
pub proof fn lemma_peak_is_attained(curve: Curve, min: int, step: int, n: nat)
    requires
        n > 0,
        forall|j: int| 0 <= j < n ==> curve(#[trigger] sample_point(min, step, j)) >= 0,
    ensures
        tied_count(curve, min, step, n, peak(curve, min, step, n)) > 0,
    decreases n,
{
    let last = curve(sample_point(min, step, n - 1));
    let before = peak(curve, min, step, (n - 1) as nat);
    if last >= before {
    } else {
        if n == 1 {
            assert(before == 0);
            assert(false);
        } else {
            lemma_peak_is_attained(curve, min, step, (n - 1) as nat);
        }
    }
}

/// Over a domain that is not empty, the mean of maximum of a curve that is
/// nowhere negative on the samples lies within the domain.
pub proof fn lemma_mean_of_maximum_within_domain(curve: Curve, min: int, max: int, step: int)
    requires
        step > 0,
        min <= max,
        forall|j: int|
            0 <= j < sample_count(min, max, step) ==> curve(
                #[trigger] sample_point(min, step, j),
            ) >= 0,
    ensures
        min <= mean_of_maximum_value(curve, min, max, step) <= max,
{
    let n = sample_count(min, max, step);
    let top = peak(curve, min, step, n);
    lemma_sample_count_bound(min, max, step);
    lemma_peak_is_attained(curve, min, step, n);
    lemma_tied_between(curve, min, max, step, n, top);
    lemma_mean_within(
        tied_sum(curve, min, step, n, top),
        tied_count(curve, min, step, n, top) as int,
        min,
        max,
    );
}

/// Where no rule's guard holds on the inputs, nothing is matched and the
/// category is "Low Priority".
pub proof fn lemma_no_match_is_low_priority(rules: Seq<FuzzyRule>, inputs: Map<Seq<char>, i64>)
    requires
        forall|i: int| 0 <= i < rules.len() ==> !(#[trigger] rules[i]).condition.holds(inputs),
    ensures
        matched(rules, inputs) == Seq::<(Consequence, i64)>::empty(),
        aggregate_category(matched(rules, inputs)) == "Low Priority"@,
    decreases rules.len(),
{
    if rules.len() > 0 {
        let front = rules.drop_last();
        assert forall|i: int| 0 <= i < front.len() implies !(#[trigger] front[i]).condition.holds(
            inputs,
        ) by {
            assert(front[i] == rules[i]);
        }
        lemma_no_match_is_low_priority(front, inputs);
        assert(rules.last() == rules[rules.len() - 1]);
    }
}

/// Within a window of sample indices that is centred in a scan over which
/// the curve is symmetric, twice the moment is the mass times the sum of the
/// first and the last sample point of the scan.
proof fn lemma_symmetric_window(curve: Curve, min: int, step: int, n: nat, i: nat, j: nat)
    requires
        i <= j <= n,
        i + j == n,
        forall|k: int|
            0 <= k < n ==> curve(#[trigger] sample_point(min, step, k)) == curve(
                sample_point(min, step, n - 1 - k),
            ),
    ensures
        2 * (moment(curve, min, step, j) - moment(curve, min, step, i)) == (sample_point(
            min,
            step,
            0,
        ) + sample_point(min, step, n - 1)) * (mass(curve, min, step, j) - mass(
            curve,
            min,
            step,
            i,
        )),
    decreases j - i,
{
    let s = sample_point(min, step, 0) + sample_point(min, step, n - 1);
    if j == i {
        assert(s * 0 == 0);
    } else if j == i + 1 {
        let x = sample_point(min, step, i as int);
        let mu = curve(x);
        assert(2 * x == s) by (nonlinear_arith)
            requires
                x == min + i * step,
                s == min + 0 * step + (min + (n - 1) * step),
                2 * i == n - 1,
        ;
        assert(2 * (x * mu) == s * mu) by (nonlinear_arith)
            requires
                2 * x == s,
        ;
    } else {
        lemma_symmetric_window(curve, min, step, n, i + 1, (j - 1) as nat);
        let x = sample_point(min, step, i as int);
        let y = sample_point(min, step, j - 1);
        let mu = curve(x);
        assert(y == sample_point(min, step, n - 1 - i));
        assert(curve(y) == mu);
        assert(x + y == s) by (nonlinear_arith)
            requires
                x == min + i * step,
                y == min + (j - 1) * step,
                s == min + 0 * step + (min + (n - 1) * step),
                i + j == n,
        ;
        let inner_moment = moment(curve, min, step, (j - 1) as nat) - moment(
            curve,
            min,
            step,
            i + 1,
        );
        let inner_mass = mass(curve, min, step, (j - 1) as nat) - mass(curve, min, step, i + 1);
        assert(moment(curve, min, step, j) - moment(curve, min, step, i) == x * mu + inner_moment
            + y * mu);
        assert(mass(curve, min, step, j) - mass(curve, min, step, i) == mu + inner_mass + mu);
        assert(2 * (x * mu + inner_moment + y * mu) == s * (mu + inner_mass + mu))
            by (nonlinear_arith)
            requires
                2 * inner_moment == s * inner_mass,
                x + y == s,
        ;
    }
}

/// The centroid of a curve that is symmetric over the scan, and has mass,
/// is the midpoint between the first and the last sample point, rounded
/// down.
pub proof fn lemma_symmetric_centroid(curve: Curve, min: int, max: int, step: int)
    requires
        step > 0,
        min <= max,
        forall|k: int|
            0 <= k < sample_count(min, max, step) ==> curve(
                #[trigger] sample_point(min, step, k),
            ) == curve(sample_point(min, step, sample_count(min, max, step) - 1 - k)),
        mass(curve, min, step, sample_count(min, max, step)) != 0,
    ensures
        centroid_value(curve, min, max, step) == floor_ratio(
            min + sample_point(min, step, sample_count(min, max, step) - 1),
            2,
        ),
{
    let n = sample_count(min, max, step);
    let s = min + sample_point(min, step, n - 1);
    let t = moment(curve, min, step, n);
    let m = mass(curve, min, step, n);
    let q = floor_ratio(s, 2);
    lemma_symmetric_window(curve, min, step, n, 0, n);
    assert(sample_point(min, step, 0) == min);
    assert(2 * t == s * m);
    lemma_floor_ratio_brackets(s, 2);
    if m > 0 {
        assert(q * m <= t < (q + 1) * m) by (nonlinear_arith)
            requires
                2 * t == s * m,
                q * 2 <= s < (q + 1) * 2,
                m > 0,
        ;
        lemma_floor_ratio_unique(t, m, q);
    } else {
        assert(q * (-m) <= -t < (q + 1) * (-m)) by (nonlinear_arith)
            requires
                2 * t == s * m,
                q * 2 <= s < (q + 1) * 2,
                m < 0,
        ;
        lemma_floor_ratio_unique(-t, -m, q);
    }
}

} // verus!
