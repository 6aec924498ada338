//! The inference engine: weighted symbolic decisions and defuzzification.

use crate::aggregate::{
    aggregate_category, aggregate_curve, aggregate_degree, all_wf, category_of_score,
    fuzzy_consequences, lemma_aggregate_bounded, matched, priority_score, total_weight,
    weighted_score, weights_in_range,
};
use crate::fixed::{floor_div, lemma_mean_within, DEGREE_LIMIT, DOMAIN_LIMIT, ONE, WEIGHT_LIMIT};
use crate::rule::{Consequence, FuzzyRule, Inputs};
use crate::scan::{
    area, bisector_value, centroid_value, first_half_index, lemma_no_ties_above_peak,
    lemma_sample_count_bound, lemma_sample_inside, lemma_sample_next, lemma_sample_outside, mass,
    mean_of_maximum_value, moment, peak, reaches_half, sample_count, sample_point, scannable,
    tied_count, tied_sum, Curve,
};
use crate::set::FuzzySet;
use vstd::prelude::*;
use vstd::string::StringExecFns;

verus! {

/// An ordered collection of rules.  The engine keeps no state between calls.
#[derive(Debug)]
pub struct InferenceEngine {
    /// The rules, in the order in which they are evaluated.
    pub rules: Vec<FuzzyRule>,
}

impl InferenceEngine {
    /// Builds an engine from its rules.
    pub fn new(rules: Vec<FuzzyRule>) -> (engine: Self)
        ensures
            engine.rules == rules,
    {
        InferenceEngine { rules }
    }

    /// Whether every rule's weight stays within `WEIGHT_LIMIT`.
    pub open spec fn weights_bounded(&self) -> bool {
        forall|i: int|
            0 <= i < self.rules@.len() ==> -WEIGHT_LIMIT <= (#[trigger] self.rules@[i]).weight
                <= WEIGHT_LIMIT
    }

    /// Maps a category to its score.
    pub fn priority_mapping(&self, priority: &str) -> (score: i64)
        ensures
            score == priority_score(priority@),
    {
        let label: String = String::from_str(priority);
        if label == String::from_str("Urgent") {
            3 * ONE
        } else if label == String::from_str("High Priority") {
            2 * ONE
        } else if label == String::from_str("Medium Priority") {
            ONE
        } else {
            0
        }
    }

    /// Maps a score back to its category.
    pub fn reverse_priority_mapping(&self, score: i128) -> (category: String)
        ensures
            category@ == category_of_score(score as int),
    {
        if score >= 2_500_000 {
            String::from_str("Urgent")
        } else if score >= 1_500_000 {
            String::from_str("High Priority")
        } else if score >= 500_000 {
            String::from_str("Medium Priority")
        } else {
            String::from_str("Low Priority")
        }
    }

    /// Reduces the matched rules to one category.
    pub fn aggregate_results(&self, results: Vec<(Consequence, i64)>) -> (category: String)
        requires
            weights_in_range(results@),
        ensures
            category@ == aggregate_category(results@),
    {
        if results.len() == 0 {
            return String::from_str("Low Priority");
        }
        let mut total: i128 = 0;
        let mut weighted_sum: i128 = 0;
        let mut i: usize = 0;
        while i < results.len()
            invariant
                i <= results.len(),
                weights_in_range(results@),
                total == total_weight(results@.take(i as int)),
                weighted_sum == weighted_score(results@.take(i as int)),
                -(i * 0x100_0000_0000) <= total <= i * 0x100_0000_0000,
                -(i * 0x4000_0000_0000_0000) <= weighted_sum <= i * 0x4000_0000_0000_0000,
            decreases results.len() - i,
        {
            let priority_value: i64 = match &results[i].0 {
                Consequence::Label(priority) => self.priority_mapping(priority.as_str()),
                Consequence::Fuzzy(_) => 0,
            };
            let weight: i64 = results[i].1;
            proof {
                assert(results@.take(i + 1).drop_last() == results@.take(i as int));
                assert(results@.take(i + 1).last() == results@[i as int]);
                assert(-0x4000_0000_0000_0000 <= priority_value * weight <= 0x4000_0000_0000_0000)
                    by (nonlinear_arith)
                    requires
                        0 <= priority_value <= 3_000_000,
                        -0x100_0000_0000 <= weight <= 0x100_0000_0000,
                ;
            }
            weighted_sum = weighted_sum + (priority_value as i128) * (weight as i128);
            total = total + weight as i128;
            i = i + 1;
        }
        proof {
            assert(results@.take(i as int) == results@);
        }
        if total != 0 {
            self.reverse_priority_mapping(floor_div(weighted_sum, total))
        } else {
            String::from_str("Low Priority")
        }
    }

    /// Decides a category for `inputs`: every rule is evaluated, and the
    /// consequences of those that match are averaged by weight.
    pub fn infer(&self, inputs: &Inputs) -> (category: String)
        requires
            self.weights_bounded(),
        ensures
            category@ == aggregate_category(matched(self.rules@, inputs@)),
    {
        let mut results: Vec<(Consequence, i64)> = Vec::new();
        let mut i: usize = 0;
        while i < self.rules.len()
            invariant
                i <= self.rules.len(),
                self.weights_bounded(),
                results@ == matched(self.rules@.take(i as int), inputs@),
                weights_in_range(results@),
            decreases self.rules.len() - i,
        {
            proof {
                assert(self.rules@.take(i + 1).drop_last() == self.rules@.take(i as int));
                assert(self.rules@.take(i + 1).last() == self.rules@[i as int]);
            }
            if let Some((result, weight)) = self.rules[i].evaluate(inputs) {
                results.push((result, weight));
            }
            i = i + 1;
        }
        proof {
            assert(self.rules@.take(i as int) == self.rules@);
        }
        self.aggregate_results(results)
    }

    /// Whether every fuzzy set among the rules' consequences is well-formed.
    pub open spec fn consequences_wf(&self) -> bool {
        forall|i: int|
            0 <= i < self.rules@.len() ==> match (#[trigger] self.rules@[i]).consequence {
                Consequence::Fuzzy(set) => set.wf(),
                Consequence::Label(_) => true,
            }
    }

    /// Tells whether the engine is well-formed: every weight within
    /// `WEIGHT_LIMIT`, every consequence set well-formed.
    pub fn is_well_formed(&self) -> (ok: bool)
        ensures
            ok == (self.weights_bounded() && self.consequences_wf()),
    {
        let mut i: usize = 0;
        while i < self.rules.len()
            invariant
                i <= self.rules.len(),
                forall|j: int| 0 <= j < i ==> (#[trigger] self.rules@[j]).wf(),
            decreases self.rules.len() - i,
        {
            if !self.rules[i].is_well_formed() {
                return false;
            }
            i = i + 1;
        }
        true
    }

    /// The aggregated fuzzy output of the rules: at every point the largest
    /// degree among the consequence sets, and at least zero.
    pub open spec fn output_curve(&self) -> Curve {
        aggregate_curve(fuzzy_consequences(self.rules@))
    }

    /// Gathers the fuzzy sets among the rules' consequences.
    pub fn get_fuzzy_set_consequences(&self) -> (sets: Vec<FuzzySet>)
        ensures
            sets@ == fuzzy_consequences(self.rules@),
            self.consequences_wf() ==> all_wf(sets@),
    {
        let mut sets: Vec<FuzzySet> = Vec::new();
        let mut i: usize = 0;
        while i < self.rules.len()
            invariant
                i <= self.rules.len(),
                sets@ == fuzzy_consequences(self.rules@.take(i as int)),
                self.consequences_wf() ==> all_wf(sets@),
            decreases self.rules.len() - i,
        {
            proof {
                assert(self.rules@.take(i + 1).drop_last() == self.rules@.take(i as int));
                assert(self.rules@.take(i + 1).last() == self.rules@[i as int]);
            }
            if let Consequence::Fuzzy(fuzzy_set) = &self.rules[i].consequence {
                sets.push(fuzzy_set.clone());
            }
            i = i + 1;
        }
        proof {
            assert(self.rules@.take(i as int) == self.rules@);
        }
        sets
    }

    /// Defuzzifies by the centre of gravity of the aggregated output over
    /// `[min_val, max_val]`, sampled every `step`; zero where the output
    /// has no mass.
    pub fn defuzzify_centroid(&self, min_val: i64, max_val: i64, step: i64) -> (c: i64)
        requires
            self.consequences_wf(),
            scannable(min_val as int, max_val as int, step as int),
        ensures
            c == centroid_value(
                self.output_curve(),
                min_val as int,
                max_val as int,
                step as int,
            ),
            c == 0 || min_val <= c <= max_val,
    {
        let fuzzy_sets: Vec<FuzzySet> = self.get_fuzzy_set_consequences();
        if min_val > max_val {
            return 0;
        }
        let ghost curve = aggregate_curve(fuzzy_sets@);
        let ghost n = sample_count(min_val as int, max_val as int, step as int);
        let ghost mut k: nat = 0;
        let mut numerator: i128 = 0;
        let mut denominator: i128 = 0;
        let mut x: i128 = min_val as i128;
        while x <= max_val as i128
            invariant
                all_wf(fuzzy_sets@),
                step > 0,
                -DOMAIN_LIMIT <= min_val <= max_val <= DOMAIN_LIMIT,
                curve == aggregate_curve(fuzzy_sets@),
                n == sample_count(min_val as int, max_val as int, step as int),
                k <= n,
                x == sample_point(min_val as int, step as int, k as int),
                k <= x - min_val,
                x <= max_val + step,
                numerator == moment(curve, min_val as int, step as int, k),
                denominator == mass(curve, min_val as int, step as int, k),
                0 <= denominator <= k * 0x100_0000_0000,
                -(k * 0x1_0000_0000_0000_0000_0000) <= numerator <= k
                    * 0x1_0000_0000_0000_0000_0000,
                min_val * denominator <= numerator <= max_val * denominator,
            decreases max_val + step - x,
        {
            proof {
                lemma_sample_inside(min_val as int, max_val as int, step as int, k as int);
                lemma_sample_next(min_val as int, step as int, k as int);
            }
            let mu: i64 = aggregate_at(&fuzzy_sets, x as i64);
            proof {
                let d = denominator as int;
                let lo = min_val as int;
                let hi = max_val as int;
                assert(lo * (d + mu) <= numerator + x * mu <= hi * (d + mu)) by (nonlinear_arith)
                    requires
                        lo * d <= numerator <= hi * d,
                        lo <= x <= hi,
                        0 <= mu,
                ;
                assert(-0x1_0000_0000_0000_0000_0000 <= x * mu <= 0x1_0000_0000_0000_0000_0000)
                    by (nonlinear_arith)
                    requires
                        -0x100_0000_0000 <= x <= 0x100_0000_0000,
                        0 <= mu <= 0x100_0000_0000,
                ;
            }
            numerator = numerator + x * (mu as i128);
            denominator = denominator + mu as i128;
            x = x + step as i128;
            proof {
                k = k + 1;
            }
        }
        proof {
            lemma_sample_outside(min_val as int, max_val as int, step as int, k as int);
            lemma_sample_count_bound(min_val as int, max_val as int, step as int);
        }
        if denominator == 0 {
            0
        } else {
            proof {
                lemma_mean_within(
                    numerator as int,
                    denominator as int,
                    min_val as int,
                    max_val as int,
                );
            }
            floor_div(numerator, denominator) as i64
        }
    }

    /// Defuzzifies by the mean of maximum: the mean, rounded down, of the
    /// sample points at which the aggregated output is largest; zero where
    /// the domain holds no sample point.
    pub fn defuzzify_mom(&self, min_val: i64, max_val: i64, step: i64) -> (m: i64)
        requires
            self.consequences_wf(),
            scannable(min_val as int, max_val as int, step as int),
        ensures
            m == mean_of_maximum_value(
                self.output_curve(),
                min_val as int,
                max_val as int,
                step as int,
            ),
            min_val <= max_val ==> min_val <= m <= max_val,
    {
        let fuzzy_sets: Vec<FuzzySet> = self.get_fuzzy_set_consequences();
        if min_val > max_val {
            return 0;
        }
        let ghost curve = aggregate_curve(fuzzy_sets@);
        let ghost n = sample_count(min_val as int, max_val as int, step as int);
        let ghost mut k: nat = 0;
        let mut max_mu: i64 = 0;
        let mut sum_x: i128 = 0;
        let mut count: i128 = 0;
        let mut x: i128 = min_val as i128;
        while x <= max_val as i128
            invariant
                all_wf(fuzzy_sets@),
                step > 0,
                -DOMAIN_LIMIT <= min_val <= max_val <= DOMAIN_LIMIT,
                curve == aggregate_curve(fuzzy_sets@),
                n == sample_count(min_val as int, max_val as int, step as int),
                k <= n,
                x == sample_point(min_val as int, step as int, k as int),
                k <= x - min_val,
                x <= max_val + step,
                max_mu == peak(curve, min_val as int, step as int, k),
                sum_x == tied_sum(curve, min_val as int, step as int, k, max_mu as int),
                count == tied_count(curve, min_val as int, step as int, k, max_mu as int),
                0 <= count <= k,
                k > 0 ==> count > 0,
                max_mu >= 0,
                -(k * 0x100_0000_0000) <= sum_x <= k * 0x100_0000_0000,
                min_val * count <= sum_x <= max_val * count,
            decreases max_val + step - x,
        {
            proof {
                lemma_sample_inside(min_val as int, max_val as int, step as int, k as int);
                lemma_sample_next(min_val as int, step as int, k as int);
            }
            let mu: i64 = aggregate_at(&fuzzy_sets, x as i64);
            if mu > max_mu {
                proof {
                    lemma_no_ties_above_peak(curve, min_val as int, step as int, k, mu as int);
                }
                max_mu = mu;
                sum_x = x;
                count = 1;
            } else if mu == max_mu {
                proof {
                    let c = count as int;
                    let lo = min_val as int;
                    let hi = max_val as int;
                    assert(lo * (c + 1) <= sum_x + x <= hi * (c + 1)) by (nonlinear_arith)
                        requires
                            lo * c <= sum_x <= hi * c,
                            lo <= x <= hi,
                    ;
                }
                sum_x = sum_x + x;
                count = count + 1;
            }
            x = x + step as i128;
            proof {
                k = k + 1;
            }
        }
        proof {
            lemma_sample_outside(min_val as int, max_val as int, step as int, k as int);
            lemma_sample_count_bound(min_val as int, max_val as int, step as int);
        }
        if count == 0 {
            0
        } else {
            proof {
                lemma_mean_within(sum_x as int, count as int, min_val as int, max_val as int);
            }
            floor_div(sum_x, count) as i64
        }
    }

    /// Defuzzifies by the bisector: the first sample point at which the area
    /// under the aggregated output, taken from the left, reaches half of the
    /// whole area; `min_val` where no sample point does.
    pub fn defuzzify_bisector(&self, min_val: i64, max_val: i64, step: i64) -> (b: i64)
        requires
            self.consequences_wf(),
            scannable(min_val as int, max_val as int, step as int),
        ensures
            b == bisector_value(
                self.output_curve(),
                min_val as int,
                max_val as int,
                step as int,
            ),
            min_val <= max_val ==> min_val <= b <= max_val,
    {
        let fuzzy_sets: Vec<FuzzySet> = self.get_fuzzy_set_consequences();
        if min_val > max_val {
            return min_val;
        }
        let ghost curve = aggregate_curve(fuzzy_sets@);
        let ghost n = sample_count(min_val as int, max_val as int, step as int);
        let ghost mut k: nat = 0;
        let mut total_area: i128 = 0;
        let mut left_area: i128 = 0;
        let mut x: i128 = min_val as i128;
        while x <= max_val as i128
            invariant
                all_wf(fuzzy_sets@),
                step > 0,
                -DOMAIN_LIMIT <= min_val <= max_val <= DOMAIN_LIMIT,
                curve == aggregate_curve(fuzzy_sets@),
                n == sample_count(min_val as int, max_val as int, step as int),
                k <= n,
                x == sample_point(min_val as int, step as int, k as int),
                min_val <= x <= max_val + step,
                total_area == area(curve, min_val as int, step as int, k),
                0 <= total_area <= 0x100_0000_0000 * (x - min_val),
            decreases max_val + step - x,
        {
            proof {
                lemma_sample_inside(min_val as int, max_val as int, step as int, k as int);
                lemma_sample_next(min_val as int, step as int, k as int);
            }
            let mu: i64 = aggregate_at(&fuzzy_sets, x as i64);
            assert(0 <= mu * step <= 0x100_0000_0000 * step) by (nonlinear_arith)
                requires
                    0 <= mu <= 0x100_0000_0000,
                    step > 0,
            ;
            total_area = total_area + (mu as i128) * (step as i128);
            x = x + step as i128;
            proof {
                k = k + 1;
            }
        }
        proof {
            lemma_sample_outside(min_val as int, max_val as int, step as int, k as int);
            k = 0;
        }
        x = min_val as i128;
        while x <= max_val as i128
            invariant
                all_wf(fuzzy_sets@),
                step > 0,
                -DOMAIN_LIMIT <= min_val <= max_val <= DOMAIN_LIMIT,
                curve == aggregate_curve(fuzzy_sets@),
                n == sample_count(min_val as int, max_val as int, step as int),
                k <= n,
                x == sample_point(min_val as int, step as int, k as int),
                min_val <= x <= max_val + step,
                total_area == area(curve, min_val as int, step as int, n),
                0 <= total_area <= 0x100_0000_0000 * (max_val + step - min_val),
                curve == self.output_curve(),
                left_area == area(curve, min_val as int, step as int, k),
                0 <= left_area <= 0x100_0000_0000 * (x - min_val),
                first_half_index(curve, min_val as int, step as int, total_area as int, n, 0)
                    == first_half_index(
                    curve,
                    min_val as int,
                    step as int,
                    total_area as int,
                    n,
                    k,
                ),
            decreases max_val + step - x,
        {
            proof {
                lemma_sample_inside(min_val as int, max_val as int, step as int, k as int);
                lemma_sample_next(min_val as int, step as int, k as int);
            }
            let mu: i64 = aggregate_at(&fuzzy_sets, x as i64);
            assert(0 <= mu * step <= 0x100_0000_0000 * step) by (nonlinear_arith)
                requires
                    0 <= mu <= 0x100_0000_0000,
                    step > 0,
            ;
            left_area = left_area + (mu as i128) * (step as i128);
            if 2 * left_area >= total_area {
                proof {
                    assert(left_area == area(curve, min_val as int, step as int, (k + 1) as nat));
                    assert(reaches_half(
                        curve,
                        min_val as int,
                        step as int,
                        total_area as int,
                        k as int,
                    ));
                }
                return x as i64;
            }
            x = x + step as i128;
            proof {
                k = k + 1;
            }
        }
        proof {
            lemma_sample_outside(min_val as int, max_val as int, step as int, k as int);
        }
        min_val
    }
}

/// Evaluates the aggregate of `sets` at `x`.
fn aggregate_at(sets: &Vec<FuzzySet>, x: i64) -> (mu: i64)
    requires
        all_wf(sets@),
    ensures
        mu == aggregate_degree(sets@, x as int),
        mu == aggregate_curve(sets@)(x as int),
        0 <= mu <= DEGREE_LIMIT,
{
    let mut mu: i64 = 0;
    let mut i: usize = 0;
    while i < sets.len()
        invariant
            i <= sets.len(),
            all_wf(sets@),
            mu == aggregate_degree(sets@.take(i as int), x as int),
        decreases sets.len() - i,
    {
        proof {
            assert(sets@.take(i + 1).drop_last() == sets@.take(i as int));
            assert(sets@.take(i + 1).last() == sets@[i as int]);
        }
        let degree: i64 = sets[i].membership_degree(x);
        if degree > mu {
            mu = degree;
        }
        i = i + 1;
    }
    proof {
        assert(sets@.take(i as int) == sets@);
        lemma_aggregate_bounded(sets@, x as int);
    }
    mu
}

} // verus!
