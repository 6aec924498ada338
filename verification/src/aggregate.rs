//! What the rules of an engine add up to: the category of the matched
//! rules, and the aggregated fuzzy output of the consequence sets.

use crate::fixed::{floor_ratio, larger, DEGREE_LIMIT, ONE, WEIGHT_LIMIT};
use crate::rule::{Consequence, FuzzyRule};
use crate::scan::Curve;
use crate::set::FuzzySet;
use vstd::prelude::*;

verus! {

/// The score of a category: three for "Urgent", two for "High Priority", one
/// for "Medium Priority", and zero for every other label.
pub open spec fn priority_score(label: Seq<char>) -> int {
    if label == "Urgent"@ {
        3 * ONE
    } else if label == "High Priority"@ {
        2 * ONE
    } else if label == "Medium Priority"@ {
        ONE as int
    } else {
        0
    }
}

/// The score that a consequence contributes: that of its label; a fuzzy set
/// contributes zero.
pub open spec fn consequence_score(consequence: Consequence) -> int {
    match consequence {
        Consequence::Label(label) => priority_score(label@),
        Consequence::Fuzzy(_) => 0,
    }
}

/// The category of a score: each threshold belongs to the higher category.
pub open spec fn category_of_score(score: int) -> Seq<char> {
    if score >= 2_500_000 {
        "Urgent"@
    } else if score >= 1_500_000 {
        "High Priority"@
    } else if score >= 500_000 {
        "Medium Priority"@
    } else {
        "Low Priority"@
    }
}

/// The sum of the weights of the matched rules.
pub open spec fn total_weight(results: Seq<(Consequence, i64)>) -> int
    decreases results.len(),
{
    if results.len() == 0 {
        0
    } else {
        total_weight(results.drop_last()) + results.last().1
    }
}

/// The sum over the matched rules of score times weight.
pub open spec fn weighted_score(results: Seq<(Consequence, i64)>) -> int
    decreases results.len(),
{
    if results.len() == 0 {
        0
    } else {
        weighted_score(results.drop_last()) + consequence_score(results.last().0)
            * results.last().1
    }
}

/// The category that the matched rules add up to: that of their
/// weight-normalized average score, rounded down, and "Low Priority" where
/// the weights sum to zero, as they do where nothing matched.
pub open spec fn aggregate_category(results: Seq<(Consequence, i64)>) -> Seq<char> {
    if total_weight(results) == 0 {
        "Low Priority"@
    } else {
        category_of_score(floor_ratio(weighted_score(results), total_weight(results)))
    }
}

/// The consequences and weights of the rules whose guards hold on `inputs`,
/// in the order of the rules.
pub open spec fn matched(rules: Seq<FuzzyRule>, inputs: Map<Seq<char>, i64>) -> Seq<
    (Consequence, i64),
>
    decreases rules.len(),
{
    if rules.len() == 0 {
        Seq::empty()
    } else if rules.last().condition.holds(inputs) {
        matched(rules.drop_last(), inputs).push((rules.last().consequence, rules.last().weight))
    } else {
        matched(rules.drop_last(), inputs)
    }
}

/// Whether every weight among `results` stays within `WEIGHT_LIMIT`.
pub open spec fn weights_in_range(results: Seq<(Consequence, i64)>) -> bool {
    forall|i: int|
        0 <= i < results.len() ==> -WEIGHT_LIMIT <= (#[trigger] results[i]).1 <= WEIGHT_LIMIT
}

/// The fuzzy sets among the consequences of `rules`, in the order of the rules.
pub open spec fn fuzzy_consequences(rules: Seq<FuzzyRule>) -> Seq<FuzzySet>
    decreases rules.len(),
{
    if rules.len() == 0 {
        Seq::empty()
    } else {
        match rules.last().consequence {
            Consequence::Fuzzy(set) => fuzzy_consequences(rules.drop_last()).push(set),
            Consequence::Label(_) => fuzzy_consequences(rules.drop_last()),
        }
    }
}

/// The degree of `x` in the aggregate of `sets`: the largest of zero and
/// the degrees of `x` in the sets.
pub open spec fn aggregate_degree(sets: Seq<FuzzySet>, x: int) -> int
    decreases sets.len(),
{
    if sets.len() == 0 {
        0
    } else {
        larger(aggregate_degree(sets.drop_last(), x), sets.last().degree(x))
    }
}

/// The aggregate of `sets` as a curve over the domain.
pub open spec fn aggregate_curve(sets: Seq<FuzzySet>) -> Curve {
    |x: int| aggregate_degree(sets, x)
}

/// Whether every set among `sets` is well-formed.
pub open spec fn all_wf(sets: Seq<FuzzySet>) -> bool {
    forall|i: int| 0 <= i < sets.len() ==> (#[trigger] sets[i]).wf()
}

/// The aggregate degree is the maximum of zero and the sets' degrees: it is
/// at least each of them and equal to one of them.
pub proof fn lemma_aggregate_is_maximum(sets: Seq<FuzzySet>, x: int)
    ensures
        aggregate_degree(sets, x) >= 0,
        forall|i: int|
            0 <= i < sets.len() ==> aggregate_degree(sets, x) >= (#[trigger] sets[i]).degree(x),
        aggregate_degree(sets, x) == 0 || exists|i: int|
            0 <= i < sets.len() && aggregate_degree(sets, x) == (#[trigger] sets[i]).degree(x),
    decreases sets.len(),
{
    if sets.len() > 0 {
        let front = sets.drop_last();
        lemma_aggregate_is_maximum(front, x);
        assert forall|i: int| 0 <= i < sets.len() implies aggregate_degree(sets, x) >= (
        #[trigger] sets[i]).degree(x) by {
            if i < front.len() {
                assert(front[i] == sets[i]);
            }
        }
        if aggregate_degree(sets, x) != 0 {
            if aggregate_degree(sets, x) == sets.last().degree(x) {
                assert(sets[sets.len() - 1] == sets.last());
            } else {
                let i = choose|i: int|
                    0 <= i < front.len() && aggregate_degree(front, x) == (
                    #[trigger] front[i]).degree(x);
                assert(front[i] == sets[i]);
            }
        }
    }
}

/// The aggregate of well-formed sets stays within `DEGREE_LIMIT`.
pub proof fn lemma_aggregate_bounded(sets: Seq<FuzzySet>, x: int)
    requires
        all_wf(sets),
    ensures
        0 <= aggregate_degree(sets, x) <= DEGREE_LIMIT,
    decreases sets.len(),
{
    if sets.len() > 0 {
        let front = sets.drop_last();
        assert forall|i: int| 0 <= i < front.len() implies (#[trigger] front[i]).wf() by {
            assert(front[i] == sets[i]);
        }
        lemma_aggregate_bounded(front, x);
        sets.last().membership_function.lemma_degree_bounded(x);
    }
}

} // verus!
