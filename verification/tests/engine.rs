use fuzzy_inference::{
    Condition, Consequence, FuzzyRule, FuzzySet, InferenceEngine, Inputs, Membership, ONE,
};

fn label(text: &str) -> Consequence {
    Consequence::Label(String::from(text))
}

fn always(consequence: Consequence, weight: i64) -> FuzzyRule {
    FuzzyRule::new(Condition::Always, consequence, weight)
}

fn flat_top() -> FuzzySet {
    FuzzySet::new(
        "flat",
        Membership::Trapezoidal(4 * ONE, 4 * ONE, 6 * ONE, 6 * ONE),
    )
}

fn flat_top_engine() -> InferenceEngine {
    InferenceEngine::new(vec![always(Consequence::Fuzzy(flat_top()), ONE)])
}

#[test]
fn infer_without_a_match_is_low_priority() {
    let engine = InferenceEngine::new(vec![FuzzyRule::new(
        Condition::Above(String::from("load"), 700_000),
        label("Urgent"),
        ONE,
    )]);
    let mut inputs = Inputs::new();
    inputs.insert("load", 100_000);
    assert_eq!(engine.infer(&inputs), "Low Priority");
    assert_eq!(engine.infer(&Inputs::new()), "Low Priority");
    assert_eq!(InferenceEngine::new(vec![]).infer(&inputs), "Low Priority");
}

#[test]
fn infer_averages_urgent_and_medium_to_high() {
    let engine = InferenceEngine::new(vec![
        always(label("Urgent"), ONE),
        always(label("Medium Priority"), ONE),
    ]);
    assert_eq!(engine.infer(&Inputs::new()), "High Priority");
}

#[test]
fn infer_uses_only_the_matching_rules() {
    let engine = InferenceEngine::new(vec![
        FuzzyRule::new(
            Condition::Above(String::from("load"), 700_000),
            label("Urgent"),
            ONE,
        ),
        FuzzyRule::new(
            Condition::AtMost(String::from("load"), 700_000),
            label("Medium Priority"),
            ONE,
        ),
    ]);
    let mut inputs = Inputs::new();
    inputs.insert("load", 900_000);
    assert_eq!(engine.infer(&inputs), "Urgent");
    inputs.insert("load", 700_000);
    assert_eq!(engine.infer(&inputs), "Medium Priority");
}

#[test]
fn infer_weighs_the_scores() {
    // (3 * 1 + 1 * 3) / 4 = 1.5
    let engine = InferenceEngine::new(vec![
        always(label("Urgent"), ONE),
        always(label("Medium Priority"), 3 * ONE),
    ]);
    assert_eq!(engine.infer(&Inputs::new()), "High Priority");
    // (3 * 1 + 1 * 3.000004) / 4.000004 is just below 1.5
    let engine = InferenceEngine::new(vec![
        always(label("Urgent"), ONE),
        always(label("Medium Priority"), 3 * ONE + 4),
    ]);
    assert_eq!(engine.infer(&Inputs::new()), "Medium Priority");
}

#[test]
fn infer_with_zero_total_weight_is_low_priority() {
    let engine = InferenceEngine::new(vec![
        always(label("Urgent"), 0),
        always(label("Urgent"), 0),
    ]);
    assert_eq!(engine.infer(&Inputs::new()), "Low Priority");
    let cancelling = InferenceEngine::new(vec![
        always(label("Urgent"), ONE),
        always(label("High Priority"), -ONE),
    ]);
    assert_eq!(cancelling.infer(&Inputs::new()), "Low Priority");
}

#[test]
fn infer_with_negative_total_weight_still_averages() {
    let engine = InferenceEngine::new(vec![always(label("Urgent"), -ONE)]);
    assert_eq!(engine.infer(&Inputs::new()), "Urgent");
    // (3 * -2 + 0 * 1) / (-2 + 1) = 6
    let mixed = InferenceEngine::new(vec![
        always(label("Urgent"), -2 * ONE),
        always(label("Other"), ONE),
    ]);
    assert_eq!(mixed.infer(&Inputs::new()), "Urgent");
    // (1 * -1 + 0 * 3) / (-1 + 3) = -0.5
    let below = InferenceEngine::new(vec![
        always(label("Medium Priority"), -ONE),
        always(label("Other"), 3 * ONE),
    ]);
    assert_eq!(below.infer(&Inputs::new()), "Low Priority");
}

#[test]
fn infer_counts_unknown_labels_and_sets_as_zero() {
    // (3 + 0 + 0) / 3 = 1.0
    let engine = InferenceEngine::new(vec![
        always(label("Urgent"), ONE),
        always(label("urgent"), ONE),
        always(Consequence::Fuzzy(flat_top()), ONE),
    ]);
    assert_eq!(engine.infer(&Inputs::new()), "Medium Priority");
}

#[test]
fn infer_does_not_depend_on_the_order_of_the_rules() {
    let forward = InferenceEngine::new(vec![
        always(label("Urgent"), 2 * ONE),
        always(label("Medium Priority"), ONE),
        always(label("Low Priority"), 3 * ONE),
    ]);
    let backward = InferenceEngine::new(vec![
        always(label("Low Priority"), 3 * ONE),
        always(label("Medium Priority"), ONE),
        always(label("Urgent"), 2 * ONE),
    ]);
    // (6 + 1 + 0) / 6 = 1.1666...
    assert_eq!(forward.infer(&Inputs::new()), "Medium Priority");
    assert_eq!(backward.infer(&Inputs::new()), "Medium Priority");
}

#[test]
fn priority_mapping_scores_the_three_categories() {
    let engine = InferenceEngine::new(vec![]);
    assert_eq!(engine.priority_mapping("Urgent"), 3 * ONE);
    assert_eq!(engine.priority_mapping("High Priority"), 2 * ONE);
    assert_eq!(engine.priority_mapping("Medium Priority"), ONE);
    assert_eq!(engine.priority_mapping("Low Priority"), 0);
    assert_eq!(engine.priority_mapping("urgent"), 0);
    assert_eq!(engine.priority_mapping(""), 0);
}

#[test]
fn reverse_priority_mapping_gives_boundaries_to_the_higher_category() {
    let engine = InferenceEngine::new(vec![]);
    assert_eq!(engine.reverse_priority_mapping(2_500_000), "Urgent");
    assert_eq!(engine.reverse_priority_mapping(2_499_900), "High Priority");
    assert_eq!(engine.reverse_priority_mapping(2_499_999), "High Priority");
    assert_eq!(engine.reverse_priority_mapping(1_500_000), "High Priority");
    assert_eq!(engine.reverse_priority_mapping(1_499_999), "Medium Priority");
    assert_eq!(engine.reverse_priority_mapping(500_000), "Medium Priority");
    assert_eq!(engine.reverse_priority_mapping(499_999), "Low Priority");
    assert_eq!(engine.reverse_priority_mapping(0), "Low Priority");
    assert_eq!(engine.reverse_priority_mapping(-3_000_000), "Low Priority");
    assert_eq!(engine.reverse_priority_mapping(i128::MAX), "Urgent");
}

#[test]
fn aggregate_results_averages_by_weight() {
    let engine = InferenceEngine::new(vec![]);
    assert_eq!(engine.aggregate_results(vec![]), "Low Priority");
    assert_eq!(
        engine.aggregate_results(vec![(label("Urgent"), ONE), (label("Medium Priority"), ONE)]),
        "High Priority"
    );
    // (3 * 5 + 2 * 1) / 6 = 2.8333...
    assert_eq!(
        engine.aggregate_results(vec![
            (label("Urgent"), 5 * ONE),
            (label("High Priority"), ONE)
        ]),
        "Urgent"
    );
    // (3 * 1 + 2 * 1) / 2 = 2.5 exactly
    assert_eq!(
        engine.aggregate_results(vec![(label("Urgent"), 1), (label("High Priority"), 1)]),
        "Urgent"
    );
    // (3 * 4999 + 2 * 5001) / 10000 = 2.4999
    assert_eq!(
        engine.aggregate_results(vec![
            (label("Urgent"), 4_999),
            (label("High Priority"), 5_001)
        ]),
        "High Priority"
    );
}

#[test]
fn get_fuzzy_set_consequences_gathers_the_sets_in_order() {
    let engine = InferenceEngine::new(vec![
        always(Consequence::Fuzzy(FuzzySet::new("a", Membership::Constant(1))), ONE),
        always(label("Urgent"), ONE),
        FuzzyRule::new(
            Condition::Not(Box::new(Condition::Always)),
            Consequence::Fuzzy(FuzzySet::new("b", Membership::Constant(2))),
            ONE,
        ),
    ]);
    let sets = engine.get_fuzzy_set_consequences();
    assert_eq!(sets.len(), 2);
    assert_eq!(sets[0].name, "a");
    assert_eq!(sets[0].membership_degree(0), 1);
    assert_eq!(sets[1].name, "b");
    assert_eq!(sets[1].membership_degree(0), 2);
    assert!(InferenceEngine::new(vec![always(label("x"), 1)])
        .get_fuzzy_set_consequences()
        .is_empty());
}

#[test]
fn defuzzify_centroid_of_a_symmetric_output_is_its_centre() {
    let engine = flat_top_engine();
    assert_eq!(engine.defuzzify_centroid(0, 10 * ONE, 100_000), 5_000_000);
    assert_eq!(engine.defuzzify_centroid(0, 10 * ONE, ONE), 5_000_000);
}

#[test]
fn defuzzify_centroid_aggregates_by_maximum() {
    // Degrees at 0..=4: max(tri, 0.25) = 0.25, 0.5, 1, 0.5, 0.25.
    let engine = InferenceEngine::new(vec![
        always(Consequence::Fuzzy(FuzzySet::new("tri", Membership::Triangular(0, 2, 4))), ONE),
        always(Consequence::Fuzzy(FuzzySet::new("floor", Membership::Constant(250_000))), ONE),
    ]);
    assert_eq!(engine.defuzzify_centroid(0, 4, 1), 2);
    // Degrees at 0..=3: 0.25, 0.5, 1, 0.5; moment 4.0, mass 2.25.
    assert_eq!(engine.defuzzify_centroid(0, 3, 1), 1);
    let scaled = InferenceEngine::new(vec![
        always(
            Consequence::Fuzzy(FuzzySet::new("tri", Membership::Triangular(0, 2 * ONE, 4 * ONE))),
            ONE,
        ),
        always(Consequence::Fuzzy(FuzzySet::new("floor", Membership::Constant(250_000))), ONE),
    ]);
    assert_eq!(scaled.defuzzify_centroid(0, 3 * ONE, ONE), 1_777_777);
}

#[test]
fn defuzzify_centroid_ignores_negative_degrees() {
    let engine = InferenceEngine::new(vec![always(
        Consequence::Fuzzy(FuzzySet::new("neg", Membership::Constant(-ONE))),
        ONE,
    )]);
    assert_eq!(engine.defuzzify_centroid(0, 10, 1), 0);
}

#[test]
fn defuzzify_centroid_without_mass_is_zero() {
    let engine = flat_top_engine();
    assert_eq!(engine.defuzzify_centroid(7 * ONE, 9 * ONE, ONE), 0);
    assert_eq!(InferenceEngine::new(vec![]).defuzzify_centroid(0, 10, 1), 0);
    assert_eq!(engine.defuzzify_centroid(6 * ONE, 4 * ONE, ONE), 0);
}

#[test]
fn defuzzify_mom_averages_the_tied_maxima() {
    let engine = flat_top_engine();
    assert_eq!(engine.defuzzify_mom(0, 10 * ONE, ONE), 5_000_000);
}

#[test]
fn defuzzify_mom_restarts_at_a_strictly_larger_degree() {
    // Degrees at 0..=6: 0.5, 0.5, 0.5, 1, 1, 0.5, 0.5.
    let engine = InferenceEngine::new(vec![
        always(Consequence::Fuzzy(FuzzySet::new("base", Membership::Constant(500_000))), ONE),
        always(
            Consequence::Fuzzy(FuzzySet::new("top", Membership::Trapezoidal(3, 3, 4, 4))),
            ONE,
        ),
    ]);
    assert_eq!(engine.defuzzify_mom(0, 6, 1), 3);
    assert_eq!(engine.defuzzify_mom(0, 6 * ONE, ONE), 3_000_000);
    assert_eq!(engine.defuzzify_mom(3, 4, 1), 3);
    assert_eq!(engine.defuzzify_mom(4, 6, 1), 4);
    assert_eq!(engine.defuzzify_mom(5, 6, 1), 5);
}

#[test]
fn defuzzify_mom_of_a_flat_zero_output_is_the_mean_of_all_samples() {
    let engine = InferenceEngine::new(vec![]);
    assert_eq!(engine.defuzzify_mom(0, 10, 1), 5);
    assert_eq!(engine.defuzzify_mom(-3, 0, 1), -2);
}

#[test]
fn defuzzify_mom_of_an_empty_domain_is_zero() {
    let engine = flat_top_engine();
    assert_eq!(engine.defuzzify_mom(6 * ONE, 4 * ONE, ONE), 0);
    assert_eq!(engine.defuzzify_mom(1, 0, 0), 0);
}

#[test]
fn defuzzify_bisector_splits_the_area_in_half() {
    let engine = flat_top_engine();
    let b = engine.defuzzify_bisector(0, 10 * ONE, ONE);
    assert!(4 * ONE <= b && b <= 6 * ONE);
    assert_eq!(b, 5_000_000);
    // 21 bars of equal height: the 11th is the first to reach half.
    assert_eq!(engine.defuzzify_bisector(0, 10 * ONE, 100_000), 5_000_000);
}

#[test]
fn defuzzify_bisector_stops_at_the_first_point_that_reaches_half() {
    // Degrees at 0..=3: 1, 0, 0, 1: half of the area is reached at once.
    let engine = InferenceEngine::new(vec![
        always(Consequence::Fuzzy(FuzzySet::new("l", Membership::Trapezoidal(0, 0, 0, 0))), ONE),
        always(Consequence::Fuzzy(FuzzySet::new("r", Membership::Trapezoidal(3, 3, 3, 3))), ONE),
    ]);
    assert_eq!(engine.defuzzify_bisector(0, 3, 1), 0);
    assert_eq!(engine.defuzzify_bisector(1, 3, 1), 3);
}

#[test]
fn defuzzify_bisector_without_area_is_the_lower_bound() {
    let engine = flat_top_engine();
    assert_eq!(engine.defuzzify_bisector(7 * ONE, 9 * ONE, ONE), 7 * ONE);
    assert_eq!(InferenceEngine::new(vec![]).defuzzify_bisector(-4, 4, 1), -4);
}

#[test]
fn defuzzify_bisector_of_an_empty_domain_is_the_lower_bound() {
    let engine = flat_top_engine();
    assert_eq!(engine.defuzzify_bisector(6 * ONE, 4 * ONE, ONE), 6 * ONE);
    assert_eq!(engine.defuzzify_bisector(6 * ONE, 4 * ONE, -1), 6 * ONE);
}

#[test]
fn scans_accept_the_widest_domain_bounds() {
    let engine = flat_top_engine();
    let limit = fuzzy_inference::DOMAIN_LIMIT;
    assert_eq!(engine.defuzzify_centroid(-limit, limit, limit), 0);
    assert_eq!(engine.defuzzify_mom(-limit, limit, limit), 0);
    assert_eq!(engine.defuzzify_bisector(-limit, limit, i64::MAX), -limit);
    assert_eq!(flat_top().centroid(-limit, limit, i64::MAX), 0);
}

#[test]
fn engine_well_formedness_checks_every_rule() {
    assert!(InferenceEngine::new(vec![]).is_well_formed());
    assert!(flat_top_engine().is_well_formed());
    let heavy = InferenceEngine::new(vec![
        always(label("Urgent"), ONE),
        always(label("Urgent"), i64::MAX),
    ]);
    assert!(!heavy.is_well_formed());
    let wild = InferenceEngine::new(vec![always(
        Consequence::Fuzzy(FuzzySet::new("wild", Membership::Constant(i64::MIN))),
        ONE,
    )]);
    assert!(!wild.is_well_formed());
}
