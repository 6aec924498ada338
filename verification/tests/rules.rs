use fuzzy_inference::{
    Condition, Consequence, FuzzyRule, FuzzySet, Inputs, Membership, ONE, WEIGHT_LIMIT,
};

fn inputs(pairs: &[(&str, i64)]) -> Inputs {
    let mut inputs = Inputs::new();
    for (name, value) in pairs.iter() {
        inputs.insert(name, *value);
    }
    inputs
}

fn name(text: &str) -> String {
    String::from(text)
}

#[test]
fn inputs_return_what_was_inserted() {
    let mut values = Inputs::new();
    assert_eq!(values.get("load"), None);
    values.insert("load", 5);
    values.insert("heat", -7);
    assert_eq!(values.get("load"), Some(5));
    assert_eq!(values.get("heat"), Some(-7));
    assert_eq!(values.get("loa"), None);
    values.insert("load", 9);
    assert_eq!(values.get("load"), Some(9));
}

#[test]
fn always_holds_on_any_inputs() {
    assert!(Condition::Always.test(&Inputs::new()));
    assert!(Condition::Always.test(&inputs(&[("x", 1)])));
}

#[test]
fn comparisons_respect_their_boundaries() {
    let at = inputs(&[("x", 700_000)]);
    assert!(!Condition::Above(name("x"), 700_000).test(&at));
    assert!(Condition::Above(name("x"), 699_999).test(&at));
    assert!(Condition::AtLeast(name("x"), 700_000).test(&at));
    assert!(!Condition::AtLeast(name("x"), 700_001).test(&at));
    assert!(!Condition::Below(name("x"), 700_000).test(&at));
    assert!(Condition::Below(name("x"), 700_001).test(&at));
    assert!(Condition::AtMost(name("x"), 700_000).test(&at));
    assert!(!Condition::AtMost(name("x"), 699_999).test(&at));
}

#[test]
fn comparisons_on_a_missing_input_do_not_hold() {
    let other = inputs(&[("y", 5)]);
    assert!(!Condition::Above(name("x"), i64::MIN).test(&other));
    assert!(!Condition::AtLeast(name("x"), i64::MIN).test(&other));
    assert!(!Condition::Below(name("x"), i64::MAX).test(&other));
    assert!(!Condition::AtMost(name("x"), i64::MAX).test(&other));
    assert!(Condition::Not(Box::new(Condition::Above(name("x"), 0))).test(&other));
}

#[test]
fn connectives_combine_guards() {
    let values = inputs(&[("x", 3), ("y", 8)]);
    let x_high = || Box::new(Condition::Above(name("x"), 5));
    let y_high = || Box::new(Condition::Above(name("y"), 5));
    assert!(!Condition::Both(x_high(), y_high()).test(&values));
    assert!(Condition::Both(y_high(), y_high()).test(&values));
    assert!(Condition::Either(x_high(), y_high()).test(&values));
    assert!(Condition::Either(y_high(), x_high()).test(&values));
    assert!(!Condition::Either(x_high(), x_high()).test(&values));
    assert!(Condition::Not(x_high()).test(&values));
    assert!(!Condition::Not(y_high()).test(&values));
    assert!(Condition::Both(Box::new(Condition::Not(x_high())), y_high()).test(&values));
}

#[test]
fn new_keeps_its_arguments() {
    let rule = FuzzyRule::new(
        Condition::Below(name("x"), 4),
        Consequence::Label(name("Urgent")),
        -250_000,
    );
    assert!(matches!(&rule.condition, Condition::Below(n, 4) if n == "x"));
    assert!(matches!(&rule.consequence, Consequence::Label(l) if l == "Urgent"));
    assert_eq!(rule.weight, -250_000);
}

#[test]
fn evaluate_yields_consequence_and_weight_on_a_match() {
    let rule = FuzzyRule::new(
        Condition::Above(name("load"), 700_000),
        Consequence::Label(name("Urgent")),
        2 * ONE,
    );
    match rule.evaluate(&inputs(&[("load", 800_000)])) {
        Some((Consequence::Label(label), weight)) => {
            assert_eq!(label, "Urgent");
            assert_eq!(weight, 2 * ONE);
        }
        _ => panic!("the rule matches"),
    }
}

#[test]
fn evaluate_yields_nothing_without_a_match() {
    let rule = FuzzyRule::new(
        Condition::Above(name("load"), 700_000),
        Consequence::Label(name("Urgent")),
        ONE,
    );
    assert!(rule.evaluate(&inputs(&[("load", 700_000)])).is_none());
    assert!(rule.evaluate(&Inputs::new()).is_none());
}

#[test]
fn evaluate_copies_a_fuzzy_consequence() {
    let set = FuzzySet::new("hot", Membership::Triangular(0, 5, 10));
    let rule = FuzzyRule::new(Condition::Always, Consequence::Fuzzy(set), 500_000);
    match rule.evaluate(&Inputs::new()) {
        Some((Consequence::Fuzzy(copy), weight)) => {
            assert_eq!(copy.name, "hot");
            assert_eq!(copy.membership_degree(5), ONE);
            assert_eq!(copy.membership_degree(2), 400_000);
            assert_eq!(weight, 500_000);
        }
        _ => panic!("the rule matches"),
    }
}

#[test]
fn rule_well_formedness_checks_weight_and_set() {
    let label = || Consequence::Label(name("Urgent"));
    assert!(FuzzyRule::new(Condition::Always, label(), WEIGHT_LIMIT).is_well_formed());
    assert!(FuzzyRule::new(Condition::Always, label(), -WEIGHT_LIMIT).is_well_formed());
    assert!(!FuzzyRule::new(Condition::Always, label(), WEIGHT_LIMIT + 1).is_well_formed());
    assert!(!FuzzyRule::new(Condition::Always, label(), -WEIGHT_LIMIT - 1).is_well_formed());
    let wild = FuzzySet::new("wild", Membership::Constant(i64::MAX));
    assert!(!FuzzyRule::new(Condition::Always, Consequence::Fuzzy(wild), ONE).is_well_formed());
    let tame = FuzzySet::new("tame", Membership::Constant(ONE));
    assert!(FuzzyRule::new(Condition::Always, Consequence::Fuzzy(tame), ONE).is_well_formed());
}
