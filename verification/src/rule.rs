//! Rules: a guard over named inputs, a consequence and a weight.

use crate::fixed::WEIGHT_LIMIT;
use crate::set::FuzzySet;
use vstd::hash_map::StringHashMap;
use vstd::prelude::*;
use vstd::string::StringExecFns;

verus! {

/// The named scalar inputs that a rule's guard is tested on.
pub struct Inputs {
    /// The value of each input, by name.
    pub values: StringHashMap<i64>,
}

impl View for Inputs {
    type V = Map<Seq<char>, i64>;

    open spec fn view(&self) -> Map<Seq<char>, i64> {
        self.values@
    }
}

impl Inputs {
    /// No inputs at all.
    pub fn new() -> (inputs: Inputs)
        ensures
            inputs@ == Map::<Seq<char>, i64>::empty(),
    {
        Inputs { values: StringHashMap::new() }
    }

    /// Gives the input `name` the value `value`, replacing an earlier one.
    pub fn insert(&mut self, name: &str, value: i64)
        ensures
            final(self)@ == old(self)@.insert(name@, value),
    {
        self.values.insert(String::from_str(name), value);
    }

    /// The value of the input `name`, if it has one.
    pub fn get(&self, name: &str) -> (value: Option<i64>)
        ensures
            value == (if self@.contains_key(name@) {
                Some(self@[name@])
            } else {
                None
            }),
    {
        match self.values.get(name) {
            Some(v) => Some(*v),
            None => None,
        }
    }
}

/// A guard: a predicate over the named inputs.
///
/// A comparison on an input that has no value does not hold.
#[derive(Debug)]
pub enum Condition {
    /// Holds on every input.
    Always,
    /// The named input is greater than the threshold.
    Above(String, i64),
    /// The named input is greater than or equal to the threshold.
    AtLeast(String, i64),
    /// The named input is less than the threshold.
    Below(String, i64),
    /// The named input is less than or equal to the threshold.
    AtMost(String, i64),
    /// The inner guard does not hold.
    Not(Box<Condition>),
    /// Both guards hold.
    Both(Box<Condition>, Box<Condition>),
    /// At least one of the guards holds.
    Either(Box<Condition>, Box<Condition>),
}

impl Condition {
    /// Whether the guard holds on `inputs`.
    pub open spec fn holds(self, inputs: Map<Seq<char>, i64>) -> bool
        decreases self,
    {
        match self {
            Condition::Always => true,
            Condition::Above(name, threshold) => inputs.contains_key(name@) && inputs[name@]
                > threshold,
            Condition::AtLeast(name, threshold) => inputs.contains_key(name@) && inputs[name@]
                >= threshold,
            Condition::Below(name, threshold) => inputs.contains_key(name@) && inputs[name@]
                < threshold,
            Condition::AtMost(name, threshold) => inputs.contains_key(name@) && inputs[name@]
                <= threshold,
            Condition::Not(inner) => !inner.holds(inputs),
            Condition::Both(left, right) => left.holds(inputs) && right.holds(inputs),
            Condition::Either(left, right) => left.holds(inputs) || right.holds(inputs),
        }
    }

    /// Tests the guard on `inputs`.
    pub fn test(&self, inputs: &Inputs) -> (verdict: bool)
        ensures
            verdict == self.holds(inputs@),
        decreases self,
    {
        match self {
            Condition::Always => true,
            Condition::Above(name, threshold) => match inputs.get(name.as_str()) {
                Some(value) => value > *threshold,
                None => false,
            },
            Condition::AtLeast(name, threshold) => match inputs.get(name.as_str()) {
                Some(value) => value >= *threshold,
                None => false,
            },
            Condition::Below(name, threshold) => match inputs.get(name.as_str()) {
                Some(value) => value < *threshold,
                None => false,
            },
            Condition::AtMost(name, threshold) => match inputs.get(name.as_str()) {
                Some(value) => value <= *threshold,
                None => false,
            },
            Condition::Not(inner) => !inner.test(inputs),
            Condition::Both(left, right) => left.test(inputs) && right.test(inputs),
            Condition::Either(left, right) => left.test(inputs) || right.test(inputs),
        }
    }
}

/// What a rule concludes: a category by name, or a fuzzy set.
#[derive(Debug)]
pub enum Consequence {
    /// A symbolic category.
    Label(String),
    /// A fuzzy output.
    Fuzzy(FuzzySet),
}

impl Clone for Consequence {
    /// A copy equal to the consequence it was made from.
    fn clone(&self) -> (copy: Self)
        ensures
            copy == *self,
    {
        match self {
            Consequence::Label(label) => Consequence::Label(label.clone()),
            Consequence::Fuzzy(set) => Consequence::Fuzzy(set.clone()),
        }
    }
}

/// A weighted if-then rule.
#[derive(Debug)]
pub struct FuzzyRule {
    /// The guard that decides whether the rule matches.
    pub condition: Condition,
    /// What the rule concludes where it matches.
    pub consequence: Consequence,
    /// The rule's relative influence; it may be zero or negative.
    pub weight: i64,
}

impl FuzzyRule {
    /// A rule is well-formed when its weight stays within `WEIGHT_LIMIT` and
    /// its consequence, where that is a set, is well-formed.
    pub open spec fn wf(&self) -> bool {
        &&& -WEIGHT_LIMIT <= self.weight <= WEIGHT_LIMIT
        &&& self.consequence matches Consequence::Fuzzy(set) ==> set.wf()
    }

    /// Builds a rule.
    pub fn new(condition: Condition, consequence: Consequence, weight: i64) -> (rule: Self)
        ensures
            rule.condition == condition,
            rule.consequence == consequence,
            rule.weight == weight,
    {
        FuzzyRule { condition, consequence, weight }
    }

    /// The rule's consequence and weight where its guard holds on `inputs`,
    /// and nothing where it does not.
    pub fn evaluate(&self, inputs: &Inputs) -> (outcome: Option<(Consequence, i64)>)
        ensures
            outcome == (if self.condition.holds(inputs@) {
                Some((self.consequence, self.weight))
            } else {
                None
            }),
    {
        if self.condition.test(inputs) {
            Some((self.consequence.clone(), self.weight))
        } else {
            None
        }
    }

    /// Tells whether the rule is well-formed.
    pub fn is_well_formed(&self) -> (ok: bool)
        ensures
            ok == self.wf(),
    {
        let in_range: bool = -WEIGHT_LIMIT <= self.weight && self.weight <= WEIGHT_LIMIT;
        match &self.consequence {
            Consequence::Label(_) => in_range,
            Consequence::Fuzzy(set) => in_range && set.membership_function.is_well_formed(),
        }
    }
}

} // verus!
