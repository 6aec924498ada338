//! Named fuzzy sets and the operators that derive new sets from them.

use crate::fixed::{floor_div, larger, smaller, DEGREE_LIMIT, DOMAIN_LIMIT, ONE};
use crate::membership::Membership;
use crate::scan::{
    centroid_value, lemma_sample_inside, lemma_sample_next, lemma_sample_outside, mass, moment,
    sample_count, sample_point, scannable, Curve,
};
use vstd::prelude::*;
use vstd::string::StringExecFns;

verus! {

/// A named membership function.
///
/// A set is never changed after it is built; the operators return new sets
/// that hold copies of the functions they were derived from.
#[derive(Debug)]
pub struct FuzzySet {
    /// The display label; derived sets are named after the operator and
    /// the sets it was applied to.
    pub name: String,
    /// The function that gives each point its degree of membership.
    pub membership_function: Membership,
}

/// The name of the union of the sets named `a` and `b`.
pub open spec fn union_name(a: Seq<char>, b: Seq<char>) -> Seq<char> {
    "Union("@ + a + ", "@ + b + ")"@
}

/// The name of the intersection of the sets named `a` and `b`.
pub open spec fn intersection_name(a: Seq<char>, b: Seq<char>) -> Seq<char> {
    "Intersection("@ + a + ", "@ + b + ")"@
}

/// The name of the complement of the set named `a`.
pub open spec fn complement_name(a: Seq<char>) -> Seq<char> {
    "Complement("@ + a + ")"@
}

/// The name of the normalized form of the set named `a`.
pub open spec fn normalized_name(a: Seq<char>) -> Seq<char> {
    "Normalized("@ + a + ")"@
}

impl FuzzySet {
    /// The degree to which `x` belongs to the set.
    pub open spec fn degree(&self, x: int) -> int {
        self.membership_function.degree(x)
    }

    /// The set's membership as a curve over the domain.
    pub open spec fn curve(&self) -> Curve {
        |x: int| self.membership_function.degree(x)
    }

    /// A set is well-formed when its membership function is.
    pub open spec fn wf(&self) -> bool {
        self.membership_function.wf()
    }

    /// Builds a set from a label and a membership function.
    pub fn new(name: &str, membership_function: Membership) -> (set: Self)
        ensures
            set.name@ == name@,
            set.membership_function == membership_function,
    {
        FuzzySet { name: String::from_str(name), membership_function }
    }

    /// Evaluates the membership function at `x`.
    pub fn membership_degree(&self, x: i64) -> (mu: i64)
        requires
            self.wf(),
        ensures
            mu == self.degree(x as int),
    {
        self.membership_function.evaluate(x)
    }

    /// The Zadeh union: at every point the larger of the two degrees.
    pub fn union(&self, other_set: &FuzzySet) -> (set: FuzzySet)
        ensures
            set.name@ == union_name(self.name@, other_set.name@),
            set.membership_function == self.membership_function.union_with(
                other_set.membership_function,
            ),
            forall|x: int| #[trigger]
                set.degree(x) == larger(self.degree(x), other_set.degree(x)),
            self.wf() && other_set.wf() ==> set.wf(),
    {
        let mut name: String = String::from_str("Union(");
        name.append(self.name.as_str());
        name.append(", ");
        name.append(other_set.name.as_str());
        name.append(")");
        FuzzySet {
            name,
            membership_function: Membership::Union(
                Box::new(self.membership_function.clone()),
                Box::new(other_set.membership_function.clone()),
            ),
        }
    }

    /// The Zadeh intersection: at every point the smaller of the two degrees.
    pub fn intersection(&self, other_set: &FuzzySet) -> (set: FuzzySet)
        ensures
            set.name@ == intersection_name(self.name@, other_set.name@),
            set.membership_function == self.membership_function.intersection_with(
                other_set.membership_function,
            ),
            forall|x: int| #[trigger]
                set.degree(x) == smaller(self.degree(x), other_set.degree(x)),
            self.wf() && other_set.wf() ==> set.wf(),
    {
        let mut name: String = String::from_str("Intersection(");
        name.append(self.name.as_str());
        name.append(", ");
        name.append(other_set.name.as_str());
        name.append(")");
        FuzzySet {
            name,
            membership_function: Membership::Intersection(
                Box::new(self.membership_function.clone()),
                Box::new(other_set.membership_function.clone()),
            ),
        }
    }

    /// The complement: at every point `ONE` minus the degree.
    pub fn complement(&self) -> (set: FuzzySet)
        ensures
            set.name@ == complement_name(self.name@),
            set.membership_function == self.membership_function.complemented(),
            forall|x: int| #[trigger] set.degree(x) == ONE - self.degree(x),
            self.membership_function.bound() + ONE <= DEGREE_LIMIT ==> set.wf(),
    {
        let mut name: String = String::from_str("Complement(");
        name.append(self.name.as_str());
        name.append(")");
        FuzzySet {
            name,
            membership_function: Membership::Complement(
                Box::new(self.membership_function.clone()),
            ),
        }
    }

    /// Scales down what exceeds full membership: at every point the degree
    /// divided by the larger of `ONE` and the degree, which leaves degrees up
    /// to `ONE` as they are and maps larger ones to `ONE`.
    pub fn normalize(&self) -> (set: FuzzySet)
        ensures
            set.name@ == normalized_name(self.name@),
            set.membership_function == self.membership_function.normalized(),
            forall|x: int| #[trigger] set.degree(x) == smaller(self.degree(x), ONE as int),
            self.wf() ==> set.wf(),
    {
        let mut name: String = String::from_str("Normalized(");
        name.append(self.name.as_str());
        name.append(")");
        FuzzySet {
            name,
            membership_function: Membership::Normalized(
                Box::new(self.membership_function.clone()),
            ),
        }
    }

    /// The centre of gravity of the set over `[min_val, max_val]`, sampled
    /// every `step`: the sum of point times degree over the sum of the
    /// degrees, rounded down, and zero where the degrees sum to zero.
    pub fn centroid(&self, min_val: i64, max_val: i64, step: i64) -> (c: i128)
        requires
            self.wf(),
            scannable(min_val as int, max_val as int, step as int),
        ensures
            c == centroid_value(self.curve(), min_val as int, max_val as int, step as int),
    {
        if min_val > max_val {
            return 0;
        }
        let ghost curve = self.curve();
        let ghost n = sample_count(min_val as int, max_val as int, step as int);
        let ghost mut k: nat = 0;
        let mut numerator: i128 = 0;
        let mut denominator: i128 = 0;
        let mut x: i128 = min_val as i128;
        while x <= max_val as i128
            invariant
                self.wf(),
                step > 0,
                -DOMAIN_LIMIT <= min_val <= max_val <= DOMAIN_LIMIT,
                curve == self.curve(),
                n == sample_count(min_val as int, max_val as int, step as int),
                k <= n,
                x == sample_point(min_val as int, step as int, k as int),
                k <= x - min_val,
                x <= max_val + step,
                numerator == moment(curve, min_val as int, step as int, k),
                denominator == mass(curve, min_val as int, step as int, k),
                -(k * 0x1_0000_0000_0000_0000_0000) <= numerator <= k
                    * 0x1_0000_0000_0000_0000_0000,
                -(k * 0x100_0000_0000) <= denominator <= k * 0x100_0000_0000,
            decreases max_val + step - x,
        {
            proof {
                lemma_sample_inside(min_val as int, max_val as int, step as int, k as int);
                lemma_sample_next(min_val as int, step as int, k as int);
                self.membership_function.lemma_degree_bounded(x as int);
            }
            let mu: i64 = self.membership_function.evaluate(x as i64);
            assert(-0x1_0000_0000_0000_0000_0000 <= x * mu <= 0x1_0000_0000_0000_0000_0000)
                by (nonlinear_arith)
                requires
                    -0x100_0000_0000 <= x <= 0x100_0000_0000,
                    -0x100_0000_0000 <= mu <= 0x100_0000_0000,
            ;
            numerator = numerator + x * (mu as i128);
            denominator = denominator + mu as i128;
            x = x + step as i128;
            proof {
                k = k + 1;
            }
        }
        proof {
            lemma_sample_outside(min_val as int, max_val as int, step as int, k as int);
        }
        if denominator == 0 {
            0
        } else {
            floor_div(numerator, denominator)
        }
    }
}

impl Clone for FuzzySet {
    /// A copy with the same name and membership function.
    fn clone(&self) -> (copy: Self)
        ensures
            copy == *self,
    {
        FuzzySet {
            name: self.name.clone(),
            membership_function: self.membership_function.clone(),
        }
    }
}

} // verus!
