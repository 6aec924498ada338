//! Membership functions: a small vocabulary of shapes closed under the
//! Zadeh operators.

use crate::fixed::{larger, magnitude, smaller, DEGREE_LIMIT, ONE};
use vstd::prelude::*;

verus! {

/// A membership function over the fixed-point line.
///
/// The leaves are elementary shapes; the other variants combine membership
/// functions pointwise.  Degrees are conventionally between zero and `ONE`,
/// but nothing clamps them: a constant may lie outside that range and the
/// operators carry such values through.
#[derive(Debug)]
pub enum Membership {
    /// The same degree everywhere.
    Constant(i64),
    /// Rises from zero at the first point to `ONE` at the second and falls
    /// back to zero at the third.
    Triangular(i64, i64, i64),
    /// Rises from zero at the first point to `ONE` at the second, stays at
    /// `ONE` up to the third and falls back to zero at the fourth.
    Trapezoidal(i64, i64, i64, i64),
    /// The pointwise maximum of two functions.
    Union(Box<Membership>, Box<Membership>),
    /// The pointwise minimum of two functions.
    Intersection(Box<Membership>, Box<Membership>),
    /// `ONE` minus the function.
    Complement(Box<Membership>),
    /// The function divided by the larger of `ONE` and itself.
    Normalized(Box<Membership>),
}

/// The degree at `x` of the trapezoid with feet `a`, `d` and shoulders `b`, `c`.
///
/// Slopes are rounded down to the fixed-point grid.  The definition is total:
/// an edge whose two ends coincide is a step.
pub open spec fn trapezoid_degree(a: int, b: int, c: int, d: int, x: int) -> int {
    if b <= x <= c {
        ONE as int
    } else if a < x < b {
        (x - a) * ONE / (b - a)
    } else if c < x < d {
        (d - x) * ONE / (d - c)
    } else {
        0
    }
}

/// A trapezoid's degree lies between zero and `ONE`.
pub proof fn lemma_trapezoid_range(a: int, b: int, c: int, d: int, x: int)
    ensures
        0 <= trapezoid_degree(a, b, c, d, x) <= ONE,
{
    if b <= x <= c {
    } else if a < x < b {
        lemma_edge_range(x - a, b - a);
    } else if c < x < d {
        lemma_edge_range(d - x, d - c);
    }
}

/// On an edge of width `w`, the degree `t * ONE / w` at offset `t` stays
/// within zero and `ONE`.
proof fn lemma_edge_range(t: int, w: int)
    requires
        0 < t < w,
    ensures
        0 <= t * ONE / w < ONE,
{
    let q = t * ONE / w;
    vstd::arithmetic::div_mod::lemma_fundamental_div_mod(t * ONE, w);
    assert(t * ONE == w * q + (t * ONE) % w);
    assert(0 <= t * ONE < w * ONE) by (nonlinear_arith)
        requires
            0 < t < w,
    ;
    assert(0 <= q < ONE) by (nonlinear_arith)
        requires
            0 <= w * q + (t * ONE) % w < w * ONE,
            0 <= (t * ONE) % w < w,
            w > 0,
    ;
}

impl Membership {
    /// The degree of membership of the point `x`.
    pub open spec fn degree(self, x: int) -> int
        decreases self,
    {
        match self {
            Membership::Constant(v) => v as int,
            Membership::Triangular(a, b, c) => trapezoid_degree(
                a as int,
                b as int,
                b as int,
                c as int,
                x,
            ),
            Membership::Trapezoidal(a, b, c, d) => trapezoid_degree(
                a as int,
                b as int,
                c as int,
                d as int,
                x,
            ),
            Membership::Union(left, right) => larger(left.degree(x), right.degree(x)),
            Membership::Intersection(left, right) => smaller(left.degree(x), right.degree(x)),
            Membership::Complement(inner) => ONE - inner.degree(x),
            Membership::Normalized(inner) => smaller(inner.degree(x), ONE as int),
        }
    }

    /// The pointwise maximum of this function and `other`.
    pub open spec fn union_with(self, other: Membership) -> Membership {
        Membership::Union(Box::new(self), Box::new(other))
    }

    /// The pointwise minimum of this function and `other`.
    pub open spec fn intersection_with(self, other: Membership) -> Membership {
        Membership::Intersection(Box::new(self), Box::new(other))
    }

    /// `ONE` minus this function.
    pub open spec fn complemented(self) -> Membership {
        Membership::Complement(Box::new(self))
    }

    /// This function with what exceeds `ONE` scaled down to `ONE`.
    pub open spec fn normalized(self) -> Membership {
        Membership::Normalized(Box::new(self))
    }

    /// A bound on the magnitude of every degree, read off the structure.
    pub open spec fn bound(self) -> nat
        decreases self,
    {
        match self {
            Membership::Constant(v) => magnitude(v as int) as nat,
            Membership::Triangular(_, _, _) => ONE as nat,
            Membership::Trapezoidal(_, _, _, _) => ONE as nat,
            Membership::Union(left, right) => larger(
                left.bound() as int,
                right.bound() as int,
            ) as nat,
            Membership::Intersection(left, right) => larger(
                left.bound() as int,
                right.bound() as int,
            ) as nat,
            Membership::Complement(inner) => inner.bound() + ONE as nat,
            Membership::Normalized(inner) => larger(inner.bound() as int, ONE as int) as nat,
        }
    }

    /// Well-formed functions stay within `DEGREE_LIMIT`, so that every degree
    /// can be computed in 64 bits.
    pub open spec fn wf(self) -> bool {
        self.bound() <= DEGREE_LIMIT
    }

    /// No degree exceeds the structural bound in magnitude.
    pub proof fn lemma_degree_bounded(self, x: int)
        ensures
            -self.bound() <= self.degree(x) <= self.bound(),
        decreases self,
    {
        match self {
            Membership::Constant(_) => {},
            Membership::Triangular(a, b, c) => {
                lemma_trapezoid_range(a as int, b as int, b as int, c as int, x);
            },
            Membership::Trapezoidal(a, b, c, d) => {
                lemma_trapezoid_range(a as int, b as int, c as int, d as int, x);
            },
            Membership::Union(left, right) => {
                left.lemma_degree_bounded(x);
                right.lemma_degree_bounded(x);
            },
            Membership::Intersection(left, right) => {
                left.lemma_degree_bounded(x);
                right.lemma_degree_bounded(x);
            },
            Membership::Complement(inner) => {
                inner.lemma_degree_bounded(x);
            },
            Membership::Normalized(inner) => {
                inner.lemma_degree_bounded(x);
            },
        }
    }

    /// Evaluates the function at `x`.
    pub fn evaluate(&self, x: i64) -> (mu: i64)
        requires
            self.wf(),
        ensures
            mu == self.degree(x as int),
        decreases self,
    {
        match self {
            Membership::Constant(v) => *v,
            Membership::Triangular(a, b, c) => trapezoid_at(*a, *b, *b, *c, x),
            Membership::Trapezoidal(a, b, c, d) => trapezoid_at(*a, *b, *c, *d, x),
            Membership::Union(left, right) => {
                let p: i64 = left.evaluate(x);
                let q: i64 = right.evaluate(x);
                if p >= q {
                    p
                } else {
                    q
                }
            },
            Membership::Intersection(left, right) => {
                let p: i64 = left.evaluate(x);
                let q: i64 = right.evaluate(x);
                if p <= q {
                    p
                } else {
                    q
                }
            },
            Membership::Complement(inner) => {
                proof {
                    inner.lemma_degree_bounded(x as int);
                }
                ONE - inner.evaluate(x)
            },
            Membership::Normalized(inner) => {
                let p: i64 = inner.evaluate(x);
                if p <= ONE {
                    p
                } else {
                    ONE
                }
            },
        }
    }

    /// The structural bound, cut off just above `DEGREE_LIMIT`.
    fn capped_bound(&self) -> (b: i64)
        ensures
            b == smaller(self.bound() as int, DEGREE_LIMIT + 1),
        decreases self,
    {
        match self {
            Membership::Constant(v) => {
                if *v > DEGREE_LIMIT || *v < -DEGREE_LIMIT {
                    DEGREE_LIMIT + 1
                } else if *v < 0 {
                    -*v
                } else {
                    *v
                }
            },
            Membership::Triangular(_, _, _) => ONE,
            Membership::Trapezoidal(_, _, _, _) => ONE,
            Membership::Union(left, right) => {
                let p: i64 = left.capped_bound();
                let q: i64 = right.capped_bound();
                if p >= q {
                    p
                } else {
                    q
                }
            },
            Membership::Intersection(left, right) => {
                let p: i64 = left.capped_bound();
                let q: i64 = right.capped_bound();
                if p >= q {
                    p
                } else {
                    q
                }
            },
            Membership::Complement(inner) => {
                let p: i64 = inner.capped_bound();
                if p + ONE > DEGREE_LIMIT {
                    DEGREE_LIMIT + 1
                } else {
                    p + ONE
                }
            },
            Membership::Normalized(inner) => {
                let p: i64 = inner.capped_bound();
                if p >= ONE {
                    p
                } else {
                    ONE
                }
            },
        }
    }

    /// Tells whether the function is well-formed.
    pub fn is_well_formed(&self) -> (ok: bool)
        ensures
            ok == self.wf(),
    {
        self.capped_bound() <= DEGREE_LIMIT
    }
}

impl Clone for Membership {
    /// A structural copy, equal to the function it was made from.
    fn clone(&self) -> (copy: Self)
        ensures
            copy == *self,
        decreases self,
    {
        match self {
            Membership::Constant(v) => Membership::Constant(*v),
            Membership::Triangular(a, b, c) => Membership::Triangular(*a, *b, *c),
            Membership::Trapezoidal(a, b, c, d) => Membership::Trapezoidal(*a, *b, *c, *d),
            Membership::Union(left, right) => Membership::Union(
                Box::new((&**left).clone()),
                Box::new((&**right).clone()),
            ),
            Membership::Intersection(left, right) => Membership::Intersection(
                Box::new((&**left).clone()),
                Box::new((&**right).clone()),
            ),
            Membership::Complement(inner) => Membership::Complement(Box::new((&**inner).clone())),
            Membership::Normalized(inner) => Membership::Normalized(Box::new((&**inner).clone())),
        }
    }
}

/// Evaluates a trapezoid at `x`.
fn trapezoid_at(a: i64, b: i64, c: i64, d: i64, x: i64) -> (mu: i64)
    ensures
        mu == trapezoid_degree(a as int, b as int, c as int, d as int, x as int),
{
    if b <= x && x <= c {
        ONE
    } else if a < x && x < b {
        edge_at(x as i128 - a as i128, b as i128 - a as i128)
    } else if c < x && x < d {
        edge_at(d as i128 - x as i128, d as i128 - c as i128)
    } else {
        0
    }
}

/// The degree at offset `t` along an edge of width `w`.
fn edge_at(t: i128, w: i128) -> (mu: i64)
    requires
        0 < t < w,
        w <= 0x1_0000_0000_0000_0000,
    ensures
        mu == t * ONE / (w as int),
{
    proof {
        lemma_edge_range(t as int, w as int);
        assert(0 <= t * ONE <= 0x1_0000_0000_0000_0000 * 1_000_000) by (nonlinear_arith)
            requires
                0 < t < 0x1_0000_0000_0000_0000,
        ;
    }
    let scaled: i128 = t * (ONE as i128);
    (scaled / w) as i64
}

} // verus!
