//! Fixed-point numbers and the integer arithmetic shared by the library.

use vstd::arithmetic::div_mod::lemma_fundamental_div_mod;
use vstd::arithmetic::div_mod::lemma_fundamental_div_mod_converse;
use vstd::prelude::*;

verus! {

/// The fixed-point representation of one: full membership, unit weight.
pub const ONE: i64 = 1_000_000;

/// Largest magnitude that a well-formed membership function may reach.
pub const DEGREE_LIMIT: i64 = 0x100_0000_0000;

/// Largest magnitude of a domain bound that the scans accept.
pub const DOMAIN_LIMIT: i64 = 0x100_0000_0000;

/// Largest magnitude of a rule's weight.
pub const WEIGHT_LIMIT: i64 = 0x100_0000_0000;

/// The larger of two integers.
pub open spec fn larger(a: int, b: int) -> int {
    if a >= b {
        a
    } else {
        b
    }
}

/// The smaller of two integers.
pub open spec fn smaller(a: int, b: int) -> int {
    if a <= b {
        a
    } else {
        b
    }
}

/// The absolute value of an integer.
pub open spec fn magnitude(a: int) -> int {
    if a < 0 {
        -a
    } else {
        a
    }
}

/// The quotient `n / d` rounded towards negative infinity, for `d != 0`.
pub open spec fn floor_ratio(n: int, d: int) -> int {
    if d > 0 {
        n / d
    } else {
        (-n) / (-d)
    }
}

/// `floor_ratio(n, d)` is the one integer `q` with `q <= n / d < q + 1`.
pub proof fn lemma_floor_ratio_brackets(n: int, d: int)
    requires
        d != 0,
    ensures
        d > 0 ==> floor_ratio(n, d) * d <= n < (floor_ratio(n, d) + 1) * d,
        d < 0 ==> floor_ratio(n, d) * d >= n > (floor_ratio(n, d) + 1) * d,
{
    if d > 0 {
        let q = n / d;
        lemma_fundamental_div_mod(n, d);
        assert(n == d * q + n % d);
        assert(q * d == d * q && (q + 1) * d == d * q + d) by (nonlinear_arith);
    } else {
        let q = (-n) / (-d);
        lemma_fundamental_div_mod(-n, -d);
        assert(-n == (-d) * q + (-n) % (-d));
        assert(q * d == -((-d) * q) && (q + 1) * d == -((-d) * q) + d) by (nonlinear_arith);
    }
}

/// Any integer that brackets `n / d` from below is `floor_ratio(n, d)`.
pub proof fn lemma_floor_ratio_unique(n: int, d: int, q: int)
    requires
        d > 0,
        q * d <= n < (q + 1) * d,
    ensures
        floor_ratio(n, d) == q,
{
    assert((q + 1) * d == q * d + d) by (nonlinear_arith);
    lemma_fundamental_div_mod_converse(n, d, q, n - q * d);
}

/// Rounding down never moves a quotient across an integer threshold:
/// `floor_ratio(n, d)` is at least `t` exactly when `n / d` is.
pub proof fn lemma_floor_ratio_threshold(n: int, d: int, t: int)
    requires
        d != 0,
    ensures
        d > 0 ==> (floor_ratio(n, d) >= t <==> n >= t * d),
        d < 0 ==> (floor_ratio(n, d) >= t <==> n <= t * d),
{
    let q = floor_ratio(n, d);
    lemma_floor_ratio_brackets(n, d);
    if d > 0 {
        assert(q >= t <==> n >= t * d) by (nonlinear_arith)
            requires
                d > 0,
                q * d <= n < (q + 1) * d,
        ;
    } else {
        assert(q >= t <==> n <= t * d) by (nonlinear_arith)
            requires
                d < 0,
                q * d >= n > (q + 1) * d,
        ;
    }
}

/// A sum of `count` terms, each between `low` and `high`, divided by
/// `count` lies between `low` and `high`.
pub proof fn lemma_mean_within(sum: int, count: int, low: int, high: int)
    requires
        count > 0,
        low * count <= sum <= high * count,
    ensures
        low <= floor_ratio(sum, count) <= high,
{
    let q = floor_ratio(sum, count);
    lemma_floor_ratio_brackets(sum, count);
    assert(low <= q) by (nonlinear_arith)
        requires
            count > 0,
            low * count <= sum,
            sum < (q + 1) * count,
    ;
    assert(q <= high) by (nonlinear_arith)
        requires
            count > 0,
            sum <= high * count,
            q * count <= sum,
    ;
}

/// Divides rounding towards negative infinity.
pub fn floor_div(n: i128, d: i128) -> (q: i128)
    requires
        d != 0,
        i128::MIN < n,
        i128::MIN < d,
    ensures
        q == floor_ratio(n as int, d as int),
{
    let top: i128 = if d < 0 { -n } else { n };
    let bottom: i128 = if d < 0 { -d } else { d };
    let q: i128 = top / bottom;
    let r: i128 = top % bottom;
    if r < 0 {
        proof {
            let a = (-top) / (bottom as int);
            let b = (-top) % (bottom as int);
            lemma_fundamental_div_mod(-top, bottom as int);
            assert(top == (-a - 1) * bottom + (bottom - b)) by (nonlinear_arith)
                requires
                    -top == bottom * a + b,
            ;
            lemma_fundamental_div_mod_converse(top as int, bottom as int, -a - 1, bottom - b);
        }
        q - 1
    } else {
        proof {
            if top < 0 {
                let a = (-top) / (bottom as int);
                lemma_fundamental_div_mod(-top, bottom as int);
                assert(top == (-a) * bottom + 0) by (nonlinear_arith)
                    requires
                        -top == bottom * a + 0,
                ;
                lemma_fundamental_div_mod_converse(top as int, bottom as int, -a, 0);
            }
        }
        q
    }
}

} // verus!
