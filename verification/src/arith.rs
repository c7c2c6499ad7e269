//! Integer helpers of the refinement prover: solving `coeff * x op rhs` for
//! a single integer variable, and floor / ceiling division.

use vstd::prelude::*;
use vstd::arithmetic::div_mod::lemma_fundamental_div_mod;
use vstd::arithmetic::div_mod::lemma_mod_bound;
use vstd::arithmetic::div_mod::lemma_fundamental_div_mod_converse;

verus! {

/// A comparison between a linear term and a constant.
#[derive(Clone, Copy, Debug, PartialEq, Eq, Structural)]
pub enum ComparisonOp {
    Eq,
    Ne,
    Lt,
    Le,
    Gt,
    Ge,
}

/// `a op b` holds.
pub open spec fn relation_holds(op: ComparisonOp, a: int, b: int) -> bool {
    match op {
        ComparisonOp::Eq => a == b,
        ComparisonOp::Ne => a != b,
        ComparisonOp::Lt => a < b,
        ComparisonOp::Le => a <= b,
        ComparisonOp::Gt => a > b,
        ComparisonOp::Ge => a >= b,
    }
}

/// `x` lies between the optional bounds.
pub open spec fn within(bounds: (Option<i64>, Option<i64>), x: int) -> bool {
    &&& (match bounds.0 {
        Some(lo) => lo <= x,
        None => true,
    })
    &&& (match bounds.1 {
        Some(hi) => x <= hi,
        None => true,
    })
}

/// Division rounding towards minus infinity, on mathematical integers.
pub open spec fn floor_div(n: int, d: int) -> int {
    if d > 0 {
        n / d
    } else {
        (-n) / (-d)
    }
}

/// Division rounding towards plus infinity, on mathematical integers.
pub open spec fn ceil_div(n: int, d: int) -> int {
    -floor_div(-n, d)
}

/// `floor_div` is the greatest `q` with `q * d <= n` (for a positive divisor),
/// and the least `q` with `q * d >= n` (for a negative one).
pub proof fn lemma_floor_div_bounds(n: int, d: int)
    requires
        d != 0,
    ensures
        d > 0 ==> floor_div(n, d) * d <= n < floor_div(n, d) * d + d,
        d < 0 ==> floor_div(n, d) * d >= n > floor_div(n, d) * d + d,
{
    let (nn, dd) = if d > 0 {
        (n, d)
    } else {
        (-n, -d)
    };
    let q = nn / dd;
    lemma_fundamental_div_mod(nn, dd);
    lemma_mod_bound(nn, dd);
    assert(q * dd <= nn < q * dd + dd) by (nonlinear_arith)
        requires
            nn == dd * q + nn % dd,
            0 <= nn % dd < dd,
    ;
    if d < 0 {
        assert(q * d == -(q * dd)) by (nonlinear_arith)
            requires
                dd == -d,
        ;
    }
}

/// `ceil_div` is the least `q` with `q * d >= n` (for a positive divisor).
pub proof fn lemma_ceil_div_bounds(n: int, d: int)
    requires
        d > 0,
    ensures
        ceil_div(n, d) * d >= n > ceil_div(n, d) * d - d,
{
    lemma_floor_div_bounds(-n, d);
    let q = floor_div(-n, d);
    assert((-q) * d == -(q * d)) by (nonlinear_arith);
}

/// Euclidean division by a positive divisor stays between zero and the
/// numerator.
proof fn lemma_div_pos_range(n: int, d: int)
    requires
        d >= 1,
    ensures
        n >= 0 ==> 0 <= n / d <= n,
        n < 0 ==> n <= n / d < 0,
{
    lemma_fundamental_div_mod(n, d);
    lemma_mod_bound(n, d);
    let q = n / d;
    let r = n % d;
    assert(n >= 0 ==> 0 <= q <= n) by (nonlinear_arith)
        requires
            n == d * q + r,
            0 <= r < d,
            d >= 1,
    ;
    assert(n < 0 ==> n <= q < 0) by (nonlinear_arith)
        requires
            n == d * q + r,
            0 <= r < d,
            d >= 1,
    ;
}

/// Floor division of wide integers by a positive divisor.
fn floor_div_wide(n: i128, d: i128) -> (q: i128)
    requires
        d >= 1,
        -0x1_0000_0000_0000_0000 <= n <= 0x1_0000_0000_0000_0000,
    ensures
        q == n / d,
        n >= 0 ==> 0 <= q <= n,
        n < 0 ==> n <= q < 0,
{
    proof {
        lemma_div_pos_range(n as int, d as int);
    }
    match n.checked_div_euclid(d) {
        Some(q) => q,
        None => {
            assert(false);
            0
        },
    }
}

/// Division rounding towards minus infinity.
pub fn div_floor(numerator: i64, denominator: i64) -> (r: i64)
    requires
        denominator != 0,
        !(numerator == i64::MIN && denominator == -1),
    ensures
        r == floor_div(numerator as int, denominator as int),
{
    let n: i128 = numerator as i128;
    let d: i128 = denominator as i128;
    let q: i128 = if d > 0 {
        floor_div_wide(n, d)
    } else {
        floor_div_wide(-n, -d)
    };
    proof {
        if d == -1 {
            assert((-n) / 1 == -n) by (nonlinear_arith);
        } else if d == 1 {
            assert(n / 1 == n) by (nonlinear_arith);
        } else {
            let nn: int = if d > 0 { n as int } else { -n };
            let dd: int = if d > 0 { d as int } else { -d };
            lemma_fundamental_div_mod(nn, dd);
            lemma_mod_bound(nn, dd);
            assert(-0x4000_0000_0000_0001 <= nn / dd <= 0x4000_0000_0000_0000) by (nonlinear_arith)
                requires
                    nn == dd * (nn / dd) + nn % dd,
                    0 <= nn % dd < dd,
                    dd >= 2,
                    -0x8000_0000_0000_0000 <= nn <= 0x8000_0000_0000_0000,
            ;
        }
    }
    q as i64
}

/// Division rounding towards plus infinity.
pub fn div_ceil(numerator: i64, denominator: i64) -> (r: i64)
    requires
        denominator != 0,
        !(numerator == i64::MIN && denominator == -1),
    ensures
        r == ceil_div(numerator as int, denominator as int),
{
    let n: i128 = -(numerator as i128);
    let d: i128 = denominator as i128;
    let q: i128 = if d > 0 {
        floor_div_wide(n, d)
    } else {
        floor_div_wide(-n, -d)
    };
    proof {
        if d == -1 {
            assert((-n) / 1 == -n) by (nonlinear_arith);
        } else if d == 1 {
            assert(n / 1 == n) by (nonlinear_arith);
        } else {
            let nn: int = if d > 0 { n as int } else { -n };
            let dd: int = if d > 0 { d as int } else { -d };
            lemma_fundamental_div_mod(nn, dd);
            lemma_mod_bound(nn, dd);
            assert(-0x4000_0000_0000_0001 <= nn / dd <= 0x4000_0000_0000_0000) by (nonlinear_arith)
                requires
                    nn == dd * (nn / dd) + nn % dd,
                    0 <= nn % dd < dd,
                    dd >= 2,
                    -0x8000_0000_0000_0000 <= nn <= 0x8000_0000_0000_0000,
            ;
        }
    }
    (-q) as i64
}

/// `x <= floor_div(n, c)` exactly when `c * x <= n`, for a positive `c`.
pub proof fn lemma_floor_div_le(n: int, c: int, x: int)
    requires
        c > 0,
    ensures
        x <= floor_div(n, c) <==> c * x <= n,
{
    lemma_floor_div_bounds(n, c);
    let q = floor_div(n, c);
    if x <= q {
        assert(c * x <= c * q) by (nonlinear_arith)
            requires
                c > 0,
                x <= q,
        ;
        assert(c * q == q * c) by (nonlinear_arith);
    } else {
        assert(c * x >= c * q + c) by (nonlinear_arith)
            requires
                c > 0,
                x >= q + 1,
        ;
        assert(c * q == q * c) by (nonlinear_arith);
    }
}

/// `x >= ceil_div(n, c)` exactly when `c * x >= n`, for a positive `c`.
pub proof fn lemma_ceil_div_ge(n: int, c: int, x: int)
    requires
        c > 0,
    ensures
        x >= ceil_div(n, c) <==> c * x >= n,
{
    lemma_floor_div_le(-n, c, -x);
    assert(c * (-x) == -(c * x)) by (nonlinear_arith);
}

/// The sign-normalised form of `coeff * x op rhs`: a positive coefficient,
/// the comparison mirrored and the constant negated when `coeff` is negative.
pub open spec fn normalized_op(coeff: int, op: ComparisonOp) -> ComparisonOp {
    if coeff > 0 {
        op
    } else {
        match op {
            ComparisonOp::Lt => ComparisonOp::Gt,
            ComparisonOp::Le => ComparisonOp::Ge,
            ComparisonOp::Gt => ComparisonOp::Lt,
            ComparisonOp::Ge => ComparisonOp::Le,
            other => other,
        }
    }
}

pub open spec fn normalized_rhs(coeff: int, rhs: int) -> int {
    if coeff > 0 {
        rhs
    } else {
        -rhs
    }
}

/// The inputs on which `solve_single_var_interval` stays within `i64`:
/// negating the coefficient and the constant, and stepping the constant by
/// one for a strict comparison, must not overflow.
pub open spec fn interval_solvable(coeff: i64, op: ComparisonOp, rhs: i64) -> bool {
    coeff != 0 ==> {
        &&& coeff != i64::MIN
        &&& (coeff < 0 ==> rhs != i64::MIN)
        &&& (normalized_op(coeff as int, op) == ComparisonOp::Lt ==> normalized_rhs(
            coeff as int,
            rhs as int,
        ) != i64::MIN)
        &&& (normalized_op(coeff as int, op) == ComparisonOp::Gt ==> normalized_rhs(
            coeff as int,
            rhs as int,
        ) != i64::MAX)
    }
}

/// `x` solves `coeff * x == rhs`.
pub open spec fn solves(coeff: int, x: int, rhs: int) -> bool {
    coeff * x == rhs
}

/// The integer solution of `coeff * x == rhs`, where the coefficient is not
/// zero and there is one (it is then the only one).
pub open spec fn exact_solution(coeff: i64, rhs: i64) -> Option<i64> {
    if coeff != 0 && exists|x: int| #[trigger] solves(coeff as int, x, rhs as int) {
        Some((choose|x: int| #[trigger] solves(coeff as int, x, rhs as int)) as i64)
    } else {
        None
    }
}

/// `coeff * x == rhs` has an integer solution `x`; when it has one, it is
/// returned. A zero coefficient gives `None`.
pub fn solve_exact_single_var(coeff: i64, rhs: i64) -> (r: Option<i64>)
    requires
        !(coeff == -1 && rhs == i64::MIN),
    ensures
        coeff == 0 ==> r is None,
        coeff != 0 ==> match r {
            Some(v) => coeff * v == rhs,
            None => forall|x: int| !#[trigger] solves(coeff as int, x, rhs as int),
        },
        r == exact_solution(coeff, rhs),
{
    let r = solve_exact_inner(coeff, rhs);
    proof {
        if let Some(v) = r {
            assert(solves(coeff as int, v as int, rhs as int));
            let x = choose|x: int| #[trigger] solves(coeff as int, x, rhs as int);
            assert(x == v) by (nonlinear_arith)
                requires
                    coeff * x == rhs,
                    coeff * v == rhs,
                    coeff != 0,
            ;
        }
    }
    r
}

fn solve_exact_inner(coeff: i64, rhs: i64) -> (r: Option<i64>)
    requires
        !(coeff == -1 && rhs == i64::MIN),
    ensures
        coeff == 0 ==> r is None,
        coeff != 0 ==> match r {
            Some(v) => coeff * v == rhs,
            None => forall|x: int| !#[trigger] solves(coeff as int, x, rhs as int),
        },
{
    if coeff == 0 {
        return None;
    }
    let n: i128 = rhs as i128;
    let d: i128 = coeff as i128;
    let nn: i128 = if d > 0 { n } else { -n };
    let dd: i128 = if d > 0 { d } else { -d };
    let q = floor_div_wide(nn, dd);
    proof {
        lemma_fundamental_div_mod(nn as int, dd as int);
        lemma_mod_bound(nn as int, dd as int);
        assert(dd * q == q * dd) by (nonlinear_arith);
    }
    if q * dd == nn {
        proof {
            if d < 0 {
                assert(coeff * q == -(q * dd)) by (nonlinear_arith)
                    requires
                        dd == -coeff,
                ;
            } else {
                assert(coeff * q == q * dd) by (nonlinear_arith)
                    requires
                        dd == coeff,
                ;
            }
            if dd == 1 {
                assert(q == nn) by (nonlinear_arith)
                    requires
                        q * dd == nn,
                        dd == 1,
                ;
            } else {
                assert(-0x4000_0000_0000_0001 <= q <= 0x4000_0000_0000_0000) by (nonlinear_arith)
                    requires
                        q * dd == nn,
                        dd >= 2,
                        -0x8000_0000_0000_0000 <= nn <= 0x8000_0000_0000_0000,
                ;
            }
        }
        Some(q as i64)
    } else {
        proof {
            assert forall|x: int| !#[trigger] solves(coeff as int, x, rhs as int) by {
                if coeff * x == rhs {
                    assert(dd * x == nn) by (nonlinear_arith)
                        requires
                            coeff * x == rhs,
                            dd == (if coeff > 0 { coeff as int } else { -coeff }),
                            nn == (if coeff > 0 { rhs as int } else { -rhs }),
                    ;
                    lemma_fundamental_div_mod_converse(nn as int, dd as int, x, 0);
                }
            }
        }
        None
    }
}

/// The bounds `solve_single_var_interval` computes: with the coefficient made
/// positive (`d`) and the constant `n` adjusted to match, `x < n` becomes
/// `x <= floor((n - 1) / d)`, `x <= n` becomes `x <= floor(n / d)`, and
/// likewise upwards with the ceiling.
pub open spec fn interval_bounds(coeff: i64, op: ComparisonOp, rhs: i64) -> Option<
    (Option<i64>, Option<i64>),
> {
    let n = normalized_rhs(coeff as int, rhs as int);
    let d: int = if coeff < 0 { -coeff } else { coeff as int };
    if coeff == 0 {
        None
    } else {
        match normalized_op(coeff as int, op) {
            ComparisonOp::Lt => Some((None, Some(floor_div(n - 1, d) as i64))),
            ComparisonOp::Le => Some((None, Some(floor_div(n, d) as i64))),
            ComparisonOp::Gt => Some((Some(ceil_div(n + 1, d) as i64), None)),
            ComparisonOp::Ge => Some((Some(ceil_div(n, d) as i64), None)),
            _ => None,
        }
    }
}

/// The bounds of the integers `x` with `coeff * x op rhs`, for an ordering
/// comparison and a non-zero coefficient; `None` for `==`, `!=` or a zero
/// coefficient.
pub fn solve_single_var_interval(coeff: i64, op: ComparisonOp, rhs: i64) -> (r: Option<
    (Option<i64>, Option<i64>),
>)
    requires
        interval_solvable(coeff, op, rhs),
    ensures
        r is None <==> (coeff == 0 || op == ComparisonOp::Eq || op == ComparisonOp::Ne),
        match r {
            Some(bounds) => forall|x: int| within(bounds, x) <==> relation_holds(op, coeff * x, rhs as int),
            None => true,
        },
        r == interval_bounds(coeff, op, rhs),
{
    if coeff == 0 {
        return None;
    }
    let (normalized_op, normalized_rhs) = if coeff > 0 {
        (op, rhs)
    } else {
        (
            match op {
                ComparisonOp::Lt => ComparisonOp::Gt,
                ComparisonOp::Le => ComparisonOp::Ge,
                ComparisonOp::Gt => ComparisonOp::Lt,
                ComparisonOp::Ge => ComparisonOp::Le,
                other => other,
            },
            -rhs,
        )
    };
    let divisor: i64 = if coeff < 0 { -coeff } else { coeff };
    let interval = match normalized_op {
        ComparisonOp::Lt => (None, Some(div_floor(normalized_rhs - 1, divisor))),
        ComparisonOp::Le => (None, Some(div_floor(normalized_rhs, divisor))),
        ComparisonOp::Gt => (Some(div_ceil(normalized_rhs + 1, divisor)), None),
        ComparisonOp::Ge => (Some(div_ceil(normalized_rhs, divisor)), None),
        ComparisonOp::Eq | ComparisonOp::Ne => return None,
    };
    proof {
        let c = divisor as int;
        let n = normalized_rhs as int;
        assert forall|x: int| within(interval, x) <==> relation_holds(op, coeff * x, rhs as int) by {
            assert(coeff * x == (if coeff > 0 { c * x } else { -(c * x) })) by (nonlinear_arith)
                requires
                    c == (if coeff > 0 { coeff as int } else { -coeff }),
            ;
            lemma_floor_div_le(n - 1, c, x);
            lemma_floor_div_le(n, c, x);
            lemma_ceil_div_ge(n + 1, c, x);
            lemma_ceil_div_ge(n, c, x);
        }
    }
    Some(interval)
}

} // verus!
