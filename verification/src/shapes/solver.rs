//! The quadratic time-of-impact solver.
//!
//! `quadratic` finds the real roots of `a*t^2 + b*t + c = 0` in fixed-point
//! arithmetic. The discriminant's `4*a*c` term is rounded toward positive
//! infinity and the square root rounds down, so the computed discriminant
//! and root err on the low side: a strictly separated, non-approaching pair
//! can never yield a spurious root at or above zero.
use crate::num::{s_add, s_div, s_mul, s_mul_up, s_neg, s_sqrt, s_sub, scalar_of, Scalar, SCALE};
use vstd::prelude::*;

verus! {

/// The computed discriminant `b*b - 4*a*c`, with the product term rounded
/// up.
pub open spec fn spec_discriminant(a: int, b: int, c: int) -> int {
    s_sub(s_mul(b, b), s_mul_up(s_mul_up(4 * SCALE as int, a), c))
}

/// The mirror of `quadratic`: the two roots, smaller first for a positive
/// leading coefficient, or nothing when the discriminant is negative or
/// the equation is not quadratic at all.
pub open spec fn spec_quadratic(a: Scalar, b: Scalar, c: Scalar) -> Option<(Scalar, Scalar)> {
    let below: int = spec_discriminant(a.m(), b.m(), c.m());
    if below < 0 {
        None
    } else if a.m() == 0 {
        None
    } else {
        let sq: int = s_sqrt(below);
        let nb: int = s_neg(b.m());
        let a2: int = s_mul(2 * SCALE as int, a.m());
        if sq == 0 {
            let r: int = s_div(nb, a2);
            Some((scalar_of(r), scalar_of(r)))
        } else {
            Some((scalar_of(s_div(s_sub(nb, sq), a2)), scalar_of(s_div(s_add(nb, sq), a2))))
        }
    }
}

/// Doubling a nonzero raw value in fixed point keeps its sign.
pub proof fn lemma_double_sign(a: int)
    ensures
        a > 0 ==> s_mul(2 * SCALE as int, a) > 0,
        a < 0 ==> s_mul(2 * SCALE as int, a) < 0,
        a != 0 ==> s_mul(2 * SCALE as int, a) != 0,
{
    let s: int = SCALE as int;
    let aa: int = crate::num::s_abs(a);
    assert(2 * s * aa == (2 * aa) * s) by (nonlinear_arith);
    vstd::arithmetic::div_mod::lemma_div_multiples_vanish(2 * aa, s);
    if a != 0 {
        assert(2 * aa >= 2);
    }
}

/// Solve `a*t^2 + b*t + c = 0`. Returns the pair of roots, the smaller
/// one first when `a` is positive; `None` when the discriminant is
/// negative, and also when `a` is zero - a zero leading coefficient means
/// no relative approach, hence no root to report.
pub fn quadratic(a: Scalar, b: Scalar, c: Scalar) -> (r: Option<(Scalar, Scalar)>)
    ensures
        r == spec_quadratic(a, b, c),
        spec_discriminant(a.m(), b.m(), c.m()) < 0 ==> r is None,
        a.m() == 0 ==> r is None,
        a.m() > 0 ==> (r matches Some(roots) ==> roots.0.m() <= roots.1.m()),
{
    let four = Scalar::from_int(4);
    let below_sqrt = b.mul(b).sub(four.mul_up(a).mul_up(c));
    if below_sqrt.is_negative() {
        None
    } else if a.is_zero() {
        None
    } else {
        proof {
            lemma_double_sign(a.m());
        }
        let sqrt = below_sqrt.sqrt();
        let nb = b.neg();
        let a2 = Scalar::from_int(2).mul(a);
        if sqrt.is_zero() {
            let r = nb.div(a2);
            Some((r, r))
        } else {
            let low = nb.sub(sqrt).div(a2);
            let high = nb.add(sqrt).div(a2);
            proof {
                if a.m() > 0 {
                    crate::num::lemma_sdiv_monotone(
                        s_sub(nb.m(), sqrt.m()),
                        s_add(nb.m(), sqrt.m()),
                        a2.m(),
                    );
                }
            }
            Some((low, high))
        }
    }
}

} // verus!
