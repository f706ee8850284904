//! The vector type of the engine: a pair of fixed-point scalars with the
//! field operations the collision pipeline needs (addition, subtraction,
//! scaling, division, dot product) and the derived helpers (squared length,
//! length, normalization, reflection). Every operation's result is pinned
//! by a spec-level mirror built from the scalar spec functions.
use crate::num::{
    lemma_isqrt_is_sqrt, s_add, s_div, s_isqrt, s_mul, s_mul_up, s_sqrt, s_sqrt_up, scalar_of,
    Scalar, MAX_RAW, SCALE,
};
use vstd::prelude::*;

verus! {

/// A two-dimensional vector of fixed-point scalars.
#[derive(Clone, Copy, PartialEq, Eq, Debug)]
pub struct Vector {
    pub x: Scalar,
    pub y: Scalar,
}

/// Componentwise sum.
pub open spec fn v_add(a: Vector, b: Vector) -> Vector {
    Vector { x: scalar_of(s_add(a.x.m(), b.x.m())), y: scalar_of(s_add(a.y.m(), b.y.m())) }
}

/// Componentwise difference.
pub open spec fn v_sub(a: Vector, b: Vector) -> Vector {
    Vector {
        x: scalar_of(s_add(a.x.m(), -b.x.m())),
        y: scalar_of(s_add(a.y.m(), -b.y.m())),
    }
}

/// Both components scaled by the raw value `s`.
pub open spec fn v_scale(a: Vector, s: int) -> Vector {
    Vector { x: scalar_of(s_mul(a.x.m(), s)), y: scalar_of(s_mul(a.y.m(), s)) }
}

/// Both components divided by the raw value `s`.
pub open spec fn v_div(a: Vector, s: int) -> Vector {
    Vector { x: scalar_of(s_div(a.x.m(), s)), y: scalar_of(s_div(a.y.m(), s)) }
}

/// Dot product, as a raw value.
pub open spec fn v_dot(a: Vector, b: Vector) -> int {
    s_add(s_mul(a.x.m(), b.x.m()), s_mul(a.y.m(), b.y.m()))
}

/// Squared length, as a raw value.
pub open spec fn v_len_sq(a: Vector) -> int {
    v_dot(a, a)
}

/// Length: the rounded-down fixed-point square root of the squared length.
pub open spec fn v_len(a: Vector) -> int {
    s_sqrt(v_len_sq(a))
}

/// The exact squared norm, over the mathematical integers: no scaling,
/// no rounding, no saturation.
pub open spec fn v_norm2(a: Vector) -> int {
    a.x.m() * a.x.m() + a.y.m() * a.y.m()
}

/// Squared length with every rounding upward.
pub open spec fn v_len_sq_up(a: Vector) -> int {
    s_add(s_mul_up(a.x.m(), a.x.m()), s_mul_up(a.y.m(), a.y.m()))
}

/// An upper bound on the length: the rounded-up square root of the
/// rounded-up squared length.
pub open spec fn v_len_up(a: Vector) -> int {
    s_sqrt_up(v_len_sq_up(a))
}

/// A zero-length vector normalizes to itself; any other divides by its
/// length.
pub open spec fn v_normalized(a: Vector) -> Vector {
    if v_len_sq(a) == 0 {
        a
    } else {
        v_div(a, v_len(a))
    }
}

/// Reflection of `a` about the normal `n`: `a - n * 2 * dot(a, n)`.
pub open spec fn v_reflect(a: Vector, n: Vector) -> Vector {
    v_sub(a, v_scale(v_scale(n, 2 * SCALE as int), v_dot(a, n)))
}

/// A product of a raw value with itself is nonnegative.
pub proof fn lemma_s_mul_self_nonneg(x: int)
    ensures
        s_mul(x, x) >= 0,
{
    vstd::arithmetic::div_mod::lemma_div_pos_is_pos(
        crate::num::s_abs(x) * crate::num::s_abs(x),
        SCALE as int,
    );
    assert(crate::num::s_abs(x) * crate::num::s_abs(x) >= 0) by (nonlinear_arith);
}

/// Squared lengths are nonnegative.
pub proof fn lemma_len_sq_nonneg(a: Vector)
    ensures
        v_len_sq(a) >= 0,
{
    lemma_s_mul_self_nonneg(a.x.m());
    lemma_s_mul_self_nonneg(a.y.m());
}

/// An upward-rounded product of a value with itself is at least the
/// exact product scaled down.
proof fn lemma_s_mul_up_self(x: int)
    ensures
        s_mul_up(x, x) >= 0,
        s_mul_up(x, x) == MAX_RAW as int || (SCALE as int) * s_mul_up(x, x) >= x * x,
{
    let s: int = SCALE as int;
    let ax: int = crate::num::s_abs(x);
    let p: int = ax * ax;
    assert(crate::num::s_abs(x) * crate::num::s_abs(x) >= 0) by (nonlinear_arith);
    crate::num::lemma_ceil_form(p, s);
    vstd::arithmetic::div_mod::lemma_div_pos_is_pos(p, s);
    let c: int = (p + s - 1) / s;
    vstd::arithmetic::div_mod::lemma_fundamental_div_mod(p, s);
    vstd::arithmetic::div_mod::lemma_mod_bound(p, s);
    assert(s * c >= p) by (nonlinear_arith)
        requires
            c == p / s + (if p % s == 0 {
                0int
            } else {
                1int
            }),
            p == s * (p / s) + p % s,
            0 <= p % s < s,
            s >= 1,
    ;
    assert(x * x == crate::num::s_abs(x) * crate::num::s_abs(x)) by (nonlinear_arith);
}

/// The upper-bound length really bounds the exact norm, as long as the
/// exact squared norm is representable after scaling down.
pub proof fn lemma_len_up_bounds(a: Vector)
    ensures
        v_len_up(a) >= 0,
        v_norm2(a) <= (SCALE as int) * (MAX_RAW as int) ==> v_norm2(a) <= v_len_up(a) * v_len_up(
            a,
        ),
{
    let s: int = SCALE as int;
    let mx: int = MAX_RAW as int;
    lemma_s_mul_up_self(a.x.m());
    lemma_s_mul_up_self(a.y.m());
    let ux: int = s_mul_up(a.x.m(), a.x.m());
    let uy: int = s_mul_up(a.y.m(), a.y.m());
    let q: int = v_len_sq_up(a);
    lemma_isqrt_is_sqrt(q * s);
    assert(q * s >= 0) by (nonlinear_arith)
        requires
            q >= 0,
            s >= 1,
    ;
    let r: int = s_isqrt(q * s);
    let l: int = v_len_up(a);
    assert(l * l >= q * s);
    if v_norm2(a) <= s * mx {
        assert(v_norm2(a) <= q * s) by {
            if ux == mx || uy == mx || ux + uy > mx {
                // The upward sum saturated at the ceiling, which already
                // dominates the representable exact norm.
                assert(q == mx);
            } else {
                assert(s * ux >= a.x.m() * a.x.m());
                assert(s * uy >= a.y.m() * a.y.m());
                assert(q == ux + uy);
            }
            assert(q * s == s * q) by (nonlinear_arith);
        };
    }
}

impl Vector {
    /// Build a vector from its two scalar components.
    pub fn new(x: Scalar, y: Scalar) -> (r: Vector)
        ensures
            r == (Vector { x, y }),
    {
        Vector { x, y }
    }

    /// Componentwise sum.
    pub fn add(self, other: Vector) -> (r: Vector)
        ensures
            r == v_add(self, other),
    {
        Vector { x: self.x.add(other.x), y: self.y.add(other.y) }
    }

    /// Componentwise difference.
    pub fn sub(self, other: Vector) -> (r: Vector)
        ensures
            r == v_sub(self, other),
    {
        Vector { x: self.x.sub(other.x), y: self.y.sub(other.y) }
    }

    /// Both components scaled by `s`.
    pub fn mul(self, s: Scalar) -> (r: Vector)
        ensures
            r == v_scale(self, s.m()),
    {
        Vector { x: self.x.mul(s), y: self.y.mul(s) }
    }

    /// Both components divided by `s`.
    pub fn div(self, s: Scalar) -> (r: Vector)
        requires
            s.m() != 0,
        ensures
            r == v_div(self, s.m()),
    {
        Vector { x: self.x.div(s), y: self.y.div(s) }
    }

    /// Dot product.
    pub fn dot(self, other: Vector) -> (r: Scalar)
        ensures
            r == scalar_of(v_dot(self, other)),
            r.m() == v_dot(self, other),
    {
        self.x.mul(other.x).add(self.y.mul(other.y))
    }

    /// Squared length.
    pub fn length_sq(self) -> (r: Scalar)
        ensures
            r == scalar_of(v_len_sq(self)),
            r.m() == v_len_sq(self),
            r.m() >= 0,
    {
        proof {
            lemma_len_sq_nonneg(self);
        }
        self.dot(self)
    }

    /// Length, rounded down.
    pub fn length(self) -> (r: Scalar)
        ensures
            r == scalar_of(v_len(self)),
            r.m() == v_len(self),
            r.m() >= 0,
    {
        self.length_sq().sqrt()
    }

    /// An upper bound on the length: every rounding goes upward, so the
    /// result never understates the vector's reach. Used for the cached
    /// speeds that feed the conservative broad phase.
    pub fn length_up(self) -> (r: Scalar)
        ensures
            r == scalar_of(v_len_up(self)),
            r.m() == v_len_up(self),
            r.m() >= 0,
    {
        proof {
            lemma_s_mul_up_self(self.x.m());
            lemma_s_mul_up_self(self.y.m());
        }
        self.x.mul_up(self.x).add(self.y.mul_up(self.y)).sqrt_up()
    }

    /// Reflection about the normal `n`.
    pub fn reflect(self, normal: Vector) -> (r: Vector)
        ensures
            r == v_reflect(self, normal),
    {
        self.sub(normal.mul(Scalar::from_int(2)).mul(self.dot(normal)))
    }

    /// The vector scaled to (roughly) unit length; the zero vector is
    /// returned unchanged.
    pub fn normalized(self) -> (r: Vector)
        ensures
            r == v_normalized(self),
    {
        let sq = self.length_sq();
        if sq.is_zero() {
            self
        } else {
            proof {
                crate::num::lemma_sqrt_pos(v_len_sq(self));
            }
            self.div(sq.sqrt())
        }
    }
}

} // verus!
