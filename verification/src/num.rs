//! The scalar number type of the engine.
//!
//! Scalars are exact fixed-point numbers: a value is an integer count of
//! micro-units (`SCALE` raw units make 1.0). All operations are total:
//! results outside the representable range saturate at the boundary.
//! Multiplication truncates toward zero, division rounds toward negative
//! infinity, and the square root rounds down; upward-rounded variants of
//! multiplication and the square root serve where a bound must never
//! understate. Each operation's result is pinned exactly by a spec
//! function over the mathematical integers.
use vstd::prelude::*;

verus! {

/// Raw units per 1.0 of scalar value.
pub const SCALE: u128 = 1_000_000;

/// Largest raw magnitude a scalar can hold.
pub const MAX_RAW: i128 = 1_000_000_000_000_000_000_000_000;

/// An exact fixed-point scalar: `raw` micro-units, |raw| <= MAX_RAW.
#[derive(Clone, Copy, PartialEq, Eq, Debug)]
pub struct Scalar {
    raw: i128,
}

/// Clamp a mathematical integer into the representable raw range.
pub open spec fn sat_val(x: int) -> int {
    if x > MAX_RAW as int {
        MAX_RAW as int
    } else if x < -(MAX_RAW as int) {
        -(MAX_RAW as int)
    } else {
        x
    }
}

/// Absolute value of a mathematical integer.
pub open spec fn s_abs(x: int) -> int {
    if x < 0 {
        -x
    } else {
        x
    }
}

/// Saturating addition on raw values.
pub open spec fn s_add(a: int, b: int) -> int {
    sat_val(a + b)
}

/// Exact negation on raw values.
pub open spec fn s_neg(a: int) -> int {
    -a
}

/// Saturating subtraction on raw values.
pub open spec fn s_sub(a: int, b: int) -> int {
    sat_val(a - b)
}

/// Saturating fixed-point product, truncated toward zero.
pub open spec fn s_mul(a: int, b: int) -> int {
    let q: int = (s_abs(a) * s_abs(b)) / (SCALE as int);
    if (a < 0) == (b < 0) {
        sat_val(q)
    } else {
        sat_val(-q)
    }
}

/// Saturating fixed-point product, rounded toward positive infinity.
pub open spec fn s_mul_up(a: int, b: int) -> int {
    let p: int = s_abs(a) * s_abs(b);
    if (a < 0) == (b < 0) {
        sat_val((p + (SCALE as int) - 1) / (SCALE as int))
    } else {
        sat_val(-(p / (SCALE as int)))
    }
}

/// Saturating fixed-point quotient, rounded toward negative infinity.
pub open spec fn s_div(a: int, b: int) -> int {
    let p: int = s_abs(a) * (SCALE as int);
    let q: int = p / s_abs(b);
    if (a < 0) == (b < 0) {
        sat_val(q)
    } else if p % s_abs(b) == 0 {
        sat_val(-q)
    } else {
        sat_val(-(q + 1))
    }
}

/// `r` is the integer square root of `x`, rounded down.
pub open spec fn is_sqrt(x: int, r: int) -> bool {
    0 <= r && r * r <= x && x < (r + 1) * (r + 1)
}

/// The integer square root of a nonnegative integer, rounded down.
pub open spec fn s_isqrt(x: int) -> int {
    choose|r: int| #[trigger] is_sqrt(x, r)
}

/// Fixed-point square root of a raw value: scaling by `SCALE` keeps the
/// result in raw units.
pub open spec fn s_sqrt(a: int) -> int {
    s_isqrt(a * (SCALE as int))
}

/// Fixed-point square root of a raw value, rounded up.
pub open spec fn s_sqrt_up(a: int) -> int {
    let r: int = s_isqrt(a * (SCALE as int));
    if r * r == a * (SCALE as int) {
        r
    } else {
        r + 1
    }
}

/// The smaller of two raw values; ties keep the second argument.
pub open spec fn s_min(a: int, b: int) -> int {
    if a < b {
        a
    } else {
        b
    }
}

/// The scalar whose raw value is `m` (meaningful for |m| <= MAX_RAW).
pub closed spec fn scalar_of(m: int) -> Scalar {
    Scalar { raw: m as i128 }
}

/// Within the representable range, `scalar_of` and `m` are inverse.
pub broadcast proof fn lemma_scalar_of_m(m: int)
    requires
        -(MAX_RAW as int) <= m <= MAX_RAW as int,
    ensures
        (#[trigger] scalar_of(m)).m() == m,
{
}

impl Scalar {
    /// The raw value as a mathematical integer: `self` denotes m() / SCALE.
    pub closed spec fn m(self) -> int {
        self.raw as int
    }

    #[verifier::type_invariant]
    spec fn inv(self) -> bool {
        -(MAX_RAW as int) <= self.raw as int <= MAX_RAW as int
    }

    /// Build a scalar from a raw count of micro-units, saturating.
    pub fn from_micros(raw: i128) -> (r: Scalar)
        ensures
            r == scalar_of(sat_val(raw as int)),
            r.m() == sat_val(raw as int),
    {
        if raw > MAX_RAW {
            Scalar { raw: MAX_RAW }
        } else if raw < -MAX_RAW {
            Scalar { raw: -MAX_RAW }
        } else {
            Scalar { raw }
        }
    }

    /// Build a scalar from a whole number, saturating.
    pub fn from_int(v: i64) -> (r: Scalar)
        ensures
            r == scalar_of(sat_val(v * SCALE)),
            r.m() == sat_val(v * SCALE),
    {
        proof {
            assert(-(i128::MAX as int) <= (v as int) * (SCALE as int) <= i128::MAX as int)
                by (nonlinear_arith)
                requires
                    -0x8000_0000_0000_0000 <= v as int <= 0x7fff_ffff_ffff_ffff,
            ;
        }
        Scalar::from_micros((v as i128) * (SCALE as i128))
    }

    /// The raw count of micro-units.
    pub fn micros(&self) -> (r: i128)
        ensures
            r as int == self.m(),
    {
        self.raw
    }

    /// Split into sign and magnitude.
    fn split(self) -> (r: (bool, u128))
        ensures
            r.1 as int == s_abs(self.m()),
            r.0 == (self.m() < 0),
            r.1 <= MAX_RAW as u128,
    {
        proof {
            use_type_invariant(self);
        }
        if self.raw < 0 {
            (true, (-self.raw) as u128)
        } else {
            (false, self.raw as u128)
        }
    }

    /// Rebuild from sign and magnitude.
    fn from_parts(neg: bool, mag: u128) -> (r: Scalar)
        requires
            mag <= MAX_RAW as u128,
        ensures
            r.m() == if neg {
                -(mag as int)
            } else {
                mag as int
            },
            r == scalar_of(r.m()),
    {
        if neg {
            Scalar { raw: -(mag as i128) }
        } else {
            Scalar { raw: mag as i128 }
        }
    }

    /// Exact negation.
    pub fn neg(self) -> (r: Scalar)
        ensures
            r == scalar_of(s_neg(self.m())),
            r.m() == s_neg(self.m()),
    {
        proof {
            use_type_invariant(self);
        }
        Scalar { raw: -self.raw }
    }

    /// Saturating addition.
    pub fn add(self, other: Scalar) -> (r: Scalar)
        ensures
            r == scalar_of(s_add(self.m(), other.m())),
            r.m() == s_add(self.m(), other.m()),
    {
        proof {
            use_type_invariant(self);
            use_type_invariant(other);
        }
        let sum: i128 = self.raw + other.raw;
        if sum > MAX_RAW {
            Scalar { raw: MAX_RAW }
        } else if sum < -MAX_RAW {
            Scalar { raw: -MAX_RAW }
        } else {
            Scalar { raw: sum }
        }
    }

    /// Saturating subtraction.
    pub fn sub(self, other: Scalar) -> (r: Scalar)
        ensures
            r == scalar_of(s_sub(self.m(), other.m())),
            r.m() == s_sub(self.m(), other.m()),
    {
        self.add(other.neg())
    }

    /// Strictly-less comparison.
    pub fn lt(self, other: Scalar) -> (r: bool)
        ensures
            r == (self.m() < other.m()),
    {
        self.raw < other.raw
    }

    /// Less-or-equal comparison.
    pub fn le(self, other: Scalar) -> (r: bool)
        ensures
            r == (self.m() <= other.m()),
    {
        self.raw <= other.raw
    }

    /// Whether the value is strictly negative.
    pub fn is_negative(self) -> (r: bool)
        ensures
            r == (self.m() < 0),
    {
        self.raw < 0
    }

    /// Whether the value is zero.
    pub fn is_zero(self) -> (r: bool)
        ensures
            r == (self.m() == 0),
    {
        self.raw == 0
    }

    /// Saturating fixed-point multiplication, truncated toward zero.
    pub fn mul(self, other: Scalar) -> (r: Scalar)
        ensures
            r == scalar_of(s_mul(self.m(), other.m())),
            r.m() == s_mul(self.m(), other.m()),
    {
        let (an, am) = self.split();
        let (bn, bm) = other.split();
        let neg = an != bn;
        if bm != 0 && am > u128::MAX / bm {
            proof {
                lemma_product_exceeds(am as int, bm as int, u128::MAX as int);
                lemma_big_quotient(am as int * bm as int);
            }
            Scalar::from_parts(neg, MAX_RAW as u128)
        } else {
            proof {
                if bm != 0 {
                    lemma_product_within(am as int, bm as int, u128::MAX as int);
                }
            }
            let p: u128 = am * bm;
            let q: u128 = p / SCALE;
            let mag: u128 = if q > MAX_RAW as u128 {
                MAX_RAW as u128
            } else {
                q
            };
            Scalar::from_parts(neg, mag)
        }
    }

    /// Saturating fixed-point multiplication, rounded toward positive
    /// infinity. Used where an error toward zero must be ruled out, as in
    /// the solver's discriminant.
    pub fn mul_up(self, other: Scalar) -> (r: Scalar)
        ensures
            r == scalar_of(s_mul_up(self.m(), other.m())),
            r.m() == s_mul_up(self.m(), other.m()),
    {
        let (an, am) = self.split();
        let (bn, bm) = other.split();
        let neg = an != bn;
        if bm != 0 && am > u128::MAX / bm {
            proof {
                lemma_product_exceeds(am as int, bm as int, u128::MAX as int);
                lemma_big_quotient(am as int * bm as int);
                lemma_ceil_div(am as int * bm as int);
            }
            Scalar::from_parts(neg, MAX_RAW as u128)
        } else {
            proof {
                if bm != 0 {
                    lemma_product_within(am as int, bm as int, u128::MAX as int);
                }
            }
            let p: u128 = am * bm;
            let q0: u128 = p / SCALE;
            proof {
                broadcast use vstd::arithmetic::div_mod::lemma_div_nonincreasing;

                assert(q0 < u128::MAX) by {
                    vstd::arithmetic::div_mod::lemma_div_is_ordered_by_denominator(
                        p as int,
                        2,
                        SCALE as int,
                    );
                    assert(p as int / 2 < u128::MAX) by (nonlinear_arith)
                        requires
                            p <= u128::MAX,
                    ;
                };
                lemma_ceil_div(p as int);
            }
            let q: u128 = if !neg && p % SCALE != 0 {
                q0 + 1
            } else {
                q0
            };
            let mag: u128 = if q > MAX_RAW as u128 {
                MAX_RAW as u128
            } else {
                q
            };
            Scalar::from_parts(neg, mag)
        }
    }

    /// Saturating fixed-point division, rounded toward negative infinity.
    pub fn div(self, other: Scalar) -> (r: Scalar)
        requires
            other.m() != 0,
        ensures
            r == scalar_of(s_div(self.m(), other.m())),
            r.m() == s_div(self.m(), other.m()),
    {
        let (an, am) = self.split();
        let (bn, bm) = other.split();
        let neg = an != bn;
        proof {
            assert(am as int * SCALE as int <= MAX_RAW as int * SCALE as int) by (nonlinear_arith)
                requires
                    am <= MAX_RAW as u128,
            ;
        }
        let p: u128 = am * SCALE;
        let q: u128 = p / bm;
        let rem: u128 = p % bm;
        proof {
            broadcast use vstd::arithmetic::div_mod::lemma_div_nonincreasing;

        }
        let q: u128 = if neg && rem != 0 {
            q + 1
        } else {
            q
        };
        let mag: u128 = if q > MAX_RAW as u128 {
            MAX_RAW as u128
        } else {
            q
        };
        Scalar::from_parts(neg, mag)
    }

    /// Fixed-point square root of a nonnegative scalar, rounded down.
    pub fn sqrt(self) -> (r: Scalar)
        requires
            self.m() >= 0,
        ensures
            r == scalar_of(s_sqrt(self.m())),
            r.m() == s_sqrt(self.m()),
            r.m() >= 0,
    {
        let (_, am) = self.split();
        proof {
            assert(am as int * SCALE as int <= MAX_RAW as int * SCALE as int) by (nonlinear_arith)
                requires
                    am <= MAX_RAW as u128,
            ;
        }
        let p: u128 = am * SCALE;
        let rt = isqrt_u128(p);
        proof {
            lemma_isqrt_is_sqrt(p as int);
            lemma_isqrt_unique(p as int, rt as int, s_isqrt(p as int));
            assert(rt <= MAX_RAW as u128) by (nonlinear_arith)
                requires
                    rt as int * rt as int <= p as int,
                    p <= 1_000_000_000_000_000_000_000_000_000_000u128,
            ;
        }
        Scalar::from_parts(false, rt)
    }

    /// Fixed-point square root of a nonnegative scalar, rounded up: the
    /// result's square is at least `self`, exactly what a conservative
    /// overestimate needs.
    pub fn sqrt_up(self) -> (r: Scalar)
        requires
            self.m() >= 0,
        ensures
            r == scalar_of(s_sqrt_up(self.m())),
            r.m() == s_sqrt_up(self.m()),
            r.m() >= 0,
            r.m() * r.m() >= self.m() * (SCALE as int),
    {
        let (_, am) = self.split();
        proof {
            assert(am as int * SCALE as int <= MAX_RAW as int * SCALE as int) by (nonlinear_arith)
                requires
                    am <= MAX_RAW as u128,
            ;
        }
        let p: u128 = am * SCALE;
        let rt = isqrt_u128(p);
        proof {
            lemma_isqrt_is_sqrt(p as int);
            lemma_isqrt_unique(p as int, rt as int, s_isqrt(p as int));
            assert(rt <= 1_000_000_000_000_000u128) by (nonlinear_arith)
                requires
                    rt as int * rt as int <= p as int,
                    p <= 1_000_000_000_000_000_000_000_000_000_000u128,
            ;
        }
        let exact = rt * rt == p;
        if exact {
            Scalar::from_parts(false, rt)
        } else {
            proof {
                assert((rt as int + 1) * (rt as int + 1) > p as int);
            }
            Scalar::from_parts(false, rt + 1)
        }
    }

    /// The smaller of two scalars; ties keep the second argument.
    pub fn min(self, other: Scalar) -> (r: Scalar)
        ensures
            r.m() == s_min(self.m(), other.m()),
            r == (if self.m() < other.m() {
                self
            } else {
                other
            }),
    {
        if self.lt(other) {
            self
        } else {
            other
        }
    }
}

/// The integer square root exists for every nonnegative integer.
proof fn lemma_sqrt_exists(x: int)
    requires
        x >= 0,
    ensures
        exists|r: int| #[trigger] is_sqrt(x, r),
    decreases x,
{
    if x == 0 {
        assert(is_sqrt(0, 0));
    } else {
        lemma_sqrt_exists(x - 1);
        let r0: int = choose|r: int| #[trigger] is_sqrt(x - 1, r);
        if x < (r0 + 1) * (r0 + 1) {
            assert(is_sqrt(x, r0));
        } else {
            assert(x == (r0 + 1) * (r0 + 1));
            assert((r0 + 2) * (r0 + 2) > x) by (nonlinear_arith)
                requires
                    r0 >= 0,
                    x == (r0 + 1) * (r0 + 1),
            ;
            assert(is_sqrt(x, r0 + 1));
        }
    }
}

/// `s_isqrt` satisfies the rounded-down square root property.
pub proof fn lemma_isqrt_is_sqrt(x: int)
    requires
        x >= 0,
    ensures
        is_sqrt(x, s_isqrt(x)),
{
    lemma_sqrt_exists(x);
}

/// The rounded-down square root is unique.
pub proof fn lemma_isqrt_unique(x: int, r1: int, r2: int)
    requires
        is_sqrt(x, r1),
        is_sqrt(x, r2),
    ensures
        r1 == r2,
{
    assert(r1 == r2) by (nonlinear_arith)
        requires
            0 <= r1,
            r1 * r1 <= x,
            x < (r1 + 1) * (r1 + 1),
            0 <= r2,
            r2 * r2 <= x,
            x < (r2 + 1) * (r2 + 1),
    ;
}

/// The fixed-point square root of a positive raw value is positive.
pub proof fn lemma_sqrt_pos(x: int)
    requires
        x >= 1,
    ensures
        s_sqrt(x) >= 1,
{
    assert(x * (SCALE as int) >= SCALE as int) by (nonlinear_arith)
        requires
            x >= 1,
    ;
    lemma_isqrt_is_sqrt(x * (SCALE as int));
    let r: int = s_isqrt(x * (SCALE as int));
    assert(r >= 1) by (nonlinear_arith)
        requires
            0 <= r,
            x * (SCALE as int) >= SCALE as int,
            x * (SCALE as int) < (r + 1) * (r + 1),
            SCALE == 1_000_000u128,
    ;
}

/// If `a` exceeds the floor quotient `m / b`, the product `a * b` exceeds `m`.
proof fn lemma_product_exceeds(a: int, b: int, m: int)
    requires
        0 <= a,
        0 < b,
        0 <= m,
        a > m / b,
    ensures
        a * b > m,
{
    vstd::arithmetic::div_mod::lemma_fundamental_div_mod(m, b);
    assert(0 <= m % b < b) by {
        vstd::arithmetic::div_mod::lemma_mod_bound(m, b);
    };
    vstd::arithmetic::mul::lemma_mul_inequality(m / b + 1, a, b);
    assert((m / b + 1) * b == (m / b) * b + b) by (nonlinear_arith);
    assert(b * (m / b) == (m / b) * b) by (nonlinear_arith);
}

/// If `a` is at most the floor quotient `m / b`, the product stays within `m`.
proof fn lemma_product_within(a: int, b: int, m: int)
    requires
        0 <= a,
        0 < b,
        0 <= m,
        a <= m / b,
    ensures
        a * b <= m,
{
    vstd::arithmetic::div_mod::lemma_fundamental_div_mod(m, b);
    assert(0 <= m % b < b) by {
        vstd::arithmetic::div_mod::lemma_mod_bound(m, b);
    };
    vstd::arithmetic::mul::lemma_mul_inequality(a, m / b, b);
    assert(b * (m / b) == (m / b) * b) by (nonlinear_arith);
}

/// A product too large for the machine word saturates past `MAX_RAW` once
/// scaled down, whichever way the last division rounds.
proof fn lemma_big_quotient(p: int)
    requires
        p > u128::MAX as int,
    ensures
        p / (SCALE as int) >= MAX_RAW as int,
        (p + SCALE as int - 1) / (SCALE as int) >= MAX_RAW as int,
{
    let s: int = SCALE as int;
    let full: int = MAX_RAW as int * s;
    assert(full == 1_000_000_000_000_000_000_000_000_000_000int);
    vstd::arithmetic::div_mod::lemma_div_multiples_vanish(MAX_RAW as int, s);
    vstd::arithmetic::div_mod::lemma_div_is_ordered(full, p, s);
    vstd::arithmetic::div_mod::lemma_div_is_ordered(full, p + s - 1, s);
}

/// Adding `SCALE - 1` before a floor division by `SCALE` computes the
/// ceiling of the quotient.
proof fn lemma_ceil_div(p: int)
    requires
        p >= 0,
    ensures
        (p + SCALE as int - 1) / (SCALE as int) == p / (SCALE as int) + (if p % (SCALE as int)
            == 0 {
            0int
        } else {
            1int
        }),
{
    let s: int = SCALE as int;
    let q: int = p / s;
    let rho: int = p % s;
    vstd::arithmetic::div_mod::lemma_fundamental_div_mod(p, s);
    assert(0 <= rho < s) by {
        vstd::arithmetic::div_mod::lemma_mod_bound(p, s);
    };
    if rho == 0 {
        assert(p + s - 1 == q * s + (s - 1)) by (nonlinear_arith)
            requires
                p == s * q + rho,
                rho == 0,
        ;
        vstd::arithmetic::div_mod::lemma_fundamental_div_mod_converse(p + s - 1, s, q, s - 1);
    } else {
        assert(p + s - 1 == (q + 1) * s + (rho - 1)) by (nonlinear_arith)
            requires
                p == s * q + rho,
        ;
        vstd::arithmetic::div_mod::lemma_fundamental_div_mod_converse(p + s - 1, s, q + 1, rho - 1);
    }
}

/// Adding `d - 1` before a floor division by `d` computes the ceiling of
/// the quotient.
pub proof fn lemma_ceil_form(p: int, d: int)
    requires
        p >= 0,
        d >= 1,
    ensures
        (p + d - 1) / d == p / d + (if p % d == 0 {
            0int
        } else {
            1int
        }),
{
    let q: int = p / d;
    let rho: int = p % d;
    vstd::arithmetic::div_mod::lemma_fundamental_div_mod(p, d);
    assert(0 <= rho < d) by {
        vstd::arithmetic::div_mod::lemma_mod_bound(p, d);
    };
    if rho == 0 {
        assert(p + d - 1 == q * d + (d - 1)) by (nonlinear_arith)
            requires
                p == d * q + rho,
                rho == 0,
        ;
        vstd::arithmetic::div_mod::lemma_fundamental_div_mod_converse(p + d - 1, d, q, d - 1);
    } else {
        assert(p + d - 1 == (q + 1) * d + (rho - 1)) by (nonlinear_arith)
            requires
                p == d * q + rho,
        ;
        vstd::arithmetic::div_mod::lemma_fundamental_div_mod_converse(p + d - 1, d, q + 1, rho - 1);
    }
}

/// Division by a positive value, rounding toward negative infinity, is
/// monotone in the dividend.
pub proof fn lemma_sdiv_monotone(x: int, y: int, d: int)
    requires
        x <= y,
        1 <= d,
    ensures
        s_div(x, d) <= s_div(y, d),
{
    let s: int = SCALE as int;
    if x >= 0 {
        assert(x * s <= y * s) by (nonlinear_arith)
            requires
                x <= y,
                s >= 0,
        ;
        vstd::arithmetic::div_mod::lemma_div_is_ordered(x * s, y * s, d);
    } else if y < 0 {
        let px: int = -x * s;
        let py: int = -y * s;
        assert(-y * s <= -x * s) by (nonlinear_arith)
            requires
                x <= y,
                y < 0,
                s >= 0,
        ;
        assert(-y * s >= 0) by (nonlinear_arith)
            requires
                y < 0,
                s >= 0,
        ;
        lemma_ceil_form(px, d);
        lemma_ceil_form(py, d);
        vstd::arithmetic::div_mod::lemma_div_is_ordered(py + d - 1, px + d - 1, d);
    } else {
        let px: int = -x * s;
        assert(-x * s >= 0 && y * s >= 0) by (nonlinear_arith)
            requires
                x < 0,
                0 <= y,
                s >= 0,
        ;
        vstd::arithmetic::div_mod::lemma_div_pos_is_pos(px, d);
        vstd::arithmetic::div_mod::lemma_div_pos_is_pos(y * s, d);
    }
}

/// Integer square root by binary search, rounded down.
fn isqrt_u128(x: u128) -> (r: u128)
    requires
        x <= 1_000_000_000_000_000_000_000_000_000_000u128,
    ensures
        is_sqrt(x as int, r as int),
{
    let mut lo: u128 = 0;
    let mut hi: u128 = 1_000_000_000_000_001;
    proof {
        assert((1_000_000_000_000_001int) * (1_000_000_000_000_001int) > x as int);
    }
    while hi - lo > 1
        invariant
            lo < hi,
            hi <= 1_000_000_000_000_001,
            lo as int * lo as int <= x as int,
            (x as int) < hi as int * hi as int,
        decreases hi - lo,
    {
        let mid: u128 = lo + (hi - lo) / 2;
        proof {
            assert(lo < mid < hi);
            assert(mid as int * mid as int <= 1_000_000_000_000_000int * 1_000_000_000_000_000int)
                by (nonlinear_arith)
                requires
                    mid <= 1_000_000_000_000_000u128,
            ;
        }
        let sq: u128 = mid * mid;
        if sq <= x {
            lo = mid;
        } else {
            hi = mid;
        }
    }
    lo
}

} // verus!
