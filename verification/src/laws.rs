//! Engine-wide laws: properties that relate several operations, stated
//! over the same spec functions the operations' contracts use.
use crate::body::{spec_move_tick, spec_mutual_candidate, spec_set_intersection, RigidBody};
use crate::num::{
    lemma_isqrt_is_sqrt, lemma_scalar_of_m, s_abs, s_add, s_div, s_isqrt, s_mul, s_mul_up, s_neg,
    s_sqrt, s_sub, scalar_of, Scalar, SCALE,
};
use crate::shapes::intersect::{
    spec_coeff_a, spec_coeff_b, spec_coeff_c, spec_sphere_sphere,
};
use crate::shapes::solver::{lemma_double_sign, spec_discriminant, spec_quadratic};
use crate::shapes::{
    speed_bound_ok, spec_apply_delta, spec_broad_phase_skips, spec_intersect, spec_undo_delta,
    BodyProperties, Intersection,
};
use crate::sim::{pair_row, pairs_from, spec_detect_all, spec_detect_pair, spec_pairs, spec_tick};
use crate::num::MAX_RAW;
use crate::vector::{lemma_len_sq_nonneg, v_add, v_norm2, v_scale, v_sub};
use vstd::prelude::*;

verus! {

/// The pair is strictly separated: the engine's squared center distance
/// exceeds its squared combined radius, so the constant coefficient of
/// the time-of-impact quadratic is positive.
pub open spec fn separated(a: BodyProperties, b: BodyProperties) -> bool {
    spec_coeff_c(a, b) > 0
}

/// The pair is not approaching: over this step the engine's relative
/// displacement does not shrink the center distance, so the linear
/// coefficient of the time-of-impact quadratic is nonnegative.
pub open spec fn receding(a: BodyProperties, b: BodyProperties) -> bool {
    spec_coeff_b(a, b) >= 0
}

/// Scaling for detection and then undoing the scaling recovers the
/// actual velocity exactly; on a body whose views already coincide the
/// round trip is the identity, bit for bit.
pub proof fn lemma_scale_round_trip(p: BodyProperties, delta: Scalar)
    ensures
        spec_undo_delta(spec_apply_delta(p, delta)) == spec_undo_delta(p),
        p.unscaled() ==> spec_undo_delta(spec_apply_delta(p, delta)) == p,
{
}

/// The arbitration rule resolves a body against its earliest contact
/// only: a later candidate leaves the pending record in place, an
/// earlier one displaces it.
pub proof fn lemma_earliest_intersection_wins(cur: Intersection, cand: Intersection)
    ensures
        cand.t.m() >= cur.t.m() ==> spec_set_intersection(Some(cur), Some(cand)) == Some(cur),
        cand.t.m() < cur.t.m() ==> spec_set_intersection(Some(cur), Some(cand)) == Some(cand),
{
}

/// Every accepted intersection's time of impact lies within the step:
/// `t` in [0, 1].
pub proof fn lemma_accepted_t_within_step(a: BodyProperties, b: BodyProperties)
    ensures
        spec_sphere_sphere(a, b) matches Some(i) ==> 0 <= i.t.m() <= SCALE as int,
{
}

/// Distribution of a product of two sums into four products.
proof fn lemma_expand_product(a: int, b: int, c: int, d: int)
    ensures
        (a + b) * (c + d) == a * c + a * d + b * c + b * d,
{
    assert((a + b) * (c + d) == a * c + a * d + b * c + b * d) by (nonlinear_arith);
}

/// Cauchy-Schwarz over the integers: monomial by monomial, the cross
/// terms are tamed by `(r - t)^2 >= 0`.
proof fn lemma_cauchy_schwarz(x1: int, y1: int, x2: int, y2: int)
    ensures
        (x1 * x2 + y1 * y2) * (x1 * x2 + y1 * y2) <= (x1 * x1 + y1 * y1) * (x2 * x2 + y2 * y2),
{
    lemma_expand_product(x1 * x1, y1 * y1, x2 * x2, y2 * y2);
    assert((x1 * x1) * (x2 * x2) == (x1 * x2) * (x1 * x2)) by (nonlinear_arith);
    assert((x1 * x1) * (y2 * y2) == (x1 * y2) * (x1 * y2)) by (nonlinear_arith);
    assert((y1 * y1) * (x2 * x2) == (y1 * x2) * (y1 * x2)) by (nonlinear_arith);
    assert((y1 * y1) * (y2 * y2) == (y1 * y2) * (y1 * y2)) by (nonlinear_arith);
    assert((x1 * x2) * (y1 * y2) == (x1 * y2) * (y1 * x2)) by (nonlinear_arith);
    let p: int = x1 * x2;
    let q: int = y1 * y2;
    let r: int = x1 * y2;
    let t: int = y1 * x2;
    assert((p + q) * (p + q) == p * p + 2 * (p * q) + q * q) by (nonlinear_arith);
    assert((r - t) * (r - t) == r * r - 2 * (r * t) + t * t) by (nonlinear_arith);
    assert((r - t) * (r - t) >= 0) by (nonlinear_arith);
}

/// The separation quadratic of a pair whose center distance strictly
/// exceeds the combined reach stays above the contact threshold for the
/// whole step window.
proof fn lemma_gap_quadratic_positive(p2: int, d2: int, w: int, m: int, rr: int, tau: int)
    requires
        0 <= tau <= SCALE as int,
        m >= 0,
        rr >= 0,
        0 <= d2 <= m * m,
        p2 > (m + rr) * (m + rr),
        w * w <= p2 * d2,
    ensures
        (SCALE as int) * (SCALE as int) * p2 + 2 * tau * (SCALE as int) * w + tau * tau * d2 > (
        SCALE as int) * (SCALE as int) * rr * rr,
{
    let s: int = SCALE as int;
    assert(p2 > rr * rr + m * m && p2 >= 0) by (nonlinear_arith)
        requires
            m >= 0,
            rr >= 0,
            p2 > (m + rr) * (m + rr),
    ;
    if w >= 0 {
        assert(s * s * p2 + 2 * tau * s * w + tau * tau * d2 > s * s * rr * rr)
            by (nonlinear_arith)
            requires
                s >= 1,
                tau >= 0,
                w >= 0,
                d2 >= 0,
                p2 > rr * rr,
    } else {
        let z: int = -w;
        assert(z * z == w * w) by (nonlinear_arith)
            requires
                z == -w,
        ;
        if z <= d2 {
            // Inside the window the loss to the cross term is at most
            // s^2 * z, because tau * (2s - tau) never exceeds s^2.
            assert(tau * tau * d2 >= tau * tau * z) by (nonlinear_arith)
                requires
                    d2 >= z,
                    tau * tau >= 0,
            ;
            assert(tau * tau >= 0) by (nonlinear_arith);
            assert(2 * tau * s * z - tau * tau * z <= s * s * z) by (nonlinear_arith)
                requires
                    0 <= tau <= s,
                    z >= 0,
            ;
            assert(s * s * p2 + 2 * tau * s * w + tau * tau * d2 >= s * s * p2 - s * s * z)
                by (nonlinear_arith)
                requires
                    z == -w,
                    tau * tau * d2 >= tau * tau * z,
                    2 * tau * s * z - tau * tau * z <= s * s * z,
            ;
            assert(s * s * p2 - s * s * z > s * s * (rr * rr)) by (nonlinear_arith)
                requires
                    p2 - z > rr * rr,
                    s >= 1,
            ;
            assert(p2 - z > rr * rr) by (nonlinear_arith)
                requires
                    p2 > rr * rr + m * m,
                    z <= d2 <= m * m,
            ;
            assert(s * s * (rr * rr) == s * s * rr * rr) by (nonlinear_arith);
        } else {
            // The vertex lies past the window: the separation shrinks
            // all step long, so the end of the step is the worst case.
            assert(z >= 1);
            assert(z * z >= 1) by (nonlinear_arith)
                requires
                    z >= 1,
            ;
            assert(d2 >= 1) by {
                if d2 == 0 {
                    assert(p2 * d2 == 0) by (nonlinear_arith)
                        requires
                            d2 == 0,
                    ;
                }
            };
            assert(m >= 1) by {
                if m == 0 {
                    assert(m * m == 0) by (nonlinear_arith)
                        requires
                            m == 0,
                    ;
                }
            };
            // First: the value at the end of the step is above the
            // threshold: p2 + d2 - 2z > rr*rr.
            let e: int = p2 - rr * rr;
            assert(e >= d2 + 2 * m * rr + 1) by (nonlinear_arith)
                requires
                    p2 > (m + rr) * (m + rr),
                    e == p2 - rr * rr,
                    d2 <= m * m,
            ;
            assert((e - d2) * (e - d2) > 4 * rr * rr * d2) by (nonlinear_arith)
                requires
                    e - d2 >= 2 * m * rr + 1,
                    d2 <= m * m,
                    m >= 1,
                    rr >= 0,
                    d2 >= 0,
            ;
            assert((e + d2) * (e + d2) > 4 * p2 * d2) by (nonlinear_arith)
                requires
                    (e - d2) * (e - d2) > 4 * rr * rr * d2,
                    e == p2 - rr * rr,
            ;
            assert(p2 + d2 - 2 * z > rr * rr) by (nonlinear_arith)
                requires
                    (e + d2) * (e + d2) > 4 * p2 * d2,
                    z * z <= p2 * d2,
                    e == p2 - rr * rr,
                    e >= 1,
                    d2 >= 0,
                    z >= 1,
            ;
            // Second: every earlier fraction is no worse than the end.
            assert(tau * tau * d2 - 2 * tau * s * z >= s * s * d2 - 2 * s * s * z)
                by (nonlinear_arith)
                requires
                    0 <= tau <= s,
                    z > d2 >= 0,
                    s >= 1,
            ;
            assert(s * s * p2 + 2 * tau * s * w + tau * tau * d2 >= s * s * p2 + s * s * d2 - 2 * s
                * s * z) by (nonlinear_arith)
                requires
                    z == -w,
                    tau * tau * d2 - 2 * tau * s * z >= s * s * d2 - 2 * s * s * z,
            ;
            assert(s * s * p2 + s * s * d2 - 2 * s * s * z > s * s * rr * rr) by (nonlinear_arith)
                requires
                    p2 + d2 - 2 * z > rr * rr,
                    s >= 1,
            ;
        }
    }
}

/// The exact squared center distance of the pair at step fraction
/// `tau / SCALE`, scaled by `SCALE^2` to stay in the integers: the
/// positions and the step-scaled velocities enter exactly, with no
/// rounding at all.
pub open spec fn exact_gap_sq(a: BodyProperties, b: BodyProperties, tau: int) -> int {
    let dx: int = (SCALE as int) * (a.pos.x.m() - b.pos.x.m()) + tau * (a.scaled_vel.x.m()
        - b.scaled_vel.x.m());
    let dy: int = (SCALE as int) * (a.pos.y.m() - b.pos.y.m()) + tau * (a.scaled_vel.y.m()
        - b.scaled_vel.y.m());
    dx * dx + dy * dy
}

/// A saturating squared difference never overstates the exact one,
/// scaled down: `SCALE * s_mul(u, u) <= (xa - xb)^2` for `u` the
/// saturating difference of `xa` and `xb`.
proof fn lemma_computed_dist_sq_le(xa: int, xb: int)
    ensures
        0 <= s_mul(s_add(xa, -xb), s_add(xa, -xb)),
        (SCALE as int) * s_mul(s_add(xa, -xb), s_add(xa, -xb)) <= (xa - xb) * (xa - xb),
{
    let s: int = SCALE as int;
    let u: int = s_add(xa, -xb);
    crate::vector::lemma_s_mul_self_nonneg(u);
    assert(s_abs(u) * s_abs(u) >= 0) by (nonlinear_arith);
    vstd::arithmetic::div_mod::lemma_fundamental_div_mod(s_abs(u) * s_abs(u), s);
    vstd::arithmetic::div_mod::lemma_mod_bound(s_abs(u) * s_abs(u), s);
    assert(s * ((s_abs(u) * s_abs(u)) / s) <= s_abs(u) * s_abs(u)) by (nonlinear_arith)
        requires
            s_abs(u) * s_abs(u) == s * ((s_abs(u) * s_abs(u)) / s) + (s_abs(u) * s_abs(u)) % s,
            (s_abs(u) * s_abs(u)) % s >= 0,
    ;
    assert(s * s_mul(u, u) <= s * ((s_abs(u) * s_abs(u)) / s)) by (nonlinear_arith)
        requires
            s_mul(u, u) <= (s_abs(u) * s_abs(u)) / s,
            s >= 1,
    ;
    assert((xa - xb) * (xa - xb) == s_abs(xa - xb) * s_abs(xa - xb)) by (nonlinear_arith);
    assert(s_abs(u) * s_abs(u) <= (xa - xb) * (xa - xb)) by (nonlinear_arith)
        requires
            0 <= s_abs(u) <= s_abs(xa - xb),
            (xa - xb) * (xa - xb) == s_abs(xa - xb) * s_abs(xa - xb),
    ;
}

/// Broad-phase conservativeness: a pair the broad phase skips cannot
/// actually collide this step. At every fraction of the step the exact
/// center distance strictly exceeds the combined radius; the distance
/// bound is computed with upward roundings and the squared distance
/// with downward ones, so no truly colliding pair is ever rejected.
/// The cached-speed hypotheses are the engine's normal state:
/// construction and `set_vel` establish them for representable
/// velocities, and `lemma_apply_delta_keeps_speed_bound` carries them
/// through step-scaling for nonnegative step lengths.
pub proof fn lemma_broad_phase_conservative(a: BodyProperties, b: BodyProperties, tau: int)
    requires
        speed_bound_ok(a.scaled_vel, a.scaled_vel_length.m()),
        speed_bound_ok(b.scaled_vel, b.scaled_vel_length.m()),
        a.bounding_radius.m() >= 0,
        b.bounding_radius.m() >= 0,
        spec_broad_phase_skips(a, b),
        0 <= tau <= SCALE as int,
    ensures
        exact_gap_sq(a, b, tau) > (SCALE as int) * (SCALE as int) * ((a.bounding_radius.m()
            + b.bounding_radius.m()) * (a.bounding_radius.m() + b.bounding_radius.m())),
{
    broadcast use lemma_scalar_of_m;

    let s: int = SCALE as int;
    let mx: int = MAX_RAW as int;
    let la: int = a.scaled_vel_length.m();
    let lb: int = b.scaled_vel_length.m();
    let ra: int = a.bounding_radius.m();
    let rb: int = b.bounding_radius.m();
    let mm: int = la + lb;
    let rr: int = ra + rb;
    let limit: int = crate::shapes::spec_broad_phase_limit(a, b);
    let lsq: int = s_mul_up(limit, limit);
    let dist_sq: int = crate::vector::v_len_sq(v_sub(a.pos, b.pos));

    // The skip test forces the squared bound strictly under the ceiling,
    // which rules saturation out of the bound's computation.
    assert(dist_sq <= mx);
    assert(lsq < mx);
    assert(limit == if mm + rr <= mx {
        mm + rr
    } else {
        mx
    });
    if limit == mx {
        assert(mx * mx >= mx * s) by (nonlinear_arith)
            requires
                mx >= s >= 1,
        ;
        vstd::arithmetic::div_mod::lemma_div_is_ordered(mx * s, mx * mx, s);
        vstd::arithmetic::div_mod::lemma_div_multiples_vanish(mx, s);
        vstd::arithmetic::div_mod::lemma_div_is_ordered(mx * mx, mx * mx + s - 1, s);
        assert(false);
    }
    assert(limit == mm + rr && mm + rr <= mx);
    assert(limit * limit >= 0) by (nonlinear_arith)
        requires
            limit >= 0,
    ;
    crate::num::lemma_ceil_form(limit * limit, s);
    vstd::arithmetic::div_mod::lemma_fundamental_div_mod(limit * limit, s);
    vstd::arithmetic::div_mod::lemma_mod_bound(limit * limit, s);
    vstd::arithmetic::div_mod::lemma_div_pos_is_pos(limit * limit, s);
    assert(s * lsq >= limit * limit) by (nonlinear_arith)
        requires
            lsq == (limit * limit) / s + (if (limit * limit) % s == 0 {
                0int
            } else {
                1int
            }),
            limit * limit == s * ((limit * limit) / s) + (limit * limit) % s,
            0 <= (limit * limit) % s < s,
            s >= 1,
    ;

    // The computed squared distance never overstates the exact one.
    let dpx: int = a.pos.x.m() - b.pos.x.m();
    let dpy: int = a.pos.y.m() - b.pos.y.m();
    let p2: int = dpx * dpx + dpy * dpy;
    lemma_computed_dist_sq_le(a.pos.x.m(), b.pos.x.m());
    lemma_computed_dist_sq_le(a.pos.y.m(), b.pos.y.m());
    let ux: int = s_add(a.pos.x.m(), -b.pos.x.m());
    let uy: int = s_add(a.pos.y.m(), -b.pos.y.m());
    assert(dist_sq <= s_mul(ux, ux) + s_mul(uy, uy));
    assert(s * dist_sq <= s * (s_mul(ux, ux) + s_mul(uy, uy))) by (nonlinear_arith)
        requires
            dist_sq <= s_mul(ux, ux) + s_mul(uy, uy),
            s >= 1,
    ;
    assert(p2 >= s * dist_sq);
    assert(s * dist_sq >= s * lsq + s) by (nonlinear_arith)
        requires
            dist_sq >= lsq + 1,
            s >= 1,
    ;
    assert(p2 > (mm + rr) * (mm + rr));

    // The relative step displacement is bounded by the two cached
    // speeds together.
    let axm: int = a.scaled_vel.x.m();
    let aym: int = a.scaled_vel.y.m();
    let bxm: int = b.scaled_vel.x.m();
    let bym: int = b.scaled_vel.y.m();
    let ddx: int = axm - bxm;
    let ddy: int = aym - bym;
    let d2: int = ddx * ddx + ddy * ddy;
    let g: int = axm * bxm + aym * bym;
    lemma_cauchy_schwarz(axm, aym, bxm, bym);
    assert(axm * axm + aym * aym >= 0 && bxm * bxm + bym * bym >= 0) by (nonlinear_arith);
    assert(g * g <= (la * la) * (lb * lb)) by (nonlinear_arith)
        requires
            g * g <= (axm * axm + aym * aym) * (bxm * bxm + bym * bym),
            axm * axm + aym * aym <= la * la,
            bxm * bxm + bym * bym <= lb * lb,
            axm * axm + aym * aym >= 0,
            bxm * bxm + bym * bym >= 0,
    ;
    assert(-(la * lb) <= g <= la * lb) by (nonlinear_arith)
        requires
            g * g <= (la * la) * (lb * lb),
            la >= 0,
            lb >= 0,
    ;
    assert(d2 <= mm * mm && d2 >= 0) by (nonlinear_arith)
        requires
            d2 == (axm - bxm) * (axm - bxm) + (aym - bym) * (aym - bym),
            axm * axm + aym * aym <= la * la,
            bxm * bxm + bym * bym <= lb * lb,
            g == axm * bxm + aym * bym,
            g >= -(la * lb),
            mm == la + lb,
    ;

    // Cauchy-Schwarz for the cross term, then the window-wide bound.
    let w: int = dpx * ddx + dpy * ddy;
    lemma_cauchy_schwarz(dpx, dpy, ddx, ddy);
    lemma_gap_quadratic_positive(p2, d2, w, mm, rr, tau);
    lemma_gap_expand(s, tau, dpx, dpy, ddx, ddy);
    assert(exact_gap_sq(a, b, tau) == (s * dpx + tau * ddx) * (s * dpx + tau * ddx) + (s * dpy
        + tau * ddy) * (s * dpy + tau * ddy));
    assert(s * s * (rr * rr) == s * s * rr * rr) by (nonlinear_arith);
}

/// The square of a two-term sum, expanded.
proof fn lemma_sq_of_sum(aa: int, bb: int)
    ensures
        (aa + bb) * (aa + bb) == aa * aa + 2 * (aa * bb) + bb * bb,
{
    assert((aa + bb) * (aa + bb) == aa * aa + 2 * (aa * bb) + bb * bb) by (nonlinear_arith);
}

/// Expansion of the advanced squared distance into the separation
/// quadratic's three coefficients.
proof fn lemma_gap_expand(s: int, tau: int, px: int, py: int, qx: int, qy: int)
    ensures
        (s * px + tau * qx) * (s * px + tau * qx) + (s * py + tau * qy) * (s * py + tau * qy) == s
            * s * (px * px + py * py) + 2 * tau * s * (px * qx + py * qy) + tau * tau * (qx * qx
            + qy * qy),
{
    lemma_sq_of_sum(s * px, tau * qx);
    lemma_sq_of_sum(s * py, tau * qy);
    assert((s * px) * (s * px) == s * s * (px * px)) by (nonlinear_arith);
    assert((s * px) * (tau * qx) == (tau * s) * (px * qx)) by (nonlinear_arith);
    assert((tau * qx) * (tau * qx) == tau * tau * (qx * qx)) by (nonlinear_arith);
    assert((s * py) * (s * py) == s * s * (py * py)) by (nonlinear_arith);
    assert((s * py) * (tau * qy) == (tau * s) * (py * qy)) by (nonlinear_arith);
    assert((tau * qy) * (tau * qy) == tau * tau * (qy * qy)) by (nonlinear_arith);
    assert((s * px + tau * qx) * (s * px + tau * qx) == s * s * (px * px) + 2 * ((s * px) * (tau
        * qx)) + tau * tau * (qx * qx));
    assert((s * py + tau * qy) * (s * py + tau * qy) == s * s * (py * py) + 2 * ((s * py) * (tau
        * qy)) + tau * tau * (qy * qy));
    assert(s * s * (px * px + py * py) == s * s * (px * px) + s * s * (py * py))
        by (nonlinear_arith);
    assert(2 * tau * s * (px * qx + py * qy) == 2 * ((tau * s) * (px * qx)) + 2 * ((tau * s) * (py
        * qy))) by (nonlinear_arith);
    assert(tau * tau * (qx * qx + qy * qy) == tau * tau * (qx * qx) + tau * tau * (qy * qy))
        by (nonlinear_arith);
}

/// A step-scaled component is dominated, after scaling up, by the exact
/// product of the component and the step length.
proof fn lemma_scaled_component_bound(x: int, d: int)
    requires
        d >= 0,
    ensures
        (SCALE as int) * (SCALE as int) * (s_mul(x, d) * s_mul(x, d)) <= (x * x) * (d * d),
{
    let s: int = SCALE as int;
    assert(s_abs(x) * d >= 0) by (nonlinear_arith)
        requires
            s_abs(x) >= 0,
            d >= 0,
    ;
    vstd::arithmetic::div_mod::lemma_fundamental_div_mod(s_abs(x) * d, s);
    vstd::arithmetic::div_mod::lemma_mod_bound(s_abs(x) * d, s);
    vstd::arithmetic::div_mod::lemma_div_pos_is_pos(s_abs(x) * d, s);
    assert(s * ((s_abs(x) * d) / s) <= s_abs(x) * d) by (nonlinear_arith)
        requires
            s_abs(x) * d == s * ((s_abs(x) * d) / s) + (s_abs(x) * d) % s,
            (s_abs(x) * d) % s >= 0,
    ;
    assert(s_abs(d) == d);
    assert(s_abs(s_mul(x, d)) <= (s_abs(x) * d) / s);
    assert(s_mul(x, d) * s_mul(x, d) == s_abs(s_mul(x, d)) * s_abs(s_mul(x, d)))
        by (nonlinear_arith);
    assert(x * x == s_abs(x) * s_abs(x)) by (nonlinear_arith);
    assert((x * x) * (d * d) == (s_abs(x) * d) * (s_abs(x) * d)) by (nonlinear_arith)
        requires
            d >= 0,
            x * x == s_abs(x) * s_abs(x),
    ;
    assert(s * s * (s_mul(x, d) * s_mul(x, d)) <= (s_abs(x) * d) * (s_abs(x) * d))
        by (nonlinear_arith)
        requires
            0 <= s_abs(s_mul(x, d)) <= (s_abs(x) * d) / s,
            s * ((s_abs(x) * d) / s) <= s_abs(x) * d,
            s_mul(x, d) * s_mul(x, d) == s_abs(s_mul(x, d)) * s_abs(s_mul(x, d)),
            s >= 1,
            s_abs(x) * d >= 0,
    ;
}

/// Step-scaling keeps the cached speed consistent with the scaled
/// velocity vector: for a nonnegative step length whose product with
/// the cached speed is representable, the scaled cache still bounds the
/// scaled velocity's exact norm from above.
pub proof fn lemma_apply_delta_keeps_speed_bound(p: BodyProperties, delta: Scalar)
    requires
        speed_bound_ok(p.actual_vel, p.actual_vel_length.m()),
        delta.m() >= 0,
        p.actual_vel_length.m() * delta.m() <= (SCALE as int) * (MAX_RAW as int),
    ensures
        speed_bound_ok(
            spec_apply_delta(p, delta).scaled_vel,
            spec_apply_delta(p, delta).scaled_vel_length.m(),
        ),
{
    broadcast use lemma_scalar_of_m;

    let s: int = SCALE as int;
    let mx: int = MAX_RAW as int;
    let ll: int = p.actual_vel_length.m();
    let d: int = delta.m();
    let ax: int = p.actual_vel.x.m();
    let ay: int = p.actual_vel.y.m();
    lemma_scaled_component_bound(ax, d);
    lemma_scaled_component_bound(ay, d);
    let sx: int = s_mul(ax, d);
    let sy: int = s_mul(ay, d);
    assert(d * d >= 0) by (nonlinear_arith);
    assert(sx * sx >= 0 && sy * sy >= 0) by (nonlinear_arith);
    assert(s * s * (sx * sx + sy * sy) <= (ll * ll) * (d * d)) by (nonlinear_arith)
        requires
            s * s * (sx * sx) <= (ax * ax) * (d * d),
            s * s * (sy * sy) <= (ay * ay) * (d * d),
            ax * ax + ay * ay <= ll * ll,
            d * d >= 0,
            sx * sx >= 0,
            sy * sy >= 0,
    ;

    // The rounded-up cache is unsaturated and dominates the product.
    assert(ll * d >= 0) by (nonlinear_arith)
        requires
            ll >= 0,
            d >= 0,
    ;
    crate::num::lemma_ceil_form(ll * d, s);
    vstd::arithmetic::div_mod::lemma_fundamental_div_mod(ll * d, s);
    vstd::arithmetic::div_mod::lemma_mod_bound(ll * d, s);
    vstd::arithmetic::div_mod::lemma_div_pos_is_pos(ll * d, s);
    let c: int = (ll * d + s - 1) / s;
    assert(ll * d <= s * c <= ll * d + s - 1 && c >= 0) by (nonlinear_arith)
        requires
            c == (ll * d) / s + (if (ll * d) % s == 0 {
                0int
            } else {
                1int
            }),
            ll * d == s * ((ll * d) / s) + (ll * d) % s,
            0 <= (ll * d) % s < s,
            (ll * d) / s >= 0,
            s >= 1,
    ;
    assert(c <= mx) by (nonlinear_arith)
        requires
            s * c <= ll * d + s - 1,
            ll * d <= s * mx,
            s >= 1,
            c >= 0,
    ;
    assert(s_mul_up(ll, d) == c);
    assert(c * c * (s * s) >= (ll * d) * (ll * d)) by (nonlinear_arith)
        requires
            s * c >= ll * d,
            ll * d >= 0,
            c >= 0,
            s >= 1,
    ;
    assert((ll * ll) * (d * d) == (ll * d) * (ll * d)) by (nonlinear_arith);
    assert(sx * sx + sy * sy <= c * c) by (nonlinear_arith)
        requires
            s * s * (sx * sx + sy * sy) <= (ll * ll) * (d * d),
            c * c * (s * s) >= (ll * d) * (ll * d),
            (ll * ll) * (d * d) == (ll * d) * (ll * d),
            s >= 1,
    ;
}

/// A pair of spheres beyond the broad-phase distance bound is skipped:
/// detection reports no contact without consulting the solver.
pub proof fn lemma_broad_phase_skip_is_final(a: BodyProperties, b: BodyProperties)
    requires
        a.shape is Sphere,
        b.shape is Sphere,
        spec_broad_phase_skips(a, b),
    ensures
        spec_intersect(a, b) == Ok::<Option<Intersection>, crate::shapes::EngineError>(None),
{
}

/// An upward-rounded product of two positive raw values is positive.
proof fn lemma_mul_up_pos(a: int, b: int)
    requires
        1 <= a,
        1 <= b,
    ensures
        1 <= s_mul_up(a, b),
{
    let s: int = SCALE as int;
    let p: int = a * b;
    assert(a * b >= 1) by (nonlinear_arith)
        requires
            a >= 1,
            b >= 1,
    ;
    vstd::arithmetic::div_mod::lemma_div_is_ordered(s, p + s - 1, s);
    vstd::arithmetic::div_mod::lemma_div_by_self(s);
}

/// Dividing a negative raw value by a positive one, rounding toward
/// negative infinity, yields a strictly negative result.
proof fn lemma_sdiv_neg(a: int, b: int)
    requires
        a <= -1,
        1 <= b,
    ensures
        s_div(a, b) <= -1,
{
    let s: int = SCALE as int;
    let p: int = s_abs(a) * s;
    assert(s_abs(a) * s >= s) by (nonlinear_arith)
        requires
            s_abs(a) >= 1,
            s >= 1,
    ;
    let q: int = p / b;
    vstd::arithmetic::div_mod::lemma_div_pos_is_pos(p, b);
    if p % b == 0 {
        vstd::arithmetic::div_mod::lemma_fundamental_div_mod(p, b);
        assert(q >= 1) by (nonlinear_arith)
            requires
                p == b * q + p % b,
                p % b == 0,
                p >= 1,
                b >= 1,
                q >= 0,
        ;
    }
}

/// A computed discriminant strictly below the squared linear coefficient
/// has a square root strictly below that coefficient.
proof fn lemma_sqrt_below(below: int, bm: int)
    requires
        0 <= below,
        1 <= bm,
        below <= s_mul(bm, bm) - 1,
    ensures
        0 <= s_sqrt(below) < bm,
{
    let s: int = SCALE as int;
    let bb: int = bm * bm;
    assert(bm * bm >= 1) by (nonlinear_arith)
        requires
            bm >= 1,
    ;
    let q: int = bb / s;
    vstd::arithmetic::div_mod::lemma_div_pos_is_pos(bb, s);
    // s_mul(bm, bm) == sat(q) <= q, so below <= q - 1.
    assert(below <= q - 1);
    assert(below * s <= (q - 1) * s) by (nonlinear_arith)
        requires
            below <= q - 1,
            s >= 1,
    ;
    vstd::arithmetic::div_mod::lemma_fundamental_div_mod(bb, s);
    vstd::arithmetic::div_mod::lemma_mod_bound(bb, s);
    assert((q - 1) * s == q * s - s) by (nonlinear_arith);
    assert(q * s <= bb) by (nonlinear_arith)
        requires
            bb == s * q + bb % s,
            bb % s >= 0,
    ;
    assert(below * s < bb);
    assert(below * s >= 0) by (nonlinear_arith)
        requires
            below >= 0,
            s >= 1,
    ;
    lemma_isqrt_is_sqrt(below * s);
    let r: int = s_isqrt(below * s);
    assert(r < bm) by (nonlinear_arith)
        requires
            0 <= r,
            r * r <= below * s,
            below * s < bm * bm,
            1 <= bm,
    ;
}

/// The solver never reports a root at or after the start of the step for
/// a separated, non-approaching pair: with a positive constant
/// coefficient and a nonnegative linear coefficient, either there is no
/// root at all, or the smaller root lies strictly before the step.
pub proof fn lemma_quadratic_no_root_in_step(qa: Scalar, qb: Scalar, qc: Scalar)
    requires
        qa.m() >= 0,
        qb.m() >= 0,
        qc.m() >= 1,
    ensures
        spec_quadratic(qa, qb, qc) matches Some(r) ==> r.0.m() <= -1,
{
    broadcast use lemma_scalar_of_m;

    let am: int = qa.m();
    let bm: int = qb.m();
    let cm: int = qc.m();
    let below: int = spec_discriminant(am, bm, cm);
    if below >= 0 && am != 0 {
        let s: int = SCALE as int;
        let t1: int = s_mul_up(4 * s, am);
        lemma_mul_up_pos(4 * s, am);
        let t2: int = s_mul_up(t1, cm);
        lemma_mul_up_pos(t1, cm);
        let bb: int = s_mul(bm, bm);
        // below == sat(bb - t2) is nonnegative, so bb >= t2 >= 1 and the
        // subtraction did not clamp: below <= bb - 1.
        assert(bb >= t2);
        assert(below <= bb - 1);
        // bb >= 1 rules out a zero linear coefficient.
        if bm == 0 {
            assert(s_abs(bm) * s_abs(bm) == 0) by (nonlinear_arith)
                requires
                    s_abs(bm) == 0,
            ;
            vstd::arithmetic::div_mod::lemma_div_of0(s);
            assert(bb == 0);
            assert(false);
        }
        assert(bm >= 1);
        let sq: int = s_sqrt(below);
        lemma_sqrt_below(below, bm);
        let nb: int = s_neg(bm);
        let a2: int = s_mul(2 * s, am);
        lemma_double_sign(am);
        if sq == 0 {
            lemma_sdiv_neg(nb, a2);
        } else {
            let num: int = s_sub(nb, sq);
            assert(num <= -1);
            lemma_sdiv_neg(num, a2);
        }
    }
}

/// No spurious collision: a separated, non-approaching pair of bodies
/// yields no contact record, whether the broad phase skips it or the
/// solver runs.
pub proof fn lemma_separated_pair_has_no_contact(a: BodyProperties, b: BodyProperties)
    requires
        separated(a, b),
        receding(a, b),
    ensures
        spec_sphere_sphere(a, b) is None,
{
    broadcast use lemma_scalar_of_m;

    lemma_len_sq_nonneg(v_sub(b.scaled_vel, a.scaled_vel));
    let qa: Scalar = scalar_of(spec_coeff_a(a, b));
    let qb: Scalar = scalar_of(spec_coeff_b(a, b));
    let qc: Scalar = scalar_of(spec_coeff_c(a, b));
    lemma_quadratic_no_root_in_step(qa, qb, qc);
}

/// No spurious collision through the full dispatch: for a separated,
/// non-approaching pair, detection reports no contact.
pub proof fn lemma_separated_pair_detects_nothing(a: BodyProperties, b: BodyProperties)
    requires
        separated(a, b),
        receding(a, b),
    ensures
        spec_intersect(a, b) matches Ok(c) ==> c is None,
{
    if a.shape is Sphere && b.shape is Sphere && !spec_broad_phase_skips(a, b) {
        lemma_separated_pair_has_no_contact(a, b);
    }
}

/// Detection never touches physical state: it fills pending slots only.
proof fn lemma_detect_all_keeps_properties(
    bodies: Seq<RigidBody>,
    ps: Seq<(int, int)>,
    delta: Scalar,
)
    requires
        forall|k: int|
            0 <= k < ps.len() ==> 0 <= (#[trigger] ps[k]).0 < bodies.len() && 0 <= ps[k].1
                < bodies.len(),
    ensures
        spec_detect_all(bodies, ps, delta).len() == bodies.len(),
        forall|l: int|
            0 <= l < bodies.len() ==> (#[trigger] spec_detect_all(bodies, ps, delta)[l]).properties
                == bodies[l].properties,
    decreases ps.len(),
{
    if ps.len() != 0 {
        let next = spec_detect_pair(bodies, ps[0].0, ps[0].1, delta);
        assert(next.len() == bodies.len());
        assert(forall|l: int|
            0 <= l < bodies.len() ==> (#[trigger] next[l]).properties == bodies[l].properties);
        assert(forall|k: int|
            0 <= k < ps.drop_first().len() ==> 0 <= (#[trigger] ps.drop_first()[k]).0 < next.len()
                && 0 <= ps.drop_first()[k].1 < next.len());
        lemma_detect_all_keeps_properties(next, ps.drop_first(), delta);
    }
}

/// A step neither creates, removes nor reorders bodies, and it touches
/// only position, velocity and the pending slot: each body keeps its
/// place, shape, mass, restitution and bounding radius, and ends the
/// step with no collision pending.
pub proof fn lemma_tick_keeps_population(bodies: Seq<RigidBody>, delta: Scalar)
    ensures
        spec_tick(bodies, delta).len() == bodies.len(),
        forall|k: int|
            0 <= k < bodies.len() ==> {
                let after = #[trigger] spec_tick(bodies, delta)[k];
                &&& after.properties.shape == bodies[k].properties.shape
                &&& after.properties.mass == bodies[k].properties.mass
                &&& after.properties.restitution == bodies[k].properties.restitution
                &&& after.properties.bounding_radius == bodies[k].properties.bounding_radius
                &&& after.intersection is None
            },
{
    let n: int = bodies.len() as int;
    crate::sim::lemma_spec_pairs_bounds(n);
    lemma_detect_all_keeps_properties(bodies, spec_pairs(n), delta);
}

/// For all step lengths, a tick over two idle, separated,
/// non-approaching bodies moves each by exactly `velocity * step length`
/// and leaves velocities untouched and no collision pending.
pub proof fn lemma_tick_advances_separated_pair(bodies: Seq<RigidBody>, delta: Scalar)
    requires
        bodies.len() == 2,
        bodies[0].wf(),
        bodies[1].wf(),
        bodies[0].intersection is None,
        bodies[1].intersection is None,
        separated(
            spec_apply_delta(bodies[0].properties, delta),
            spec_apply_delta(bodies[1].properties, delta),
        ),
        receding(
            spec_apply_delta(bodies[0].properties, delta),
            spec_apply_delta(bodies[1].properties, delta),
        ),
    ensures
        spec_tick(bodies, delta).len() == 2,
        forall|k: int|
            0 <= k < 2 ==> (#[trigger] spec_tick(bodies, delta)[k]).properties
                == (BodyProperties {
                pos: v_add(
                    bodies[k].properties.pos,
                    v_scale(bodies[k].properties.scaled_vel, delta.m()),
                ),
                ..bodies[k].properties
            }) && spec_tick(bodies, delta)[k].intersection is None,
{
    let pa = spec_apply_delta(bodies[0].properties, delta);
    let pb = spec_apply_delta(bodies[1].properties, delta);
    lemma_separated_pair_detects_nothing(pa, pb);
    assert(spec_mutual_candidate(bodies[0], bodies[1], delta) is None);

    // The pair list of a two-body simulation is the single pair (0, 1).
    assert(pair_row(0, 2, 2) =~= Seq::<(int, int)>::empty());
    assert(pair_row(1, 2, 2) =~= Seq::<(int, int)>::empty());
    assert(pairs_from(2, 2) =~= Seq::<(int, int)>::empty());
    assert(pairs_from(1, 2) =~= Seq::<(int, int)>::empty());
    assert(pair_row(0, 1, 2) =~= seq![(0int, 1int)]);
    assert(spec_pairs(2) =~= seq![(0int, 1int)]);

    // Detection changes nothing: the candidate is None on both sides.
    let after = spec_detect_pair(bodies, 0, 1, delta);
    assert(after[0] == bodies[0]);
    assert(after[1] == bodies[1]);
    assert(after =~= bodies);
    let ps = seq![(0int, 1int)];
    assert(spec_detect_all(bodies, ps, delta) == spec_detect_all(
        spec_detect_pair(bodies, 0, 1, delta),
        ps.drop_first(),
        delta,
    ));
    assert(ps.drop_first() =~= Seq::<(int, int)>::empty());
    assert(spec_detect_all(bodies, spec_pairs(2), delta) == bodies);

    // Integration is the plain translation on both bodies.
    assert(spec_tick(bodies, delta) =~= bodies.map_values(
        |b: RigidBody| spec_move_tick(b, delta),
    ));
}

} // verus!
