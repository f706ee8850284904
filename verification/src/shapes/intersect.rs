//! Swept sphere-sphere intersection: find the earliest fraction of the
//! step at which two moving spheres first reach contact distance.
use crate::num::{s_add, s_mul, s_neg, s_sub, scalar_of, Scalar, SCALE};
use crate::shapes::solver::{quadratic, spec_quadratic};
use crate::shapes::{BodyProperties, Intersection};
use crate::vector::{v_add, v_dot, v_len_sq, v_normalized, v_scale, v_sub, Vector};
use vstd::prelude::*;

verus! {

/// Leading coefficient: the squared length of the relative step
/// displacement.
pub open spec fn spec_coeff_a(a: BodyProperties, b: BodyProperties) -> int {
    v_len_sq(v_sub(b.scaled_vel, a.scaled_vel))
}

/// Linear coefficient: `-2 * (posA - posB) . (deltaB - deltaA)`.
pub open spec fn spec_coeff_b(a: BodyProperties, b: BodyProperties) -> int {
    s_mul(
        s_neg(2 * SCALE as int),
        v_dot(v_sub(a.pos, b.pos), v_sub(b.scaled_vel, a.scaled_vel)),
    )
}

/// Constant coefficient: the squared center distance minus the squared
/// combined radius.
pub open spec fn spec_coeff_c(a: BodyProperties, b: BodyProperties) -> int {
    let r_sum: int = s_add(a.bounding_radius.m(), b.bounding_radius.m());
    s_sub(v_len_sq(v_sub(a.pos, b.pos)), s_mul(r_sum, r_sum))
}

/// The contact normal direction: from B's to A's position, both advanced
/// to the time of impact `t`.
pub open spec fn spec_contact_normal(a: BodyProperties, b: BodyProperties, t: int) -> Vector {
    v_normalized(
        v_sub(v_sub(v_add(a.pos, v_scale(a.scaled_vel, t)), b.pos), v_scale(b.scaled_vel, t)),
    )
}

/// A body's state advanced to the step fraction `t`: the position moves
/// by the step-scaled velocity times `t`, everything else is kept.
pub open spec fn spec_advanced_to(p: BodyProperties, t: int) -> BodyProperties {
    BodyProperties { pos: v_add(p.pos, v_scale(p.scaled_vel, t)), ..p }
}

/// The mirror of `sphere_sphere`: the smaller quadratic root, accepted
/// only within the step window [0, 1]; the snapshots carry each body's
/// state with the position advanced to the point of contact.
pub open spec fn spec_sphere_sphere(a: BodyProperties, b: BodyProperties) -> Option<
    Intersection,
> {
    let qa: Scalar = scalar_of(spec_coeff_a(a, b));
    let qb: Scalar = scalar_of(spec_coeff_b(a, b));
    let qc: Scalar = scalar_of(spec_coeff_c(a, b));
    match spec_quadratic(qa, qb, qc) {
        None => None,
        Some((lo, hi)) => if 0 <= lo.m() && lo.m() <= SCALE as int {
            Some(
                Intersection {
                    t: lo,
                    other_normal: spec_contact_normal(a, b, lo.m()),
                    self_properties: spec_advanced_to(a, lo.m()),
                    other_properties: spec_advanced_to(b, lo.m()),
                },
            )
        } else {
            None
        },
    }
}

/// Find the earliest contact of two moving spheres within this step.
///
/// Solves `|(posA + deltaA*t) - (posB + deltaB*t)| == radiusA + radiusB`
/// for the smallest `t`, and accepts it only if `t` lies in [0, 1]. The
/// returned record carries the contact normal from B toward A at time
/// `t` and snapshots of both bodies' states with positions advanced to
/// the point of contact.
pub fn sphere_sphere(a: BodyProperties, b: BodyProperties) -> (r: Option<Intersection>)
    ensures
        r == spec_sphere_sphere(a, b),
        r matches Some(i) ==> 0 <= i.t.m() <= SCALE as int && i.self_properties
            == spec_advanced_to(a, i.t.m()) && i.other_properties == spec_advanced_to(
            b,
            i.t.m(),
        ),
{
    let a_pos = a.pos;
    let a_delta = a.vel();
    let b_pos = b.pos;
    let b_delta = b.vel();
    let a_radius = a.bounding_radius;
    let b_radius = b.bounding_radius;

    let r_sum = a_radius.add(b_radius);
    let r_sq = r_sum.mul(r_sum);
    let dd = b_delta.sub(a_delta);
    let dp = a_pos.sub(b_pos);
    let min_t = quadratic(
        dd.length_sq(),
        Scalar::from_int(2).neg().mul(dp.dot(dd)),
        dp.length_sq().sub(r_sq),
    );

    match min_t {
        None => None,
        Some((lo, _hi)) => {
            let zero = Scalar::from_int(0);
            let one = Scalar::from_int(1);
            if zero.le(lo) && lo.le(one) {
                let normal = a_pos.add(a_delta.mul(lo)).sub(b_pos).sub(b_delta.mul(lo)).normalized();
                let a_at_contact = BodyProperties { pos: a_pos.add(a_delta.mul(lo)), ..a };
                let b_at_contact = BodyProperties { pos: b_pos.add(b_delta.mul(lo)), ..b };
                Some(
                    Intersection {
                        t: lo,
                        other_normal: normal,
                        self_properties: a_at_contact,
                        other_properties: b_at_contact,
                    },
                )
            } else {
                None
            }
        },
    }
}

} // verus!
