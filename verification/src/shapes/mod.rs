//! Shapes, per-body physical state, and the collision records exchanged
//! between detection and resolution.
pub mod intersect;
pub mod solver;

use crate::num::{s_add, s_div, s_min, s_mul, s_mul_up, s_neg, s_sub, scalar_of, Scalar, MAX_RAW, SCALE};
use crate::vector::{v_add, v_dot, v_len_up, v_norm2, v_scale, v_sub, Vector};
use vstd::prelude::*;

verus! {

/// Largest accepted raw mass. Masses above this would make the inverse
/// mass in the impulse law vanish entirely in fixed-point arithmetic.
pub const MASS_CAP: i128 = 1_000_000_000_000;

/// Why a body could not be built, or a geometric operation could not be
/// carried out.
#[derive(Clone, Copy, PartialEq, Eq, Debug)]
pub enum EngineError {
    /// The mass is not positive, or too large to take part in impulse
    /// resolution.
    InvalidMass,
    /// The sphere radius is not positive.
    InvalidRadius,
    /// The operation involves a shape with no implemented collision law.
    UnsupportedShape,
}

/// The geometry of a body. Only spheres have an implemented collision
/// law; the cube variant is declared but every operation on it reports
/// `EngineError::UnsupportedShape`.
#[derive(Clone, Copy, PartialEq, Eq, Debug)]
pub enum Shape {
    Sphere { radius: Scalar },
    Cube { scale: Vector },
}

/// Per-body physical attributes. The velocity is kept in two views: the
/// actual per-unit-time velocity, and a step-scaled copy used during
/// detection; `apply_delta` scales, `undo_delta` recovers the actual
/// velocity exactly. The cached speeds round upward: they never
/// understate the velocity they describe, which is what the
/// conservative broad phase needs.
#[derive(Clone, Copy, PartialEq, Eq, Debug)]
pub struct BodyProperties {
    pub shape: Shape,
    pub mass: Scalar,
    pub pos: Vector,
    pub restitution: Scalar,
    pub bounding_radius: Scalar,
    pub scaled_vel_length: Scalar,
    pub actual_vel_length: Scalar,
    pub scaled_vel: Vector,
    pub actual_vel: Vector,
}

/// A collision found during detection: the step fraction `t` of first
/// contact, the contact normal pointing from the other body toward this
/// one, and snapshots of both bodies' states with positions advanced to
/// the point of contact.
#[derive(Clone, Copy, PartialEq, Eq, Debug)]
pub struct Intersection {
    pub t: Scalar,
    pub other_normal: Vector,
    pub self_properties: BodyProperties,
    pub other_properties: BodyProperties,
}

/// The bounding radius of a shape: a sphere's radius. The cube variant
/// has no implemented bounding radius.
pub open spec fn spec_bounding_radius(s: Shape) -> Result<Scalar, EngineError> {
    match s {
        Shape::Sphere { radius } => Ok(radius),
        Shape::Cube { .. } => Err(EngineError::UnsupportedShape),
    }
}

/// The mirror of `BodyProperties::new`: validation, then the assembled
/// state with both velocity views equal to `vel`.
pub open spec fn spec_new_props(
    shape: Shape,
    mass: Scalar,
    pos: Vector,
    vel: Vector,
    restitution: Scalar,
) -> Result<BodyProperties, EngineError> {
    match shape {
        Shape::Cube { .. } => Err(EngineError::UnsupportedShape),
        Shape::Sphere { radius } => if radius.m() <= 0 {
            Err(EngineError::InvalidRadius)
        } else if mass.m() < 1 || mass.m() > MASS_CAP as int {
            Err(EngineError::InvalidMass)
        } else {
            Ok(
                BodyProperties {
                    shape,
                    mass,
                    pos,
                    restitution,
                    bounding_radius: radius,
                    scaled_vel_length: scalar_of(v_len_up(vel)),
                    actual_vel_length: scalar_of(v_len_up(vel)),
                    scaled_vel: vel,
                    actual_vel: vel,
                },
            )
        },
    }
}

/// The mirror of `apply_delta`: the scaled view becomes the actual view
/// scaled by `delta`.
pub open spec fn spec_apply_delta(p: BodyProperties, delta: Scalar) -> BodyProperties {
    BodyProperties {
        scaled_vel: v_scale(p.actual_vel, delta.m()),
        scaled_vel_length: scalar_of(s_mul_up(p.actual_vel_length.m(), delta.m())),
        ..p
    }
}

/// The mirror of `undo_delta`: the scaled view is restored to the actual
/// view, exactly.
pub open spec fn spec_undo_delta(p: BodyProperties) -> BodyProperties {
    BodyProperties { scaled_vel: p.actual_vel, scaled_vel_length: p.actual_vel_length, ..p }
}

/// The mirror of `set_vel`: both views are replaced by `vel` and its
/// freshly computed length.
pub open spec fn spec_set_vel(p: BodyProperties, vel: Vector) -> BodyProperties {
    BodyProperties {
        scaled_vel: vel,
        actual_vel: vel,
        scaled_vel_length: scalar_of(v_len_up(vel)),
        actual_vel_length: scalar_of(v_len_up(vel)),
        ..p
    }
}

/// The cached speed dominates the velocity view it describes: it is
/// nonnegative and its square is at least the exact squared norm of the
/// vector.
pub open spec fn speed_bound_ok(v: Vector, cached: int) -> bool {
    0 <= cached && v_norm2(v) <= cached * cached
}

/// The mirror of `Intersection::invert`: swapped snapshots, negated
/// normal, same `t`.
pub open spec fn spec_invert(i: Intersection) -> Intersection {
    Intersection {
        t: i.t,
        self_properties: i.other_properties,
        other_properties: i.self_properties,
        other_normal: v_scale(i.other_normal, s_neg(SCALE as int)),
    }
}

impl BodyProperties {
    /// A valid body: an implemented shape with positive radius, the
    /// bounding radius equal to that radius, and a mass the impulse law
    /// can divide by.
    pub open spec fn wf(self) -> bool {
        &&& match self.shape {
            Shape::Sphere { radius } => radius.m() > 0 && self.bounding_radius == radius,
            Shape::Cube { .. } => false,
        }
        &&& 1 <= self.mass.m() <= MASS_CAP as int
    }

    /// The scaled velocity view coincides with the actual one, as after
    /// construction, `set_vel` or `undo_delta`.
    pub open spec fn unscaled(self) -> bool {
        self.scaled_vel == self.actual_vel && self.scaled_vel_length == self.actual_vel_length
    }

    /// Build a body's physical state, validating it: an unimplemented
    /// shape, a non-positive radius, or a mass outside the range the
    /// impulse law can divide by is rejected.
    pub fn new(shape: Shape, mass: Scalar, pos: Vector, vel: Vector, restitution: Scalar) -> (r:
        Result<BodyProperties, EngineError>)
        ensures
            r == spec_new_props(shape, mass, pos, vel, restitution),
            r matches Ok(p) ==> p.wf() && p.unscaled(),
            v_norm2(vel) <= (SCALE as int) * (MAX_RAW as int) ==> (r matches Ok(p)
                ==> speed_bound_ok(p.scaled_vel, p.scaled_vel_length.m()) && speed_bound_ok(
                p.actual_vel,
                p.actual_vel_length.m(),
            )),
            r is Ok <==> (shape matches Shape::Sphere { radius } && radius.m() > 0 && 1
                <= mass.m() <= MASS_CAP as int),
    {
        match shape {
            Shape::Cube { .. } => Err(EngineError::UnsupportedShape),
            Shape::Sphere { radius } => {
                if radius.is_negative() || radius.is_zero() {
                    Err(EngineError::InvalidRadius)
                } else if mass.is_negative() || mass.is_zero() || MASS_CAP < mass.micros() {
                    Err(EngineError::InvalidMass)
                } else {
                    proof {
                        crate::vector::lemma_len_up_bounds(vel);
                        broadcast use crate::num::lemma_scalar_of_m;
                    }
                    let vel_len = vel.length_up();
                    Ok(
                        BodyProperties {
                            shape,
                            mass,
                            pos,
                            restitution,
                            bounding_radius: radius,
                            scaled_vel_length: vel_len,
                            actual_vel_length: vel_len,
                            scaled_vel: vel,
                            actual_vel: vel,
                        },
                    )
                }
            },
        }
    }

    /// Scale the velocity view by the step length `delta`, keeping the
    /// actual velocity available.
    pub fn apply_delta(&self, delta: Scalar) -> (r: BodyProperties)
        ensures
            r == spec_apply_delta(*self, delta),
            self.wf() ==> r.wf(),
    {
        BodyProperties {
            shape: self.shape,
            mass: self.mass,
            pos: self.pos,
            restitution: self.restitution,
            bounding_radius: self.bounding_radius,
            scaled_vel: self.actual_vel.mul(delta),
            actual_vel: self.actual_vel,
            scaled_vel_length: self.actual_vel_length.mul_up(delta),
            actual_vel_length: self.actual_vel_length,
        }
    }

    /// Restore the scaled velocity view to the actual velocity, exactly.
    pub fn undo_delta(&self) -> (r: BodyProperties)
        ensures
            r == spec_undo_delta(*self),
            r.unscaled(),
            self.wf() ==> r.wf(),
    {
        BodyProperties {
            shape: self.shape,
            mass: self.mass,
            pos: self.pos,
            restitution: self.restitution,
            bounding_radius: self.bounding_radius,
            scaled_vel: self.actual_vel,
            actual_vel: self.actual_vel,
            scaled_vel_length: self.actual_vel_length,
            actual_vel_length: self.actual_vel_length,
        }
    }

    /// The current (scaled) velocity view.
    pub fn vel(&self) -> (r: Vector)
        ensures
            r == self.scaled_vel,
    {
        self.scaled_vel
    }

    /// The cached speed of the current (scaled) velocity view: an
    /// upper bound on its length, never an understatement.
    pub fn vel_len(&self) -> (r: Scalar)
        ensures
            r == self.scaled_vel_length,
    {
        self.scaled_vel_length
    }

    /// Replace the velocity: both views are set to `vel`.
    pub fn set_vel(&mut self, vel: Vector)
        ensures
            *final(self) == spec_set_vel(*old(self), vel),
            old(self).wf() ==> final(self).wf(),
            v_norm2(vel) <= (SCALE as int) * (MAX_RAW as int) ==> speed_bound_ok(
                final(self).scaled_vel,
                final(self).scaled_vel_length.m(),
            ),
    {
        proof {
            crate::vector::lemma_len_up_bounds(vel);
            broadcast use crate::num::lemma_scalar_of_m;
        }
        let vel_len = vel.length_up();
        self.actual_vel = vel;
        self.scaled_vel = vel;
        self.scaled_vel_length = vel_len;
        self.actual_vel_length = vel_len;
    }
}

impl Intersection {
    /// A valid collision record: `t` within the step, and snapshots the
    /// impulse law can work with.
    pub open spec fn wf(self) -> bool {
        &&& 0 <= self.t.m() <= SCALE as int
        &&& self.self_properties.wf()
        &&& self.other_properties.wf()
    }

    /// The mirror-image record for the other body: swapped snapshots,
    /// negated normal, same `t`.
    pub fn invert(&self) -> (r: Intersection)
        ensures
            r == spec_invert(*self),
            self.wf() ==> r.wf(),
    {
        Intersection {
            t: self.t,
            self_properties: self.other_properties,
            other_properties: self.self_properties,
            other_normal: self.other_normal.mul(Scalar::from_int(-1)),
        }
    }
}

/// The broad-phase distance bound: the two step-scaled speeds plus the
/// two bounding radii. A pair whose current center distance exceeds it
/// cannot reach contact within this step.
pub open spec fn spec_broad_phase_limit(a: BodyProperties, b: BodyProperties) -> int {
    s_add(
        s_add(s_add(a.scaled_vel_length.m(), a.bounding_radius.m()), b.bounding_radius.m()),
        b.scaled_vel_length.m(),
    )
}

/// Whether the broad phase rejects the pair without solving: the squared
/// center distance exceeds the squared distance bound.
pub open spec fn spec_broad_phase_skips(a: BodyProperties, b: BodyProperties) -> bool {
    crate::vector::v_len_sq(v_sub(a.pos, b.pos)) > s_mul_up(
        spec_broad_phase_limit(a, b),
        spec_broad_phase_limit(a, b),
    )
}

/// The mirror of `Shape::intersect`: unsupported geometry errs, pairs
/// beyond the broad-phase distance bound are skipped, the rest go to the
/// sphere solver.
pub open spec fn spec_intersect(a: BodyProperties, b: BodyProperties) -> Result<
    Option<Intersection>,
    EngineError,
> {
    if !(a.shape is Sphere) || !(b.shape is Sphere) {
        Err(EngineError::UnsupportedShape)
    } else {
        if spec_broad_phase_skips(a, b) {
            Ok(None)
        } else {
            Ok(intersect::spec_sphere_sphere(a, b))
        }
    }
}

/// The inverse of a valid mass stays within [1, MASS_CAP] in fixed point.
pub proof fn lemma_inv_mass(m: int)
    requires
        1 <= m <= MASS_CAP as int,
    ensures
        1 <= s_div(SCALE as int, m) <= MASS_CAP as int,
{
    let s: int = SCALE as int;
    let p: int = s * s;
    assert(p == MASS_CAP as int);
    vstd::arithmetic::div_mod::lemma_div_is_ordered_by_denominator(p, m, MASS_CAP as int);
    vstd::arithmetic::div_mod::lemma_div_is_ordered_by_denominator(p, 1, m);
    vstd::arithmetic::div_mod::lemma_div_by_self(MASS_CAP as int);
    assert(p / 1 == p) by {
        vstd::arithmetic::div_mod::lemma_div_basics(p);
    };
}

/// The mirror of `Shape::collide`: sub-step advance to the contact, the
/// impulse when the pair is approaching, then the remaining sub-step with
/// the updated velocity.
pub open spec fn spec_collide(i: Intersection, p: BodyProperties, delta: Scalar) -> BodyProperties {
    let p1 = BodyProperties {
        pos: v_add(p.pos, v_scale(v_scale(p.scaled_vel, i.t.m()), delta.m())),
        ..p
    };
    let cr: int = s_min(p1.restitution.m(), i.other_properties.restitution.m());
    let vn: int = v_dot(v_sub(i.other_properties.actual_vel, p1.scaled_vel), i.other_normal);
    let p2 = if vn >= 0 {
        let inv_ma: int = s_div(SCALE as int, p1.mass.m());
        let inv_mb: int = s_div(SCALE as int, i.other_properties.mass.m());
        let j: int = s_div(s_mul(s_neg(s_add(SCALE as int, cr)), vn), s_add(inv_ma, inv_mb));
        let impulse: Vector = v_scale(i.other_normal, j);
        spec_set_vel(p1, v_sub(p1.scaled_vel, v_scale(impulse, inv_ma)))
    } else {
        p1
    };
    BodyProperties {
        pos: v_add(p2.pos, v_scale(v_scale(p2.scaled_vel, s_sub(SCALE as int, i.t.m())), delta.m())),
        ..p2
    }
}

impl Shape {
    /// The bounding radius: a sphere's radius. A cube has none
    /// implemented, and reports so rather than inventing one.
    pub fn bounding_radius(&self) -> (r: Result<Scalar, EngineError>)
        ensures
            r == spec_bounding_radius(*self),
    {
        match self {
            Shape::Sphere { radius } => Ok(*radius),
            Shape::Cube { .. } => Err(EngineError::UnsupportedShape),
        }
    }

    /// Detect a collision between two bodies within this step.
    ///
    /// A pair involving the unimplemented cube variant errs before
    /// anything else, so unsupported geometry is never silently skipped.
    /// After that, a pair whose current distance exceeds the combined
    /// step-scaled speeds plus the combined radii is skipped without
    /// invoking the quadratic solver; the bound rounds upward and the
    /// squared distance downward, and the skip is conservative: a
    /// skipped pair cannot actually reach contact within the step (the
    /// law `lemma_broad_phase_conservative` proves it from the cached
    /// speed bounds).
    pub fn intersect(a: BodyProperties, b: BodyProperties) -> (r: Result<
        Option<Intersection>,
        EngineError,
    >)
        ensures
            r == spec_intersect(a, b),
            r is Err <==> !(a.shape is Sphere && b.shape is Sphere),
            r matches Ok(Some(i)) ==> 0 <= i.t.m() <= SCALE as int && i.self_properties
                == intersect::spec_advanced_to(a, i.t.m()) && i.other_properties
                == intersect::spec_advanced_to(b, i.t.m()),
    {
        match (a.shape, b.shape) {
            (Shape::Sphere { .. }, Shape::Sphere { .. }) => {
                let distance_limit = a.vel_len().add(a.bounding_radius).add(b.bounding_radius).add(
                    b.vel_len(),
                );
                let limit_sq = distance_limit.mul_up(distance_limit);
                let dist_sq = a.pos.sub(b.pos).length_sq();
                if limit_sq.lt(dist_sq) {
                    // Too far apart to collide in this step.
                    Ok(None)
                } else {
                    Ok(intersect::sphere_sphere(a, b))
                }
            },
            _ => Err(EngineError::UnsupportedShape),
        }
    }

    /// Resolve an accepted collision for the body behind
    /// `self_properties`.
    ///
    /// The body advances to the point of contact, receives the
    /// restitution- and mass-weighted impulse along the contact normal if
    /// the pair is approaching - a separating pair's velocity is left
    /// untouched, so a collision never adds energy there - and then
    /// covers the remainder of the step with its updated velocity.
    pub fn collide(i: &Intersection, self_properties: &mut BodyProperties, delta: Scalar)
        requires
            i.wf(),
            old(self_properties).wf(),
        ensures
            *final(self_properties) == spec_collide(*i, *old(self_properties), delta),
            final(self_properties).wf(),
            v_dot(
                v_sub(i.other_properties.actual_vel, old(self_properties).scaled_vel),
                i.other_normal,
            ) < 0 ==> final(self_properties).scaled_vel == old(self_properties).scaled_vel
                && final(self_properties).actual_vel == old(self_properties).actual_vel,
    {
        // First sub-step: advance to the moment of contact.
        self_properties.pos = self_properties.pos.add(
            self_properties.vel().mul(i.t).mul(delta),
        );

        let cr = self_properties.restitution.min(i.other_properties.restitution);
        let ma = self_properties.mass;
        let mb = i.other_properties.mass;
        let ua = self_properties.vel();
        let ub = i.other_properties.undo_delta().vel();

        // Relative velocity along the contact normal; positive means the
        // bodies are approaching.
        let dv = ub.sub(ua);
        let vn = dv.dot(i.other_normal);

        if !vn.is_negative() {
            proof {
                lemma_inv_mass(ma.m());
                lemma_inv_mass(mb.m());
            }
            let one = Scalar::from_int(1);
            let j = one.add(cr).neg().mul(vn).div(one.div(ma).add(one.div(mb)));
            let impulse = i.other_normal.mul(j);
            let newv = self_properties.vel().sub(impulse.mul(one.div(ma)));
            self_properties.set_vel(newv);
        }

        // Remaining sub-step with the (possibly updated) velocity.
        let one = Scalar::from_int(1);
        self_properties.pos = self_properties.pos.add(
            self_properties.vel().mul(one.sub(i.t)).mul(delta),
        );
    }
}

} // verus!
