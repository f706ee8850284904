//! A rigid body: physical state plus at most one pending collision for
//! the current step. Detection fills the pending slot under an
//! earliest-in-time arbitration rule; integration consumes and clears it.
use crate::num::Scalar;
use crate::shapes::{
    spec_apply_delta, spec_collide, spec_intersect, spec_invert, spec_new_props, BodyProperties,
    EngineError, Intersection, Shape, MASS_CAP,
};
use crate::vector::{v_add, v_scale, Vector};
use vstd::prelude::*;

verus! {

/// A body under simulation: its physical state and the earliest
/// collision found for it in the current step, if any.
#[derive(Clone, Copy, PartialEq, Debug)]
pub struct RigidBody {
    pub properties: BodyProperties,
    pub intersection: Option<Intersection>,
}

/// The collision candidate a mutual detection pass produces for the
/// first body: both states are step-scaled and handed to the shape
/// dispatch. Well-formed bodies are spheres, so the dispatch cannot err;
/// the error arm is vacuous for them.
pub open spec fn spec_mutual_candidate(a: RigidBody, b: RigidBody, delta: Scalar) -> Option<
    Intersection,
> {
    match spec_intersect(
        spec_apply_delta(a.properties, delta),
        spec_apply_delta(b.properties, delta),
    ) {
        Ok(c) => c,
        Err(_) => None,
    }
}

/// The mirror image of an optional collision record.
pub open spec fn spec_opt_invert(c: Option<Intersection>) -> Option<Intersection> {
    match c {
        Some(i) => Some(spec_invert(i)),
        None => None,
    }
}

/// The earliest-collision arbitration rule: a candidate replaces the
/// pending record only if it is strictly earlier in the step.
pub open spec fn spec_set_intersection(
    cur: Option<Intersection>,
    cand: Option<Intersection>,
) -> Option<Intersection> {
    match cand {
        None => cur,
        Some(i) => match cur {
            None => Some(i),
            Some(c) => if i.t.m() < c.t.m() {
                Some(i)
            } else {
                cur
            },
        },
    }
}

/// The mirror of `move_tick`: resolve the pending collision if one
/// exists, otherwise translate by `velocity * delta`; either way the
/// pending slot is cleared.
pub open spec fn spec_move_tick(body: RigidBody, delta: Scalar) -> RigidBody {
    match body.intersection {
        Some(i) => RigidBody {
            properties: spec_collide(i, body.properties, delta),
            intersection: None,
        },
        None => RigidBody {
            properties: BodyProperties {
                pos: v_add(body.properties.pos, v_scale(body.properties.scaled_vel, delta.m())),
                ..body.properties
            },
            intersection: None,
        },
    }
}

/// The mirror of `RigidBody::new`.
pub open spec fn spec_new_body(
    shape: Shape,
    mass: Scalar,
    pos: Vector,
    vel: Vector,
    restitution: Scalar,
) -> Result<RigidBody, EngineError> {
    match spec_new_props(shape, mass, pos, vel, restitution) {
        Ok(p) => Ok(RigidBody { properties: p, intersection: None }),
        Err(e) => Err(e),
    }
}

impl RigidBody {
    /// A valid body: valid physical state, and a valid pending record if
    /// one is present.
    pub open spec fn wf(self) -> bool {
        &&& self.properties.wf()
        &&& match self.intersection {
            Some(i) => i.wf(),
            None => true,
        }
    }

    /// Build a body with no pending collision. Validation is the one of
    /// `BodyProperties::new`: an unimplemented shape, a non-positive
    /// radius or an out-of-range mass is rejected.
    pub fn new(shape: Shape, mass: Scalar, pos: Vector, vel: Vector, restitution: Scalar) -> (r:
        Result<RigidBody, EngineError>)
        ensures
            r == spec_new_body(shape, mass, pos, vel, restitution),
            r matches Ok(b) ==> b.wf() && b.intersection is None && b.properties.unscaled(),
            r is Ok <==> (shape matches Shape::Sphere { radius } && radius.m() > 0 && 1
                <= mass.m() <= MASS_CAP as int),
    {
        match BodyProperties::new(shape, mass, pos, vel, restitution) {
            Ok(p) => Ok(RigidBody { properties: p, intersection: None }),
            Err(e) => Err(e),
        }
    }

    /// Mutual detection for one pair: the candidate collision (if any) is
    /// offered to both bodies' pending slots under the earliest-wins
    /// rule; the other body receives the mirror-image record. Physical
    /// state is untouched.
    pub fn intersect_tick(&mut self, other: &mut RigidBody, delta: Scalar)
        requires
            old(self).wf(),
            old(other).wf(),
        ensures
            final(self).properties == old(self).properties,
            final(other).properties == old(other).properties,
            final(self).intersection == spec_set_intersection(
                old(self).intersection,
                spec_mutual_candidate(*old(self), *old(other), delta),
            ),
            final(other).intersection == spec_set_intersection(
                old(other).intersection,
                spec_opt_invert(spec_mutual_candidate(*old(self), *old(other), delta)),
            ),
            final(self).wf(),
            final(other).wf(),
    {
        let intersection = match Shape::intersect(
            self.properties.apply_delta(delta),
            other.properties.apply_delta(delta),
        ) {
            Ok(c) => c,
            Err(_) => {
                // Well-formed bodies are spheres; the dispatch cannot err.
                proof {
                    assert(false);
                }
                None
            },
        };
        let inverted = match &intersection {
            Some(i) => Some(i.invert()),
            None => None,
        };
        other.set_intersection(inverted);
        self.set_intersection(intersection);
    }

    /// Offer a candidate to the pending slot: only a strictly earlier
    /// collision displaces the one already pending.
    fn set_intersection(&mut self, i: Option<Intersection>)
        requires
            old(self).wf(),
            i matches Some(x) ==> x.wf(),
        ensures
            final(self).properties == old(self).properties,
            final(self).intersection == spec_set_intersection(old(self).intersection, i),
            final(self).wf(),
    {
        if let Some(i) = i {
            match self.intersection {
                Some(current) => {
                    if i.t.lt(current.t) {
                        self.intersection = Some(i);
                    }
                },
                None => {
                    self.intersection = Some(i);
                },
            }
        }
    }

    /// Integrate this body over the step: resolve the pending collision
    /// if one exists, otherwise translate by `velocity * delta`. The
    /// pending slot is cleared either way.
    pub fn move_tick(&mut self, delta: Scalar)
        requires
            old(self).wf(),
        ensures
            *final(self) == spec_move_tick(*old(self), delta),
            final(self).wf(),
            final(self).intersection is None,
    {
        match self.intersection {
            Some(intersection) => {
                Shape::collide(&intersection, &mut self.properties, delta);
            },
            None => {
                self.properties.pos = self.properties.pos.add(self.properties.vel().mul(delta));
            },
        }
        self.intersection = None;
    }

    /// The body's shape.
    pub fn shape(&self) -> (r: &Shape)
        ensures
            r == self.properties.shape,
    {
        &self.properties.shape
    }

    /// The body's mass.
    pub fn mass(&self) -> (r: Scalar)
        ensures
            r == self.properties.mass,
    {
        self.properties.mass
    }

    /// The body's position.
    pub fn pos(&self) -> (r: Vector)
        ensures
            r == self.properties.pos,
    {
        self.properties.pos
    }

    /// The body's current (scaled) velocity view.
    pub fn vel(&self) -> (r: Vector)
        ensures
            r == self.properties.scaled_vel,
    {
        self.properties.vel()
    }
}

} // verus!
