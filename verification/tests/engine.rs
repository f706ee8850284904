//! Scenario tests for the collision engine: detection, arbitration,
//! resolution, and the simulation step.
use nous::num::Scalar;
use nous::shapes::intersect::sphere_sphere;
use nous::shapes::solver::quadratic;
use nous::shapes::{BodyProperties, EngineError, Shape};
use nous::vector::Vector;
use nous::{RigidBody, Simulation};

fn s(i: i64) -> Scalar {
    Scalar::from_int(i)
}

fn sm(micros: i128) -> Scalar {
    Scalar::from_micros(micros)
}

fn v(x: i64, y: i64) -> Vector {
    Vector::new(Scalar::from_int(x), Scalar::from_int(y))
}

fn vm(x: i128, y: i128) -> Vector {
    Vector::new(sm(x), sm(y))
}

fn sphere(radius_micros: i128) -> Shape {
    Shape::Sphere { radius: sm(radius_micros) }
}

fn body(radius_micros: i128, mass: i64, pos: Vector, vel: Vector) -> RigidBody {
    RigidBody::new(sphere(radius_micros), s(mass), pos, vel, s(1)).unwrap()
}

#[test]
fn head_on_spheres_meet_at_the_end_of_the_step() {
    // Radius 0.5 at (0,0) and (3,0), velocities (1,0) and (-1,0), step 1:
    // the gap of 2 closes at rate 2, so contact falls at t = 1, each
    // sphere having covered half the gap.
    let a = body(500_000, 1, v(0, 0), v(1, 0));
    let b = body(500_000, 1, v(3, 0), v(-1, 0));
    let i = sphere_sphere(
        a.properties.apply_delta(s(1)),
        b.properties.apply_delta(s(1)),
    )
    .unwrap();
    assert_eq!(i.t.micros(), 1_000_000);
    assert_eq!(i.other_normal, v(-1, 0));
    // The snapshots carry the states advanced to the point of contact.
    assert_eq!(i.self_properties.pos, v(1, 0));
    assert_eq!(i.other_properties.pos, v(2, 0));
    assert_eq!(i.self_properties.vel(), v(1, 0));
    assert_eq!(i.other_properties.vel(), v(-1, 0));
}

#[test]
fn equal_mass_elastic_collision_swaps_velocities() {
    let mut sim = Simulation::new();
    sim.spawn(body(500_000, 1, v(0, 0), v(1, 0)));
    sim.spawn(body(500_000, 1, v(3, 0), v(-1, 0)));
    sim.tick(s(1));
    let objects = sim.objects();
    assert_eq!(objects[0].pos(), v(1, 0));
    assert_eq!(objects[0].vel(), v(-1, 0));
    assert_eq!(objects[1].pos(), v(2, 0));
    assert_eq!(objects[1].vel(), v(1, 0));
}

#[test]
fn scalar_momentum_sum_is_kept_by_the_elastic_swap() {
    let mut sim = Simulation::new();
    sim.spawn(body(500_000, 1, v(0, 0), v(1, 0)));
    sim.spawn(body(500_000, 1, v(3, 0), v(-1, 0)));
    let before: i128 = sim
        .objects()
        .iter()
        .map(|o| o.mass().mul(o.vel().length()).micros())
        .sum();
    sim.tick(s(1));
    let after: i128 = sim
        .objects()
        .iter()
        .map(|o| o.mass().mul(o.vel().length()).micros())
        .sum();
    assert_eq!(before, 2_000_000);
    assert!((before - after).abs() <= 1_000);
}

#[test]
fn vector_momentum_sum_is_kept_by_the_elastic_swap() {
    let mut sim = Simulation::new();
    sim.spawn(body(500_000, 1, v(0, 0), v(1, 0)));
    sim.spawn(body(500_000, 1, v(3, 0), v(-1, 0)));
    let sum = |sim: &Simulation| {
        let mut x: i128 = 0;
        let mut y: i128 = 0;
        for o in sim.objects().iter() {
            x += o.mass().mul(o.vel().x).micros();
            y += o.mass().mul(o.vel().y).micros();
        }
        (x, y)
    };
    let before = sum(&sim);
    sim.tick(s(1));
    let after = sum(&sim);
    assert_eq!(before, (0, 0));
    assert_eq!(after, (0, 0));
}

#[test]
fn separated_receding_spheres_translate_exactly() {
    // Separated by 3 and moving apart: one tick is a plain translation
    // by velocity times step length, with no spurious collision.
    let mut sim = Simulation::new();
    sim.spawn(body(500_000, 1, v(0, 0), v(-1, 0)));
    sim.spawn(body(500_000, 1, v(3, 0), v(1, 0)));
    sim.tick(sm(500_000));
    let objects = sim.objects();
    assert_eq!(objects[0].pos(), vm(-500_000, 0));
    assert_eq!(objects[0].vel(), v(-1, 0));
    assert_eq!(objects[1].pos(), vm(3_500_000, 0));
    assert_eq!(objects[1].vel(), v(1, 0));
}

#[test]
fn broad_phase_skips_a_pair_beyond_the_distance_bound() {
    // Separation 10 exceeds combined scaled speed + combined radius = 3:
    // detection reports no contact without running the solver.
    let a = body(500_000, 1, v(0, 0), v(1, 0));
    let b = body(500_000, 1, v(10, 0), v(-1, 0));
    let r = Shape::intersect(
        a.properties.apply_delta(s(1)),
        b.properties.apply_delta(s(1)),
    );
    assert_eq!(r, Ok(None));
}

#[test]
fn solver_rejects_a_negative_discriminant() {
    // t^2 + 1 = 0 has no real root.
    assert_eq!(quadratic(s(1), s(0), s(1)), None);
}

#[test]
fn solver_reports_no_root_for_a_zero_leading_coefficient() {
    // No relative approach, hence no root.
    assert_eq!(quadratic(s(0), s(1), s(1)), None);
}

#[test]
fn solver_returns_both_roots_smaller_first() {
    // 4t^2 - 12t + 8 = 0 has roots 1 and 2.
    let (low, high) = quadratic(s(4), s(-12), s(8)).unwrap();
    assert_eq!(low.micros(), 1_000_000);
    assert_eq!(high.micros(), 2_000_000);
}

#[test]
fn contact_after_the_step_window_is_rejected() {
    // Gap 9 closing at rate 2: contact at t = 4.5, outside [0, 1].
    let a = body(500_000, 1, v(0, 0), v(1, 0));
    let b = body(500_000, 1, v(10, 0), v(-1, 0));
    let r = sphere_sphere(
        a.properties.apply_delta(s(1)),
        b.properties.apply_delta(s(1)),
    );
    assert!(r.is_none());
}

#[test]
fn scaling_round_trip_recovers_the_velocity_exactly() {
    let p = BodyProperties::new(sphere(500_000), s(2), v(1, 2), v(3, -4), sm(700_000)).unwrap();
    let round_tripped = p.apply_delta(sm(300_000)).undo_delta();
    assert_eq!(round_tripped, p);
    assert_eq!(round_tripped.vel(), v(3, -4));
}

#[test]
fn earliest_pending_intersection_wins() {
    // A is hit by B at t = 0.2; a later candidate against C at t = 0.6
    // arrives in the same scan and must not displace it. A therefore
    // resolves against the t = 0.2 contact only: it takes B's momentum
    // and covers the remaining 0.8 of the step with it.
    let mut sim = Simulation::new();
    sim.spawn(body(500_000, 1, v(0, 0), v(0, 0)));
    sim.spawn(body(500_000, 1, v(3, 0), v(-10, 0)));
    sim.spawn(body(500_000, 1, vm(0, -7_000_000), vm(0, 10_000_000)));
    sim.tick(s(1));
    let objects = sim.objects();
    assert_eq!(objects[0].pos(), v(-8, 0));
    assert_eq!(objects[0].vel(), v(-10, 0));
    assert_eq!(objects[1].pos(), v(1, 0));
    assert_eq!(objects[1].vel(), v(0, 0));
}

#[test]
fn inverting_an_intersection_swaps_the_record() {
    let a = body(500_000, 1, v(0, 0), v(1, 0));
    let b = body(500_000, 1, v(3, 0), v(-1, 0));
    let i = sphere_sphere(
        a.properties.apply_delta(s(1)),
        b.properties.apply_delta(s(1)),
    )
    .unwrap();
    let j = i.invert();
    assert_eq!(j.t, i.t);
    assert_eq!(j.other_normal, v(1, 0));
    assert_eq!(j.self_properties, i.other_properties);
    assert_eq!(j.other_properties, i.self_properties);
}

#[test]
fn construction_rejects_invalid_bodies() {
    assert_eq!(
        RigidBody::new(sphere(500_000), s(0), v(0, 0), v(0, 0), s(1)).unwrap_err(),
        EngineError::InvalidMass,
    );
    assert_eq!(
        RigidBody::new(sphere(500_000), s(-1), v(0, 0), v(0, 0), s(1)).unwrap_err(),
        EngineError::InvalidMass,
    );
    assert_eq!(
        RigidBody::new(sphere(500_000), s(2_000_000), v(0, 0), v(0, 0), s(1)).unwrap_err(),
        EngineError::InvalidMass,
    );
    assert_eq!(
        RigidBody::new(sphere(0), s(1), v(0, 0), v(0, 0), s(1)).unwrap_err(),
        EngineError::InvalidRadius,
    );
    assert_eq!(
        RigidBody::new(sphere(-500_000), s(1), v(0, 0), v(0, 0), s(1)).unwrap_err(),
        EngineError::InvalidRadius,
    );
    assert_eq!(
        RigidBody::new(Shape::Cube { scale: v(1, 1) }, s(1), v(0, 0), v(0, 0), s(1)).unwrap_err(),
        EngineError::UnsupportedShape,
    );
}

#[test]
fn cube_dispatch_is_an_explicit_unsupported_error() {
    assert_eq!(
        Shape::Cube { scale: v(1, 1) }.bounding_radius(),
        Err(EngineError::UnsupportedShape),
    );
    assert_eq!(sphere(500_000).bounding_radius().unwrap().micros(), 500_000);

    // A cube body cannot be built through the constructor; a hand-rolled
    // state shows the dispatch error surfaces even for a distant pair,
    // instead of a silent skip.
    let good = body(500_000, 1, v(0, 0), v(0, 0)).properties;
    let mut cube = good;
    cube.shape = Shape::Cube { scale: v(1, 1) };
    cube.pos = v(100, 0);
    assert_eq!(Shape::intersect(good, cube), Err(EngineError::UnsupportedShape));
    assert_eq!(Shape::intersect(cube, good), Err(EngineError::UnsupportedShape));
}

#[test]
fn accessors_expose_the_body_state() {
    let b = body(500_000, 2, v(1, 2), v(3, 4));
    assert_eq!(*b.shape(), sphere(500_000));
    assert_eq!(b.mass(), s(2));
    assert_eq!(b.pos(), v(1, 2));
    assert_eq!(b.vel(), v(3, 4));
    let mut p = b.properties;
    assert_eq!(p.vel(), v(3, 4));
    assert_eq!(p.vel_len(), s(5));
    p.set_vel(v(6, 8));
    assert_eq!(p.vel(), v(6, 8));
    assert_eq!(p.vel_len(), s(10));
}

#[test]
fn spawn_keeps_insertion_order() {
    let mut sim = Simulation::new();
    assert_eq!(sim.objects().len(), 0);
    sim.spawn(body(500_000, 1, v(0, 0), v(0, 0)));
    sim.spawn(body(500_000, 1, v(5, 0), v(0, 0)));
    assert_eq!(sim.objects().len(), 2);
    assert_eq!(sim.objects()[0].pos(), v(0, 0));
    assert_eq!(sim.objects()[1].pos(), v(5, 0));
}

#[test]
fn tick_on_empty_and_single_body_populations() {
    let mut empty = Simulation::new();
    empty.tick(s(1));
    assert_eq!(empty.objects().len(), 0);

    let mut single = Simulation::new();
    single.spawn(body(500_000, 1, v(0, 0), v(2, -3)));
    single.tick(s(2));
    assert_eq!(single.objects().len(), 1);
    assert_eq!(single.objects()[0].pos(), v(4, -6));
    assert_eq!(single.objects()[0].vel(), v(2, -3));
}

#[test]
fn default_simulation_is_empty() {
    let sim = Simulation::default();
    assert_eq!(sim.objects().len(), 0);
}

#[test]
fn overlapping_separating_spheres_drift_apart() {
    // Overlapping but separating spheres: the smaller root lies in the
    // past and is rejected, so the step is a plain translation apart.
    let mut sim = Simulation::new();
    sim.spawn(body(1_000_000, 1, v(0, 0), v(-1, 0)));
    sim.spawn(body(1_000_000, 1, v(1, 0), v(1, 0)));
    sim.tick(s(1));
    let objects = sim.objects();
    assert_eq!(objects[0].vel(), v(-1, 0));
    assert_eq!(objects[1].vel(), v(1, 0));
    assert_eq!(objects[0].pos(), v(-1, 0));
    assert_eq!(objects[1].pos(), v(2, 0));
}

#[test]
fn resolution_leaves_a_separating_pair_untouched() {
    // A contact record whose relative normal velocity points apart gets
    // no impulse: the body keeps its velocity and only translates.
    let moving = body(500_000, 1, v(0, 0), v(1, 0)).properties;
    let still = body(500_000, 1, v(1, 0), v(0, 0)).properties;
    let record = nous::shapes::Intersection {
        t: s(0),
        other_normal: v(1, 0),
        self_properties: moving,
        other_properties: still,
    };
    let mut resolved = moving;
    Shape::collide(&record, &mut resolved, s(1));
    assert_eq!(resolved.vel(), v(1, 0));
    assert_eq!(resolved.pos, v(1, 0));
}
