use pointmass::fixed::SCALE;
use pointmass::particle::{Particle, ParticleError, DAMP};
use pointmass::vec3::Vector3;

// One sixtieth of a second and nine tenths to the power of one sixtieth,
// as fixed-point scalars: one tick of a sixty-per-second simulation.
const TICK: i64 = 16_666;
const TICK_DAMP: i64 = 998_245;

#[test]
fn new_particle_with_zero_mass_test() {
    let position = Vector3::new(0, 0, 0);
    let velocity = Vector3::new(0, 0, 0);
    let acceleration = Vector3::new(0, 0, 0);
    let mass: i64 = 0;

    let res = Particle::new(position, velocity, acceleration, mass);
    assert!(res.is_err());
    let err = res.err().unwrap();
    assert_eq!(err, ParticleError::InvalidMass);
    assert_eq!(err.message(), "Illegal mass.");
}

#[test]
fn new_particle_with_negative_mass_test() {
    let position = Vector3::new(0, 0, 0);
    let velocity = Vector3::new(0, 0, 0);
    let acceleration = Vector3::new(0, 0, 0);
    let mass: i64 = -1_000_000;

    let res = Particle::new(position, velocity, acceleration, mass);
    assert!(res.is_err());
    let err = res.err().unwrap();
    assert_eq!(err, ParticleError::InvalidMass);
    assert_eq!(err.message(), "Illegal mass.");
}

#[test]
fn new_particle_with_inf_mass_test() {
    // The largest representable mass stands in for an unbounded one: any
    // mass beyond the squared scale has inverse zero.
    let position = Vector3::new(0, 0, 0);
    let velocity = Vector3::new(0, 0, 0);
    let acceleration = Vector3::new(0, 0, 0);
    let mass: i64 = i64::MAX;

    let res = Particle::new(position, velocity, acceleration, mass);
    assert!(res.is_ok());
    assert_eq!(res.unwrap().inverse_mass, 0);
}

#[test]
fn new_immovable_particle_test() {
    let position = Vector3::new(0, 0, 0);
    let velocity = Vector3::new(0, 0, 0);
    let acceleration = Vector3::new(0, 0, 0);

    let res = Particle::new_immovable(position, velocity, acceleration);
    assert_eq!(res.inverse_mass, 0);
}

#[test]
fn new_particle_with_valid_mass() {
    let position = Vector3::new(1_000_000, 2_000_000, 3_000_000);
    let velocity = Vector3::new(-1_000_000, 0, 500_000);
    let acceleration = Vector3::new(0, -9_810_000, 0);

    let p = Particle::new(position, velocity, acceleration, 3_000_000).unwrap();
    assert_eq!(p.position, position);
    assert_eq!(p.velocity, velocity);
    assert_eq!(p.acceleration, acceleration);
    assert_eq!(p.forces, Vector3::new(0, 0, 0));
    assert_eq!(p.damp, DAMP);
    // The inverse of three is a third, truncated at the scale.
    assert_eq!(p.inverse_mass, 333_333);
}

#[test]
fn mass_at_immovable_threshold() {
    // The squared scale is the largest mass with a nonzero inverse.
    let zero = Vector3::new(0, 0, 0);
    let p = Particle::new(zero, zero, zero, SCALE * SCALE).unwrap();
    assert_eq!(p.inverse_mass, 1);
    let q = Particle::new(zero, zero, zero, SCALE * SCALE + 1).unwrap();
    assert_eq!(q.inverse_mass, 0);
}

#[test]
fn immovable_at_rest_stays_put() {
    let position = Vector3::new(1_300_000, 2_100_000, -300_000);
    let zero = Vector3::new(0, 0, 0);
    let mut p = Particle::new_immovable(position, zero, zero);

    p.integrate(TICK, TICK_DAMP);
    assert_eq!(p.position, position);
    assert_eq!(p.velocity, zero);
}

#[test]
fn immovable_ignores_forces() {
    let zero = Vector3::new(0, 0, 0);
    let velocity = Vector3::new(2_000_000, 0, 0);
    let mut p = Particle::new_immovable(zero, velocity, zero);
    p.forces = Vector3::new(5_000_000, -7_000_000, 9_000_000);

    p.integrate(TICK, TICK_DAMP);
    // The forces stay in the buffer but never reach the velocity.
    assert_eq!(p.forces, Vector3::new(5_000_000, -7_000_000, 9_000_000));
    assert_eq!(p.position, Vector3::new(33_332, 0, 0));
    assert_eq!(p.velocity, Vector3::new(1_996_490, 0, 0));
}

#[test]
fn integrate_one_tick() {
    // One tick under the documented second-order position update and
    // damped first-order velocity update, checked value by value.
    let position = Vector3::new(1_300_000, 2_100_000, -300_000);
    let velocity = Vector3::new(0, 0, 0);
    let acceleration = Vector3::new(1_243_000, -3_000_000, 333_300);
    let mut p = Particle::new(position, velocity, acceleration, 3_000_000).unwrap();

    p.integrate(TICK, TICK_DAMP);
    assert_eq!(p.position, Vector3::new(1_300_172, 2_099_584, -299_954));
    assert_eq!(p.velocity, Vector3::new(20_678, -49_910, 5_544));
    assert_eq!(p.acceleration, acceleration);
}

#[test]
fn integrate_applies_damping() {
    // A coasting particle keeps nine tenths of its velocity over a full
    // second of drag, and moves by the undamped velocity first.
    let zero = Vector3::new(0, 0, 0);
    let velocity = Vector3::new(1_000_000, 0, 0);
    let mut p = Particle::new(zero, velocity, zero, 1_000_000).unwrap();

    p.integrate(SCALE, DAMP);
    assert_eq!(p.position, Vector3::new(1_000_000, 0, 0));
    assert_eq!(p.velocity, Vector3::new(900_000, 0, 0));
}

#[test]
fn integrate_leaves_forces_accumulated() {
    // Integration reads the force buffer but never clears it: that is
    // the owner's job between ticks.
    let zero = Vector3::new(0, 0, 0);
    let mut p = Particle::new(zero, zero, zero, 1_000_000).unwrap();
    p.forces = Vector3::new(1_000_000, 0, 0);

    p.integrate(SCALE, DAMP);
    assert_eq!(p.forces, Vector3::new(1_000_000, 0, 0));
    assert_eq!(p.velocity, Vector3::new(900_000, 0, 0));
    assert_eq!(p.position, zero);
}

#[test]
fn try_integrate_accepts_representable_step() {
    let position = Vector3::new(1_300_000, 2_100_000, -300_000);
    let velocity = Vector3::new(0, 0, 0);
    let acceleration = Vector3::new(1_243_000, -3_000_000, 333_300);
    let mut p = Particle::new(position, velocity, acceleration, 3_000_000).unwrap();

    assert!(p.step_fits(TICK, TICK_DAMP));
    assert!(p.try_integrate(TICK, TICK_DAMP));
    assert_eq!(p.position, Vector3::new(1_300_172, 2_099_584, -299_954));
}

#[test]
fn try_integrate_refuses_unrepresentable_step() {
    let zero = Vector3::new(0, 0, 0);
    let acceleration = Vector3::new(i64::MAX, 0, 0);
    let mut p = Particle::new_immovable(zero, zero, acceleration);

    assert!(!p.step_fits(i64::MAX, SCALE));
    assert!(!p.try_integrate(i64::MAX, SCALE));
    // The refused step left the particle untouched.
    assert_eq!(p.position, zero);
    assert_eq!(p.velocity, zero);
    assert_eq!(p.acceleration, acceleration);
}
