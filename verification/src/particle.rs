//! A point mass advanced by semi-implicit Euler integration.
//!
//! A [`Particle`] owns a position, a velocity, a constant acceleration, an
//! accumulated-force buffer, a per-second velocity retention factor and an
//! inverse mass. Mass itself is never stored: a zero inverse mass encodes an
//! immovable particle of unbounded mass, so integration never divides by a
//! mass. The spec functions [`pos_next`] and [`vel_next`] state one
//! integration step exactly, intermediate rounding included.

use crate::fixed::{fits_i64, lemma_i64_product_in_i128, mul_fx, HALF, SCALE};
use crate::vec3::Vector3;
use vstd::prelude::*;

verus! {

/// The per-second velocity retention factor: nine tenths of the velocity
/// survives each second of simulated drag.
pub const DAMP: i64 = 900_000;

/// Why constructing a particle failed.
#[derive(Clone, Copy, Debug, PartialEq, Eq, Structural)]
pub enum ParticleError {
    /// The requested mass was zero or negative, which is physically
    /// meaningless. A particle of unbounded mass is requested through
    /// [`Particle::new_immovable`] instead.
    InvalidMass,
}

impl ParticleError {
    /// The wording construction sites report for this error.
    pub fn message(&self) -> (s: &'static str)
        ensures
            s@ == "Illegal mass."@,
    {
        "Illegal mass."
    }
}

/// A point mass: the smallest unit a physics simulation can move.
pub struct Particle {
    /// Where the particle is, in fixed-point length units.
    pub position: Vector3,
    /// How fast the particle moves, in length units per second.
    pub velocity: Vector3,
    /// Constant external acceleration, such as gravity.
    pub acceleration: Vector3,
    /// Forces accumulated since the owner last cleared this buffer.
    /// Integration reads it but never clears it: resetting between ticks
    /// is the owner's responsibility.
    pub forces: Vector3,
    /// Per-second velocity retention factor, fixed at [`DAMP`].
    pub damp: i64,
    /// The reciprocal of the mass, as a fixed-point scalar; zero encodes
    /// an immovable particle.
    pub inverse_mass: i64,
}

/// One axis of the position update: the old position plus the average
/// velocity over the step times the duration, the average being the old
/// velocity corrected by half the acceleration gained over the step.
pub open spec fn pos_next(p: int, v: int, a: int, dt: int) -> int {
    p + mul_fx(v + mul_fx(mul_fx(a, dt), HALF as int), dt)
}

/// One axis of the velocity update: the old velocity plus the resulting
/// acceleration (external plus force times inverse mass) over the step,
/// scaled by the caller's retention factor for the step.
pub open spec fn vel_next(v: int, a: int, f: int, im: int, dt: int, ds: int) -> int {
    mul_fx(v + mul_fx(a + mul_fx(f, im), dt), ds)
}

/// Whether every intermediate of [`pos_next`] and [`vel_next`] on one axis
/// is representable as an `i64`.
pub open spec fn axis_fits(p: int, v: int, a: int, f: int, im: int, dt: int, ds: int) -> bool {
    &&& fits_i64(mul_fx(a, dt))
    &&& fits_i64(mul_fx(mul_fx(a, dt), HALF as int))
    &&& fits_i64(v + mul_fx(mul_fx(a, dt), HALF as int))
    &&& fits_i64(mul_fx(v + mul_fx(mul_fx(a, dt), HALF as int), dt))
    &&& fits_i64(pos_next(p, v, a, dt))
    &&& fits_i64(mul_fx(f, im))
    &&& fits_i64(a + mul_fx(f, im))
    &&& fits_i64(mul_fx(a + mul_fx(f, im), dt))
    &&& fits_i64(v + mul_fx(a + mul_fx(f, im), dt))
    &&& fits_i64(vel_next(v, a, f, im, dt, ds))
}

/// Whether an integration step of duration `dt` with retention factor `ds`
/// stays representable on all three axes of the particle's state.
pub open spec fn integrate_fits(p: Particle, dt: int, ds: int) -> bool {
    &&& axis_fits(
        p.position.x as int,
        p.velocity.x as int,
        p.acceleration.x as int,
        p.forces.x as int,
        p.inverse_mass as int,
        dt,
        ds,
    )
    &&& axis_fits(
        p.position.y as int,
        p.velocity.y as int,
        p.acceleration.y as int,
        p.forces.y as int,
        p.inverse_mass as int,
        dt,
        ds,
    )
    &&& axis_fits(
        p.position.z as int,
        p.velocity.z as int,
        p.acceleration.z as int,
        p.forces.z as int,
        p.inverse_mass as int,
        dt,
        ds,
    )
}

impl Particle {
    /// Builds a particle of the given finite mass, rejecting a zero or
    /// negative one. The inverse of the mass is stored; a mass larger than
    /// [`SCALE`] squared is indistinguishable from an unbounded one and
    /// yields a zero inverse, an immovable particle. The force buffer
    /// starts empty and the damping factor at [`DAMP`].
    pub fn new(position: Vector3, velocity: Vector3, acceleration: Vector3, mass: i64) -> (r:
        Result<Particle, ParticleError>)
        ensures
            mass <= 0 <==> r is Err,
            r is Err ==> r == Err::<Particle, ParticleError>(ParticleError::InvalidMass),
            mass > 0 ==> r == Ok::<Particle, ParticleError>(
                Particle {
                    position,
                    velocity,
                    acceleration,
                    forces: Vector3 { x: 0, y: 0, z: 0 },
                    damp: DAMP,
                    inverse_mass: ((SCALE * SCALE) / (mass as int)) as i64,
                },
            ),
            mass > SCALE * SCALE ==> (r is Ok && r->Ok_0.inverse_mass == 0),
    {
        if mass <= 0 {
            return Err(ParticleError::InvalidMass);
        }
        let inverse_mass: i64 = (SCALE * SCALE) / mass;
        proof {
            if mass > SCALE * SCALE {
                lemma_small_div_is_zero(SCALE * SCALE, mass as int);
            }
        }
        Ok(
            Particle {
                position,
                velocity,
                acceleration,
                forces: Vector3::new(0, 0, 0),
                damp: DAMP,
                inverse_mass,
            },
        )
    }

    /// Builds an immovable particle: one of zero inverse mass, which no
    /// accumulated force can accelerate. It never fails.
    pub fn new_immovable(position: Vector3, velocity: Vector3, acceleration: Vector3) -> (p:
        Particle)
        ensures
            p == (Particle {
                position,
                velocity,
                acceleration,
                forces: Vector3 { x: 0, y: 0, z: 0 },
                damp: DAMP,
                inverse_mass: 0,
            }),
    {
        Particle {
            position,
            velocity,
            acceleration,
            forces: Vector3::new(0, 0, 0),
            damp: DAMP,
            inverse_mass: 0,
        }
    }

    /// Advances the particle by one step of `duration` seconds:
    /// the position by the acceleration-corrected velocity over the step,
    /// then the velocity by the resulting acceleration, then the drag.
    ///
    /// A non-positive duration is a caller bug and is excluded outright
    /// rather than producing silently wrong physics. `damp_step` is the
    /// velocity retention for this step, the per-second factor
    /// [`Particle::damp`] raised to the power `duration`; that power is a
    /// transcendental of the caller's real-arithmetic layer, so the caller
    /// supplies it. The force buffer is read, never cleared.
    pub fn integrate(&mut self, duration: i64, damp_step: i64)
        requires
            duration > 0,
            0 <= damp_step <= SCALE,
            integrate_fits(*old(self), duration as int, damp_step as int),
        ensures
            final(self).position.x as int == pos_next(
                old(self).position.x as int,
                old(self).velocity.x as int,
                old(self).acceleration.x as int,
                duration as int,
            ),
            final(self).position.y as int == pos_next(
                old(self).position.y as int,
                old(self).velocity.y as int,
                old(self).acceleration.y as int,
                duration as int,
            ),
            final(self).position.z as int == pos_next(
                old(self).position.z as int,
                old(self).velocity.z as int,
                old(self).acceleration.z as int,
                duration as int,
            ),
            final(self).velocity.x as int == vel_next(
                old(self).velocity.x as int,
                old(self).acceleration.x as int,
                old(self).forces.x as int,
                old(self).inverse_mass as int,
                duration as int,
                damp_step as int,
            ),
            final(self).velocity.y as int == vel_next(
                old(self).velocity.y as int,
                old(self).acceleration.y as int,
                old(self).forces.y as int,
                old(self).inverse_mass as int,
                duration as int,
                damp_step as int,
            ),
            final(self).velocity.z as int == vel_next(
                old(self).velocity.z as int,
                old(self).acceleration.z as int,
                old(self).forces.z as int,
                old(self).inverse_mass as int,
                duration as int,
                damp_step as int,
            ),
            final(self).acceleration == old(self).acceleration,
            final(self).forces == old(self).forces,
            final(self).damp == old(self).damp,
            final(self).inverse_mass == old(self).inverse_mass,
    {
        let average_velocity = self.velocity.add(self.acceleration.mul(duration).mul(HALF));
        self.position.add_assign(average_velocity.mul(duration));
        let resulting_acceleration = self.acceleration.add(self.forces.mul(self.inverse_mass));
        self.velocity.add_assign(resulting_acceleration.mul(duration));
        self.velocity.mul_assign(damp_step);
    }

    /// Whether one integration step of `duration` with retention factor
    /// `damp_step` stays representable from the current state, decided at
    /// run time. Callers outside the proofs test this before integrating.
    pub fn step_fits(&self, duration: i64, damp_step: i64) -> (ok: bool)
        ensures
            ok == integrate_fits(*self, duration as int, damp_step as int),
    {
        axis_fits_check(
            self.position.x,
            self.velocity.x,
            self.acceleration.x,
            self.forces.x,
            self.inverse_mass,
            duration,
            damp_step,
        ) && axis_fits_check(
            self.position.y,
            self.velocity.y,
            self.acceleration.y,
            self.forces.y,
            self.inverse_mass,
            duration,
            damp_step,
        ) && axis_fits_check(
            self.position.z,
            self.velocity.z,
            self.acceleration.z,
            self.forces.z,
            self.inverse_mass,
            duration,
            damp_step,
        )
    }

    /// Integrates one step when it is representable, reporting whether it
    /// was; an unrepresentable step leaves the particle untouched rather
    /// than wrapping its state.
    pub fn try_integrate(&mut self, duration: i64, damp_step: i64) -> (ok: bool)
        requires
            duration > 0,
            0 <= damp_step <= SCALE,
        ensures
            ok == integrate_fits(*old(self), duration as int, damp_step as int),
            !ok ==> *final(self) == *old(self),
            ok ==> final(self).position.x as int == pos_next(
                old(self).position.x as int,
                old(self).velocity.x as int,
                old(self).acceleration.x as int,
                duration as int,
            ),
            ok ==> final(self).position.y as int == pos_next(
                old(self).position.y as int,
                old(self).velocity.y as int,
                old(self).acceleration.y as int,
                duration as int,
            ),
            ok ==> final(self).position.z as int == pos_next(
                old(self).position.z as int,
                old(self).velocity.z as int,
                old(self).acceleration.z as int,
                duration as int,
            ),
            ok ==> final(self).velocity.x as int == vel_next(
                old(self).velocity.x as int,
                old(self).acceleration.x as int,
                old(self).forces.x as int,
                old(self).inverse_mass as int,
                duration as int,
                damp_step as int,
            ),
            ok ==> final(self).velocity.y as int == vel_next(
                old(self).velocity.y as int,
                old(self).acceleration.y as int,
                old(self).forces.y as int,
                old(self).inverse_mass as int,
                duration as int,
                damp_step as int,
            ),
            ok ==> final(self).velocity.z as int == vel_next(
                old(self).velocity.z as int,
                old(self).acceleration.z as int,
                old(self).forces.z as int,
                old(self).inverse_mass as int,
                duration as int,
                damp_step as int,
            ),
            ok ==> final(self).acceleration == old(self).acceleration,
            ok ==> final(self).forces == old(self).forces,
            ok ==> final(self).damp == old(self).damp,
            ok ==> final(self).inverse_mass == old(self).inverse_mass,
    {
        if self.step_fits(duration, damp_step) {
            self.integrate(duration, damp_step);
            true
        } else {
            false
        }
    }
}

/// Runs one axis of the integration step in wide arithmetic, testing after
/// every operation that the intermediate is representable as an `i64`.
fn axis_fits_check(p: i64, v: i64, a: i64, f: i64, im: i64, dt: i64, ds: i64) -> (ok: bool)
    ensures
        ok == axis_fits(p as int, v as int, a as int, f as int, im as int, dt as int, ds as int),
{
    proof {
        lemma_i64_product_in_i128(a as int, dt as int);
    }
    let s1w: i128 = (a as i128) * (dt as i128) / (SCALE as i128);
    if s1w < i64::MIN as i128 || s1w > i64::MAX as i128 {
        return false;
    }
    let s1: i64 = s1w as i64;
    proof {
        lemma_i64_product_in_i128(s1 as int, HALF as int);
    }
    let s2w: i128 = (s1 as i128) * (HALF as i128) / (SCALE as i128);
    if s2w < i64::MIN as i128 || s2w > i64::MAX as i128 {
        return false;
    }
    let s2: i64 = s2w as i64;
    let s3w: i128 = (v as i128) + (s2 as i128);
    if s3w < i64::MIN as i128 || s3w > i64::MAX as i128 {
        return false;
    }
    let s3: i64 = s3w as i64;
    proof {
        lemma_i64_product_in_i128(s3 as int, dt as int);
    }
    let s4w: i128 = (s3 as i128) * (dt as i128) / (SCALE as i128);
    if s4w < i64::MIN as i128 || s4w > i64::MAX as i128 {
        return false;
    }
    let s4: i64 = s4w as i64;
    let posw: i128 = (p as i128) + (s4 as i128);
    if posw < i64::MIN as i128 || posw > i64::MAX as i128 {
        return false;
    }
    proof {
        lemma_i64_product_in_i128(f as int, im as int);
    }
    let f1w: i128 = (f as i128) * (im as i128) / (SCALE as i128);
    if f1w < i64::MIN as i128 || f1w > i64::MAX as i128 {
        return false;
    }
    let f1: i64 = f1w as i64;
    let raw: i128 = (a as i128) + (f1 as i128);
    if raw < i64::MIN as i128 || raw > i64::MAX as i128 {
        return false;
    }
    let ra: i64 = raw as i64;
    proof {
        lemma_i64_product_in_i128(ra as int, dt as int);
    }
    let dvw: i128 = (ra as i128) * (dt as i128) / (SCALE as i128);
    if dvw < i64::MIN as i128 || dvw > i64::MAX as i128 {
        return false;
    }
    let dv: i64 = dvw as i64;
    let v1w: i128 = (v as i128) + (dv as i128);
    if v1w < i64::MIN as i128 || v1w > i64::MAX as i128 {
        return false;
    }
    let v1: i64 = v1w as i64;
    proof {
        lemma_i64_product_in_i128(v1 as int, ds as int);
    }
    let vnw: i128 = (v1 as i128) * (ds as i128) / (SCALE as i128);
    if vnw < i64::MIN as i128 || vnw > i64::MAX as i128 {
        return false;
    }
    true
}

/// A positive dividend strictly below a divisor divides to zero.
proof fn lemma_small_div_is_zero(n: int, d: int)
    by (nonlinear_arith)
    requires
        0 <= n < d,
    ensures
        n / d == 0,
{
}

/// An immovable particle at rest stays exactly at rest: with zero inverse
/// mass, zero velocity, zero acceleration and an empty force buffer, one
/// integration step of any positive duration is representable and changes
/// neither the position nor the velocity, whatever the retention factor.
pub proof fn lemma_immovable_at_rest(p: Particle, duration: i64, damp_step: i64)
    requires
        p.inverse_mass == 0,
        p.velocity == (Vector3 { x: 0, y: 0, z: 0 }),
        p.acceleration == (Vector3 { x: 0, y: 0, z: 0 }),
        p.forces == (Vector3 { x: 0, y: 0, z: 0 }),
        duration > 0,
        0 <= damp_step <= SCALE,
    ensures
        integrate_fits(p, duration as int, damp_step as int),
        pos_next(p.position.x as int, 0, 0, duration as int) == p.position.x,
        pos_next(p.position.y as int, 0, 0, duration as int) == p.position.y,
        pos_next(p.position.z as int, 0, 0, duration as int) == p.position.z,
        vel_next(0, 0, 0, 0, duration as int, damp_step as int) == 0,
{
    assert(mul_fx(0, duration as int) == 0);
    assert(mul_fx(0, HALF as int) == 0);
    assert(mul_fx(0, damp_step as int) == 0);
}

} // verus!
