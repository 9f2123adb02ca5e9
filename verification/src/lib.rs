//! A minimal rigid-point physics kernel.
//!
//! Scalars are fixed-point numbers: signed 64-bit integers carrying six
//! decimal digits of fraction (see [`fixed::SCALE`]). On top of them the
//! kernel offers a three-component vector algebra ([`vec3::Vector3`]) and a
//! point mass ([`particle::Particle`]) advanced step by step with
//! semi-implicit Euler integration under accumulated forces, constant
//! acceleration and velocity damping.

pub mod fixed;
pub mod particle;
pub mod vec3;
