//! The decision core of a Monte Carlo path tracer.
//!
//! A renderer of this kind spends its time in floating-point arithmetic, but
//! what it *decides* is discrete: which of two roots of a quadratic is the
//! hit, which member of a scene is nearest, when a light path goes on and
//! how it ends, and which bytes describe a pixel. This crate holds those
//! decisions and proves them. The arithmetic stays with the caller, who
//! brings its own rays, vectors and colours and implements two traits for
//! them: [`hittable::Hittable`] for what a ray can hit and
//! [`material::Material`] for what a surface makes of a ray.
//!
//! Real quantities cross the boundary as *keys*: an `i64` made from the bits
//! of a double, which orders as the double does and is zero for zero. The
//! crate never computes with a key; it only compares keys. See [`scalar`].
//!
//! - [`config`]: the settings of a render, checked before any ray is traced.
//! - [`scalar`]: doubles as ordered keys.
//! - [`hittable`]: hit records, the hit test, and the scene list with its
//!   nearest-hit search.
//! - [`sphere`]: the choice between the two roots of a ray against a sphere.
//! - [`material`]: the capability of scattering a ray.
//! - [`integrator`]: a light path, step by step and as a whole.
//! - [`output`]: a plain-text image: its header, its pixel lines and their
//!   order.

pub mod config;
pub mod hittable;
pub mod integrator;
pub mod material;
pub mod output;
pub mod scalar;
pub mod sphere;
