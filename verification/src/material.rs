//! The capability of scattering a ray.

use crate::hittable::HitRecord;
use vstd::prelude::*;

verus! {

/// A surface model: what becomes of a ray of type `R` at a hit, in a world
/// whose points and directions are of type `V`.
///
/// Scattering draws on chance, so two calls on the same ray and record may
/// differ, and nothing is promised of the result.
pub trait Material<R, V>: Sized {
    /// The colours by which a surface attenuates.
    type Color;

    /// `None` where the ray is absorbed; otherwise the attenuation and the
    /// ray that leaves the surface.
    fn scatter(&self, r_in: &R, rec: &HitRecord<V, Self>) -> Option<(Self::Color, R)>;
}

} // verus!
