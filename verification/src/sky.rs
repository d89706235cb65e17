//! The sky: the simplest renderer, which colours a ray by its direction
//! alone.

use vstd::prelude::*;
use crate::fixed::Fixed;
use crate::ray::Ray;
use crate::vec3::Vec3;

verus! {

/// The colour of the sky against `ray`: white at the horizon of the ray's
/// unit direction, blending into the blue (0.5, 0.7, 1.0) toward the zenith.
/// With `t = (y + 1) / 2` for the unit direction's height `y`, it is
/// `(1 - t) white + t blue`.
pub open spec fn spec_ray_color(ray: &Ray) -> Vec3 {
    let t = Fixed::half().mul(ray.direction.normalize().y.add(Fixed::one()));
    Vec3::ones().scale(Fixed::one().sub(t)).add(
        Vec3::new(Fixed::half(), Fixed::ratio(7, 10), Fixed::one()).scale(t),
    )
}

/// The colour of the sky against `ray`.
#[verifier::when_used_as_spec(spec_ray_color)]
pub fn ray_color(ray: &Ray) -> (c: Vec3)
    ensures
        c == spec_ray_color(ray),
{
    let t = Fixed::half().mul(ray.direction().normalize().y.add(Fixed::one()));
    Vec3::ones().scale(Fixed::one().sub(t)).add(
        Vec3::new(Fixed::half(), Fixed::ratio(7, 10), Fixed::one()).scale(t),
    )
}

} // verus!
