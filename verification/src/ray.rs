//! Rays: a line through space travelled from an origin, stamped with a time.

use vstd::prelude::*;
use crate::fixed::Fixed;
use crate::vec3::Vec3;

verus! {

/// A ray `origin + t * direction`. The direction need not have unit length.
#[derive(Clone, Copy, Debug, PartialEq, Eq, Structural)]
pub struct Ray {
    pub origin: Vec3,
    pub direction: Vec3,
    pub time: Fixed,
}

impl Ray {
    pub open spec fn spec_new(origin: Vec3, direction: Vec3, time: Fixed) -> Ray {
        Ray { origin, direction, time }
    }

    /// The ray from `origin` along `direction` at `time`.
    #[verifier::when_used_as_spec(spec_new)]
    pub fn new(origin: Vec3, direction: Vec3, time: Fixed) -> (r: Ray)
        ensures
            r == Ray::spec_new(origin, direction, time),
    {
        Ray { origin, direction, time }
    }

    pub open spec fn spec_origin(&self) -> Vec3 {
        self.origin
    }

    /// Where the ray starts.
    #[verifier::when_used_as_spec(spec_origin)]
    pub fn origin(&self) -> (r: Vec3)
        ensures
            r == self.origin,
    {
        self.origin
    }

    pub open spec fn spec_direction(&self) -> Vec3 {
        self.direction
    }

    /// Where the ray heads.
    #[verifier::when_used_as_spec(spec_direction)]
    pub fn direction(&self) -> (r: Vec3)
        ensures
            r == self.direction,
    {
        self.direction
    }

    pub open spec fn spec_time(&self) -> Fixed {
        self.time
    }

    /// When the ray was cast.
    #[verifier::when_used_as_spec(spec_time)]
    pub fn time(&self) -> (r: Fixed)
        ensures
            r == self.time,
    {
        self.time
    }

    pub open spec fn spec_point_at(&self, t: Fixed) -> Vec3 {
        self.origin.add(self.direction.scale(t))
    }

    /// The point reached at parameter `t`.
    #[verifier::when_used_as_spec(spec_point_at)]
    pub fn point_at(&self, t: Fixed) -> (r: Vec3)
        ensures
            r == self.spec_point_at(t),
    {
        self.origin.add(self.direction.scale(t))
    }
}

} // verus!
