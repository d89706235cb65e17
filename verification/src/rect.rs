//! Axis-aligned rectangles.

use vstd::prelude::*;
use crate::fixed::Fixed;
use crate::hit::HitRecord;
use crate::hit::restrict;
use crate::ray::Ray;
use crate::vec3::Vec3;

verus! {

/// The coordinate plane that a rectangle is parallel to. The first letter
/// names the rectangle's first axis, the second letter its second axis; the
/// remaining axis is the one along which the rectangle's position is fixed.
#[derive(Clone, Copy, Debug, PartialEq, Eq, Structural)]
pub enum Plane {
    XY,
    YZ,
    ZX,
}

impl Plane {
    pub open spec fn spec_first(self, v: Vec3) -> Fixed {
        match self {
            Plane::XY => v.x,
            Plane::YZ => v.y,
            Plane::ZX => v.z,
        }
    }

    /// The component of `v` along the plane's first axis.
    #[verifier::when_used_as_spec(spec_first)]
    pub fn first(self, v: Vec3) -> (r: Fixed)
        ensures
            r == self.spec_first(v),
    {
        match self {
            Plane::XY => v.x,
            Plane::YZ => v.y,
            Plane::ZX => v.z,
        }
    }

    pub open spec fn spec_second(self, v: Vec3) -> Fixed {
        match self {
            Plane::XY => v.y,
            Plane::YZ => v.z,
            Plane::ZX => v.x,
        }
    }

    /// The component of `v` along the plane's second axis.
    #[verifier::when_used_as_spec(spec_second)]
    pub fn second(self, v: Vec3) -> (r: Fixed)
        ensures
            r == self.spec_second(v),
    {
        match self {
            Plane::XY => v.y,
            Plane::YZ => v.z,
            Plane::ZX => v.x,
        }
    }

    pub open spec fn spec_across(self, v: Vec3) -> Fixed {
        match self {
            Plane::XY => v.z,
            Plane::YZ => v.x,
            Plane::ZX => v.y,
        }
    }

    /// The component of `v` along the axis that the plane is perpendicular to.
    #[verifier::when_used_as_spec(spec_across)]
    pub fn across(self, v: Vec3) -> (r: Fixed)
        ensures
            r == self.spec_across(v),
    {
        match self {
            Plane::XY => v.z,
            Plane::YZ => v.x,
            Plane::ZX => v.y,
        }
    }

    pub open spec fn spec_compose(self, a: Fixed, b: Fixed, k: Fixed) -> Vec3 {
        match self {
            Plane::XY => Vec3 { x: a, y: b, z: k },
            Plane::YZ => Vec3 { x: k, y: a, z: b },
            Plane::ZX => Vec3 { x: b, y: k, z: a },
        }
    }

    /// The vector with `a` along the first axis, `b` along the second and `k`
    /// along the third.
    #[verifier::when_used_as_spec(spec_compose)]
    pub fn compose(self, a: Fixed, b: Fixed, k: Fixed) -> (r: Vec3)
        ensures
            r == self.spec_compose(a, b, k),
    {
        match self {
            Plane::XY => Vec3 { x: a, y: b, z: k },
            Plane::YZ => Vec3 { x: k, y: a, z: b },
            Plane::ZX => Vec3 { x: b, y: k, z: a },
        }
    }

    pub open spec fn spec_normal(self) -> Vec3 {
        self.spec_compose(Fixed::zero(), Fixed::zero(), Fixed::one())
    }

    /// The unit vector along the axis that the plane is perpendicular to.
    #[verifier::when_used_as_spec(spec_normal)]
    pub fn normal(self) -> (r: Vec3)
        ensures
            r == self.spec_normal(),
    {
        self.compose(Fixed::zero(), Fixed::zero(), Fixed::one())
    }
}

/// A rectangle parallel to a coordinate plane: it spans `[a0, a1]` along the
/// plane's first axis and `[b0, b1]` along its second, at position `k` on the
/// third.
#[derive(Clone, Copy, Debug, PartialEq, Eq, Structural)]
pub struct AARect {
    pub plane: Plane,
    pub a0: Fixed,
    pub a1: Fixed,
    pub b0: Fixed,
    pub b1: Fixed,
    pub k: Fixed,
}

impl AARect {
    pub open spec fn spec_new(plane: Plane, a0: Fixed, a1: Fixed, b0: Fixed, b1: Fixed, k: Fixed)
        -> AARect {
        AARect { plane, a0, a1, b0, b1, k }
    }

    /// The rectangle on `plane` with the given two ranges and position.
    #[verifier::when_used_as_spec(spec_new)]
    pub fn new(plane: Plane, a0: Fixed, a1: Fixed, b0: Fixed, b1: Fixed, k: Fixed) -> (r: AARect)
        ensures
            r == AARect::spec_new(plane, a0, a1, b0, b1, k),
    {
        AARect { plane, a0, a1, b0, b1, k }
    }

    /// The parameter at which the ray crosses the rectangle's plane. A ray
    /// parallel to the plane gets a parameter at an end of the range, or zero
    /// if it starts on the plane.
    pub open spec fn spec_crossing(&self, ray: &Ray) -> Fixed {
        self.k.sub(self.plane.across(ray.origin)).div(self.plane.across(ray.direction))
    }

    /// Whether the point at parameter `t` falls inside both ranges.
    pub open spec fn spec_covers(&self, ray: &Ray, t: Fixed) -> bool {
        let a = self.plane.first(ray.origin).add(self.plane.first(ray.direction).mul(t));
        let b = self.plane.second(ray.origin).add(self.plane.second(ray.direction).mul(t));
        self.a0@ <= a@ <= self.a1@ && self.b0@ <= b@ <= self.b1@
    }

    /// The intersection of the ray's whole line with the rectangle, if the
    /// crossing point falls inside both ranges. The texture coordinates are
    /// the crossing point's positions within the two ranges, each as a
    /// fraction of the range.
    pub open spec fn spec_candidate(&self, ray: &Ray) -> Option<HitRecord> {
        let t = self.spec_crossing(ray);
        let a = self.plane.first(ray.origin).add(self.plane.first(ray.direction).mul(t));
        let b = self.plane.second(ray.origin).add(self.plane.second(ray.direction).mul(t));
        if self.spec_covers(ray, t) {
            Some(
                HitRecord {
                    t,
                    p: ray.point_at(t),
                    normal: self.plane.normal(),
                    u: a.sub(self.a0).div(self.a1.sub(self.a0)),
                    v: b.sub(self.b0).div(self.b1.sub(self.b0)),
                },
            )
        } else {
            None
        }
    }

    /// The intersection of the ray's whole line with the rectangle.
    #[verifier::when_used_as_spec(spec_candidate)]
    pub fn candidate(&self, ray: &Ray) -> (r: Option<HitRecord>)
        ensures
            r == self.spec_candidate(ray),
    {
        let t = self.k.sub(self.plane.across(ray.origin)).div(self.plane.across(ray.direction));
        let a = self.plane.first(ray.origin).add(self.plane.first(ray.direction).mul(t));
        let b = self.plane.second(ray.origin).add(self.plane.second(ray.direction).mul(t));
        if self.a0.raw <= a.raw && a.raw <= self.a1.raw && self.b0.raw <= b.raw && b.raw
            <= self.b1.raw {
            Some(
                HitRecord {
                    t,
                    p: ray.point_at(t),
                    normal: self.plane.normal(),
                    u: a.sub(self.a0).div(self.a1.sub(self.a0)),
                    v: b.sub(self.b0).div(self.b1.sub(self.b0)),
                },
            )
        } else {
            None
        }
    }

    /// The intersection with parameter strictly between `t_min` and `t_max`,
    /// if there is one.
    pub open spec fn spec_hit(&self, ray: &Ray, t_min: Fixed, t_max: Fixed) -> Option<HitRecord> {
        restrict(self.spec_candidate(ray), t_min, t_max)
    }

    /// The intersection with parameter strictly between `t_min` and `t_max`,
    /// if there is one. The normal is the plane's, whichever side the ray
    /// comes from.
    #[verifier::when_used_as_spec(spec_hit)]
    pub fn hit(&self, ray: &Ray, t_min: Fixed, t_max: Fixed) -> (r: Option<HitRecord>)
        ensures
            r == self.spec_hit(ray, t_min, t_max),
            r matches Some(rec) ==> rec.within(t_min, t_max) && rec.normal == self.plane.normal()
                && rec.p == ray.point_at(rec.t),
    {
        restrict(self.candidate(ray), t_min, t_max)
    }

    pub open spec fn spec_area(&self) -> Fixed {
        self.a1.sub(self.a0).mul(self.b1.sub(self.b0)).abs()
    }

    /// The rectangle's area.
    #[verifier::when_used_as_spec(spec_area)]
    pub fn area(&self) -> (r: Fixed)
        ensures
            r == self.spec_area(),
            r@ >= 0,
    {
        self.a1.sub(self.a0).mul(self.b1.sub(self.b0)).abs()
    }

    pub open spec fn spec_point(&self, u1: Fixed, u2: Fixed) -> Vec3 {
        self.plane.compose(
            self.a0.add(u1.mul(self.a1.sub(self.a0))),
            self.b0.add(u2.mul(self.b1.sub(self.b0))),
            self.k,
        )
    }

    /// The point of the rectangle at fraction `u1` of its first range and
    /// fraction `u2` of its second.
    #[verifier::when_used_as_spec(spec_point)]
    pub fn point(&self, u1: Fixed, u2: Fixed) -> (r: Vec3)
        ensures
            r == self.spec_point(u1, u2),
    {
        self.plane.compose(
            self.a0.add(u1.mul(self.a1.sub(self.a0))),
            self.b0.add(u2.mul(self.b1.sub(self.b0))),
            self.k,
        )
    }
}

} // verus!
