//! Spheres.

use vstd::prelude::*;
use crate::fixed::Fixed;
use crate::hit::HitRecord;
use crate::ray::Ray;
use crate::vec3::Vec3;

verus! {

/// The sphere of all points at distance `radius` from `center`.
#[derive(Clone, Copy, Debug, PartialEq, Eq, Structural)]
pub struct Sphere {
    pub center: Vec3,
    pub radius: Fixed,
}

/// The two parameters at which a ray's line meets a sphere, the smaller first.
#[derive(Clone, Copy, Debug, PartialEq, Eq, Structural)]
pub struct Roots {
    pub near: Fixed,
    pub far: Fixed,
}

impl Sphere {
    pub open spec fn spec_new(center: Vec3, radius: Fixed) -> Sphere {
        Sphere { center, radius }
    }

    /// The sphere around `center` with the given radius.
    #[verifier::when_used_as_spec(spec_new)]
    pub fn new(center: Vec3, radius: Fixed) -> (r: Sphere)
        ensures
            r == Sphere::spec_new(center, radius),
    {
        Sphere { center, radius }
    }

    /// The discriminant `b^2 - a c` of the equation that [`Sphere::roots`]
    /// solves.
    pub open spec fn spec_discriminant(&self, ray: &Ray) -> Fixed {
        let oc = ray.origin.sub(self.center);
        let a = ray.direction.dot(ray.direction);
        let b = oc.dot(ray.direction);
        let c = oc.dot(oc).sub(self.radius.square());
        b.square().sub(a.mul(c))
    }

    /// The solutions `t` of `|origin + t * direction - center|^2 = radius^2`.
    ///
    /// With `oc = origin - center`, `a = direction . direction`,
    /// `b = oc . direction` and `c = oc . oc - radius^2`, the equation is
    /// `a t^2 + 2 b t + c = 0`. There are two solutions
    /// `(-b -/+ sqrt(b^2 - a c)) / a` if `a` and the discriminant
    /// `b^2 - a c` are positive, and the line counts as missing the sphere
    /// otherwise.
    pub open spec fn spec_roots(&self, ray: &Ray) -> Option<Roots> {
        let oc = ray.origin.sub(self.center);
        let a = ray.direction.dot(ray.direction);
        let b = oc.dot(ray.direction);
        let discriminant = self.spec_discriminant(ray);
        if a@ > 0 && discriminant@ > 0 {
            let root = discriminant.sqrt();
            Some(Roots { near: b.neg().sub(root).div(a), far: b.neg().add(root).div(a) })
        } else {
            None
        }
    }

    /// The solutions `t` of `|origin + t * direction - center|^2 = radius^2`.
    #[verifier::when_used_as_spec(spec_roots)]
    pub fn roots(&self, ray: &Ray) -> (r: Option<Roots>)
        ensures
            r == self.spec_roots(ray),
    {
        let oc = ray.origin.sub(self.center);
        let a = ray.direction.dot(ray.direction);
        let b = oc.dot(ray.direction);
        let c = oc.dot(oc).sub(self.radius.square());
        let discriminant = b.square().sub(a.mul(c));
        if a.raw > 0 && discriminant.raw > 0 {
            let root = discriminant.sqrt();
            Some(Roots { near: b.neg().sub(root).div(a), far: b.neg().add(root).div(a) })
        } else {
            None
        }
    }

    /// The intersection at parameter `t`: the point reached there, and as
    /// normal the vector from the centre to that point divided by the radius.
    /// A sphere has no texture coordinates of its own; both are zero.
    pub open spec fn spec_record_at(&self, ray: &Ray, t: Fixed) -> HitRecord {
        let p = ray.point_at(t);
        HitRecord {
            t,
            p,
            normal: p.sub(self.center).shrink(self.radius),
            u: Fixed::zero(),
            v: Fixed::zero(),
        }
    }

    /// The intersection at parameter `t`.
    #[verifier::when_used_as_spec(spec_record_at)]
    pub fn record_at(&self, ray: &Ray, t: Fixed) -> (r: HitRecord)
        ensures
            r == self.spec_record_at(ray, t),
    {
        let p = ray.point_at(t);
        HitRecord {
            t,
            p,
            normal: p.sub(self.center).shrink(self.radius),
            u: Fixed::zero(),
            v: Fixed::zero(),
        }
    }

    /// The intersection at the smaller solution if that lies strictly between
    /// `t_min` and `t_max`, else at the larger one if that does, else none.
    pub open spec fn spec_hit(&self, ray: &Ray, t_min: Fixed, t_max: Fixed) -> Option<HitRecord> {
        match self.spec_roots(ray) {
            None => None,
            Some(roots) => if t_min@ < roots.near@ < t_max@ {
                Some(self.spec_record_at(ray, roots.near))
            } else if t_min@ < roots.far@ < t_max@ {
                Some(self.spec_record_at(ray, roots.far))
            } else {
                None
            },
        }
    }

    /// The intersection at the smaller solution if that lies strictly between
    /// `t_min` and `t_max`, else at the larger one if that does, else none.
    #[verifier::when_used_as_spec(spec_hit)]
    pub fn hit(&self, ray: &Ray, t_min: Fixed, t_max: Fixed) -> (r: Option<HitRecord>)
        ensures
            r == self.spec_hit(ray, t_min, t_max),
            r matches Some(rec) ==> {
                &&& rec.within(t_min, t_max)
                &&& rec.p == ray.point_at(rec.t)
                &&& rec.normal == rec.p.sub(self.center).shrink(self.radius)
                &&& self.spec_roots(ray) matches Some(roots) && (rec.t == roots.near || rec.t
                    == roots.far)
            },
    {
        match self.roots(ray) {
            None => None,
            Some(roots) => if t_min.raw < roots.near.raw && roots.near.raw < t_max.raw {
                Some(self.record_at(ray, roots.near))
            } else if t_min.raw < roots.far.raw && roots.far.raw < t_max.raw {
                Some(self.record_at(ray, roots.far))
            } else {
                None
            },
        }
    }
}

/// The two solutions are in order: the first is never the larger.
pub proof fn lemma_roots_ordered(s: Sphere, ray: &Ray)
    ensures
        s.spec_roots(ray) matches Some(roots) ==> roots.near@ <= roots.far@,
{
    let oc = ray.origin.sub(s.center);
    let a = ray.direction.dot(ray.direction);
    let b = oc.dot(ray.direction);
    let c = oc.dot(oc).sub(s.radius.square());
    let discriminant = b.square().sub(a.mul(c));
    if a@ > 0 && discriminant@ > 0 {
        let root = discriminant.sqrt();
        let lo = b.neg().sub(root);
        let hi = b.neg().add(root);
        crate::fixed::lemma_sqrt(discriminant);
        assert(lo@ <= hi@);
        crate::fixed::lemma_div_monotone(lo, hi, a);
    }
}

} // verus!
