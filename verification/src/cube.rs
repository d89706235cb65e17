//! Axis-aligned boxes, made of six rectangles.

use vstd::prelude::*;
use crate::fixed::Fixed;
use crate::hit::HitRecord;
use crate::hit::Found;
use crate::hit::cut;
use crate::hit::limit;
use crate::hit::nearest;
use crate::hit::lemma_nearest_step;
use crate::ray::Ray;
use crate::rect::AARect;
use crate::rect::Plane;
use crate::vec3::Vec3;

verus! {

/// The box between the corners `p_min` and `p_max`.
#[derive(Clone, Copy, Debug, PartialEq, Eq, Structural)]
pub struct Cube {
    pub p_min: Vec3,
    pub p_max: Vec3,
}

impl Cube {
    pub open spec fn spec_new(p_min: Vec3, p_max: Vec3) -> Cube {
        Cube { p_min, p_max }
    }

    /// The box between two opposite corners.
    #[verifier::when_used_as_spec(spec_new)]
    pub fn new(p_min: Vec3, p_max: Vec3) -> (r: Cube)
        ensures
            r == Cube::spec_new(p_min, p_max),
    {
        Cube { p_min, p_max }
    }

    /// The rectangle of face `i`. Faces 0 and 1 are parallel to the XY plane,
    /// 2 and 3 to the ZX plane, 4 and 5 to the YZ plane; of each pair the
    /// first lies at the far corner and the second at the near corner.
    pub open spec fn spec_face(&self, i: usize) -> AARect {
        let plane = if i < 2 {
            Plane::XY
        } else if i < 4 {
            Plane::ZX
        } else {
            Plane::YZ
        };
        AARect {
            plane,
            a0: plane.first(self.p_min),
            a1: plane.first(self.p_max),
            b0: plane.second(self.p_min),
            b1: plane.second(self.p_max),
            k: if i % 2 == 0 {
                plane.across(self.p_max)
            } else {
                plane.across(self.p_min)
            },
        }
    }

    /// The rectangle of face `i`.
    #[verifier::when_used_as_spec(spec_face)]
    pub fn face(&self, i: usize) -> (r: AARect)
        ensures
            r == self.spec_face(i),
    {
        let plane = if i < 2 {
            Plane::XY
        } else if i < 4 {
            Plane::ZX
        } else {
            Plane::YZ
        };
        AARect {
            plane,
            a0: plane.first(self.p_min),
            a1: plane.first(self.p_max),
            b0: plane.second(self.p_min),
            b1: plane.second(self.p_max),
            k: if i % 2 == 0 {
                plane.across(self.p_max)
            } else {
                plane.across(self.p_min)
            },
        }
    }

    /// The intersection with face `i`. The faces at the near corner report
    /// their plane's normal reversed, so that every normal points out of the
    /// box.
    pub open spec fn spec_face_hit(&self, i: usize, ray: &Ray, t_min: Fixed, t_max: Fixed)
        -> Option<HitRecord> {
        match self.spec_face(i).spec_hit(ray, t_min, t_max) {
            Some(rec) => if i % 2 == 0 {
                Some(rec)
            } else {
                Some(rec.flipped())
            },
            None => None,
        }
    }

    /// The intersection with face `i`.
    #[verifier::when_used_as_spec(spec_face_hit)]
    pub fn face_hit(&self, i: usize, ray: &Ray, t_min: Fixed, t_max: Fixed) -> (r: Option<
        HitRecord,
    >)
        ensures
            r == self.spec_face_hit(i, ray, t_min, t_max),
            r matches Some(rec) ==> rec.within(t_min, t_max),
    {
        match self.face(i).hit(ray, t_min, t_max) {
            Some(rec) => if i % 2 == 0 {
                Some(rec)
            } else {
                Some(rec.flipped())
            },
            None => None,
        }
    }

    /// The six faces' intersections, in the order of the faces.
    pub open spec fn face_hits(&self, ray: &Ray, t_min: Fixed, t_max: Fixed) -> Seq<
        Option<HitRecord>,
    > {
        Seq::new(6, |i: int| self.spec_face_hit(i as usize, ray, t_min, t_max))
    }

    /// The nearest of the six faces' intersections.
    pub open spec fn spec_hit(&self, ray: &Ray, t_min: Fixed, t_max: Fixed) -> Option<HitRecord> {
        match nearest(self.face_hits(ray, t_min, t_max)) {
            Some(f) => Some(f.record),
            None => None,
        }
    }

    /// The nearest of the six faces' intersections with parameter strictly
    /// between `t_min` and `t_max`.
    #[verifier::when_used_as_spec(spec_hit)]
    pub fn hit(&self, ray: &Ray, t_min: Fixed, t_max: Fixed) -> (r: Option<HitRecord>)
        ensures
            r == self.spec_hit(ray, t_min, t_max),
            r matches Some(rec) ==> rec.within(t_min, t_max),
    {
        let ghost hits = self.face_hits(ray, t_min, t_max);
        let mut best: Option<HitRecord> = None;
        let mut closest = t_max;
        let ghost mut found: Option<Found> = None;
        let mut i: usize = 0;
        proof {
            assert(hits.take(0) =~= Seq::empty());
        }
        while i < 6
            invariant
                i <= 6,
                hits == self.face_hits(ray, t_min, t_max),
                found == nearest(hits.take(i as int)),
                closest == limit(found, t_max),
                best == (match found {
                    Some(f) => Some(f.record),
                    None => None,
                }),
                best matches Some(rec) ==> rec.within(t_min, t_max),
            decreases 6 - i,
        {
            let h = self.face_hit(i, ray, t_min, closest);
            proof {
                assert(hits[i as int] == self.spec_face_hit(i, ray, t_min, t_max));
                assert(h == cut(hits[i as int], closest));
                lemma_nearest_step(hits, i as int, h, t_min, t_max);
            }
            match h {
                Some(rec) => {
                    best = Some(rec);
                    closest = rec.t;
                    proof {
                        found = Some(Found { index: i, record: rec });
                    }
                },
                None => {},
            }
            i = i + 1;
        }
        proof {
            assert(hits.take(6) =~= hits);
        }
        best
    }
}

} // verus!
