//! Moving a shape and placing it elsewhere come to the same thing: a
//! rectangle or a box wrapped in a translation reports what the rectangle or
//! box with moved coordinates reports.

use vstd::prelude::*;
use crate::cube::Cube;
use crate::fixed::Fixed;
use crate::fixed::REACH;
use crate::fixed::SCALE;
use crate::fixed::lemma_div_error;
use crate::fixed::lemma_mul_error;
use crate::fixed::magnitude;
use crate::hit::Found;
use crate::hit::HitRecord;
use crate::hit::nearest;
use crate::on_sphere::in_reach;
use crate::on_sphere::lemma_root_is_on_sphere;
use crate::shape::Axis;
use crate::sphere::Sphere;
use crate::ray::Ray;
use crate::rect::AARect;
use crate::rect::Plane;
use crate::shape::Shape;
use crate::shape::spec_shift_back;
use crate::shape::spec_shifted;
use crate::trig::cos_sin_degrees;
use crate::vec3::Vec3;
use crate::vec3::is_within;

verus! {

impl AARect {
    pub open spec fn spec_moved(&self, offset: Vec3) -> AARect {
        AARect {
            plane: self.plane,
            a0: self.a0.add(self.plane.first(offset)),
            a1: self.a1.add(self.plane.first(offset)),
            b0: self.b0.add(self.plane.second(offset)),
            b1: self.b1.add(self.plane.second(offset)),
            k: self.k.add(self.plane.across(offset)),
        }
    }

    /// The rectangle moved by `offset`.
    #[verifier::when_used_as_spec(spec_moved)]
    pub fn moved(&self, offset: Vec3) -> (r: AARect)
        ensures
            r == self.spec_moved(offset),
    {
        AARect {
            plane: self.plane,
            a0: self.a0.add(self.plane.first(offset)),
            a1: self.a1.add(self.plane.first(offset)),
            b0: self.b0.add(self.plane.second(offset)),
            b1: self.b1.add(self.plane.second(offset)),
            k: self.k.add(self.plane.across(offset)),
        }
    }

    /// Whether the rectangle's ranges and position lie within 1024 of zero.
    pub open spec fn is_in_reach(&self) -> bool {
        &&& magnitude(self.a0@) <= REACH
        &&& magnitude(self.a1@) <= REACH
        &&& magnitude(self.b0@) <= REACH
        &&& magnitude(self.b1@) <= REACH
        &&& magnitude(self.k@) <= REACH
    }
}

impl Cube {
    pub open spec fn spec_moved(&self, offset: Vec3) -> Cube {
        Cube { p_min: self.p_min.add(offset), p_max: self.p_max.add(offset) }
    }

    /// The box moved by `offset`.
    #[verifier::when_used_as_spec(spec_moved)]
    pub fn moved(&self, offset: Vec3) -> (r: Cube)
        ensures
            r == self.spec_moved(offset),
    {
        Cube { p_min: self.p_min.add(offset), p_max: self.p_max.add(offset) }
    }
}

impl Sphere {
    pub open spec fn spec_moved(&self, offset: Vec3) -> Sphere {
        Sphere { center: self.center.add(offset), radius: self.radius }
    }

    /// The sphere moved by `offset`.
    #[verifier::when_used_as_spec(spec_moved)]
    pub fn moved(&self, offset: Vec3) -> (r: Sphere)
        ensures
            r == self.spec_moved(offset),
    {
        Sphere { center: self.center.add(offset), radius: self.radius }
    }
}

/// Going to where a ray crosses a plane and back: the product of a
/// direction's component with the quotient of a distance by that component
/// is no larger than the distance.
pub proof fn lemma_there_and_back(distance: Fixed, speed: Fixed)
    requires
        magnitude(distance@) <= 0x10_0000_0000,
    ensures
        magnitude(speed.mul(distance.div(speed))@) <= magnitude(distance@),
{
    if speed@ == 0 {
        crate::fixed::lemma_mul_zero(distance.div(speed));
    } else {
        let s = SCALE as int;
        let t = distance.div(speed);
        let n = distance@ * s;
        let d = speed@;
        crate::fixed::lemma_trunc_div_error(magnitude(n), magnitude(d));
        let q = magnitude(n) / magnitude(d);
        assert(q * magnitude(d) <= magnitude(n)) by {
            vstd::arithmetic::div_mod::lemma_fundamental_div_mod(magnitude(n), magnitude(d));
            vstd::arithmetic::div_mod::lemma_mod_bound(magnitude(n), magnitude(d));
            assert(magnitude(d) * q == q * magnitude(d)) by (nonlinear_arith);
        }
        vstd::arithmetic::div_mod::lemma_div_pos_is_pos(magnitude(n), magnitude(d));
        assert(magnitude(n) <= 0x10_0000_0000 * 16777216) by (nonlinear_arith)
            requires
                n == distance@ * s,
                s == 16777216,
                magnitude(distance@) <= 0x10_0000_0000,
        ;
        assert(q <= magnitude(n)) by (nonlinear_arith)
            requires
                q * magnitude(d) <= magnitude(n),
                magnitude(d) >= 1,
                q >= 0,
        ;
        assert(magnitude(t@) == q);
        assert(magnitude(d * t@) == magnitude(d) * q) by (nonlinear_arith)
            requires
                magnitude(t@) == q,
        ;
        assert(magnitude(d) * q == q * magnitude(d)) by (nonlinear_arith);
        assert(magnitude(d * t@) <= i64::MAX * SCALE) by (nonlinear_arith)
            requires
                magnitude(d * t@) <= 0x10_0000_0000 * 16777216,
                SCALE == 16777216,
        ;
        lemma_mul_error(speed, t);
        let m = speed.mul(t)@;
        assert(magnitude(m) <= magnitude(distance@)) by (nonlinear_arith)
            requires
                magnitude(m) * SCALE <= magnitude(d * t@),
                magnitude(d * t@) <= magnitude(n),
                magnitude(n) == magnitude(distance@) * SCALE,
                SCALE > 0,
        ;
    }
}

/// One axis of a moved frame: where the ray's position along the axis is
/// tested against a range, or carried back, moving the frame by `f` and
/// moving the range by `f` come to the same thing. Here `o` is the origin's
/// coordinate, `m` what the ray has travelled along the axis, and `lo` and
/// `hi` the range.
pub proof fn lemma_moved_axis(o: Fixed, f: Fixed, m: Fixed, lo: Fixed, hi: Fixed)
    requires
        magnitude(o@) <= REACH,
        magnitude(f@) <= REACH,
        magnitude(lo@) <= REACH,
        magnitude(hi@) <= REACH,
    ensures
        ({
            let seen = o.sub(f).add(m);
            let direct = o.add(m);
            &&& (lo@ <= seen@ <= hi@) == (lo.add(f)@ <= direct@ <= hi.add(f)@)
            &&& lo@ <= seen@ <= hi@ ==> seen.add(f) == direct && seen.sub(lo) == direct.sub(
                lo.add(f),
            )
            &&& hi.add(f).sub(lo.add(f)) == hi.sub(lo)
            &&& magnitude(m@) <= 0x10_0000_0000 ==> seen.add(f) == direct
        }),
{
    assert(REACH == 0x4_0000_0000);
}

/// The crossing of a moved plane: moving the frame by `f` and moving the
/// plane by `f` give the same distance to travel.
pub proof fn lemma_moved_crossing(o: Fixed, f: Fixed, k: Fixed)
    requires
        magnitude(o@) <= REACH,
        magnitude(f@) <= REACH,
        magnitude(k@) <= REACH,
    ensures
        k.sub(o.sub(f)) == k.add(f).sub(o),
        magnitude(k.sub(o.sub(f))@) <= 0x10_0000_0000,
{
    assert(REACH == 0x4_0000_0000);
}

/// What a moved rectangle's plane has of the ray's crossing: the same
/// crossing as the rectangle itself has of the ray seen from the moved
/// frame, carried back.
pub proof fn lemma_moved_candidate(r: AARect, offset: Vec3, ray: &Ray)
    requires
        r.is_in_reach(),
        is_within(offset, REACH as int),
        is_within(ray.origin, REACH as int),
    ensures
        r.spec_moved(offset).spec_candidate(ray) == (match r.spec_candidate(
            &spec_shifted(ray, offset),
        ) {
            Some(rec) => Some(spec_shift_back(rec, offset)),
            None => None,
        }),
{
    let plane = r.plane;
    let o = ray.origin;
    let d = ray.direction;
    let seen = spec_shifted(ray, offset);
    let there = r.spec_moved(offset);
    lemma_moved_crossing(plane.across(o), plane.across(offset), r.k);
    let distance = r.k.sub(plane.across(seen.origin));
    assert(plane.across(seen.origin) == plane.across(o).sub(plane.across(offset)));
    assert(plane.first(seen.origin) == plane.first(o).sub(plane.first(offset)));
    assert(plane.second(seen.origin) == plane.second(o).sub(plane.second(offset)));
    let t = distance.div(plane.across(d));
    assert(r.spec_crossing(&seen) == t);
    assert(there.spec_crossing(ray) == t);
    lemma_there_and_back(distance, plane.across(d));
    let ma = plane.first(d).mul(t);
    let mb = plane.second(d).mul(t);
    let mk = plane.across(d).mul(t);
    lemma_moved_axis(plane.first(o), plane.first(offset), ma, r.a0, r.a1);
    lemma_moved_axis(plane.second(o), plane.second(offset), mb, r.b0, r.b1);
    lemma_moved_axis(plane.across(o), plane.across(offset), mk, r.k, r.k);
    assert(r.spec_covers(&seen, t) == there.spec_covers(ray, t));
    if r.spec_covers(&seen, t) {
        let inner = r.spec_candidate(&seen)->0;
        let outer = there.spec_candidate(ray)->0;
        assert(inner.t == outer.t);
        assert(inner.normal == outer.normal);
        assert(inner.u == outer.u);
        assert(inner.v == outer.v);
        let p = seen.spec_point_at(t);
        let q = ray.spec_point_at(t);
        assert(plane.first(p) == plane.first(seen.origin).add(ma));
        assert(plane.second(p) == plane.second(seen.origin).add(mb));
        assert(plane.across(p) == plane.across(seen.origin).add(mk));
        assert(plane.first(q) == plane.first(o).add(ma));
        assert(plane.second(q) == plane.second(o).add(mb));
        assert(plane.across(q) == plane.across(o).add(mk));
        assert(plane.first(p.add(offset)) == plane.first(q));
        assert(plane.second(p.add(offset)) == plane.second(q));
        assert(plane.across(p.add(offset)) == plane.across(q));
        lemma_same_on_plane(plane, p.add(offset), q);
    }
}

/// Two vectors with the same three components on a plane's axes are equal.
pub proof fn lemma_same_on_plane(plane: Plane, a: Vec3, b: Vec3)
    requires
        plane.first(a) == plane.first(b),
        plane.second(a) == plane.second(b),
        plane.across(a) == plane.across(b),
    ensures
        a == b,
{
}

/// A moved rectangle is a rectangle elsewhere: for a rectangle, an offset
/// and a ray's origin within reach, the rectangle wrapped in a translation
/// reports what the rectangle with moved ranges and position reports, for
/// every direction and interval.
pub proof fn law_moved_rect(r: AARect, offset: Vec3, ray: &Ray, t_min: Fixed, t_max: Fixed)
    requires
        r.is_in_reach(),
        is_within(offset, REACH as int),
        is_within(ray.origin, REACH as int),
    ensures
        (Shape::Translate { child: Box::new(Shape::Rect(r)), offset }).spec_hit(ray, t_min, t_max)
            == r.spec_moved(offset).spec_hit(ray, t_min, t_max),
{
    lemma_moved_candidate(r, offset, ray);
    let seen = spec_shifted(ray, offset);
    reveal_with_fuel(Shape::spec_hit, 2);
    assert((Shape::Translate { child: Box::new(Shape::Rect(r)), offset }).spec_hit(
        ray,
        t_min,
        t_max,
    ) == (match r.spec_hit(&seen, t_min, t_max) {
        Some(rec) => Some(spec_shift_back(rec, offset)),
        None => None,
    }));
}

/// An intersection carried back out of a moved frame, if there is one.
pub open spec fn carried_back(h: Option<HitRecord>, offset: Vec3) -> Option<HitRecord> {
    match h {
        Some(rec) => Some(spec_shift_back(rec, offset)),
        None => None,
    }
}

/// Carrying every intersection back out of a moved frame does not change
/// which is the nearest: the nearest of the carried ones is the nearest one,
/// carried, and belongs to the same member.
pub proof fn lemma_nearest_carried(
    hits: Seq<Option<HitRecord>>,
    carried: Seq<Option<HitRecord>>,
    offset: Vec3,
)
    requires
        hits.len() == carried.len(),
        forall|i: int| 0 <= i < hits.len() ==> (#[trigger] carried[i]) == carried_back(
            hits[i],
            offset,
        ),
    ensures
        nearest(carried) == (match nearest(hits) {
            Some(f) => Some(
                Found { index: f.index, record: spec_shift_back(f.record, offset) },
            ),
            None => None,
        }),
    decreases hits.len(),
{
    if hits.len() > 0 {
        let h0 = hits.drop_last();
        let c0 = carried.drop_last();
        assert forall|i: int| 0 <= i < h0.len() implies (#[trigger] c0[i]) == carried_back(
            h0[i],
            offset,
        ) by {
            assert(c0[i] == carried[i]);
            assert(h0[i] == hits[i]);
        }
        lemma_nearest_carried(h0, c0, offset);
        assert(carried.last() == carried[carried.len() - 1]);
        assert(hits.last() == hits[hits.len() - 1]);
    }
}

impl Cube {
    /// Whether both corners lie within 1024 of zero.
    pub open spec fn is_in_reach(&self) -> bool {
        is_within(self.p_min, REACH as int) && is_within(self.p_max, REACH as int)
    }
}

/// A face of a moved box is the moved face of the box, and reports what the
/// face reports of the ray seen from the moved frame, carried back.
pub proof fn lemma_moved_face(
    c: Cube,
    offset: Vec3,
    i: usize,
    ray: &Ray,
    t_min: Fixed,
    t_max: Fixed,
)
    requires
        c.is_in_reach(),
        is_within(offset, REACH as int),
        is_within(ray.origin, REACH as int),
    ensures
        c.spec_moved(offset).spec_face_hit(i, ray, t_min, t_max) == carried_back(
            c.spec_face_hit(i, &spec_shifted(ray, offset), t_min, t_max),
            offset,
        ),
{
    let face = c.spec_face(i);
    assert(c.spec_moved(offset).spec_face(i) == face.spec_moved(offset));
    lemma_moved_candidate(face, offset, ray);
}

/// A moved box is a box elsewhere: for a box, an offset and a ray's origin
/// within reach, the box wrapped in a translation reports what the box with
/// moved corners reports, for every direction and interval.
pub proof fn law_moved_box(c: Cube, offset: Vec3, ray: &Ray, t_min: Fixed, t_max: Fixed)
    requires
        c.is_in_reach(),
        is_within(offset, REACH as int),
        is_within(ray.origin, REACH as int),
    ensures
        (Shape::Translate { child: Box::new(Shape::Cube(c)), offset }).spec_hit(ray, t_min, t_max)
            == c.spec_moved(offset).spec_hit(ray, t_min, t_max),
{
    let seen = spec_shifted(ray, offset);
    let hits = c.face_hits(&seen, t_min, t_max);
    let carried = c.spec_moved(offset).face_hits(ray, t_min, t_max);
    assert forall|i: int| 0 <= i < hits.len() implies (#[trigger] carried[i]) == carried_back(
        hits[i],
        offset,
    ) by {
        lemma_moved_face(c, offset, i as usize, ray, t_min, t_max);
    }
    lemma_nearest_carried(hits, carried, offset);
    reveal_with_fuel(Shape::spec_hit, 2);
}

/// A moved sphere is a sphere elsewhere: for a sphere and an offset within
/// reach, and a ray in reach of the sphere where it comes to lie, the sphere
/// wrapped in a translation reports what the sphere with a moved centre
/// reports, for every interval.
pub proof fn law_moved_sphere(s: Sphere, offset: Vec3, ray: &Ray, t_min: Fixed, t_max: Fixed)
    requires
        is_within(s.center, REACH as int),
        is_within(offset, REACH as int),
        in_reach(&s.spec_moved(offset), ray),
    ensures
        (Shape::Translate { child: Box::new(Shape::Sphere(s)), offset }).spec_hit(
            ray,
            t_min,
            t_max,
        ) == s.spec_moved(offset).spec_hit(ray, t_min, t_max),
{
    assert(REACH == 0x4_0000_0000);
    let seen = spec_shifted(ray, offset);
    let there = s.spec_moved(offset);
    assert(seen.origin.sub(s.center) == ray.origin.sub(there.center));
    assert(there.spec_discriminant(ray) == s.spec_discriminant(&seen));
    assert(there.spec_roots(ray) == s.spec_roots(&seen));
    reveal_with_fuel(Shape::spec_hit, 2);
    if there.spec_roots(ray) is Some {
        let roots = there.spec_roots(ray)->0;
        lemma_root_is_on_sphere(&there, ray, false);
        lemma_root_is_on_sphere(&there, ray, true);
        lemma_moved_record(s, offset, ray, roots.near);
        lemma_moved_record(s, offset, ray, roots.far);
    }
}

/// The record of a moved sphere at a parameter whose point lies within
/// reach of the centre: the record of the sphere itself for the ray seen
/// from the moved frame, carried back.
pub proof fn lemma_moved_record(s: Sphere, offset: Vec3, ray: &Ray, t: Fixed)
    requires
        is_within(s.center, REACH as int),
        is_within(offset, REACH as int),
        is_within(ray.origin, REACH as int),
        is_within(s.spec_moved(offset).center, REACH as int),
        is_within(
            s.spec_moved(offset).spec_record_at(ray, t).p.sub(s.spec_moved(offset).center),
            0x80_0000_0000_0000,
        ),
    ensures
        s.spec_moved(offset).spec_record_at(ray, t) == spec_shift_back(
            s.spec_record_at(&spec_shifted(ray, offset), t),
            offset,
        ),
{
    assert(REACH == 0x4_0000_0000);
}

/// Turning a box by no angle or by a whole turn and then moving it is
/// placing the box elsewhere: the box wrapped in a rotation by 0 or by 360
/// degrees and then in a translation reports what the box with moved corners
/// reports.
pub proof fn law_turned_and_moved_box(
    c: Cube,
    axis: Axis,
    offset: Vec3,
    ray: &Ray,
    t_min: Fixed,
    t_max: Fixed,
)
    requires
        c.is_in_reach(),
        is_within(offset, REACH as int),
        is_within(ray.origin, REACH as int),
    ensures
        (Shape::Translate {
            child: Box::new(
                Shape::Rotate {
                    child: Box::new(Shape::Cube(c)),
                    axis,
                    angle: cos_sin_degrees(Fixed::zero()),
                },
            ),
            offset,
        }).spec_hit(ray, t_min, t_max) == c.spec_moved(offset).spec_hit(ray, t_min, t_max),
        (Shape::Translate {
            child: Box::new(
                Shape::Rotate {
                    child: Box::new(Shape::Cube(c)),
                    axis,
                    angle: cos_sin_degrees(Fixed::from_int(360)),
                },
            ),
            offset,
        }).spec_hit(ray, t_min, t_max) == c.spec_moved(offset).spec_hit(ray, t_min, t_max),
{
    let seen = spec_shifted(ray, offset);
    crate::shape::law_rotation_by_whole_turn(Shape::Cube(c), axis, &seen, t_min, t_max);
    law_moved_box(c, offset, ray, t_min, t_max);
}

} // verus!
