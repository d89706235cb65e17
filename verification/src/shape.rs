//! Geometry: the primitives and the transforms that wrap them.

use vstd::prelude::*;
use crate::cube::Cube;
use crate::fixed::Fixed;
use crate::hit::HitRecord;
use crate::hit::cut;
use crate::hit::lemma_nearest_cut;
use crate::ray::Ray;
use crate::rect::AARect;
use crate::sphere::Sphere;
use crate::sphere::lemma_roots_ordered;
use crate::trig::CosSin;
use crate::trig::cos_sin_degrees;
use crate::vec3::Vec3;

verus! {

/// A coordinate axis to rotate about.
#[derive(Clone, Copy, Debug, PartialEq, Eq, Structural)]
pub enum Axis {
    X,
    Y,
    Z,
}

impl CosSin {
    pub open spec fn spec_reversed(self) -> CosSin {
        CosSin { cos: self.cos, sin: self.sin.neg() }
    }

    /// Cosine and sine of the opposite angle.
    #[verifier::when_used_as_spec(spec_reversed)]
    pub fn reversed(self) -> (r: CosSin)
        ensures
            r == self.spec_reversed(),
    {
        CosSin { cos: self.cos, sin: self.sin.neg() }
    }
}

impl Axis {
    /// `v` rotated about the axis by the angle, counter-clockwise as seen
    /// from the axis' positive end.
    pub open spec fn spec_turn(self, angle: CosSin, v: Vec3) -> Vec3 {
        let c = angle.cos;
        let s = angle.sin;
        match self {
            Axis::X => Vec3 {
                x: v.x,
                y: c.mul(v.y).sub(s.mul(v.z)),
                z: s.mul(v.y).add(c.mul(v.z)),
            },
            Axis::Y => Vec3 {
                x: c.mul(v.x).add(s.mul(v.z)),
                y: v.y,
                z: c.mul(v.z).sub(s.mul(v.x)),
            },
            Axis::Z => Vec3 {
                x: c.mul(v.x).sub(s.mul(v.y)),
                y: s.mul(v.x).add(c.mul(v.y)),
                z: v.z,
            },
        }
    }

    /// `v` rotated about the axis by the angle.
    #[verifier::when_used_as_spec(spec_turn)]
    pub fn turn(self, angle: CosSin, v: Vec3) -> (r: Vec3)
        ensures
            r == self.spec_turn(angle, v),
    {
        let c = angle.cos;
        let s = angle.sin;
        match self {
            Axis::X => Vec3 {
                x: v.x,
                y: c.mul(v.y).sub(s.mul(v.z)),
                z: s.mul(v.y).add(c.mul(v.z)),
            },
            Axis::Y => Vec3 {
                x: c.mul(v.x).add(s.mul(v.z)),
                y: v.y,
                z: c.mul(v.z).sub(s.mul(v.x)),
            },
            Axis::Z => Vec3 {
                x: c.mul(v.x).sub(s.mul(v.y)),
                y: s.mul(v.x).add(c.mul(v.y)),
                z: v.z,
            },
        }
    }
}

/// A geometric object that a ray can hit.
#[derive(Debug, PartialEq, Eq)]
pub enum Shape {
    /// A sphere.
    Sphere(Sphere),
    /// An axis-aligned rectangle.
    Rect(AARect),
    /// An axis-aligned box.
    Cube(Cube),
    /// The child moved by `offset`.
    Translate { child: Box<Shape>, offset: Vec3 },
    /// The child rotated about `axis` by `angle`.
    Rotate { child: Box<Shape>, axis: Axis, angle: CosSin },
    /// The child with its normals reversed.
    FlipNormals { child: Box<Shape> },
}

/// The ray as seen from a frame moved by `offset`.
pub open spec fn spec_shifted(ray: &Ray, offset: Vec3) -> Ray {
    Ray { origin: ray.origin.sub(offset), direction: ray.direction, time: ray.time }
}

/// The ray as seen from a frame moved by `offset`.
#[verifier::when_used_as_spec(spec_shifted)]
pub fn shifted(ray: &Ray, offset: Vec3) -> (r: Ray)
    ensures
        r == spec_shifted(ray, offset),
{
    Ray { origin: ray.origin.sub(offset), direction: ray.direction, time: ray.time }
}

/// The ray with origin and direction rotated about `axis` by `angle`.
pub open spec fn spec_turned(ray: &Ray, axis: Axis, angle: CosSin) -> Ray {
    Ray {
        origin: axis.turn(angle, ray.origin),
        direction: axis.turn(angle, ray.direction),
        time: ray.time,
    }
}

/// The ray with origin and direction rotated about `axis` by `angle`.
#[verifier::when_used_as_spec(spec_turned)]
pub fn turned(ray: &Ray, axis: Axis, angle: CosSin) -> (r: Ray)
    ensures
        r == spec_turned(ray, axis, angle),
{
    Ray {
        origin: axis.turn(angle, ray.origin),
        direction: axis.turn(angle, ray.direction),
        time: ray.time,
    }
}

/// A child's intersection carried back out of a frame moved by `offset`:
/// the point moves, everything else stays.
pub open spec fn spec_shift_back(rec: HitRecord, offset: Vec3) -> HitRecord {
    HitRecord { p: rec.p.add(offset), ..rec }
}

/// A child's intersection carried back out of a frame moved by `offset`.
#[verifier::when_used_as_spec(spec_shift_back)]
pub fn shift_back(rec: HitRecord, offset: Vec3) -> (r: HitRecord)
    ensures
        r == spec_shift_back(rec, offset),
{
    HitRecord { t: rec.t, p: rec.p.add(offset), normal: rec.normal, u: rec.u, v: rec.v }
}

/// A child's intersection carried back out of a rotated frame: point and
/// normal are rotated, everything else stays.
pub open spec fn spec_turn_back(rec: HitRecord, axis: Axis, angle: CosSin) -> HitRecord {
    HitRecord { p: axis.turn(angle, rec.p), normal: axis.turn(angle, rec.normal), ..rec }
}

/// A child's intersection carried back out of a rotated frame.
#[verifier::when_used_as_spec(spec_turn_back)]
pub fn turn_back(rec: HitRecord, axis: Axis, angle: CosSin) -> (r: HitRecord)
    ensures
        r == spec_turn_back(rec, axis, angle),
{
    HitRecord {
        t: rec.t,
        p: axis.turn(angle, rec.p),
        normal: axis.turn(angle, rec.normal),
        u: rec.u,
        v: rec.v,
    }
}

impl Shape {
    /// `child` moved by `offset`.
    pub fn translate(child: Shape, offset: Vec3) -> (r: Shape)
        ensures
            r == (Shape::Translate { child: Box::new(child), offset }),
    {
        Shape::Translate { child: Box::new(child), offset }
    }

    /// `child` rotated about `axis` by an angle in degrees.
    pub fn rotate(axis: Axis, child: Shape, degrees: Fixed) -> (r: Shape)
        ensures
            r == (Shape::Rotate { child: Box::new(child), axis, angle: cos_sin_degrees(degrees) }),
    {
        Shape::Rotate { child: Box::new(child), axis, angle: cos_sin_degrees(degrees) }
    }

    /// `child` with its normals reversed.
    pub fn flip_normals(child: Shape) -> (r: Shape)
        ensures
            r == (Shape::FlipNormals { child: Box::new(child) }),
    {
        Shape::FlipNormals { child: Box::new(child) }
    }

    /// The nearest intersection of the ray with the shape whose parameter
    /// lies strictly between `t_min` and `t_max`.
    ///
    /// A transform asks its child about the ray as seen from the child's
    /// frame, over the same interval, and carries the answer back: a
    /// translation moves the point by the offset, a rotation rotates point and
    /// normal, a flip reverses the normal. None of them changes the parameter.
    pub open spec fn spec_hit(&self, ray: &Ray, t_min: Fixed, t_max: Fixed) -> Option<HitRecord>
        decreases self,
    {
        match self {
            Shape::Sphere(s) => s.spec_hit(ray, t_min, t_max),
            Shape::Rect(r) => r.spec_hit(ray, t_min, t_max),
            Shape::Cube(c) => c.spec_hit(ray, t_min, t_max),
            Shape::Translate { child, offset } => match child.spec_hit(
                &spec_shifted(ray, *offset),
                t_min,
                t_max,
            ) {
                Some(rec) => Some(spec_shift_back(rec, *offset)),
                None => None,
            },
            Shape::Rotate { child, axis, angle } => match child.spec_hit(
                &spec_turned(ray, *axis, angle.spec_reversed()),
                t_min,
                t_max,
            ) {
                Some(rec) => Some(spec_turn_back(rec, *axis, *angle)),
                None => None,
            },
            Shape::FlipNormals { child } => match child.spec_hit(ray, t_min, t_max) {
                Some(rec) => Some(rec.spec_flipped()),
                None => None,
            },
        }
    }

    /// The nearest intersection of the ray with the shape whose parameter
    /// lies strictly between `t_min` and `t_max`.
    #[verifier::when_used_as_spec(spec_hit)]
    pub fn hit(&self, ray: &Ray, t_min: Fixed, t_max: Fixed) -> (r: Option<HitRecord>)
        ensures
            r == self.spec_hit(ray, t_min, t_max),
            r matches Some(rec) ==> rec.within(t_min, t_max),
        decreases self,
    {
        match self {
            Shape::Sphere(s) => s.hit(ray, t_min, t_max),
            Shape::Rect(r) => r.hit(ray, t_min, t_max),
            Shape::Cube(c) => c.hit(ray, t_min, t_max),
            Shape::Translate { child, offset } => {
                let moved = shifted(ray, *offset);
                match child.hit(&moved, t_min, t_max) {
                    Some(rec) => Some(shift_back(rec, *offset)),
                    None => None,
                }
            },
            Shape::Rotate { child, axis, angle } => {
                let moved = turned(ray, *axis, angle.reversed());
                match child.hit(&moved, t_min, t_max) {
                    Some(rec) => Some(turn_back(rec, *axis, *angle)),
                    None => None,
                }
            },
            Shape::FlipNormals { child } => match child.hit(ray, t_min, t_max) {
                Some(rec) => Some(rec.flipped()),
                None => None,
            },
        }
    }
}

impl Clone for Shape {
    /// A copy of the shape, equal to it.
    fn clone(&self) -> (r: Self)
        ensures
            r == *self,
        decreases self,
    {
        match self {
            Shape::Sphere(s) => Shape::Sphere(*s),
            Shape::Rect(r) => Shape::Rect(*r),
            Shape::Cube(c) => Shape::Cube(*c),
            Shape::Translate { child, offset } => {
                let inner: &Shape = child;
                Shape::Translate { child: Box::new(inner.clone()), offset: *offset }
            },
            Shape::Rotate { child, axis, angle } => {
                let inner: &Shape = child;
                Shape::Rotate { child: Box::new(inner.clone()), axis: *axis, angle: *angle }
            },
            Shape::FlipNormals { child } => {
                let inner: &Shape = child;
                Shape::FlipNormals { child: Box::new(inner.clone()) }
            },
        }
    }
}

/// Every intersection that a shape reports lies strictly inside the interval
/// asked for.
pub proof fn lemma_hit_within(shape: &Shape, ray: &Ray, t_min: Fixed, t_max: Fixed)
    ensures
        shape.spec_hit(ray, t_min, t_max) matches Some(rec) ==> rec.within(t_min, t_max),
    decreases shape,
{
    match shape {
        Shape::Sphere(s) => {},
        Shape::Rect(r) => {},
        Shape::Cube(c) => {
            let hits = c.face_hits(ray, t_min, t_max);
            crate::hit::lemma_nearest_is_least(hits);
        },
        Shape::Translate { child, offset } => {
            lemma_hit_within(child, &spec_shifted(ray, *offset), t_min, t_max);
        },
        Shape::Rotate { child, axis, angle } => {
            lemma_hit_within(child, &spec_turned(ray, *axis, angle.spec_reversed()), t_min, t_max);
        },
        Shape::FlipNormals { child } => {
            lemma_hit_within(child, ray, t_min, t_max);
        },
    }
}

/// Every shape reports its nearest intersection: asking over an interval
/// that ends earlier gives the same intersection if it lies before the new
/// end, and none otherwise.
pub proof fn lemma_hit_nearest(shape: &Shape, ray: &Ray, t_min: Fixed, t_max: Fixed, end: Fixed)
    requires
        end@ <= t_max@,
    ensures
        shape.spec_hit(ray, t_min, end) == cut(shape.spec_hit(ray, t_min, t_max), end),
    decreases shape,
{
    match shape {
        Shape::Sphere(s) => {
            lemma_roots_ordered(*s, ray);
        },
        Shape::Rect(r) => {},
        Shape::Cube(c) => {
            let full = c.face_hits(ray, t_min, t_max);
            let short = c.face_hits(ray, t_min, end);
            assert forall|i: int| 0 <= i < full.len() implies (#[trigger] short[i]) == cut(
                full[i],
                end,
            ) by {}
            lemma_nearest_cut(full, short, end);
        },
        Shape::Translate { child, offset } => {
            lemma_hit_nearest(child, &spec_shifted(ray, *offset), t_min, t_max, end);
        },
        Shape::Rotate { child, axis, angle } => {
            lemma_hit_nearest(
                child,
                &spec_turned(ray, *axis, angle.spec_reversed()),
                t_min,
                t_max,
                end,
            );
        },
        Shape::FlipNormals { child } => {
            lemma_hit_nearest(child, ray, t_min, t_max, end);
        },
    }
}

/// Reversing the normals negates the normal that the child reports and
/// leaves the parameter, the point and the texture coordinates as they are;
/// the wrapped shape is hit exactly when the child is.
pub proof fn law_flip_negates_normal(child: Shape, ray: &Ray, t_min: Fixed, t_max: Fixed)
    ensures
        match child.spec_hit(ray, t_min, t_max) {
            Some(inner) => (Shape::FlipNormals { child: Box::new(child) }).spec_hit(
                ray,
                t_min,
                t_max,
            ) == Some(
                HitRecord {
                    t: inner.t,
                    p: inner.p,
                    normal: inner.normal.neg(),
                    u: inner.u,
                    v: inner.v,
                },
            ),
            None => (Shape::FlipNormals { child: Box::new(child) }).spec_hit(ray, t_min, t_max)
                is None,
        },
{
}

/// A transform forwards the parameter unchanged: a wrapped shape is hit
/// exactly when its child is hit by the ray as seen from the child's frame,
/// and at the same parameter.
pub proof fn law_transforms_keep_parameter(shape: &Shape, ray: &Ray, t_min: Fixed, t_max: Fixed)
    ensures
        match shape {
            Shape::Translate { child, offset } => match child.spec_hit(
                &spec_shifted(ray, *offset),
                t_min,
                t_max,
            ) {
                Some(inner) => shape.spec_hit(ray, t_min, t_max) matches Some(rec) && rec.t
                    == inner.t && rec.normal == inner.normal,
                None => shape.spec_hit(ray, t_min, t_max) is None,
            },
            Shape::Rotate { child, axis, angle } => match child.spec_hit(
                &spec_turned(ray, *axis, angle.spec_reversed()),
                t_min,
                t_max,
            ) {
                Some(inner) => shape.spec_hit(ray, t_min, t_max) matches Some(rec) && rec.t
                    == inner.t,
                None => shape.spec_hit(ray, t_min, t_max) is None,
            },
            Shape::FlipNormals { child } => match child.spec_hit(ray, t_min, t_max) {
                Some(inner) => shape.spec_hit(ray, t_min, t_max) matches Some(rec) && rec.t
                    == inner.t,
                None => shape.spec_hit(ray, t_min, t_max) is None,
            },
            _ => true,
        },
{
}

/// Rotating by an angle with cosine one and sine zero moves no vector.
pub proof fn lemma_turn_by_nothing(axis: Axis, v: Vec3)
    ensures
        axis.spec_turn(CosSin { cos: Fixed::one(), sin: Fixed::zero() }, v) == v,
{
    crate::fixed::lemma_mul_one(v.x);
    crate::fixed::lemma_mul_one(v.y);
    crate::fixed::lemma_mul_one(v.z);
    crate::fixed::lemma_mul_zero(v.x);
    crate::fixed::lemma_mul_zero(v.y);
    crate::fixed::lemma_mul_zero(v.z);
}

/// A rotation by 90 degrees is exact: it swaps two coordinates and negates
/// one. About X it sends (x, y, z) to (x, -z, y), about Y to (z, y, -x),
/// about Z to (-y, x, z).
pub proof fn law_right_angle_turns(v: Vec3)
    ensures
        Axis::X.spec_turn(cos_sin_degrees(Fixed::from_int(90)), v) == (Vec3 {
            x: v.x,
            y: v.z.neg(),
            z: v.y,
        }),
        Axis::Y.spec_turn(cos_sin_degrees(Fixed::from_int(90)), v) == (Vec3 {
            x: v.z,
            y: v.y,
            z: v.x.neg(),
        }),
        Axis::Z.spec_turn(cos_sin_degrees(Fixed::from_int(90)), v) == (Vec3 {
            x: v.y.neg(),
            y: v.x,
            z: v.z,
        }),
{
    crate::trig::lemma_right_angle_degrees();
    crate::fixed::lemma_mul_one(v.x);
    crate::fixed::lemma_mul_one(v.y);
    crate::fixed::lemma_mul_one(v.z);
    crate::fixed::lemma_mul_zero(v.x);
    crate::fixed::lemma_mul_zero(v.y);
    crate::fixed::lemma_mul_zero(v.z);
}

/// A rotation by an angle with cosine one and sine zero is no transform: the
/// rotated shape reports what its child reports, for every ray and interval.
pub proof fn lemma_rotation_by_nothing(
    child: Shape,
    axis: Axis,
    ray: &Ray,
    t_min: Fixed,
    t_max: Fixed,
)
    ensures
        (Shape::Rotate {
            child: Box::new(child),
            axis,
            angle: CosSin { cos: Fixed::one(), sin: Fixed::zero() },
        }).spec_hit(ray, t_min, t_max) == child.spec_hit(ray, t_min, t_max),
{
    let still = CosSin { cos: Fixed::one(), sin: Fixed::zero() };
    assert(still.spec_reversed() == still);
    lemma_turn_by_nothing(axis, ray.origin);
    lemma_turn_by_nothing(axis, ray.direction);
    assert(spec_turned(ray, axis, still) == *ray);
    match child.spec_hit(ray, t_min, t_max) {
        Some(rec) => {
            lemma_turn_by_nothing(axis, rec.p);
            lemma_turn_by_nothing(axis, rec.normal);
        },
        None => {},
    }
}

/// A rotation by zero degrees, or by 360 degrees, is no transform: the
/// rotated shape reports what its child reports, for every ray and interval.
pub proof fn law_rotation_by_whole_turn(
    child: Shape,
    axis: Axis,
    ray: &Ray,
    t_min: Fixed,
    t_max: Fixed,
)
    ensures
        (Shape::Rotate {
            child: Box::new(child),
            axis,
            angle: cos_sin_degrees(Fixed::zero()),
        }).spec_hit(ray, t_min, t_max) == child.spec_hit(ray, t_min, t_max),
        (Shape::Rotate {
            child: Box::new(child),
            axis,
            angle: cos_sin_degrees(Fixed::from_int(360)),
        }).spec_hit(ray, t_min, t_max) == child.spec_hit(ray, t_min, t_max),
{
    crate::trig::lemma_whole_turn_degrees();
    lemma_rotation_by_nothing(child, axis, ray, t_min, t_max);
}

/// A translation by the zero vector is no transform: the moved shape reports
/// what its child reports, for every ray and interval.
pub proof fn law_translation_by_nothing(child: Shape, ray: &Ray, t_min: Fixed, t_max: Fixed)
    ensures
        (Shape::Translate { child: Box::new(child), offset: Vec3::zeros() }).spec_hit(
            ray,
            t_min,
            t_max,
        ) == child.spec_hit(ray, t_min, t_max),
{
    assert(spec_shifted(ray, Vec3::zeros()) == *ray);
}

/// Whether two shapes report the same intersection for every ray and every
/// interval.
pub open spec fn same_hits(a: &Shape, b: &Shape) -> bool {
    forall|ray: Ray, t_min: Fixed, t_max: Fixed|
        #[trigger] a.spec_hit(&ray, t_min, t_max) == b.spec_hit(&ray, t_min, t_max)
}

/// Transforms that do nothing change nothing: a shape turned by 0 or by 360
/// degrees about any axis and then moved by the zero vector reports what the
/// bare shape reports, for every ray and every interval.
pub proof fn law_idle_transforms(shape: Shape, axis: Axis)
    ensures
        same_hits(
            &Shape::Translate {
                child: Box::new(
                    Shape::Rotate {
                        child: Box::new(shape),
                        axis,
                        angle: cos_sin_degrees(Fixed::zero()),
                    },
                ),
                offset: Vec3::zeros(),
            },
            &shape,
        ),
        same_hits(
            &Shape::Translate {
                child: Box::new(
                    Shape::Rotate {
                        child: Box::new(shape),
                        axis,
                        angle: cos_sin_degrees(Fixed::from_int(360)),
                    },
                ),
                offset: Vec3::zeros(),
            },
            &shape,
        ),
{
    let none = Shape::Rotate {
        child: Box::new(shape),
        axis,
        angle: cos_sin_degrees(Fixed::zero()),
    };
    let whole = Shape::Rotate {
        child: Box::new(shape),
        axis,
        angle: cos_sin_degrees(Fixed::from_int(360)),
    };
    assert forall|ray: Ray, t_min: Fixed, t_max: Fixed| #[trigger]
        (Shape::Translate { child: Box::new(none), offset: Vec3::zeros() }).spec_hit(
            &ray,
            t_min,
            t_max,
        ) == shape.spec_hit(&ray, t_min, t_max) by {
        law_translation_by_nothing(none, &ray, t_min, t_max);
        law_rotation_by_whole_turn(shape, axis, &ray, t_min, t_max);
    }
    assert forall|ray: Ray, t_min: Fixed, t_max: Fixed| #[trigger]
        (Shape::Translate { child: Box::new(whole), offset: Vec3::zeros() }).spec_hit(
            &ray,
            t_min,
            t_max,
        ) == shape.spec_hit(&ray, t_min, t_max) by {
        law_translation_by_nothing(whole, &ray, t_min, t_max);
        law_rotation_by_whole_turn(shape, axis, &ray, t_min, t_max);
    }
}

} // verus!
