//! Probability densities over directions: each can choose a direction from
//! uniform numbers and tell the density with which it chooses one.

use vstd::prelude::*;
use crate::fixed::Fixed;
use crate::fixed::lemma_div_nonneg;
use crate::fixed::lemma_mul_nonneg;
use crate::fixed::lemma_square_nonneg;
use crate::fixed::lemma_sqrt_at_most_one;
use crate::hit::near;
use crate::onb::Onb;
use crate::ray::Ray;
use crate::rect::AARect;
use crate::sampling::Sample;
use crate::sampling::cone_cosine;
use crate::sampling::cone_direction;
use crate::sampling::cosine_direction;
use crate::sampling::pick_index;
use crate::sampling::picks_first;
use crate::sampling::rest_of_pick;
use crate::shape::Shape;
use crate::sphere::Sphere;
use crate::vec3::Vec3;
use crate::vec3::lemma_magnitude_nonneg;

verus! {

/// The ray that is cast from `origin` along `direction` to find out whether,
/// and where, a target is seen in that direction.
pub open spec fn spec_probe(origin: Vec3, direction: Vec3) -> Ray {
    Ray { origin, direction, time: Fixed::zero() }
}

/// The ray that is cast from `origin` along `direction` to find out whether,
/// and where, a target is seen in that direction.
#[verifier::when_used_as_spec(spec_probe)]
pub fn probe(origin: Vec3, direction: Vec3) -> (r: Ray)
    ensures
        r == spec_probe(origin, direction),
{
    Ray { origin, direction, time: Fixed::zero() }
}

impl AARect {
    /// The density, per solid angle as seen from `origin`, with which
    /// [`AARect::random`] chooses `direction`.
    ///
    /// If the ray from `origin` along `direction` hits the rectangle at
    /// parameter `t`, this is `distance^2 / (cosine * area)`, with
    /// `distance^2 = t^2 * |direction|^2` and `cosine` the absolute cosine of
    /// the angle between the direction and the rectangle's normal. If the ray
    /// misses, it is zero.
    pub open spec fn spec_pdf_value(&self, origin: Vec3, direction: Vec3) -> Fixed {
        match self.spec_hit(&spec_probe(origin, direction), near(), Fixed::largest()) {
            Some(rec) => {
                let distance_squared = rec.t.square().mul(direction.magnitude_squared());
                let cosine = direction.dot(rec.normal).abs().div(direction.magnitude());
                distance_squared.div(cosine.mul(self.area()))
            },
            None => Fixed::zero(),
        }
    }

    /// The density, per solid angle as seen from `origin`, with which
    /// [`AARect::random`] chooses `direction`. It is never negative.
    #[verifier::when_used_as_spec(spec_pdf_value)]
    pub fn pdf_value(&self, origin: Vec3, direction: Vec3) -> (r: Fixed)
        ensures
            r == self.spec_pdf_value(origin, direction),
            r@ >= 0,
    {
        match self.hit(&probe(origin, direction), near(), Fixed::largest()) {
            Some(rec) => {
                let distance_squared = rec.t.square().mul(direction.magnitude_squared());
                let cosine = direction.dot(rec.normal).abs().div(direction.magnitude());
                proof {
                    lemma_square_nonneg(rec.t);
                    lemma_magnitude_nonneg(direction);
                    lemma_mul_nonneg(rec.t.square(), direction.magnitude_squared());
                    lemma_div_nonneg(direction.dot(rec.normal).abs(), direction.magnitude());
                    lemma_mul_nonneg(cosine, self.area());
                    lemma_div_nonneg(distance_squared, cosine.mul(self.area()));
                }
                distance_squared.div(cosine.mul(self.area()))
            },
            None => Fixed::zero(),
        }
    }

    pub open spec fn spec_random(&self, origin: Vec3, u1: Fixed, u2: Fixed) -> Vec3 {
        self.point(u1, u2).sub(origin)
    }

    /// The direction from `origin` to the rectangle's point at fractions
    /// `u1` and `u2` of its two ranges: uniform over the rectangle's area for
    /// uniform numbers.
    #[verifier::when_used_as_spec(spec_random)]
    pub fn random(&self, origin: Vec3, u1: Fixed, u2: Fixed) -> (r: Vec3)
        ensures
            r == self.spec_random(origin, u1, u2),
    {
        self.point(u1, u2).sub(origin)
    }
}

impl Sphere {
    /// The density, per solid angle as seen from `origin`, with which
    /// [`Sphere::random`] chooses `direction`.
    ///
    /// If the ray from `origin` along `direction` hits the sphere, this is
    /// one over the solid angle `2 pi (1 - cosine)` of the cone under which
    /// the sphere is seen. If the ray misses, it is zero.
    pub open spec fn spec_pdf_value(&self, origin: Vec3, direction: Vec3) -> Fixed {
        match self.spec_hit(&spec_probe(origin, direction), near(), Fixed::largest()) {
            Some(rec) => {
                let cosine = cone_cosine(self.radius, self.center.sub(origin).magnitude_squared());
                let solid_angle = Fixed::pi().add(Fixed::pi()).mul(Fixed::one().sub(cosine));
                Fixed::one().div(solid_angle)
            },
            None => Fixed::zero(),
        }
    }

    /// The density, per solid angle as seen from `origin`, with which
    /// [`Sphere::random`] chooses `direction`. It is never negative.
    #[verifier::when_used_as_spec(spec_pdf_value)]
    pub fn pdf_value(&self, origin: Vec3, direction: Vec3) -> (r: Fixed)
        ensures
            r == self.spec_pdf_value(origin, direction),
            r@ >= 0,
    {
        match self.hit(&probe(origin, direction), near(), Fixed::largest()) {
            Some(rec) => {
                let distance_squared = self.center.sub(origin).magnitude_squared();
                let cosine = cone_cosine(self.radius, distance_squared);
                let solid_angle = Fixed::pi().add(Fixed::pi()).mul(Fixed::one().sub(cosine));
                proof {
                    lemma_square_nonneg(self.radius);
                    lemma_magnitude_nonneg(self.center.sub(origin));
                    lemma_div_nonneg(self.radius.square(), distance_squared);
                    lemma_sqrt_at_most_one(
                        Fixed::one().sub(self.radius.square().div(distance_squared)),
                    );
                    lemma_mul_nonneg(Fixed::pi().add(Fixed::pi()), Fixed::one().sub(cosine));
                    lemma_div_nonneg(Fixed::one(), solid_angle);
                }
                Fixed::one().div(solid_angle)
            },
            None => Fixed::zero(),
        }
    }

    pub open spec fn spec_random(&self, origin: Vec3, u1: Fixed, u2: Fixed) -> Vec3 {
        let toward = self.center.sub(origin);
        Onb::build_from_w(toward).local(
            cone_direction(self.radius, toward.magnitude_squared(), u1, u2),
        )
    }

    /// A direction from `origin` into the cone under which the sphere is
    /// seen: uniform over the cone's solid angle for uniform numbers.
    #[verifier::when_used_as_spec(spec_random)]
    pub fn random(&self, origin: Vec3, u1: Fixed, u2: Fixed) -> (r: Vec3)
        ensures
            r == self.spec_random(origin, u1, u2),
    {
        let toward = self.center.sub(origin);
        Onb::build_from_w(toward).local(
            cone_direction(self.radius, toward.magnitude_squared(), u1, u2),
        )
    }
}

impl Shape {
    /// The density, per solid angle as seen from `origin`, with which
    /// [`Shape::random`] chooses `direction`.
    ///
    /// Spheres and rectangles have densities of their own. A transform asks
    /// its child from the child's frame. A box is no target: its density is
    /// zero everywhere.
    pub open spec fn spec_pdf_value(&self, origin: Vec3, direction: Vec3) -> Fixed
        decreases self,
    {
        match self {
            Shape::Sphere(s) => s.spec_pdf_value(origin, direction),
            Shape::Rect(r) => r.spec_pdf_value(origin, direction),
            Shape::Cube(c) => Fixed::zero(),
            Shape::Translate { child, offset } => child.spec_pdf_value(
                origin.sub(*offset),
                direction,
            ),
            Shape::Rotate { child, axis, angle } => child.spec_pdf_value(
                axis.spec_turn(angle.spec_reversed(), origin),
                axis.spec_turn(angle.spec_reversed(), direction),
            ),
            Shape::FlipNormals { child } => child.spec_pdf_value(origin, direction),
        }
    }

    /// The density, per solid angle as seen from `origin`, with which
    /// [`Shape::random`] chooses `direction`. It is never negative.
    #[verifier::when_used_as_spec(spec_pdf_value)]
    pub fn pdf_value(&self, origin: Vec3, direction: Vec3) -> (r: Fixed)
        ensures
            r == self.spec_pdf_value(origin, direction),
            r@ >= 0,
        decreases self,
    {
        match self {
            Shape::Sphere(s) => s.pdf_value(origin, direction),
            Shape::Rect(r) => r.pdf_value(origin, direction),
            Shape::Cube(c) => Fixed::zero(),
            Shape::Translate { child, offset } => child.pdf_value(origin.sub(*offset), direction),
            Shape::Rotate { child, axis, angle } => child.pdf_value(
                axis.turn(angle.reversed(), origin),
                axis.turn(angle.reversed(), direction),
            ),
            Shape::FlipNormals { child } => child.pdf_value(origin, direction),
        }
    }

    /// A direction from `origin` toward the shape, chosen by two uniform
    /// numbers. A box is no target: it gives the X axis.
    pub open spec fn spec_random(&self, origin: Vec3, u1: Fixed, u2: Fixed) -> Vec3
        decreases self,
    {
        match self {
            Shape::Sphere(s) => s.spec_random(origin, u1, u2),
            Shape::Rect(r) => r.spec_random(origin, u1, u2),
            Shape::Cube(c) => Vec3::from_ints(1, 0, 0),
            Shape::Translate { child, offset } => child.spec_random(origin.sub(*offset), u1, u2),
            Shape::Rotate { child, axis, angle } => axis.spec_turn(
                *angle,
                child.spec_random(axis.spec_turn(angle.spec_reversed(), origin), u1, u2),
            ),
            Shape::FlipNormals { child } => child.spec_random(origin, u1, u2),
        }
    }

    /// A direction from `origin` toward the shape, chosen by two uniform
    /// numbers.
    #[verifier::when_used_as_spec(spec_random)]
    pub fn random(&self, origin: Vec3, u1: Fixed, u2: Fixed) -> (r: Vec3)
        ensures
            r == self.spec_random(origin, u1, u2),
        decreases self,
    {
        match self {
            Shape::Sphere(s) => s.random(origin, u1, u2),
            Shape::Rect(r) => r.random(origin, u1, u2),
            Shape::Cube(c) => Vec3::from_ints(1, 0, 0),
            Shape::Translate { child, offset } => child.random(origin.sub(*offset), u1, u2),
            Shape::Rotate { child, axis, angle } => axis.turn(
                *angle,
                child.random(axis.turn(angle.reversed(), origin), u1, u2),
            ),
            Shape::FlipNormals { child } => child.random(origin, u1, u2),
        }
    }
}

/// The share of each of `n` targets in a list's density: one `n`-th.
pub open spec fn spec_share(n: usize) -> Fixed {
    Fixed::one().div(Fixed::from_count(n))
}

/// The sum of the first `n` targets' densities, each weighted by `share`.
pub open spec fn density_sum(
    targets: Seq<Shape>,
    n: nat,
    share: Fixed,
    origin: Vec3,
    direction: Vec3,
) -> Fixed
    decreases n,
{
    if n == 0 {
        Fixed::zero()
    } else {
        density_sum(targets, (n - 1) as nat, share, origin, direction).add(
            share.mul(targets[n - 1].spec_pdf_value(origin, direction)),
        )
    }
}

/// The density with which a list of targets chooses `direction`: the mean of
/// the targets' densities. An empty list has density zero.
pub open spec fn spec_list_density(targets: Seq<Shape>, origin: Vec3, direction: Vec3) -> Fixed {
    density_sum(targets, targets.len(), spec_share(targets.len() as usize), origin, direction)
}

/// The density with which a list of targets chooses `direction`: the mean of
/// the targets' densities. It is never negative.
pub fn list_density(targets: &Vec<Shape>, origin: Vec3, direction: Vec3) -> (r: Fixed)
    ensures
        r == spec_list_density(targets@, origin, direction),
        r@ >= 0,
{
    let n = targets.len();
    let share = Fixed::one().div(Fixed::from_count(n));
    proof {
        lemma_div_nonneg(Fixed::one(), Fixed::from_count(n));
    }
    let mut sum = Fixed::zero();
    let mut i: usize = 0;
    while i < n
        invariant
            i <= n,
            n == targets@.len(),
            share == spec_share(n),
            share@ >= 0,
            sum == density_sum(targets@, i as nat, share, origin, direction),
            sum@ >= 0,
        decreases n - i,
    {
        let density = targets[i].pdf_value(origin, direction);
        proof {
            lemma_mul_nonneg(share, density);
        }
        sum = sum.add(share.mul(density));
        i = i + 1;
    }
    sum
}

/// The direction that a list of targets chooses for a sample: the member
/// that `pick` falls on chooses it from `u1` and `u2`. An empty list gives
/// the X axis.
pub open spec fn spec_list_direction(targets: Seq<Shape>, origin: Vec3, sample: &Sample) -> Vec3 {
    if targets.len() == 0 {
        Vec3::from_ints(1, 0, 0)
    } else {
        targets[pick_index(sample.pick, targets.len() as usize) as int].spec_random(
            origin,
            sample.u1,
            sample.u2,
        )
    }
}

/// The direction that a list of targets chooses for a sample.
pub fn list_direction(targets: &Vec<Shape>, origin: Vec3, sample: &Sample) -> (r: Vec3)
    ensures
        r == spec_list_direction(targets@, origin, sample),
{
    let n = targets.len();
    if n == 0 {
        Vec3::from_ints(1, 0, 0)
    } else {
        targets[pick_index(sample.pick, n)].random(origin, sample.u1, sample.u2)
    }
}

/// A probability density over directions.
#[derive(Debug)]
pub enum Pdf<'a> {
    /// Directions of the hemisphere around the third axis of `uvw`, in
    /// proportion to the cosine of their angle to it.
    Cosine { uvw: Onb },
    /// Directions from `origin` toward a list of target shapes.
    Hittable { origin: Vec3, targets: &'a Vec<Shape> },
    /// One of two densities, each with chance one half.
    Mixture { first: Box<Pdf<'a>>, second: Box<Pdf<'a>> },
}

impl<'a> Pdf<'a> {
    /// The cosine density around the normal `n`.
    pub fn cosine(n: Vec3) -> (r: Pdf<'a>)
        ensures
            r == (Pdf::Cosine { uvw: Onb::build_from_w(n) }),
    {
        Pdf::Cosine { uvw: Onb::build_from_w(n) }
    }

    /// The density of directions from `origin` toward `targets`.
    pub fn hittable(targets: &'a Vec<Shape>, origin: Vec3) -> (r: Pdf<'a>)
        ensures
            r == (Pdf::Hittable { origin, targets }),
    {
        Pdf::Hittable { origin, targets }
    }

    /// The even mixture of two densities.
    pub fn mixture(first: Pdf<'a>, second: Pdf<'a>) -> (r: Pdf<'a>)
        ensures
            r == (Pdf::Mixture { first: Box::new(first), second: Box::new(second) }),
    {
        Pdf::Mixture { first: Box::new(first), second: Box::new(second) }
    }

    /// The density at `direction`.
    ///
    /// The cosine density is `max(cosine, 0) / pi`, with the cosine of the
    /// angle between the direction and the third axis. The density toward
    /// targets is the mean of the targets' densities. A mixture's density is
    /// the mean of its two halves' densities.
    pub open spec fn spec_value(&self, direction: Vec3) -> Fixed
        decreases self,
    {
        match self {
            Pdf::Cosine { uvw } => direction.normalize().dot(uvw.w).max(Fixed::zero()).div(
                Fixed::pi(),
            ),
            Pdf::Hittable { origin, targets } => spec_list_density(targets@, *origin, direction),
            Pdf::Mixture { first, second } => Fixed::half().mul(first.spec_value(direction)).add(
                Fixed::half().mul(second.spec_value(direction)),
            ),
        }
    }

    /// The density at `direction`. It is never negative.
    #[verifier::when_used_as_spec(spec_value)]
    pub fn value(&self, direction: Vec3) -> (r: Fixed)
        ensures
            r == self.spec_value(direction),
            r@ >= 0,
        decreases self,
    {
        match self {
            Pdf::Cosine { uvw } => {
                let cosine = direction.normalize().dot(uvw.w).max(Fixed::zero());
                proof {
                    lemma_div_nonneg(cosine, Fixed::pi());
                }
                cosine.div(Fixed::pi())
            },
            Pdf::Hittable { origin, targets } => list_density(targets, *origin, direction),
            Pdf::Mixture { first, second } => {
                let a = first.value(direction);
                let b = second.value(direction);
                proof {
                    lemma_mul_nonneg(Fixed::half(), a);
                    lemma_mul_nonneg(Fixed::half(), b);
                }
                Fixed::half().mul(a).add(Fixed::half().mul(b))
            },
        }
    }

    /// The direction chosen for a sample.
    ///
    /// The cosine density maps `u1` and `u2` to a direction around its axis.
    /// The density toward targets lets `pick` choose a target, which maps
    /// `u1` and `u2` to a direction toward itself. A mixture lets `pick`
    /// choose a half, and hands that half the rest of `pick`.
    pub open spec fn spec_generate(&self, sample: &Sample) -> Vec3
        decreases self,
    {
        match self {
            Pdf::Cosine { uvw } => uvw.local(cosine_direction(sample.u1, sample.u2)),
            Pdf::Hittable { origin, targets } => spec_list_direction(targets@, *origin, sample),
            Pdf::Mixture { first, second } => {
                let rest = Sample { pick: rest_of_pick(sample.pick), u1: sample.u1, u2: sample.u2 };
                if picks_first(sample.pick) {
                    first.spec_generate(&rest)
                } else {
                    second.spec_generate(&rest)
                }
            },
        }
    }

    /// The direction chosen for a sample.
    #[verifier::when_used_as_spec(spec_generate)]
    pub fn generate(&self, sample: &Sample) -> (r: Vec3)
        ensures
            r == self.spec_generate(sample),
        decreases self,
    {
        match self {
            Pdf::Cosine { uvw } => uvw.local(cosine_direction(sample.u1, sample.u2)),
            Pdf::Hittable { origin, targets } => list_direction(targets, *origin, sample),
            Pdf::Mixture { first, second } => {
                let rest = Sample { pick: rest_of_pick(sample.pick), u1: sample.u1, u2: sample.u2 };
                if picks_first(sample.pick) {
                    first.generate(&rest)
                } else {
                    second.generate(&rest)
                }
            },
        }
    }
}

/// Around a normal along a coordinate axis, as every rectangle and every
/// face of a box has one, the frame is exact: the direction chosen for any
/// sample has a dot product with the normal that is the chosen direction's
/// height in the frame.
pub proof fn law_cosine_is_exact_on_axes(n: Vec3, sample: &Sample)
    requires
        crate::vec3::is_axis_unit(n),
    ensures
        (Pdf::Cosine { uvw: Onb::build_from_w(n) }).spec_generate(sample).dot(n)
            == cosine_direction(sample.u1, sample.u2).z,
        (Pdf::Cosine { uvw: Onb::build_from_w(n) }).spec_generate(sample).dot(n)@ >= 0,
{
    crate::fixed::lemma_sqrt(Fixed::one().sub(sample.u2));
    crate::onb::lemma_axis_frame(n, cosine_direction(sample.u1, sample.u2));
}

} // verus!
