//! Uniform samples and the directions that are made of them.
//!
//! Every function that needs chance takes its uniform numbers as arguments
//! and is an exact function of them. The few functions that draw the numbers
//! are named `random_...` or `draw`.

use vstd::prelude::*;
use crate::fixed::Fixed;
use crate::fixed::SCALE;
use crate::fixed::lemma_sqrt;
use crate::trig::cos_sin_turns;
use crate::vec3::Vec3;

verus! {

/// Draws 32 bits from the calling thread's generator, by
/// `rand::Rng::gen::<u32>` on `rand::thread_rng()`. Nothing is claimed of the
/// bits: every value can come back, and two calls may differ. The generator
/// takes its seed from the operating system, at a thread's first call and
/// again whenever it reseeds (after every 64 KiB drawn, and after a fork),
/// and panics where the system has no entropy to give; no argument can rule
/// that out.
#[verifier::external_body]
fn random_bits() -> (bits: u32) {
    rand::Rng::gen::<u32>(&mut rand::thread_rng())
}

/// Draws a number in `[0, 1)`.
pub fn random_unit() -> (r: Fixed)
    ensures
        r.is_unit(),
{
    Fixed::unit_from_bits(random_bits())
}

/// The uniform numbers that choosing one direction takes.
#[derive(Clone, Copy, Debug, PartialEq, Eq, Structural)]
pub struct Sample {
    /// Chooses between alternatives: the halves of a mixture, the members of
    /// a list.
    pub pick: Fixed,
    /// First coordinate of the point or direction chosen.
    pub u1: Fixed,
    /// Second coordinate of the point or direction chosen.
    pub u2: Fixed,
}

impl Sample {
    /// Whether all three numbers lie in `[0, 1)`.
    pub open spec fn is_valid(&self) -> bool {
        self.pick.is_unit() && self.u1.is_unit() && self.u2.is_unit()
    }

    pub open spec fn spec_from_bits(b0: u32, b1: u32, b2: u32) -> Sample {
        Sample {
            pick: Fixed::unit_from_bits(b0),
            u1: Fixed::unit_from_bits(b1),
            u2: Fixed::unit_from_bits(b2),
        }
    }

    /// The sample made of three words of uniform bits.
    #[verifier::when_used_as_spec(spec_from_bits)]
    pub fn from_bits(b0: u32, b1: u32, b2: u32) -> (r: Sample)
        ensures
            r == Sample::spec_from_bits(b0, b1, b2),
            r.is_valid(),
    {
        Sample {
            pick: Fixed::unit_from_bits(b0),
            u1: Fixed::unit_from_bits(b1),
            u2: Fixed::unit_from_bits(b2),
        }
    }

    /// Draws a sample.
    pub fn draw() -> (r: Sample)
        ensures
            r.is_valid(),
    {
        let b0 = random_bits();
        let b1 = random_bits();
        let b2 = random_bits();
        Sample::from_bits(b0, b1, b2)
    }
}

/// The point of the cube `[-1, 1)^3` that three words of uniform bits stand
/// for: each coordinate is twice its uniform number, less one.
pub open spec fn spec_cube_point(b0: u32, b1: u32, b2: u32) -> Vec3 {
    Vec3::new(
        Fixed::unit_from_bits(b0),
        Fixed::unit_from_bits(b1),
        Fixed::unit_from_bits(b2),
    ).scale(Fixed::from_int(2)).sub(Vec3::ones())
}

/// The point of the cube `[-1, 1)^3` that three words of uniform bits stand
/// for.
#[verifier::when_used_as_spec(spec_cube_point)]
pub fn cube_point(b0: u32, b1: u32, b2: u32) -> (r: Vec3)
    ensures
        r == spec_cube_point(b0, b1, b2),
{
    Vec3::new(
        Fixed::unit_from_bits(b0),
        Fixed::unit_from_bits(b1),
        Fixed::unit_from_bits(b2),
    ).scale(Fixed::from_int(2)).sub(Vec3::ones())
}

/// Whether a point lies strictly inside the unit sphere.
pub open spec fn spec_in_unit_sphere(p: Vec3) -> bool {
    p.magnitude_squared()@ < SCALE
}

/// Whether a point lies strictly inside the unit sphere.
#[verifier::when_used_as_spec(spec_in_unit_sphere)]
pub fn in_unit_sphere(p: Vec3) -> (r: bool)
    ensures
        r == spec_in_unit_sphere(p),
{
    p.magnitude_squared().raw < SCALE
}

/// How many points [`random_in_unit_sphere`] tries before it settles for
/// the centre.
pub const SPHERE_ATTEMPTS: u32 = 64;

/// Draws a point strictly inside the unit sphere: points of the surrounding
/// cube are drawn until one falls inside. Each try succeeds with a chance
/// above one half; should 64 tries fail, the centre is returned.
pub fn random_in_unit_sphere() -> (p: Vec3)
    ensures
        in_unit_sphere(p),
        p == Vec3::zeros() || exists|b0: u32, b1: u32, b2: u32| p == #[trigger] spec_cube_point(
            b0,
            b1,
            b2,
        ),
{
    let mut tries: u32 = 0;
    while tries < SPHERE_ATTEMPTS
        invariant
            tries <= SPHERE_ATTEMPTS,
        decreases SPHERE_ATTEMPTS - tries,
    {
        let b0 = random_bits();
        let b1 = random_bits();
        let b2 = random_bits();
        let p = cube_point(b0, b1, b2);
        if in_unit_sphere(p) {
            return p;
        }
        tries = tries + 1;
    }
    proof {
        crate::fixed::lemma_mul_zero(Fixed::zero());
    }
    Vec3::zeros()
}

/// The chance that scattering at a surface may use.
#[derive(Clone, Copy, Debug, PartialEq, Eq, Structural)]
pub struct ScatterSample {
    /// A point strictly inside the unit sphere, to blur a reflection with.
    pub offset: Vec3,
    /// A number in `[0, 1)`, to choose between reflection and refraction.
    pub choice: Fixed,
}

impl ScatterSample {
    /// Whether the point lies inside the unit sphere and the number in
    /// `[0, 1)`.
    pub open spec fn is_valid(&self) -> bool {
        in_unit_sphere(self.offset) && self.choice.is_unit()
    }

    /// Draws the chance for one scattering.
    pub fn draw() -> (r: ScatterSample)
        ensures
            r.is_valid(),
    {
        let offset = random_in_unit_sphere();
        let choice = random_unit();
        ScatterSample { offset, choice }
    }
}

/// A direction of the hemisphere around the Z axis, distributed in
/// proportion to the cosine of its angle to that axis, from two uniform
/// numbers: `u1` is the angle around the axis in turns, and the square root
/// of `u2` is the distance from the axis.
pub open spec fn spec_cosine_direction(u1: Fixed, u2: Fixed) -> Vec3 {
    let around = cos_sin_turns(u1);
    let away = u2.sqrt();
    Vec3 { x: around.cos.mul(away), y: around.sin.mul(away), z: Fixed::one().sub(u2).sqrt() }
}

/// A direction of the hemisphere around the Z axis, distributed in
/// proportion to the cosine of its angle to that axis. Its Z component is
/// never negative.
#[verifier::when_used_as_spec(spec_cosine_direction)]
pub fn cosine_direction(u1: Fixed, u2: Fixed) -> (r: Vec3)
    ensures
        r == spec_cosine_direction(u1, u2),
        r.z@ >= 0,
{
    let around = cos_sin_turns(u1);
    let away = u2.sqrt();
    Vec3 { x: around.cos.mul(away), y: around.sin.mul(away), z: Fixed::one().sub(u2).sqrt() }
}

/// The cosine of the half-angle under which a sphere of the given radius is
/// seen from a point whose squared distance to the centre is given:
/// `sqrt(1 - radius^2 / distance^2)`, which is zero from inside the sphere.
pub open spec fn spec_cone_cosine(radius: Fixed, distance_squared: Fixed) -> Fixed {
    Fixed::one().sub(radius.square().div(distance_squared)).sqrt()
}

/// The cosine of the half-angle under which a sphere of the given radius is
/// seen from a point whose squared distance to the centre is given.
#[verifier::when_used_as_spec(spec_cone_cosine)]
pub fn cone_cosine(radius: Fixed, distance_squared: Fixed) -> (r: Fixed)
    ensures
        r == spec_cone_cosine(radius, distance_squared),
        r@ >= 0,
{
    Fixed::one().sub(radius.square().div(distance_squared)).sqrt()
}

/// A direction inside the cone around the Z axis under which a sphere is
/// seen, uniform over the cone's solid angle, from two uniform numbers:
/// `u1` is the angle around the axis in turns, and `u2` moves the Z
/// component from one down to the cone's cosine.
pub open spec fn spec_cone_direction(radius: Fixed, distance_squared: Fixed, u1: Fixed, u2: Fixed)
    -> Vec3 {
    let z = Fixed::one().add(u2.mul(cone_cosine(radius, distance_squared).sub(Fixed::one())));
    let around = cos_sin_turns(u1);
    let away = Fixed::one().sub(z.square()).sqrt();
    Vec3 { x: around.cos.mul(away), y: around.sin.mul(away), z }
}

/// A direction inside the cone around the Z axis under which a sphere is
/// seen, uniform over the cone's solid angle.
#[verifier::when_used_as_spec(spec_cone_direction)]
pub fn cone_direction(radius: Fixed, distance_squared: Fixed, u1: Fixed, u2: Fixed) -> (r: Vec3)
    ensures
        r == spec_cone_direction(radius, distance_squared, u1, u2),
{
    let z = Fixed::one().add(u2.mul(cone_cosine(radius, distance_squared).sub(Fixed::one())));
    let around = cos_sin_turns(u1);
    let away = Fixed::one().sub(z.square()).sqrt();
    Vec3 { x: around.cos.mul(away), y: around.sin.mul(away), z }
}

/// Which of `n` members a uniform number picks: member `floor(pick * n)`,
/// kept within the list for a number outside `[0, 1)`.
pub open spec fn spec_pick_index(pick: Fixed, n: usize) -> usize
    recommends
        n > 0,
{
    if pick@ < 0 {
        0
    } else if (pick@ * n) / (SCALE as int) >= n {
        (n - 1) as usize
    } else {
        ((pick@ * n) / (SCALE as int)) as usize
    }
}

/// Which of `n` members a uniform number picks.
#[verifier::when_used_as_spec(spec_pick_index)]
pub fn pick_index(pick: Fixed, n: usize) -> (r: usize)
    requires
        n > 0,
    ensures
        r == spec_pick_index(pick, n),
        r < n,
{
    if pick.raw < 0 {
        0
    } else {
        assert(0 <= pick.raw * n <= 0x8000_0000_0000_0000 * 0x1_0000_0000_0000_0000)
            by (nonlinear_arith)
            requires
                0 <= pick.raw <= 0x8000_0000_0000_0000,
                0 <= n <= 0x1_0000_0000_0000_0000,
        ;
        let q: u128 = ((pick.raw as u128) * (n as u128)) / (SCALE as u128);
        if q >= n as u128 {
            n - 1
        } else {
            q as usize
        }
    }
}

/// The first half of `[0, 1)` picks the first of two alternatives.
pub open spec fn spec_picks_first(pick: Fixed) -> bool {
    pick@ < Fixed::half()@
}

/// Whether a uniform number picks the first of two alternatives.
#[verifier::when_used_as_spec(spec_picks_first)]
pub fn picks_first(pick: Fixed) -> (r: bool)
    ensures
        r == spec_picks_first(pick),
{
    pick.raw < Fixed::half().raw
}

/// The uniform number that is left of `pick` once it has chosen between two
/// alternatives: its half of `[0, 1)` stretched back to the whole.
pub open spec fn spec_rest_of_pick(pick: Fixed) -> Fixed {
    if spec_picks_first(pick) {
        pick.add(pick)
    } else {
        pick.sub(Fixed::half()).add(pick.sub(Fixed::half()))
    }
}

/// The uniform number that is left of `pick` once it has chosen between two
/// alternatives. It lies in `[0, 1)` if `pick` does.
#[verifier::when_used_as_spec(spec_rest_of_pick)]
pub fn rest_of_pick(pick: Fixed) -> (r: Fixed)
    ensures
        r == spec_rest_of_pick(pick),
        pick.is_unit() ==> r.is_unit(),
{
    if picks_first(pick) {
        pick.add(pick)
    } else {
        pick.sub(Fixed::half()).add(pick.sub(Fixed::half()))
    }
}

} // verus!
