//! What a renderer does with the integrator's estimates: where on the screen
//! a sample falls, how the estimates of one pixel add up, and how their mean
//! becomes three bytes.

use vstd::prelude::*;
use crate::fixed::Fixed;
use crate::fixed::SCALE;
use crate::integrator::BounceSample;
use crate::integrator::color;
use crate::integrator::is_dark;
use crate::integrator::is_physical;
use crate::integrator::law_radiance_is_light;
use crate::integrator::law_dark_scene_is_black;
use crate::integrator::radiance;
use crate::integrator::suffices;
use crate::material::Material;
use crate::ray::Ray;
use crate::scene::Scene;
use crate::shape::Shape;
use crate::trig::clamp_unit;
use crate::vec3::Vec3;
use crate::vec3::is_light;
use crate::vec3::lemma_light_stays_light;

verus! {

/// A pixel's column and row, the row counted from the bottom of the image.
#[derive(Clone, Copy, Debug, PartialEq, Eq, Structural)]
pub struct Pixel {
    pub x: usize,
    pub y: usize,
}

/// The pixel that comes `k`-th when an image of `nx` columns and `ny` rows is
/// written row by row from the top, each row from the left.
pub open spec fn spec_pixel_at(k: usize, nx: usize, ny: usize) -> Pixel
    recommends
        nx > 0,
        k < nx * ny,
{
    Pixel { x: (k % nx) as usize, y: (ny - 1 - k / nx) as usize }
}

/// The pixel that comes `k`-th when an image of `nx` columns and `ny` rows is
/// written row by row from the top, each row from the left. Every pixel of
/// the image comes exactly once: `k` is `(ny - 1 - y) * nx + x`.
#[verifier::when_used_as_spec(spec_pixel_at)]
pub fn pixel_at(k: usize, nx: usize, ny: usize) -> (r: Pixel)
    requires
        nx > 0,
        k < nx * ny,
    ensures
        r == spec_pixel_at(k, nx, ny),
        r.x < nx,
        r.y < ny,
        k == (ny - 1 - r.y) * nx + r.x,
{
    let row = k / nx;
    let x = k % nx;
    proof {
        vstd::arithmetic::div_mod::lemma_fundamental_div_mod(k as int, nx as int);
        assert(row < ny) by (nonlinear_arith)
            requires
                row == k as int / nx as int,
                k < nx * ny,
                nx > 0,
                k as int == nx as int * (k as int / nx as int) + k as int % nx as int,
                0 <= k as int % nx as int,
        ;
        assert((ny - 1 - (ny - 1 - row)) * nx == nx * row) by (nonlinear_arith);
    }
    Pixel { x, y: ny - 1 - row }
}

/// The screen coordinate in `[0, 1)` of a sample that lies `offset` of a
/// pixel's width behind the start of pixel `pixel`, of `count` pixels:
/// `(pixel + offset) / count`.
pub open spec fn spec_screen_coordinate(pixel: usize, offset: Fixed, count: usize) -> Fixed {
    Fixed::from_count(pixel).add(offset).div(Fixed::from_count(count))
}

/// The screen coordinate of a sample inside a pixel.
#[verifier::when_used_as_spec(spec_screen_coordinate)]
pub fn screen_coordinate(pixel: usize, offset: Fixed, count: usize) -> (r: Fixed)
    ensures
        r == spec_screen_coordinate(pixel, offset, count),
{
    Fixed::from_count(pixel).add(offset).div(Fixed::from_count(count))
}

/// The byte that stands for one colour of a pixel: the mean of the samples,
/// `sum / samples`, is brought to display by its square root, clamped to
/// `[0, 1]` and multiplied by 255.99; the byte is the whole part.
pub open spec fn spec_tone(sum: Fixed, samples: u32) -> u8 {
    (clamp_unit(sum.div(Fixed::from_count(samples as usize)).sqrt()).mul(
        Fixed::ratio(25599, 100),
    )@ / (SCALE as int)) as u8
}

/// The byte that stands for one colour of a pixel.
#[verifier::when_used_as_spec(spec_tone)]
pub fn tone(sum: Fixed, samples: u32) -> (r: u8)
    ensures
        r == spec_tone(sum, samples),
{
    let shown = clamp_unit(sum.div(Fixed::from_count(samples as usize)).sqrt());
    let scaled = shown.mul(Fixed::ratio(25599, 100));
    proof {
        lemma_tone_fits(shown);
    }
    (scaled.raw / SCALE) as u8
}

/// A number in `[0, 1]` times 255.99 has a whole part that fits a byte.
proof fn lemma_tone_fits(shown: Fixed)
    requires
        0 <= shown@ <= SCALE,
    ensures
        0 <= shown.mul(Fixed::ratio(25599, 100))@ / (SCALE as int) <= 255,
{
    let k = Fixed::ratio(25599, 100);
    let s = SCALE as int;
    assert(Fixed::from_int(25599)@ * s == 25599 * s * s) by (nonlinear_arith)
        requires
            Fixed::from_int(25599)@ == 25599 * s,
    ;
    assert(Fixed::from_int(100)@ == 100 * s);
    assert(25599 * s * s == 7205477928816082944) by (nonlinear_arith)
        requires
            s == 16777216,
    ;
    assert(k@ == 7205477928816082944int / 1677721600int);
    assert(k@ == 4294799523);
    let p = shown@ * k@;
    assert(0 <= p <= s * k@) by (nonlinear_arith)
        requires
            0 <= shown@ <= s,
            0 < k@,
            p == shown@ * k@,
    ;
    vstd::arithmetic::div_mod::lemma_div_pos_is_pos(p, s);
    vstd::arithmetic::div_mod::lemma_div_is_ordered(p, s * k@, s);
    assert((s * k@) / s == k@) by (nonlinear_arith)
        requires
            s > 0,
    ;
    let m = shown.mul(k)@;
    assert(0 <= m <= k@);
    vstd::arithmetic::div_mod::lemma_div_pos_is_pos(m, s);
    vstd::arithmetic::div_mod::lemma_div_is_ordered(m, 256 * s - 1, s);
    assert((256 * s - 1) / s == 255) by (nonlinear_arith)
        requires
            s == 16777216,
    ;
}

/// The three bytes of a pixel: red, green and blue.
#[derive(Clone, Copy, Debug, PartialEq, Eq, Structural)]
pub struct Rgb {
    pub r: u8,
    pub g: u8,
    pub b: u8,
}

/// The three bytes of the pixel whose `samples` estimates add up to `sum`.
pub open spec fn spec_tone_pixel(sum: Vec3, samples: u32) -> Rgb {
    Rgb { r: tone(sum.x, samples), g: tone(sum.y, samples), b: tone(sum.z, samples) }
}

/// The three bytes of the pixel whose `samples` estimates add up to `sum`.
#[verifier::when_used_as_spec(spec_tone_pixel)]
pub fn tone_pixel(sum: Vec3, samples: u32) -> (r: Rgb)
    ensures
        r == spec_tone_pixel(sum, samples),
{
    Rgb { r: tone(sum.x, samples), g: tone(sum.y, samples), b: tone(sum.z, samples) }
}

/// The sum of the radiance along the first `n` rays, each a fresh path that
/// takes its chance from its own entry of `chances`.
pub open spec fn radiance_sum<M: Material>(
    rays: Seq<Ray>,
    world: &Scene<M>,
    lights: &Vec<Shape>,
    chances: Seq<Seq<BounceSample>>,
    n: nat,
) -> Vec3
    decreases n,
{
    if n == 0 {
        Vec3::zeros()
    } else {
        radiance_sum(rays, world, lights, chances, (n - 1) as nat).add(
            radiance(rays[n - 1], world, lights, 0, chances[n - 1]),
        )
    }
}

/// Whether `chances` holds valid chance for a path along each of `n` rays.
pub open spec fn all_suffice(chances: Seq<Seq<BounceSample>>, n: nat) -> bool {
    &&& chances.len() == n
    &&& forall|i: int| 0 <= i < n ==> suffices(#[trigger] chances[i], 0)
}

/// In a scene in which nothing emits light the estimates add up to nothing.
pub proof fn law_dark_scene_sums_to_black<M: Material>(
    rays: Seq<Ray>,
    world: &Scene<M>,
    lights: &Vec<Shape>,
    chances: Seq<Seq<BounceSample>>,
    n: nat,
)
    requires
        is_dark(world),
    ensures
        radiance_sum(rays, world, lights, chances, n) == Vec3::zeros(),
    decreases n,
{
    if n > 0 {
        law_dark_scene_sums_to_black(rays, world, lights, chances, (n - 1) as nat);
        law_dark_scene_is_black(rays[n - 1], world, lights, 0, chances[n - 1]);
    }
}

/// In a scene whose materials keep to what light can do the estimates add up
/// to light: no component of the sum is negative.
pub proof fn law_sum_is_light<M: Material>(
    rays: Seq<Ray>,
    world: &Scene<M>,
    lights: &Vec<Shape>,
    chances: Seq<Seq<BounceSample>>,
    n: nat,
)
    requires
        is_physical(world),
    ensures
        is_light(radiance_sum(rays, world, lights, chances, n)),
    decreases n,
{
    if n > 0 {
        law_sum_is_light(rays, world, lights, chances, (n - 1) as nat);
        law_radiance_is_light(rays[n - 1], world, lights, 0, chances[n - 1]);
        lemma_light_stays_light(
            radiance_sum(rays, world, lights, chances, (n - 1) as nat),
            radiance(rays[n - 1], world, lights, 0, chances[n - 1]),
            Fixed::zero(),
        );
    }
}

/// Follows one path along each ray and records the chance that each drew.
fn gather_recorded<M: Material>(rays: &Vec<Ray>, world: &Scene<M>, lights: &Vec<Shape>) -> (r: (
    Vec3,
    Ghost<Seq<Seq<BounceSample>>>,
))
    ensures
        all_suffice(r.1@, rays@.len()),
        r.0 == radiance_sum(rays@, world, lights, r.1@, rays@.len()),
{
    let n = rays.len();
    let mut sum = Vec3::zeros();
    let ghost mut chances: Seq<Seq<BounceSample>> = Seq::empty();
    let mut i: usize = 0;
    while i < n
        invariant
            i <= n,
            n == rays@.len(),
            all_suffice(chances, i as nat),
            sum == radiance_sum(rays@, world, lights, chances, i as nat),
        decreases n - i,
    {
        let ghost before = chances;
        let c = color(&rays[i], world, lights, 0);
        proof {
            let chance = choose|chance: Seq<BounceSample>| #[trigger]
                suffices(chance, 0) && c == radiance(rays@[i as int], world, lights, 0, chance);
            chances = before.push(chance);
            lemma_sum_ignores_later(rays@, world, lights, before, chances, i as nat);
        }
        sum = sum.add(c);
        i = i + 1;
    }
    (sum, Ghost(chances))
}

/// The sum over the first `n` rays looks at the first `n` entries only.
proof fn lemma_sum_ignores_later<M: Material>(
    rays: Seq<Ray>,
    world: &Scene<M>,
    lights: &Vec<Shape>,
    a: Seq<Seq<BounceSample>>,
    b: Seq<Seq<BounceSample>>,
    n: nat,
)
    requires
        a.len() >= n,
        b.len() >= n,
        forall|i: int| 0 <= i < n ==> a[i] == b[i],
    ensures
        radiance_sum(rays, world, lights, a, n) == radiance_sum(rays, world, lights, b, n),
    decreases n,
{
    if n > 0 {
        lemma_sum_ignores_later(rays, world, lights, a, b, (n - 1) as nat);
    }
}

/// Estimates the radiance along each ray by a fresh path and adds the
/// estimates up, in the order of the rays.
///
/// The sum is [`radiance_sum`] for some valid chance. No rays add up to
/// nothing, and so do any rays in a scene in which nothing emits light. In a
/// scene whose materials keep to what light can do no sum is negative.
pub fn gather<M: Material>(rays: &Vec<Ray>, world: &Scene<M>, light_shape: &Vec<Shape>) -> (sum:
    Vec3)
    ensures
        exists|chances: Seq<Seq<BounceSample>>| #[trigger]
            all_suffice(chances, rays@.len()) && sum == radiance_sum(
                rays@,
                world,
                light_shape,
                chances,
                rays@.len(),
            ),
        rays@.len() == 0 ==> sum == Vec3::zeros(),
        is_dark(world) ==> sum == Vec3::zeros(),
        is_physical(world) ==> is_light(sum),
{
    let (sum, Ghost(chances)) = gather_recorded(rays, world, light_shape);
    proof {
        assert(all_suffice(chances, rays@.len()));
        if is_dark(world) {
            law_dark_scene_sums_to_black(rays@, world, light_shape, chances, rays@.len());
        }
        if is_physical(world) {
            law_sum_is_light(rays@, world, light_shape, chances, rays@.len());
        }
    }
    sum
}

} // verus!
