//! The radiance estimator: follows one light path from bounce to bounce and
//! weighs, at each diffuse bounce, directions toward the lights against
//! directions of the material's own choosing.

use vstd::prelude::*;
use crate::fixed::Fixed;
use crate::hit::HitRecord;
use crate::hit::near;
use crate::material::Material;
use crate::material::ScatterRecord;
use crate::material::attenuates;
use crate::pdf::Pdf;
use crate::ray::Ray;
use crate::sampling::Sample;
use crate::sampling::ScatterSample;
use crate::scene::Scene;
use crate::shape::Shape;
use crate::vec3::Vec3;
use crate::vec3::is_light;
use crate::vec3::lemma_light_stays_light;
use crate::vec3::lemma_times_zeros;
use crate::vec3::lemma_zeros_shrink;

verus! {

/// The number of bounces after which a path is cut off. It bounds the depth
/// of the recursion and is no measure of quality.
pub const MAX_DEPTH: i32 = 1000;

/// The chance that one bounce may use.
#[derive(Clone, Copy, Debug, PartialEq, Eq, Structural)]
pub struct BounceSample {
    /// For the material's scattering.
    pub scatter: ScatterSample,
    /// For the direction of a diffuse bounce.
    pub direction: Sample,
}

impl BounceSample {
    /// Whether both parts are valid.
    pub open spec fn is_valid(&self) -> bool {
        self.scatter.is_valid() && self.direction.is_valid()
    }

    /// Draws the chance for one bounce.
    pub fn draw() -> (r: BounceSample)
        ensures
            r.is_valid(),
    {
        let scatter = ScatterSample::draw();
        let direction = Sample::draw();
        BounceSample { scatter, direction }
    }
}

/// The light that arrives along a ray after a specular bounce: the incoming
/// light, filtered by the attenuation.
pub open spec fn spec_specular_estimate(attenuation: Vec3, incoming: Vec3) -> Vec3 {
    attenuation.times(incoming)
}

/// The light that arrives along a ray after a specular bounce: the incoming
/// light, filtered by the attenuation.
#[verifier::when_used_as_spec(spec_specular_estimate)]
pub fn specular_estimate(attenuation: Vec3, incoming: Vec3) -> (r: Vec3)
    ensures
        r == spec_specular_estimate(attenuation, incoming),
{
    attenuation.times(incoming)
}

/// The light that arrives along a ray after a diffuse bounce:
/// `emitted + attenuation * scattering_pdf * incoming / pdf_val`, the
/// product and the quotient taken colour by colour. Where the density
/// `pdf_val` of the sampled direction is not positive, the bounce adds
/// nothing and the estimate is the emitted light alone.
pub open spec fn spec_diffuse_estimate(
    emitted: Vec3,
    attenuation: Vec3,
    scattering_pdf: Fixed,
    incoming: Vec3,
    pdf_val: Fixed,
) -> Vec3 {
    if pdf_val@ <= 0 {
        emitted
    } else {
        emitted.add(attenuation.times(incoming.scale(scattering_pdf)).shrink(pdf_val))
    }
}

/// The light that arrives along a ray after a diffuse bounce.
#[verifier::when_used_as_spec(spec_diffuse_estimate)]
pub fn diffuse_estimate(
    emitted: Vec3,
    attenuation: Vec3,
    scattering_pdf: Fixed,
    incoming: Vec3,
    pdf_val: Fixed,
) -> (r: Vec3)
    ensures
        r == spec_diffuse_estimate(emitted, attenuation, scattering_pdf, incoming, pdf_val),
{
    if pdf_val.raw <= 0 {
        emitted
    } else {
        emitted.add(attenuation.times(incoming.scale(scattering_pdf)).shrink(pdf_val))
    }
}

/// The density from which the direction of a diffuse bounce at `origin` is
/// drawn: half toward the lights, half as the material proposes.
pub open spec fn spec_bounce_pdf<'a>(lights: &'a Vec<Shape>, origin: Vec3, own: Pdf<'a>) -> Pdf<
    'a,
> {
    Pdf::Mixture {
        first: Box::new(Pdf::Hittable { origin, targets: lights }),
        second: Box::new(own),
    }
}

/// The density from which the direction of a diffuse bounce at `origin` is
/// drawn: half toward the lights, half as the material proposes.
pub fn bounce_pdf<'a>(lights: &'a Vec<Shape>, origin: Vec3, own: Pdf<'a>) -> (r: Pdf<'a>)
    ensures
        r == spec_bounce_pdf(lights, origin, own),
{
    Pdf::mixture(Pdf::hittable(lights, origin), own)
}

/// The radiance that arrives against `ray`, for a path that has made `depth`
/// bounces and takes its chance from `chance`, one entry per bounce.
///
/// - A ray that hits nothing brings no light.
/// - At the cap of `MAX_DEPTH` bounces, or where the material absorbs the
///   ray, it brings what the surface emits.
/// - After a specular bounce it brings the radiance along the bounced ray,
///   filtered by the attenuation; what the surface emits is left out.
/// - After a diffuse bounce it brings what the surface emits and the
///   radiance along a ray whose direction is drawn from the even mixture of
///   the density toward the lights and the material's own, weighted by the
///   material's scattering density over the mixture's density.
pub open spec fn radiance<M: Material>(
    ray: Ray,
    world: &Scene<M>,
    lights: &Vec<Shape>,
    depth: int,
    chance: Seq<BounceSample>,
) -> Vec3
    decreases MAX_DEPTH - depth,
{
    match world.spec_hit(&ray, near(), Fixed::largest()) {
        None => Vec3::zeros(),
        Some(found) => {
            let rec = found.record;
            let material = world.objects@[found.index as int].material;
            let emitted = material.spec_emitted(&ray, &rec);
            if depth < MAX_DEPTH && chance.len() > 0 {
                match material.spec_scatter(&ray, &rec, &chance[0].scatter) {
                    None => emitted,
                    Some(ScatterRecord::Specular { specular_ray, attenuation }) => {
                        spec_specular_estimate(
                            attenuation,
                            radiance(specular_ray, world, lights, depth + 1, chance.drop_first()),
                        )
                    },
                    Some(ScatterRecord::Scatter { pdf, attenuation }) => {
                        let mixed = spec_bounce_pdf(lights, rec.p, pdf);
                        let scattered = Ray::new(
                            rec.p,
                            mixed.spec_generate(&chance[0].direction),
                            ray.time,
                        );
                        spec_diffuse_estimate(
                            emitted,
                            attenuation,
                            material.spec_scattering_pdf(&ray, &rec, &scattered),
                            radiance(scattered, world, lights, depth + 1, chance.drop_first()),
                            mixed.spec_value(scattered.direction),
                        )
                    },
                }
            } else {
                emitted
            }
        },
    }
}

/// Whether nothing in the scene emits light.
pub open spec fn is_dark<M: Material>(world: &Scene<M>) -> bool {
    forall|i: int, ray: Ray, rec: HitRecord|
        0 <= i < world.objects@.len() ==> #[trigger] world.objects@[i].material.spec_emitted(
            &ray,
            &rec,
        ) == Vec3::zeros()
}

/// Whether `chance` holds valid chance for every bounce that a path at
/// `depth` can still make.
pub open spec fn suffices(chance: Seq<BounceSample>, depth: int) -> bool {
    &&& chance.len() >= MAX_DEPTH - depth
    &&& forall|i: int| 0 <= i < chance.len() ==> (#[trigger] chance[i]).is_valid()
}

/// A scene in which nothing emits light is black: whatever the ray, the
/// depth and the chance, no radiance arrives.
pub proof fn law_dark_scene_is_black<M: Material>(
    ray: Ray,
    world: &Scene<M>,
    lights: &Vec<Shape>,
    depth: int,
    chance: Seq<BounceSample>,
)
    requires
        is_dark(world),
    ensures
        radiance(ray, world, lights, depth, chance) == Vec3::zeros(),
    decreases MAX_DEPTH - depth,
{
    assert(world.objects.len() == world.objects@.len());
    match world.spec_hit(&ray, near(), Fixed::largest()) {
        None => {},
        Some(found) => {
            crate::hit::lemma_nearest_is_least(world.hits(&ray, near(), Fixed::largest()));
            let rec = found.record;
            let material = world.objects@[found.index as int].material;
            assert(material.spec_emitted(&ray, &rec) == Vec3::zeros());
            if depth < MAX_DEPTH && chance.len() > 0 {
                match material.spec_scatter(&ray, &rec, &chance[0].scatter) {
                    None => {},
                    Some(ScatterRecord::Specular { specular_ray, attenuation }) => {
                        law_dark_scene_is_black(
                            specular_ray,
                            world,
                            lights,
                            depth + 1,
                            chance.drop_first(),
                        );
                        lemma_times_zeros(attenuation);
                    },
                    Some(ScatterRecord::Scatter { pdf, attenuation }) => {
                        let mixed = spec_bounce_pdf(lights, rec.p, pdf);
                        let scattered = Ray::new(
                            rec.p,
                            mixed.spec_generate(&chance[0].direction),
                            ray.time,
                        );
                        law_dark_scene_is_black(
                            scattered,
                            world,
                            lights,
                            depth + 1,
                            chance.drop_first(),
                        );
                        let s = material.spec_scattering_pdf(&ray, &rec, &scattered);
                        lemma_times_zeros(Vec3::new(s, s, s));
                        lemma_times_zeros(attenuation);
                        lemma_zeros_shrink(mixed.spec_value(scattered.direction));
                    },
                }
            }
        },
    }
}

/// Whether every material of the scene keeps to what light can do: it
/// emits no negative light, filters by no negative colour, and scatters with
/// no negative density.
pub open spec fn is_physical<M: Material>(world: &Scene<M>) -> bool {
    &&& forall|i: int, ray: Ray, rec: HitRecord|
        0 <= i < world.objects@.len() ==> is_light(
            #[trigger] world.objects@[i].material.spec_emitted(&ray, &rec),
        )
    &&& forall|i: int, ray: Ray, rec: HitRecord, sample: ScatterSample|
        0 <= i < world.objects@.len() ==> attenuates(
            #[trigger] world.objects@[i].material.spec_scatter(&ray, &rec, &sample),
        )
    &&& forall|i: int, ray: Ray, rec: HitRecord, scattered: Ray|
        0 <= i < world.objects@.len() ==> (#[trigger] world.objects@[i].material.spec_scattering_pdf(
            &ray,
            &rec,
            &scattered,
        ))@ >= 0
}

/// A scene of surfaces whose colours are all light keeps to what light can
/// do.
pub proof fn lemma_colors_make_physical<T: crate::texture::Texture>(
    world: &Scene<crate::material::Surface<T>>,
)
    requires
        forall|i: int|
            0 <= i < world.objects@.len() ==> (
            #[trigger] world.objects@[i]).material.is_colored_by_light(),
    ensures
        is_physical(world),
{
    assert forall|i: int, ray: Ray, rec: HitRecord| 0 <= i < world.objects@.len() implies is_light(
        #[trigger] world.objects@[i].material.spec_emitted(&ray, &rec),
    ) by {
        let sample = still().scatter;
        crate::material::lemma_surface_keeps_to_light(
            world.objects@[i].material,
            &ray,
            &rec,
            &sample,
            &ray,
        );
    }
    assert forall|i: int, ray: Ray, rec: HitRecord, sample: ScatterSample|
        0 <= i < world.objects@.len() implies attenuates(
        #[trigger] world.objects@[i].material.spec_scatter(&ray, &rec, &sample),
    ) by {
        crate::material::lemma_surface_keeps_to_light(
            world.objects@[i].material,
            &ray,
            &rec,
            &sample,
            &ray,
        );
    }
    assert forall|i: int, ray: Ray, rec: HitRecord, scattered: Ray|
        0 <= i < world.objects@.len() implies (
    #[trigger] world.objects@[i].material.spec_scattering_pdf(&ray, &rec, &scattered))@ >= 0 by {
        let sample = still().scatter;
        crate::material::lemma_surface_keeps_to_light(
            world.objects@[i].material,
            &ray,
            &rec,
            &sample,
            &scattered,
        );
    }
}

/// Radiance is light: in a scene whose materials keep to what light can do,
/// no estimate has a negative component, whatever the ray, the depth and the
/// chance.
pub proof fn law_radiance_is_light<M: Material>(
    ray: Ray,
    world: &Scene<M>,
    lights: &Vec<Shape>,
    depth: int,
    chance: Seq<BounceSample>,
)
    requires
        is_physical(world),
    ensures
        is_light(radiance(ray, world, lights, depth, chance)),
    decreases MAX_DEPTH - depth,
{
    assert(world.objects.len() == world.objects@.len());
    let black = Vec3::zeros();
    lemma_light_stays_light(black, black, Fixed::zero());
    match world.spec_hit(&ray, near(), Fixed::largest()) {
        None => {},
        Some(found) => {
            crate::hit::lemma_nearest_is_least(world.hits(&ray, near(), Fixed::largest()));
            let rec = found.record;
            let material = world.objects@[found.index as int].material;
            let emitted = material.spec_emitted(&ray, &rec);
            assert(is_light(emitted));
            if depth < MAX_DEPTH && chance.len() > 0 {
                let scatter = material.spec_scatter(&ray, &rec, &chance[0].scatter);
                assert(attenuates(scatter));
                match scatter {
                    None => {},
                    Some(ScatterRecord::Specular { specular_ray, attenuation }) => {
                        law_radiance_is_light(
                            specular_ray,
                            world,
                            lights,
                            depth + 1,
                            chance.drop_first(),
                        );
                        let incoming = radiance(
                            specular_ray,
                            world,
                            lights,
                            depth + 1,
                            chance.drop_first(),
                        );
                        lemma_light_stays_light(attenuation, incoming, Fixed::zero());
                    },
                    Some(ScatterRecord::Scatter { pdf, attenuation }) => {
                        let mixed = spec_bounce_pdf(lights, rec.p, pdf);
                        let scattered = Ray::new(
                            rec.p,
                            mixed.spec_generate(&chance[0].direction),
                            ray.time,
                        );
                        law_radiance_is_light(
                            scattered,
                            world,
                            lights,
                            depth + 1,
                            chance.drop_first(),
                        );
                        let incoming = radiance(
                            scattered,
                            world,
                            lights,
                            depth + 1,
                            chance.drop_first(),
                        );
                        let s = material.spec_scattering_pdf(&ray, &rec, &scattered);
                        let pdf_val = mixed.spec_value(scattered.direction);
                        if pdf_val@ > 0 {
                            lemma_light_stays_light(incoming, incoming, s);
                            let weighed = attenuation.times(incoming.scale(s));
                            lemma_light_stays_light(attenuation, incoming.scale(s), s);
                            lemma_light_stays_light(weighed, weighed, pdf_val);
                            lemma_light_stays_light(emitted, weighed.shrink(pdf_val), s);
                        }
                    },
                }
            }
        },
    }
}

/// Scenes whose members report the same look the same: for the same ray,
/// lights, depth and chance the same radiance arrives. So a member wrapped
/// in transforms that do nothing leaves every estimate as it was.
pub proof fn law_same_scene_same_radiance<M: Material>(
    ray: Ray,
    a: &Scene<M>,
    b: &Scene<M>,
    lights: &Vec<Shape>,
    depth: int,
    chance: Seq<BounceSample>,
)
    requires
        crate::scene::same_scene(a, b),
    ensures
        radiance(ray, a, lights, depth, chance) == radiance(ray, b, lights, depth, chance),
    decreases MAX_DEPTH - depth,
{
    assert(a.objects.len() == a.objects@.len());
    crate::scene::law_same_scene_same_hit(a, b, &ray, near(), Fixed::largest());
    match a.spec_hit(&ray, near(), Fixed::largest()) {
        None => {},
        Some(found) => {
            crate::hit::lemma_nearest_is_least(a.hits(&ray, near(), Fixed::largest()));
            let rec = found.record;
            let material = a.objects@[found.index as int].material;
            assert(material == b.objects@[found.index as int].material);
            if depth < MAX_DEPTH && chance.len() > 0 {
                match material.spec_scatter(&ray, &rec, &chance[0].scatter) {
                    None => {},
                    Some(ScatterRecord::Specular { specular_ray, attenuation }) => {
                        law_same_scene_same_radiance(
                            specular_ray,
                            a,
                            b,
                            lights,
                            depth + 1,
                            chance.drop_first(),
                        );
                    },
                    Some(ScatterRecord::Scatter { pdf, attenuation }) => {
                        let mixed = spec_bounce_pdf(lights, rec.p, pdf);
                        let scattered = Ray::new(
                            rec.p,
                            mixed.spec_generate(&chance[0].direction),
                            ray.time,
                        );
                        law_same_scene_same_radiance(
                            scattered,
                            a,
                            b,
                            lights,
                            depth + 1,
                            chance.drop_first(),
                        );
                    },
                }
            }
        },
    }
}

/// Chance that is valid and changes nothing: the centre of the sphere, and
/// zero for every number.
pub open spec fn still() -> BounceSample {
    BounceSample {
        scatter: ScatterSample { offset: Vec3::zeros(), choice: Fixed::zero() },
        direction: Sample { pick: Fixed::zero(), u1: Fixed::zero(), u2: Fixed::zero() },
    }
}

/// Follows one path and records the chance that it drew.
fn trace<M: Material>(ray: &Ray, world: &Scene<M>, lights: &Vec<Shape>, depth: i32) -> (r: (
    Vec3,
    Ghost<Seq<BounceSample>>,
))
    ensures
        suffices(r.1@, depth as int),
        r.0 == radiance(*ray, world, lights, depth as int, r.1@),
    decreases MAX_DEPTH - depth,
{
    let ghost unused: Seq<BounceSample> = Seq::new(
        if depth < MAX_DEPTH {
            (MAX_DEPTH - depth) as nat
        } else {
            0
        },
        |i: int| still(),
    );
    proof {
        crate::fixed::lemma_mul_zero(Fixed::zero());
        assert(still().is_valid());
    }
    match world.hit(ray, near(), Fixed::largest()) {
        None => (Vec3::zeros(), Ghost(unused)),
        Some(found) => {
            let material = world.material(found.index);
            let emitted = material.emitted(ray, &found.record);
            if depth < MAX_DEPTH {
                let sample = BounceSample::draw();
                match material.scatter(ray, &found.record, &sample.scatter) {
                    None => {
                        let ghost chance = seq![sample] + unused;
                        (emitted, Ghost(chance))
                    },
                    Some(ScatterRecord::Specular { specular_ray, attenuation }) => {
                        let (incoming, Ghost(later)) = trace(
                            &specular_ray,
                            world,
                            lights,
                            depth + 1,
                        );
                        let ghost chance = seq![sample] + later;
                        proof {
                            assert(chance.drop_first() =~= later);
                        }
                        (specular_estimate(attenuation, incoming), Ghost(chance))
                    },
                    Some(ScatterRecord::Scatter { pdf, attenuation }) => {
                        let mixed = bounce_pdf(lights, found.record.p, pdf);
                        let scattered = Ray::new(
                            found.record.p,
                            mixed.generate(&sample.direction),
                            ray.time(),
                        );
                        let pdf_val = mixed.value(scattered.direction());
                        let scattering_pdf = material.scattering_pdf(
                            ray,
                            &found.record,
                            &scattered,
                        );
                        let (incoming, Ghost(later)) = trace(&scattered, world, lights, depth + 1);
                        let ghost chance = seq![sample] + later;
                        proof {
                            assert(chance.drop_first() =~= later);
                        }
                        (
                            diffuse_estimate(
                                emitted,
                                attenuation,
                                scattering_pdf,
                                incoming,
                                pdf_val,
                            ),
                            Ghost(chance),
                        )
                    },
                }
            } else {
                (emitted, Ghost(unused))
            }
        },
    }
}

/// Estimates the radiance that arrives against `ray` in the scene `world`,
/// for a path that has made `depth` bounces, drawing the chance for every
/// further bounce.
///
/// The estimate is [`radiance`] for some valid chance. In particular a ray
/// that hits nothing brings no light, a path at the cap brings what the
/// surface emits, no light arrives in a scene in which nothing emits, and no
/// estimate is negative in a scene whose materials keep to what light can do.
pub fn color<M: Material>(ray: &Ray, world: &Scene<M>, light_shape: &Vec<Shape>, depth: i32) -> (c:
    Vec3)
    ensures
        exists|chance: Seq<BounceSample>| #[trigger]
            suffices(chance, depth as int) && c == radiance(
                *ray,
                world,
                light_shape,
                depth as int,
                chance,
            ),
        world.spec_hit(ray, near(), Fixed::largest()) is None ==> c == Vec3::zeros(),
        depth >= MAX_DEPTH ==> (world.spec_hit(ray, near(), Fixed::largest()) matches Some(found)
            ==> c == world.objects@[found.index as int].material.spec_emitted(
            ray,
            &found.record,
        )),
        is_dark(world) ==> c == Vec3::zeros(),
        is_physical(world) ==> is_light(c),
{
    let (c, Ghost(chance)) = trace(ray, world, light_shape, depth);
    proof {
        assert(suffices(chance, depth as int));
        if is_dark(world) {
            law_dark_scene_is_black(*ray, world, light_shape, depth as int, chance);
        }
        if is_physical(world) {
            law_radiance_is_light(*ray, world, light_shape, depth as int, chance);
        }
    }
    c
}

} // verus!
