//! The plain renderer: the sky for background, no lights, no weighing of
//! directions. Every bounce follows the material's own proposal.

use vstd::prelude::*;
use crate::fixed::Fixed;
use crate::hit::near;
use crate::integrator::BounceSample;
use crate::material::Dielectric;
use crate::material::Lambertian;
use crate::material::Material;
use crate::material::Metal;
use crate::material::ScatterRecord;
use crate::material::Surface;
use crate::ray::Ray;
use crate::sampling::random_unit;
use crate::scene::Object;
use crate::scene::Scene;
use crate::shape::Shape;
use crate::sphere::Sphere;
use crate::texture::ConstantTexture;
use crate::vec3::Vec3;

verus! {

/// The ray along which a path goes on after a bounce: a specular bounce
/// names it, a diffuse bounce draws its direction from the material's
/// density. With it comes the attenuation.
pub open spec fn spec_onward(scatter: ScatterRecord, origin: Vec3, time: Fixed, chance: &BounceSample)
    -> (Ray, Vec3) {
    match scatter {
        ScatterRecord::Specular { specular_ray, attenuation } => (specular_ray, attenuation),
        ScatterRecord::Scatter { pdf, attenuation } => (
            Ray::new(origin, pdf.spec_generate(&chance.direction), time),
            attenuation,
        ),
    }
}

/// The ray along which a path goes on after a bounce, and the attenuation.
pub fn onward(scatter: ScatterRecord, origin: Vec3, time: Fixed, chance: &BounceSample) -> (r: (
    Ray,
    Vec3,
))
    ensures
        r == spec_onward(scatter, origin, time, chance),
{
    match scatter {
        ScatterRecord::Specular { specular_ray, attenuation } => (specular_ray, attenuation),
        ScatterRecord::Scatter { pdf, attenuation } => (
            Ray::new(origin, pdf.generate(&chance.direction), time),
            attenuation,
        ),
    }
}

/// The light that arrives against `ray` by the plain rules, for a path that
/// may make `depth` more bounces and takes its chance from `chance`.
///
/// - A path that may bounce no more brings no light.
/// - A ray that hits nothing brings the colour of the sky.
/// - A ray that is absorbed brings no light.
/// - A ray that is scattered brings the light along the scattered ray,
///   filtered by the attenuation.
pub open spec fn plain_radiance<M: Material>(
    ray: Ray,
    world: &Scene<M>,
    depth: int,
    chance: Seq<BounceSample>,
) -> Vec3
    decreases depth,
{
    if depth <= 0 || chance.len() == 0 {
        Vec3::zeros()
    } else {
        match world.spec_hit(&ray, near(), Fixed::largest()) {
            None => crate::sky::spec_ray_color(&ray),
            Some(found) => {
                let rec = found.record;
                let material = world.objects@[found.index as int].material;
                match material.spec_scatter(&ray, &rec, &chance[0].scatter) {
                    None => Vec3::zeros(),
                    Some(scatter) => {
                        let next = spec_onward(scatter, rec.p, ray.time, &chance[0]);
                        next.1.times(
                            plain_radiance(next.0, world, depth - 1, chance.drop_first()),
                        )
                    },
                }
            },
        }
    }
}

/// Whether `chance` holds valid chance for `depth` bounces.
pub open spec fn enough(chance: Seq<BounceSample>, depth: int) -> bool {
    &&& chance.len() >= depth
    &&& forall|i: int| 0 <= i < chance.len() ==> (#[trigger] chance[i]).is_valid()
}

/// Follows one path by the plain rules and records the chance that it drew.
fn plain_trace<M: Material>(ray: &Ray, world: &Scene<M>, depth: i32) -> (r: (
    Vec3,
    Ghost<Seq<BounceSample>>,
))
    ensures
        enough(r.1@, depth as int),
        r.0 == plain_radiance(*ray, world, depth as int, r.1@),
    decreases depth,
{
    if depth <= 0 {
        return (Vec3::zeros(), Ghost(Seq::empty()));
    }
    let sample = BounceSample::draw();
    let ghost unused: Seq<BounceSample> = Seq::new(depth as nat, |i: int| sample);
    match world.hit(ray, near(), Fixed::largest()) {
        None => (crate::sky::ray_color(ray), Ghost(unused)),
        Some(found) => {
            let material = world.material(found.index);
            match material.scatter(ray, &found.record, &sample.scatter) {
                None => (Vec3::zeros(), Ghost(unused)),
                Some(scatter) => {
                    let (next, attenuation) = onward(scatter, found.record.p, ray.time(), &sample);
                    let (incoming, Ghost(later)) = plain_trace(&next, world, depth - 1);
                    let ghost chance = seq![sample] + later;
                    proof {
                        assert(chance.drop_first() =~= later);
                    }
                    (attenuation.times(incoming), Ghost(chance))
                },
            }
        },
    }
}

/// Estimates the light that arrives against `ray` by the plain rules, for a
/// path that may make `depth` more bounces, drawing the chance for each.
///
/// The estimate is [`plain_radiance`] for some valid chance. In particular a
/// path that may bounce no more brings no light, and a ray that hits nothing
/// brings the colour of the sky.
pub fn ray_color<M: Material>(ray: &Ray, world: &Scene<M>, depth: i32) -> (c: Vec3)
    ensures
        exists|chance: Seq<BounceSample>| #[trigger]
            enough(chance, depth as int) && c == plain_radiance(*ray, world, depth as int, chance),
        depth <= 0 ==> c == Vec3::zeros(),
        depth > 0 && world.spec_hit(ray, near(), Fixed::largest()) is None ==> c
            == crate::sky::spec_ray_color(ray),
{
    let (c, Ghost(chance)) = plain_trace(ray, world, depth);
    proof {
        assert(enough(chance, depth as int));
    }
    c
}

/// The uniform numbers that filling one cell of the random scene takes.
#[derive(Clone, Copy, Debug, PartialEq, Eq, Structural)]
pub struct CellSample {
    /// Chooses the material: below 0.8 diffuse, below 0.95 metal, else glass.
    pub choose_mat: Fixed,
    /// Where in the cell the sphere stands, along X and along Z.
    pub dx: Fixed,
    pub dz: Fixed,
    /// Two colours; a diffuse sphere's albedo is their product, a metal's
    /// albedo is the first, brought into `[0.5, 1)`.
    pub first: Vec3,
    pub second: Vec3,
    /// Twice the metal's blur.
    pub fuzz: Fixed,
}

impl CellSample {
    /// Whether every number lies in `[0, 1)`.
    pub open spec fn is_valid(&self) -> bool {
        &&& self.choose_mat.is_unit()
        &&& self.dx.is_unit()
        &&& self.dz.is_unit()
        &&& self.first.x.is_unit() && self.first.y.is_unit() && self.first.z.is_unit()
        &&& self.second.x.is_unit() && self.second.y.is_unit() && self.second.z.is_unit()
        &&& self.fuzz.is_unit()
    }

    /// Draws the numbers for one cell.
    pub fn draw() -> (r: CellSample)
        ensures
            r.is_valid(),
    {
        let choose_mat = random_unit();
        let dx = random_unit();
        let dz = random_unit();
        let first = Vec3::new(random_unit(), random_unit(), random_unit());
        let second = Vec3::new(random_unit(), random_unit(), random_unit());
        let fuzz = random_unit();
        CellSample { choose_mat, dx, dz, first, second, fuzz }
    }
}

/// A sphere with its material.
pub open spec fn spec_globe(center: Vec3, radius: Fixed, material: Surface<ConstantTexture>)
    -> Object<Surface<ConstantTexture>> {
    Object { shape: Shape::Sphere(Sphere { center, radius }), material }
}

/// A sphere with its material.
pub fn globe(center: Vec3, radius: Fixed, material: Surface<ConstantTexture>) -> (r: Object<
    Surface<ConstantTexture>,
>)
    ensures
        r == spec_globe(center, radius, material),
{
    Object { shape: Shape::Sphere(Sphere::new(center, radius)), material }
}

/// Where the small sphere of cell `(a, b)` stands:
/// `(a + 0.9 dx, 0.2, b + 0.9 dz)`.
pub open spec fn spec_cell_center(a: i32, b: i32, s: &CellSample) -> Vec3 {
    Vec3::new(
        Fixed::from_int(a).add(Fixed::ratio(9, 10).mul(s.dx)),
        Fixed::ratio(2, 10),
        Fixed::from_int(b).add(Fixed::ratio(9, 10).mul(s.dz)),
    )
}

/// The material of a small sphere: diffuse with the product of the two
/// colours as albedo if `choose_mat` is below 0.8; metal with the first
/// colour halved and raised by one half as albedo and half of `fuzz` as blur
/// if it is below 0.95; glass of index 1.5 otherwise.
pub open spec fn spec_cell_material(s: &CellSample) -> Surface<ConstantTexture> {
    if s.choose_mat@ < Fixed::ratio(8, 10)@ {
        Surface::Lambertian(Lambertian { albedo: ConstantTexture { color: s.first.times(s.second) } })
    } else if s.choose_mat@ < Fixed::ratio(95, 100)@ {
        Surface::Metal(
            Metal {
                albedo: s.first.scale(Fixed::half()).add(
                    Vec3::new(Fixed::half(), Fixed::half(), Fixed::half()),
                ),
                fuzz: s.fuzz.mul(Fixed::half()).max(Fixed::zero()).min(Fixed::one()),
            },
        )
    } else {
        Surface::Dielectric(Dielectric { ref_idx: Fixed::ratio(3, 2) })
    }
}

/// The small sphere of cell `(a, b)`: radius 0.2, at the cell's centre, of
/// the cell's material. A cell whose centre is within 0.9 of (4, 0.2, 0),
/// where a large sphere stands, stays empty.
pub open spec fn spec_cell(a: i32, b: i32, s: &CellSample) -> Option<
    Object<Surface<ConstantTexture>>,
> {
    let center = spec_cell_center(a, b, s);
    if center.sub(Vec3::new(Fixed::from_int(4), Fixed::ratio(2, 10), Fixed::zero())).magnitude()@
        > Fixed::ratio(9, 10)@ {
        Some(spec_globe(center, Fixed::ratio(2, 10), spec_cell_material(s)))
    } else {
        None
    }
}

/// The small sphere of cell `(a, b)`, if the cell is not left empty.
pub fn cell(a: i32, b: i32, s: &CellSample) -> (r: Option<Object<Surface<ConstantTexture>>>)
    ensures
        r == spec_cell(a, b, s),
{
    let center = Vec3::new(
        Fixed::from_int(a).add(Fixed::ratio(9, 10).mul(s.dx)),
        Fixed::ratio(2, 10),
        Fixed::from_int(b).add(Fixed::ratio(9, 10).mul(s.dz)),
    );
    let away = center.sub(Vec3::new(Fixed::from_int(4), Fixed::ratio(2, 10), Fixed::zero()));
    if away.magnitude().raw > Fixed::ratio(9, 10).raw {
        let material = if s.choose_mat.raw < Fixed::ratio(8, 10).raw {
            Surface::Lambertian(
                Lambertian::new(ConstantTexture { color: s.first.times(s.second) }),
            )
        } else if s.choose_mat.raw < Fixed::ratio(95, 100).raw {
            Surface::Metal(
                Metal::new(
                    s.first.scale(Fixed::half()).add(
                        Vec3::new(Fixed::half(), Fixed::half(), Fixed::half()),
                    ),
                    s.fuzz.mul(Fixed::half()),
                ),
            )
        } else {
            Surface::Dielectric(Dielectric::new(Fixed::ratio(3, 2)))
        };
        Some(globe(center, Fixed::ratio(2, 10), material))
    } else {
        None
    }
}

/// The ground of the random scene: a diffuse grey sphere of radius 1000
/// whose top is the origin.
pub open spec fn spec_ground() -> Object<Surface<ConstantTexture>> {
    spec_globe(
        Vec3::from_ints(0, -1000i32, 0),
        Fixed::from_int(1000),
        Surface::Lambertian(
            Lambertian {
                albedo: ConstantTexture {
                    color: Vec3::new(Fixed::half(), Fixed::half(), Fixed::half()),
                },
            },
        ),
    )
}

/// The three large spheres of the random scene, each of radius one: glass
/// in the middle, diffuse brown behind it, polished metal before it.
pub open spec fn spec_landmarks() -> Seq<Object<Surface<ConstantTexture>>> {
    seq![
        spec_globe(
            Vec3::from_ints(0, 1, 0),
            Fixed::one(),
            Surface::Dielectric(Dielectric { ref_idx: Fixed::ratio(3, 2) }),
        ),
        spec_globe(
            Vec3::from_ints(-4i32, 1, 0),
            Fixed::one(),
            Surface::Lambertian(
                Lambertian {
                    albedo: ConstantTexture {
                        color: Vec3::new(
                            Fixed::ratio(4, 10),
                            Fixed::ratio(2, 10),
                            Fixed::ratio(1, 10),
                        ),
                    },
                },
            ),
        ),
        spec_globe(
            Vec3::from_ints(4, 1, 0),
            Fixed::one(),
            Surface::Metal(
                Metal {
                    albedo: Vec3::new(
                        Fixed::ratio(7, 10),
                        Fixed::ratio(6, 10),
                        Fixed::ratio(5, 10),
                    ),
                    fuzz: Fixed::zero(),
                },
            ),
        ),
    ]
}

/// Whether an object is a small sphere of some cell of the grid, for some
/// chance.
pub open spec fn is_small_sphere(o: Object<Surface<ConstantTexture>>) -> bool {
    exists|a: i32, b: i32, s: CellSample|
        -11 <= a < 11 && -11 <= b < 11 && s.is_valid() && #[trigger] spec_cell(a, b, &s) == Some(o)
}

/// The row of the cell that comes `k`-th when the grid is gone through row
/// by row: rows and columns run from -11 to 10.
pub open spec fn cell_row(k: int) -> i32 {
    (k / 22 - 11) as i32
}

/// The column of the cell that comes `k`-th.
pub open spec fn cell_column(k: int) -> i32 {
    (k % 22 - 11) as i32
}

/// The small spheres of the first `n` cells, in the order of the cells: cell
/// `k` gives its sphere for the chance `samples[k]`, or nothing if it is
/// left empty.
pub open spec fn spec_field(samples: Seq<CellSample>, n: nat) -> Seq<
    Object<Surface<ConstantTexture>>,
>
    decreases n,
{
    if n == 0 {
        Seq::empty()
    } else {
        let before = spec_field(samples, (n - 1) as nat);
        match spec_cell(cell_row(n - 1), cell_column(n - 1), &samples[n - 1]) {
            Some(o) => before.push(o),
            None => before,
        }
    }
}

/// The random scene for the chance of its 484 cells: the ground, the small
/// spheres of the cells row by row, and the three large spheres.
pub open spec fn spec_random_scene(samples: Seq<CellSample>) -> Seq<
    Object<Surface<ConstantTexture>>,
> {
    seq![spec_ground()] + spec_field(samples, 484) + spec_landmarks()
}

/// Whether `samples` holds valid chance for each of the first `n` cells.
pub open spec fn fills(samples: Seq<CellSample>, n: nat) -> bool {
    &&& samples.len() == n
    &&& forall|k: int| 0 <= k < n ==> (#[trigger] samples[k]).is_valid()
}

/// The spheres of the first `n` cells depend on the chance of those cells
/// only, and there are at most `n` of them.
pub proof fn lemma_field(a: Seq<CellSample>, b: Seq<CellSample>, n: nat)
    requires
        a.len() >= n,
        b.len() >= n,
        forall|k: int| 0 <= k < n ==> a[k] == b[k],
    ensures
        spec_field(a, n) == spec_field(b, n),
        spec_field(a, n).len() <= n,
    decreases n,
{
    if n > 0 {
        lemma_field(a, b, (n - 1) as nat);
    }
}

/// Builds the random scene: the ground, then for each of the 22 by 22 cells
/// of a grid, row by row, the cell's small sphere unless the cell is left
/// empty, then the three large spheres. The chance of each cell is drawn.
pub fn random_scene() -> (world: Scene<Surface<ConstantTexture>>)
    ensures
        exists|samples: Seq<CellSample>| #[trigger]
            fills(samples, 484) && world.objects@ == spec_random_scene(samples),
        4 <= world.objects@.len() <= 488,
        world.objects@[0] == spec_ground(),
        world.objects@.subrange(world.objects@.len() - 3, world.objects@.len() as int)
            == spec_landmarks(),
        forall|i: int|
            1 <= i < world.objects@.len() - 3 ==> is_small_sphere(#[trigger] world.objects@[i]),
{
    let mut world: Scene<Surface<ConstantTexture>> = Scene::new();
    let half = Fixed::half();
    world.push(
        Shape::Sphere(Sphere::new(Vec3::from_ints(0, -1000, 0), Fixed::from_int(1000))),
        Surface::Lambertian(
            Lambertian::new(ConstantTexture { color: Vec3::new(half, half, half) }),
        ),
    );
    let ghost mut samples: Seq<CellSample> = Seq::empty();
    proof {
        assert(world.objects@ =~= seq![spec_ground()] + spec_field(samples, 0));
    }
    let mut a: i32 = -11;
    while a < 11
        invariant
            -11 <= a <= 11,
            fills(samples, ((a + 11) * 22) as nat),
            world.objects@ == seq![spec_ground()] + spec_field(samples, ((a + 11) * 22) as nat),
            forall|i: int|
                1 <= i < world.objects@.len() ==> is_small_sphere(#[trigger] world.objects@[i]),
        decreases 11 - a,
    {
        let mut b: i32 = -11;
        while b < 11
            invariant
                -11 <= a < 11,
                -11 <= b <= 11,
                fills(samples, ((a + 11) * 22 + (b + 11)) as nat),
                world.objects@ == seq![spec_ground()] + spec_field(
                    samples,
                    ((a + 11) * 22 + (b + 11)) as nat,
                ),
                forall|i: int|
                    1 <= i < world.objects@.len() ==> is_small_sphere(
                        #[trigger] world.objects@[i],
                    ),
            decreases 11 - b,
        {
            let s = CellSample::draw();
            let ghost k: int = (a + 11) * 22 + (b + 11);
            let ghost before = samples;
            let ghost field = spec_field(before, k as nat);
            proof {
                samples = before.push(s);
                lemma_field(before, samples, k as nat);
                assert(cell_row(k) == a && cell_column(k) == b);
                assert(samples[k] == s);
            }
            match cell(a, b, &s) {
                Some(o) => {
                    proof {
                        assert(spec_cell(a, b, &s) == Some(o));
                        assert(is_small_sphere(o));
                        assert((seq![spec_ground()] + field).push(o) =~= seq![spec_ground()]
                            + field.push(o));
                    }
                    world.objects.push(o);
                },
                None => {},
            }
            b = b + 1;
        }
        a = a + 1;
    }
    let ghost small = world.objects@;
    world.push(
        Shape::Sphere(Sphere::new(Vec3::from_ints(0, 1, 0), Fixed::one())),
        Surface::Dielectric(Dielectric::new(Fixed::ratio(3, 2))),
    );
    world.push(
        Shape::Sphere(Sphere::new(Vec3::from_ints(-4, 1, 0), Fixed::one())),
        Surface::Lambertian(
            Lambertian::new(
                ConstantTexture {
                    color: Vec3::new(Fixed::ratio(4, 10), Fixed::ratio(2, 10), Fixed::ratio(1, 10)),
                },
            ),
        ),
    );
    world.push(
        Shape::Sphere(Sphere::new(Vec3::from_ints(4, 1, 0), Fixed::one())),
        Surface::Metal(
            Metal::new(
                Vec3::new(Fixed::ratio(7, 10), Fixed::ratio(6, 10), Fixed::ratio(5, 10)),
                Fixed::zero(),
            ),
        ),
    );
    proof {
        let n = world.objects@.len();
        lemma_field(samples, samples, 484);
        assert(world.objects@ =~= spec_random_scene(samples));
        assert(fills(samples, 484));
        assert(world.objects@.subrange(n - 3, n as int) =~= spec_landmarks());
        assert forall|i: int| 1 <= i < n - 3 implies is_small_sphere(
            #[trigger] world.objects@[i],
        ) by {
            assert(world.objects@[i] == small[i]);
        }
    }
    world
}

} // verus!
