//! Materials: how a surface scatters and emits light.

use vstd::prelude::*;
use crate::fixed::Fixed;
use crate::hit::HitRecord;
use crate::pdf::Pdf;
use crate::ray::Ray;
use crate::onb::Onb;
use crate::sampling::ScatterSample;
use crate::texture::Texture;
use crate::vec3::Vec3;
use crate::vec3::is_light;

verus! {

/// The mirror image of `v` at a surface with normal `n`: `v - 2 (v . n) n`.
pub open spec fn spec_reflect(v: Vec3, n: Vec3) -> Vec3 {
    v.sub(n.scale(Fixed::from_int(2).mul(v.dot(n))))
}

/// The mirror image of `v` at a surface with normal `n`: `v - 2 (v . n) n`.
#[verifier::when_used_as_spec(spec_reflect)]
pub fn reflect(v: Vec3, n: Vec3) -> (r: Vec3)
    ensures
        r == spec_reflect(v, n),
{
    v.sub(n.scale(Fixed::from_int(2).mul(v.dot(n))))
}

/// The discriminant of Snell's law for the unit vector `uv`:
/// `1 - ni_over_nt^2 (1 - (uv . n)^2)`. Light passes the surface if it is
/// positive.
pub open spec fn spec_snell_discriminant(uv: Vec3, n: Vec3, ni_over_nt: Fixed) -> Fixed {
    Fixed::one().sub(ni_over_nt.square().mul(Fixed::one().sub(uv.dot(n).square())))
}

/// The direction of `v` bent at a surface with normal `n` between media
/// whose refractive indices have the ratio `ni_over_nt`, by Snell's law:
/// with `uv` the unit vector along `v` and `dt = uv . n`, it is
/// `ni_over_nt (uv - n dt) - n sqrt(discriminant)` if the discriminant is
/// positive. If it is not, the light is reflected entirely and there is no
/// bent direction.
pub open spec fn spec_refract(v: Vec3, n: Vec3, ni_over_nt: Fixed) -> Option<Vec3> {
    let uv = v.normalize();
    let dt = uv.dot(n);
    let discriminant = spec_snell_discriminant(uv, n, ni_over_nt);
    if discriminant@ > 0 {
        Some(uv.sub(n.scale(dt)).scale(ni_over_nt).sub(n.scale(discriminant.sqrt())))
    } else {
        None
    }
}

/// The direction of `v` bent at a surface with normal `n` between media
/// whose refractive indices have the ratio `ni_over_nt`, if light passes.
#[verifier::when_used_as_spec(spec_refract)]
pub fn refract(v: Vec3, n: Vec3, ni_over_nt: Fixed) -> (r: Option<Vec3>)
    ensures
        r == spec_refract(v, n, ni_over_nt),
{
    let uv = v.normalize();
    let dt = uv.dot(n);
    let discriminant = Fixed::one().sub(
        ni_over_nt.square().mul(Fixed::one().sub(dt.square())),
    );
    if discriminant.raw > 0 {
        Some(uv.sub(n.scale(dt)).scale(ni_over_nt).sub(n.scale(discriminant.sqrt())))
    } else {
        None
    }
}

/// The fifth power.
pub open spec fn spec_fifth_power(x: Fixed) -> Fixed {
    x.square().square().mul(x)
}

/// Schlick's approximation of the share of light that a surface between
/// air and a medium of refractive index `ref_idx` reflects at an angle of
/// incidence with the given cosine: `r0 + (1 - r0) (1 - cosine)^5`, with
/// `r0 = ((1 - ref_idx) / (1 + ref_idx))^2`.
pub open spec fn spec_schlick(cosine: Fixed, ref_idx: Fixed) -> Fixed {
    let r0 = Fixed::one().sub(ref_idx).div(Fixed::one().add(ref_idx)).square();
    r0.add(Fixed::one().sub(r0).mul(spec_fifth_power(Fixed::one().sub(cosine))))
}

/// Schlick's approximation of the share of light that a surface reflects.
#[verifier::when_used_as_spec(spec_schlick)]
pub fn schlick(cosine: Fixed, ref_idx: Fixed) -> (r: Fixed)
    ensures
        r == spec_schlick(cosine, ref_idx),
{
    let r0 = Fixed::one().sub(ref_idx).div(Fixed::one().add(ref_idx)).square();
    let x = Fixed::one().sub(cosine);
    r0.add(Fixed::one().sub(r0).mul(x.square().square().mul(x)))
}

/// What becomes of a ray that hits a surface.
#[derive(Debug)]
pub enum ScatterRecord<'a> {
    /// The ray goes on in one direction that chance did not choose, as at a
    /// mirror or through glass.
    Specular { specular_ray: Ray, attenuation: Vec3 },
    /// The ray goes on in a direction that is distributed by `pdf`.
    Scatter { pdf: Pdf<'a>, attenuation: Vec3 },
}

/// Whether the attenuation of a scattering is light: no component of it is
/// negative.
pub open spec fn attenuates(scatter: Option<ScatterRecord>) -> bool {
    match scatter {
        None => true,
        Some(ScatterRecord::Specular { specular_ray, attenuation }) => is_light(attenuation),
        Some(ScatterRecord::Scatter { pdf, attenuation }) => is_light(attenuation),
    }
}

/// A material: what it scatters, with which density, and what it emits.
/// All three are functions of their arguments alone.
pub trait Material {
    /// What becomes of `ray` when it hits the surface at `hit`, given the
    /// chance in `sample`; `None` if the ray is absorbed.
    spec fn spec_scatter<'a>(&self, ray: &Ray, hit: &HitRecord, sample: &ScatterSample) -> Option<
        ScatterRecord<'a>,
    >;

    /// What becomes of `ray` when it hits the surface at `hit`, given the
    /// chance in `sample`; `None` if the ray is absorbed.
    fn scatter<'a>(&self, ray: &Ray, hit: &HitRecord, sample: &ScatterSample) -> (r: Option<
        ScatterRecord<'a>,
    >)
        ensures
            r == self.spec_scatter(ray, hit, sample),
    ;

    /// The density with which the material itself scatters `ray` into the
    /// direction of `scattered`.
    spec fn spec_scattering_pdf(&self, ray: &Ray, hit: &HitRecord, scattered: &Ray) -> Fixed;

    /// The density with which the material itself scatters `ray` into the
    /// direction of `scattered`.
    fn scattering_pdf(&self, ray: &Ray, hit: &HitRecord, scattered: &Ray) -> (r: Fixed)
        ensures
            r == self.spec_scattering_pdf(ray, hit, scattered),
    ;

    /// The light that the surface sends back along `ray` from `hit`.
    spec fn spec_emitted(&self, ray: &Ray, hit: &HitRecord) -> Vec3;

    /// The light that the surface sends back along `ray` from `hit`.
    fn emitted(&self, ray: &Ray, hit: &HitRecord) -> (r: Vec3)
        ensures
            r == self.spec_emitted(ray, hit),
    ;
}

/// A perfectly diffuse surface.
#[derive(Clone, Debug)]
pub struct Lambertian<T: Texture> {
    pub albedo: T,
}

impl<T: Texture> Lambertian<T> {
    /// The diffuse material that reflects the share `albedo` of each colour.
    pub fn new(albedo: T) -> (r: Self)
        ensures
            r.albedo == albedo,
    {
        Lambertian { albedo }
    }
}

impl<T: Texture> Material for Lambertian<T> {
    /// Always scatters, with the cosine density around the normal and the
    /// albedo at the point hit.
    open spec fn spec_scatter<'a>(&self, ray: &Ray, hit: &HitRecord, sample: &ScatterSample)
        -> Option<ScatterRecord<'a>> {
        Some(
            ScatterRecord::Scatter {
                pdf: Pdf::Cosine { uvw: Onb::build_from_w(hit.normal) },
                attenuation: self.albedo.spec_value(hit.u, hit.v, &hit.p),
            },
        )
    }

    fn scatter<'a>(&self, ray: &Ray, hit: &HitRecord, sample: &ScatterSample) -> (r: Option<
        ScatterRecord<'a>,
    >) {
        Some(
            ScatterRecord::Scatter {
                pdf: Pdf::cosine(hit.normal),
                attenuation: self.albedo.value(hit.u, hit.v, &hit.p),
            },
        )
    }

    /// `max(cosine, 0) / pi`, with the cosine of the angle between the
    /// normal and the scattered direction.
    open spec fn spec_scattering_pdf(&self, ray: &Ray, hit: &HitRecord, scattered: &Ray) -> Fixed {
        hit.normal.dot(scattered.direction.normalize()).max(Fixed::zero()).div(Fixed::pi())
    }

    fn scattering_pdf(&self, ray: &Ray, hit: &HitRecord, scattered: &Ray) -> (r: Fixed) {
        hit.normal.dot(scattered.direction.normalize()).max(Fixed::zero()).div(Fixed::pi())
    }

    /// Emits nothing.
    open spec fn spec_emitted(&self, ray: &Ray, hit: &HitRecord) -> Vec3 {
        Vec3::zeros()
    }

    fn emitted(&self, ray: &Ray, hit: &HitRecord) -> (r: Vec3) {
        Vec3::zeros()
    }
}

/// A mirror, blurred by `fuzz`.
#[derive(Clone, Copy, Debug, PartialEq, Eq, Structural)]
pub struct Metal {
    pub albedo: Vec3,
    pub fuzz: Fixed,
}

impl Metal {
    /// Whether the blur lies between zero and one.
    pub open spec fn wf(&self) -> bool {
        0 <= self.fuzz@ <= Fixed::one()@
    }

    /// The metal of colour `albedo` and blur `fuzz`; a blur below zero counts
    /// as zero and a blur above one as one.
    pub fn new(albedo: Vec3, fuzz: Fixed) -> (r: Metal)
        ensures
            r.albedo == albedo,
            r.fuzz == fuzz.max(Fixed::zero()).min(Fixed::one()),
            r.wf(),
    {
        Metal {
            albedo,
            fuzz: if fuzz.raw < 0 {
                Fixed::zero()
            } else if fuzz.raw < Fixed::one().raw {
                fuzz
            } else {
                Fixed::one()
            },
        }
    }

    /// The direction into which the metal sends `ray`: the mirror image of
    /// the ray's unit direction, moved by `fuzz` times the sample's point if
    /// the blur is positive.
    pub open spec fn spec_reflected(&self, ray: &Ray, hit: &HitRecord, sample: &ScatterSample)
        -> Vec3 {
        let mirrored = spec_reflect(ray.direction.normalize(), hit.normal);
        if self.fuzz@ > 0 {
            mirrored.add(sample.offset.scale(self.fuzz))
        } else {
            mirrored
        }
    }
}

impl Material for Metal {
    /// Reflects the ray from the point hit, filtered by the albedo, if the
    /// reflected direction leaves the surface on the normal's side; absorbs
    /// it otherwise.
    open spec fn spec_scatter<'a>(&self, ray: &Ray, hit: &HitRecord, sample: &ScatterSample)
        -> Option<ScatterRecord<'a>> {
        let reflected = self.spec_reflected(ray, hit, sample);
        if reflected.dot(hit.normal)@ > 0 {
            Some(
                ScatterRecord::Specular {
                    specular_ray: Ray::new(hit.p, reflected, ray.time),
                    attenuation: self.albedo,
                },
            )
        } else {
            None
        }
    }

    fn scatter<'a>(&self, ray: &Ray, hit: &HitRecord, sample: &ScatterSample) -> (r: Option<
        ScatterRecord<'a>,
    >) {
        let mut reflected = reflect(ray.direction().normalize(), hit.normal);
        if self.fuzz.raw > 0 {
            reflected = reflected.add(sample.offset.scale(self.fuzz));
        }
        if reflected.dot(hit.normal).raw > 0 {
            Some(
                ScatterRecord::Specular {
                    specular_ray: Ray::new(hit.p, reflected, ray.time()),
                    attenuation: self.albedo,
                },
            )
        } else {
            None
        }
    }

    /// One: a mirror has no density of its own.
    open spec fn spec_scattering_pdf(&self, ray: &Ray, hit: &HitRecord, scattered: &Ray) -> Fixed {
        Fixed::one()
    }

    fn scattering_pdf(&self, ray: &Ray, hit: &HitRecord, scattered: &Ray) -> (r: Fixed) {
        Fixed::one()
    }

    /// Emits nothing.
    open spec fn spec_emitted(&self, ray: &Ray, hit: &HitRecord) -> Vec3 {
        Vec3::zeros()
    }

    fn emitted(&self, ray: &Ray, hit: &HitRecord) -> (r: Vec3) {
        Vec3::zeros()
    }
}

/// Clear glass of refractive index `ref_idx`.
#[derive(Clone, Copy, Debug, PartialEq, Eq, Structural)]
pub struct Dielectric {
    pub ref_idx: Fixed,
}

/// How a ray meets a glass surface: the normal on the side that the ray
/// comes from, the ratio of the refractive indices before and behind the
/// surface, and the cosine that Schlick's approximation takes.
#[derive(Clone, Copy, Debug, PartialEq, Eq, Structural)]
pub struct Incidence {
    pub outward_normal: Vec3,
    pub ni_over_nt: Fixed,
    pub cosine: Fixed,
}

impl Dielectric {
    /// The glass of refractive index `ref_idx`.
    pub fn new(ref_idx: Fixed) -> (r: Dielectric)
        ensures
            r.ref_idx == ref_idx,
    {
        Dielectric { ref_idx }
    }

    /// How `ray` meets the surface at `hit`.
    ///
    /// A ray that runs along the normal leaves the glass: the outward normal
    /// is the reversed normal, the ratio is `ref_idx`, and the cosine is
    /// `ref_idx (direction . normal) / |direction|`. Any other ray enters
    /// it: the outward normal is the normal, the ratio is `1 / ref_idx`,
    /// and the cosine is `-(direction . normal) / |direction|`.
    pub open spec fn spec_incidence(&self, ray: &Ray, hit: &HitRecord) -> Incidence {
        let along = ray.direction.dot(hit.normal);
        if along@ > 0 {
            Incidence {
                outward_normal: hit.normal.neg(),
                ni_over_nt: self.ref_idx,
                cosine: self.ref_idx.mul(along).div(ray.direction.magnitude()),
            }
        } else {
            Incidence {
                outward_normal: hit.normal,
                ni_over_nt: Fixed::one().div(self.ref_idx),
                cosine: along.neg().div(ray.direction.magnitude()),
            }
        }
    }

    /// How `ray` meets the surface at `hit`.
    #[verifier::when_used_as_spec(spec_incidence)]
    pub fn incidence(&self, ray: &Ray, hit: &HitRecord) -> (r: Incidence)
        ensures
            r == self.spec_incidence(ray, hit),
    {
        let along = ray.direction().dot(hit.normal);
        if along.raw > 0 {
            Incidence {
                outward_normal: hit.normal.neg(),
                ni_over_nt: self.ref_idx,
                cosine: self.ref_idx.mul(along).div(ray.direction().magnitude()),
            }
        } else {
            Incidence {
                outward_normal: hit.normal,
                ni_over_nt: Fixed::one().div(self.ref_idx),
                cosine: along.neg().div(ray.direction().magnitude()),
            }
        }
    }

    /// Whether the ray passes the surface: Snell's law must allow it, and
    /// the sample's number must be at least the share that Schlick's
    /// approximation has reflected.
    pub open spec fn spec_refracts(&self, ray: &Ray, hit: &HitRecord, sample: &ScatterSample)
        -> bool {
        let inc = self.spec_incidence(ray, hit);
        spec_refract(ray.direction, inc.outward_normal, inc.ni_over_nt) is Some && sample.choice@
            >= spec_schlick(inc.cosine, self.ref_idx)@
    }
}

impl Material for Dielectric {
    /// Sends the ray on from the point hit, unfiltered: bent by Snell's law
    /// if it passes the surface, mirrored at the normal otherwise.
    open spec fn spec_scatter<'a>(&self, ray: &Ray, hit: &HitRecord, sample: &ScatterSample)
        -> Option<ScatterRecord<'a>> {
        let inc = self.spec_incidence(ray, hit);
        let direction = if self.spec_refracts(ray, hit, sample) {
            spec_refract(ray.direction, inc.outward_normal, inc.ni_over_nt)->0
        } else {
            spec_reflect(ray.direction, hit.normal)
        };
        Some(
            ScatterRecord::Specular {
                specular_ray: Ray::new(hit.p, direction, ray.time),
                attenuation: Vec3::ones(),
            },
        )
    }

    fn scatter<'a>(&self, ray: &Ray, hit: &HitRecord, sample: &ScatterSample) -> (r: Option<
        ScatterRecord<'a>,
    >) {
        let attenuation = Vec3::ones();
        let inc = self.incidence(ray, hit);
        if let Some(refracted) = refract(ray.direction(), inc.outward_normal, inc.ni_over_nt) {
            let reflect_prob = schlick(inc.cosine, self.ref_idx);
            if sample.choice.raw >= reflect_prob.raw {
                return Some(
                    ScatterRecord::Specular {
                        specular_ray: Ray::new(hit.p, refracted, ray.time()),
                        attenuation,
                    },
                );
            }
        }
        let reflected = reflect(ray.direction(), hit.normal);
        Some(
            ScatterRecord::Specular {
                specular_ray: Ray::new(hit.p, reflected, ray.time()),
                attenuation,
            },
        )
    }

    /// One: glass has no density of its own.
    open spec fn spec_scattering_pdf(&self, ray: &Ray, hit: &HitRecord, scattered: &Ray) -> Fixed {
        Fixed::one()
    }

    fn scattering_pdf(&self, ray: &Ray, hit: &HitRecord, scattered: &Ray) -> (r: Fixed) {
        Fixed::one()
    }

    /// Emits nothing.
    open spec fn spec_emitted(&self, ray: &Ray, hit: &HitRecord) -> Vec3 {
        Vec3::zeros()
    }

    fn emitted(&self, ray: &Ray, hit: &HitRecord) -> (r: Vec3) {
        Vec3::zeros()
    }
}

/// A surface that emits light from its front.
#[derive(Clone, Debug)]
pub struct DiffuseLight<T: Texture> {
    pub emit: T,
}

impl<T: Texture> DiffuseLight<T> {
    /// The light that emits the colour `emit`.
    pub fn new(emit: T) -> (r: Self)
        ensures
            r.emit == emit,
    {
        DiffuseLight { emit }
    }
}

impl<T: Texture> Material for DiffuseLight<T> {
    /// Scatters nothing.
    open spec fn spec_scatter<'a>(&self, ray: &Ray, hit: &HitRecord, sample: &ScatterSample)
        -> Option<ScatterRecord<'a>> {
        None
    }

    fn scatter<'a>(&self, ray: &Ray, hit: &HitRecord, sample: &ScatterSample) -> (r: Option<
        ScatterRecord<'a>,
    >) {
        None
    }

    /// One: a light has no density of its own.
    open spec fn spec_scattering_pdf(&self, ray: &Ray, hit: &HitRecord, scattered: &Ray) -> Fixed {
        Fixed::one()
    }

    fn scattering_pdf(&self, ray: &Ray, hit: &HitRecord, scattered: &Ray) -> (r: Fixed) {
        Fixed::one()
    }

    /// The emission colour at the point hit if the ray meets the front,
    /// where the normal points against the ray; nothing from the back.
    open spec fn spec_emitted(&self, ray: &Ray, hit: &HitRecord) -> Vec3 {
        if hit.normal.dot(ray.direction)@ < 0 {
            self.emit.spec_value(hit.u, hit.v, &hit.p)
        } else {
            Vec3::zeros()
        }
    }

    fn emitted(&self, ray: &Ray, hit: &HitRecord) -> (r: Vec3) {
        if hit.normal.dot(ray.direction()).raw < 0 {
            self.emit.value(hit.u, hit.v, &hit.p)
        } else {
            Vec3::zeros()
        }
    }
}

/// A diffuse surface scatters with the very density that it proposes for
/// choosing directions: where the normal has unit length, so that making it
/// a unit vector changes nothing, the material's scattering density equals
/// the value of the cosine density around the normal, in every direction.
pub proof fn law_lambertian_matches_cosine<T: Texture>(
    m: Lambertian<T>,
    ray: &Ray,
    hit: &HitRecord,
    scattered: &Ray,
)
    requires
        hit.normal.normalize() == hit.normal,
    ensures
        m.spec_scattering_pdf(ray, hit, scattered) == (Pdf::Cosine {
            uvw: Onb::build_from_w(hit.normal),
        }).spec_value(scattered.direction),
        m.spec_scattering_pdf(ray, hit, scattered)@ >= 0,
{
    crate::vec3::lemma_dot_commutes(hit.normal, scattered.direction.normalize());
    crate::fixed::lemma_div_nonneg(
        hit.normal.dot(scattered.direction.normalize()).max(Fixed::zero()),
        Fixed::pi(),
    );
}

/// Glass whose refractive index is one, the index of its surroundings,
/// reflects with chance `(1 - cosine)^5` and is otherwise passed, unless the
/// ray grazes the surface so closely that the squared cosine between its
/// unit direction and the normal rounds to zero. At normal incidence, where
/// the cosine is one, every ray passes, whatever the chance.
pub proof fn law_matched_glass_refracts(ray: &Ray, hit: &HitRecord, sample: &ScatterSample)
    requires
        sample.is_valid(),
    ensures
        ({
            let glass = Dielectric { ref_idx: Fixed::one() };
            let inc = glass.spec_incidence(ray, hit);
            let grazing = ray.direction.normalize().dot(inc.outward_normal).square()@ <= 0;
            &&& inc.ni_over_nt == Fixed::one()
            &&& spec_schlick(inc.cosine, Fixed::one()) == spec_fifth_power(
                Fixed::one().sub(inc.cosine),
            )
            &&& glass.spec_refracts(ray, hit, sample) <==> !grazing && sample.choice@
                >= spec_fifth_power(Fixed::one().sub(inc.cosine))@
            &&& inc.cosine == Fixed::one() && !grazing ==> glass.spec_refracts(ray, hit, sample)
        }),
{
    let one = Fixed::one();
    let zero = Fixed::zero();
    let glass = Dielectric { ref_idx: one };
    let inc = glass.spec_incidence(ray, hit);
    crate::fixed::lemma_div_self(one);
    assert(inc.ni_over_nt == one);
    // Schlick's share with r0 = 0.
    crate::fixed::lemma_zero_div(one.add(one));
    crate::fixed::lemma_mul_zero(zero);
    let r0 = one.sub(one).div(one.add(one)).square();
    assert(r0 == zero);
    let fifth = spec_fifth_power(one.sub(inc.cosine));
    crate::fixed::lemma_mul_one(fifth);
    assert(spec_schlick(inc.cosine, one) == fifth);
    // Snell's discriminant is the squared cosine.
    let uv = ray.direction.normalize();
    let q = uv.dot(inc.outward_normal).square();
    crate::fixed::lemma_square_nonneg(uv.dot(inc.outward_normal));
    crate::fixed::lemma_mul_one(one);
    crate::fixed::lemma_mul_one(one.sub(q));
    assert(spec_snell_discriminant(uv, inc.outward_normal, one) == q);
    // At normal incidence the share is zero.
    if inc.cosine == one {
        crate::fixed::lemma_mul_zero(zero);
        assert(fifth == zero);
    }
}

/// How far the square root of a rounded square falls short of the number
/// squared: for a number `d` of magnitude at least `2^-12`, the root of
/// `d * d` is at most `|d|` and falls short of it by at most 4096 raw units.
pub proof fn lemma_root_of_square(d: Fixed)
    requires
        crate::fixed::magnitude(d@) <= 0x1000_0000,
        d.square()@ > 0,
    ensures
        0 <= d.square().sqrt()@ <= crate::fixed::magnitude(d@),
        crate::fixed::magnitude(d@) - d.square().sqrt()@ <= 4096,
{
    let s: int = 16777216;
    let m = crate::fixed::magnitude(d@);
    crate::fixed::lemma_bounded_product(d, d, 0x1000_0000, 0x1000_0000);
    let q = d.square()@;
    assert(d@ * d@ == m * m) by (nonlinear_arith)
        requires
            m == crate::fixed::magnitude(d@),
    ;
    crate::fixed::lemma_sqrt(d.square());
    let root = d.square().sqrt()@;
    assert(crate::fixed::SCALE == 16777216);
    assert(q * crate::fixed::SCALE == q * 16777216);
    assert(root <= m) by (nonlinear_arith)
        requires
            root >= 0,
            m >= 0,
            root * root <= m * m,
    ;
    assert(m >= 4096) by (nonlinear_arith)
        requires
            m >= 0,
            m * m >= 16777216,
    ;
    // (m - 4096)^2 <= m^2 - S < (root + 1)^2, so m - 4096 <= root.
    assert((m - 4096) * (m - 4096) <= m * m - 16777216) by (nonlinear_arith)
        requires
            m >= 4096,
    ;
    assert(m - 4096 < root + 1) by (nonlinear_arith)
        requires
            m - 4096 >= 0,
            root + 1 > 0,
            (m - 4096) * (m - 4096) < (root + 1) * (root + 1),
    ;
}

/// Glass whose refractive index is one bends nothing: where a ray that is
/// not too short or too long meets a surface whose normal has components
/// within one, against the normal and not grazing, the bent direction is
/// the ray's unit direction to within `2^-12` in each component.
pub proof fn law_matched_glass_keeps_direction(v: Vec3, n: Vec3)
    requires
        crate::hemisphere::is_sound_normal(v),
        crate::vec3::is_within(n, crate::fixed::SCALE as int),
        v.normalize().dot(n)@ < 0,
        v.normalize().dot(n).square()@ > 0,
    ensures
        spec_refract(v, n, Fixed::one()) matches Some(bent) && crate::vec3::is_within(
            bent.sub(v.normalize()),
            4097,
        ),
{
    let one = Fixed::one();
    let s: int = 16777216;
    assert(crate::fixed::SCALE == 16777216);
    let uv = v.normalize();
    crate::hemisphere::lemma_normalized(v);
    crate::fixed::lemma_bounded_product(uv.x, n.x, 0x200_0000, 16777216);
    crate::fixed::lemma_bounded_product(uv.y, n.y, 0x200_0000, 16777216);
    crate::fixed::lemma_bounded_product(uv.z, n.z, 0x200_0000, 16777216);
    let dt = uv.dot(n);
    assert(crate::fixed::magnitude(dt@) <= 0x600_0000);
    let q = dt.square();
    crate::fixed::lemma_square_nonneg(dt);
    crate::fixed::lemma_bounded_product(dt, dt, 0x1000_0000, 0x1000_0000);
    crate::fixed::lemma_mul_one(one);
    crate::fixed::lemma_mul_one(one.sub(q));
    assert(spec_snell_discriminant(uv, n, one) == q);
    lemma_root_of_square(dt);
    let root = q.sqrt();
    crate::fixed::lemma_bounded_product(n.x, dt, 16777216, 0x600_0000);
    crate::fixed::lemma_bounded_product(n.y, dt, 16777216, 0x600_0000);
    crate::fixed::lemma_bounded_product(n.z, dt, 16777216, 0x600_0000);
    crate::fixed::lemma_bounded_product(n.x, root, 16777216, 0x600_0000);
    crate::fixed::lemma_bounded_product(n.y, root, 16777216, 0x600_0000);
    crate::fixed::lemma_bounded_product(n.z, root, 16777216, 0x600_0000);
    let inner = uv.sub(n.scale(dt));
    crate::fixed::lemma_mul_one(inner.x);
    crate::fixed::lemma_mul_one(inner.y);
    crate::fixed::lemma_mul_one(inner.z);
    assert(inner.scale(one) == inner);
    let bent = inner.sub(n.scale(root));
    assert(spec_refract(v, n, one) == Some(bent));
    let gap = dt@ + root@;
    assert(-4096 <= gap <= 0);
    lemma_bend(n.x@, dt@, root@, n.x.mul(dt)@, n.x.mul(root)@);
    lemma_bend(n.y@, dt@, root@, n.y.mul(dt)@, n.y.mul(root)@);
    lemma_bend(n.z@, dt@, root@, n.z.mul(dt)@, n.z.mul(root)@);
}

/// One component of what a matched surface takes from and gives back to a
/// direction: the two rounded products nearly cancel.
pub proof fn lemma_bend(n: int, dt: int, root: int, x: int, y: int)
    requires
        crate::fixed::magnitude(n) <= 16777216,
        -4096 <= dt + root <= 0,
        crate::fixed::magnitude(x * 16777216 - n * dt) < 16777216,
        crate::fixed::magnitude(y * 16777216 - n * root) < 16777216,
    ensures
        crate::fixed::magnitude(x + y) <= 4097,
{
    let gap = dt + root;
    assert(n * dt + n * root == n * gap) by (nonlinear_arith)
        requires
            gap == dt + root,
    ;
    assert(crate::fixed::magnitude(n * gap) <= 16777216 * 4096) by (nonlinear_arith)
        requires
            crate::fixed::magnitude(n) <= 16777216,
            -4096 <= gap <= 0,
    ;
    assert((x + y) * 16777216 == x * 16777216 + y * 16777216) by (nonlinear_arith);
}

/// The part of `a` across `b`: one component of the cross product of the
/// raw values, without rounding.
pub open spec fn across(a2: int, a3: int, b2: int, b3: int) -> int {
    a2 * b3 - a3 * b2
}

/// One component of a bent direction, scaled: with `S e = S uv - n dt` and
/// `S r = e k - n root`, each rounded, `S^2 r` is `S k uv`, less a multiple
/// of `n`, and a rest that the roundings leave.
pub proof fn lemma_bent_component(
    s: int,
    k: int,
    dt: int,
    root: int,
    uv: int,
    n: int,
    e: int,
    r: int,
)
    requires
        s > 0,
        crate::fixed::magnitude(s * e - (s * uv - n * dt)) < s,
        crate::fixed::magnitude(s * r - (e * k - n * root)) < 2 * s,
    ensures
        crate::fixed::magnitude((s * s) * r - ((s * k) * uv - n * (dt * k + s * root))) <= s
            * crate::fixed::magnitude(k) + 2 * (s * s),
{
    let e1 = s * e - (s * uv - n * dt);
    let e2 = s * r - (e * k - n * root);
    let se = s * e;
    assert((s * s) * r == s * (e * k) - s * (n * root) + s * e2) by (nonlinear_arith)
        requires
            e2 == s * r - (e * k - n * root),
    ;
    assert(s * (e * k) == se * k) by (nonlinear_arith)
        requires
            se == s * e,
    ;
    assert(se * k == (s * k) * uv - n * (dt * k) + e1 * k) by (nonlinear_arith)
        requires
            se == s * uv - n * dt + e1,
    ;
    assert(n * (dt * k + s * root) == n * (dt * k) + s * (n * root)) by (nonlinear_arith);
    assert(crate::fixed::magnitude(e1 * k) <= s * crate::fixed::magnitude(k)) by (nonlinear_arith)
        requires
            crate::fixed::magnitude(e1) < s,
    ;
    assert(crate::fixed::magnitude(s * e2) <= 2 * (s * s)) by (nonlinear_arith)
        requires
            s > 0,
            crate::fixed::magnitude(e2) < 2 * s,
    ;
}

/// What two vectors have across a third when each is a multiple of the third
/// off something else: with `p = a - n c + h` in two components, the part of
/// `p` across `n` is the part of `a` across `n` and the part of `h` across
/// `n`; the multiple of `n` has nothing across `n`.
pub proof fn lemma_across(
    a2: int,
    a3: int,
    n2: int,
    n3: int,
    c: int,
    h2: int,
    h3: int,
    p2: int,
    p3: int,
    bound: int,
    s: int,
)
    requires
        p2 == a2 - n2 * c + h2,
        p3 == a3 - n3 * c + h3,
        crate::fixed::magnitude(h2) <= bound,
        crate::fixed::magnitude(h3) <= bound,
        crate::fixed::magnitude(n2) <= s,
        crate::fixed::magnitude(n3) <= s,
    ensures
        crate::fixed::magnitude(across(p2, p3, n2, n3) - across(a2, a3, n2, n3)) <= 2 * (bound
            * s),
{
    let x = n2 * c;
    let y = n3 * c;
    assert(p2 * n3 == a2 * n3 - x * n3 + h2 * n3) by (nonlinear_arith)
        requires
            p2 == a2 - x + h2,
    ;
    assert(p3 * n2 == a3 * n2 - y * n2 + h3 * n2) by (nonlinear_arith)
        requires
            p3 == a3 - y + h3,
    ;
    assert(x * n3 == y * n2) by (nonlinear_arith)
        requires
            x == n2 * c,
            y == n3 * c,
    ;
    assert(crate::fixed::magnitude(h2 * n3) <= bound * s) by (nonlinear_arith)
        requires
            crate::fixed::magnitude(h2) <= bound,
            crate::fixed::magnitude(n3) <= s,
    ;
    assert(crate::fixed::magnitude(h3 * n2) <= bound * s) by (nonlinear_arith)
        requires
            crate::fixed::magnitude(h3) <= bound,
            crate::fixed::magnitude(n2) <= s,
    ;
}

/// How far Snell's law may be missed, in raw units: `2 S |k| + 4 S^2` for
/// the ratio `k`. In numbers, `2^-24 (4 + 2 |k|)`.
pub open spec fn snell_tolerance(ni_over_nt: Fixed) -> int {
    2 * (16777216 * crate::fixed::magnitude(ni_over_nt@)) + 4 * (16777216 * 16777216)
}

/// Whether `bent` is to `uv` across `n` as Snell's law asks for the ratio
/// `k`, as far as rounding allows: in each component, the part of `bent`
/// across `n` is `k` times the part of `uv` across `n`. For unit vectors the
/// parts across the normal are the sines of the angles to it.
pub open spec fn obeys_snell(bent: Vec3, uv: Vec3, n: Vec3, ni_over_nt: Fixed) -> bool {
    let s: int = 16777216;
    let k = ni_over_nt@;
    let t = snell_tolerance(ni_over_nt);
    &&& crate::fixed::magnitude(
        s * across(bent.y@, bent.z@, n.y@, n.z@) - k * across(uv.y@, uv.z@, n.y@, n.z@),
    ) <= t
    &&& crate::fixed::magnitude(
        s * across(bent.z@, bent.x@, n.z@, n.x@) - k * across(uv.z@, uv.x@, n.z@, n.x@),
    ) <= t
    &&& crate::fixed::magnitude(
        s * across(bent.x@, bent.y@, n.x@, n.y@) - k * across(uv.x@, uv.y@, n.x@, n.y@),
    ) <= t
}

/// Snell's law: where light passes a surface, what the bent direction has
/// across the normal is the ratio of the refractive indices times what the
/// ray's unit direction has across it, to within `2^-24 (4 + 2 |ratio|)` in
/// each component. It holds for every ray that is not too short or too long,
/// every normal with components within one and every ratio within 1024.
pub proof fn law_snell(v: Vec3, n: Vec3, ni_over_nt: Fixed)
    requires
        crate::hemisphere::is_sound_normal(v),
        crate::vec3::is_within(n, crate::fixed::SCALE as int),
        crate::fixed::magnitude(ni_over_nt@) <= crate::fixed::REACH,
    ensures
        spec_refract(v, n, ni_over_nt) matches Some(bent) ==> obeys_snell(
            bent,
            v.normalize(),
            n,
            ni_over_nt,
        ),
{
    let s: int = 16777216;
    assert(crate::fixed::SCALE == 16777216 && crate::fixed::REACH == 0x4_0000_0000);
    let uv = v.normalize();
    let k = ni_over_nt;
    crate::hemisphere::lemma_normalized(v);
    crate::fixed::lemma_bounded_product(uv.x, n.x, 0x200_0000, 16777216);
    crate::fixed::lemma_bounded_product(uv.y, n.y, 0x200_0000, 16777216);
    crate::fixed::lemma_bounded_product(uv.z, n.z, 0x200_0000, 16777216);
    let dt = uv.dot(n);
    assert(crate::fixed::magnitude(dt@) <= 0x600_0000);
    let discriminant = spec_snell_discriminant(uv, n, k);
    if discriminant@ > 0 {
        crate::fixed::lemma_sqrt(discriminant);
        let root = discriminant.sqrt();
        crate::fixed::lemma_bounded_product(n.x, dt, 16777216, 0x600_0000);
        crate::fixed::lemma_bounded_product(n.y, dt, 16777216, 0x600_0000);
        crate::fixed::lemma_bounded_product(n.z, dt, 16777216, 0x600_0000);
        let e = uv.sub(n.scale(dt));
        assert(crate::vec3::is_within(e, 0x800_0000));
        crate::fixed::lemma_bounded_product(e.x, k, 0x800_0000, 0x4_0000_0000);
        crate::fixed::lemma_bounded_product(e.y, k, 0x800_0000, 0x4_0000_0000);
        crate::fixed::lemma_bounded_product(e.z, k, 0x800_0000, 0x4_0000_0000);
        crate::fixed::lemma_bounded_product(n.x, root, 16777216, 0x1000_0000_0000);
        crate::fixed::lemma_bounded_product(n.y, root, 16777216, 0x1000_0000_0000);
        crate::fixed::lemma_bounded_product(n.z, root, 16777216, 0x1000_0000_0000);
        let bent = e.scale(k).sub(n.scale(root));
        assert(spec_refract(v, n, k) == Some(bent));
        let c = dt@ * k@ + s * root@;
        let bound = s * crate::fixed::magnitude(k@) + 2 * (s * s);
        lemma_bent_component(s, k@, dt@, root@, uv.x@, n.x@, e.x@, bent.x@);
        lemma_bent_component(s, k@, dt@, root@, uv.y@, n.y@, e.y@, bent.y@);
        lemma_bent_component(s, k@, dt@, root@, uv.z@, n.z@, e.z@, bent.z@);
        let sk = s * k@;
        let ss = s * s;
        lemma_snell_pair(s, k@, c, uv.y@, uv.z@, n.y@, n.z@, bent.y@, bent.z@, bound);
        lemma_snell_pair(s, k@, c, uv.z@, uv.x@, n.z@, n.x@, bent.z@, bent.x@, bound);
        lemma_snell_pair(s, k@, c, uv.x@, uv.y@, n.x@, n.y@, bent.x@, bent.y@, bound);
        assert(2 * (bound * s) == s * snell_tolerance(k)) by (nonlinear_arith)
            requires
                s == 16777216,
                bound == s * crate::fixed::magnitude(k@) + 2 * (s * s),
                snell_tolerance(k) == 2 * (16777216 * crate::fixed::magnitude(k@)) + 4 * (16777216
                    * 16777216),
        ;
    }
}

/// Snell's law for one pair of components.
pub proof fn lemma_snell_pair(
    s: int,
    k: int,
    c: int,
    uv2: int,
    uv3: int,
    n2: int,
    n3: int,
    r2: int,
    r3: int,
    bound: int,
)
    requires
        s > 0,
        crate::fixed::magnitude(n2) <= s,
        crate::fixed::magnitude(n3) <= s,
        crate::fixed::magnitude((s * s) * r2 - ((s * k) * uv2 - n2 * c)) <= bound,
        crate::fixed::magnitude((s * s) * r3 - ((s * k) * uv3 - n3 * c)) <= bound,
    ensures
        s * crate::fixed::magnitude(s * across(r2, r3, n2, n3) - k * across(uv2, uv3, n2, n3)) <= 2
            * (bound * s),
{
    let ss = s * s;
    let sk = s * k;
    let p2 = ss * r2;
    let p3 = ss * r3;
    let a2 = sk * uv2;
    let a3 = sk * uv3;
    let h2 = p2 - (a2 - n2 * c);
    let h3 = p3 - (a3 - n3 * c);
    lemma_across(a2, a3, n2, n3, c, h2, h3, p2, p3, bound, s);
    assert(across(p2, p3, n2, n3) == ss * across(r2, r3, n2, n3)) by (nonlinear_arith)
        requires
            p2 == ss * r2,
            p3 == ss * r3,
    ;
    assert(across(a2, a3, n2, n3) == sk * across(uv2, uv3, n2, n3)) by (nonlinear_arith)
        requires
            a2 == sk * uv2,
            a3 == sk * uv3,
    ;
    let xr = across(r2, r3, n2, n3);
    let xu = across(uv2, uv3, n2, n3);
    assert(ss * xr - sk * xu == s * (s * xr - k * xu)) by (nonlinear_arith)
        requires
            ss == s * s,
            sk == s * k,
    ;
    assert(crate::fixed::magnitude(s * (s * xr - k * xu)) == s * crate::fixed::magnitude(
        s * xr - k * xu,
    )) by (nonlinear_arith)
        requires
            s > 0,
    ;
}

/// Any of the four materials, for scenes that mix them.
#[derive(Clone, Debug)]
pub enum Surface<T: Texture> {
    Lambertian(Lambertian<T>),
    Metal(Metal),
    Dielectric(Dielectric),
    DiffuseLight(DiffuseLight<T>),
}

impl<T: Texture> Material for Surface<T> {
    /// What the material inside scatters.
    open spec fn spec_scatter<'a>(&self, ray: &Ray, hit: &HitRecord, sample: &ScatterSample)
        -> Option<ScatterRecord<'a>> {
        match self {
            Surface::Lambertian(m) => m.spec_scatter(ray, hit, sample),
            Surface::Metal(m) => m.spec_scatter(ray, hit, sample),
            Surface::Dielectric(m) => m.spec_scatter(ray, hit, sample),
            Surface::DiffuseLight(m) => m.spec_scatter(ray, hit, sample),
        }
    }

    fn scatter<'a>(&self, ray: &Ray, hit: &HitRecord, sample: &ScatterSample) -> (r: Option<
        ScatterRecord<'a>,
    >) {
        match self {
            Surface::Lambertian(m) => m.scatter(ray, hit, sample),
            Surface::Metal(m) => m.scatter(ray, hit, sample),
            Surface::Dielectric(m) => m.scatter(ray, hit, sample),
            Surface::DiffuseLight(m) => m.scatter(ray, hit, sample),
        }
    }

    /// The density of the material inside.
    open spec fn spec_scattering_pdf(&self, ray: &Ray, hit: &HitRecord, scattered: &Ray) -> Fixed {
        match self {
            Surface::Lambertian(m) => m.spec_scattering_pdf(ray, hit, scattered),
            Surface::Metal(m) => m.spec_scattering_pdf(ray, hit, scattered),
            Surface::Dielectric(m) => m.spec_scattering_pdf(ray, hit, scattered),
            Surface::DiffuseLight(m) => m.spec_scattering_pdf(ray, hit, scattered),
        }
    }

    fn scattering_pdf(&self, ray: &Ray, hit: &HitRecord, scattered: &Ray) -> (r: Fixed) {
        match self {
            Surface::Lambertian(m) => m.scattering_pdf(ray, hit, scattered),
            Surface::Metal(m) => m.scattering_pdf(ray, hit, scattered),
            Surface::Dielectric(m) => m.scattering_pdf(ray, hit, scattered),
            Surface::DiffuseLight(m) => m.scattering_pdf(ray, hit, scattered),
        }
    }

    /// What the material inside emits.
    open spec fn spec_emitted(&self, ray: &Ray, hit: &HitRecord) -> Vec3 {
        match self {
            Surface::Lambertian(m) => m.spec_emitted(ray, hit),
            Surface::Metal(m) => m.spec_emitted(ray, hit),
            Surface::Dielectric(m) => m.spec_emitted(ray, hit),
            Surface::DiffuseLight(m) => m.spec_emitted(ray, hit),
        }
    }

    fn emitted(&self, ray: &Ray, hit: &HitRecord) -> (r: Vec3) {
        match self {
            Surface::Lambertian(m) => m.emitted(ray, hit),
            Surface::Metal(m) => m.emitted(ray, hit),
            Surface::Dielectric(m) => m.emitted(ray, hit),
            Surface::DiffuseLight(m) => m.emitted(ray, hit),
        }
    }
}

impl<T: Texture> Surface<T> {
    /// Whether every colour of the material is light: the texture's colours
    /// of a diffuse surface or a lamp, the albedo of a metal.
    pub open spec fn is_colored_by_light(&self) -> bool {
        match self {
            Surface::Lambertian(m) => forall|u: Fixed, v: Fixed, p: Vec3|
                is_light(#[trigger] m.albedo.spec_value(u, v, &p)),
            Surface::Metal(m) => is_light(m.albedo),
            Surface::Dielectric(m) => true,
            Surface::DiffuseLight(m) => forall|u: Fixed, v: Fixed, p: Vec3|
                is_light(#[trigger] m.emit.spec_value(u, v, &p)),
        }
    }
}

/// A material whose colours are light keeps to what light can do: it emits
/// no negative light, filters by no negative colour, and scatters with no
/// negative density.
pub proof fn lemma_surface_keeps_to_light<T: Texture>(
    m: Surface<T>,
    ray: &Ray,
    hit: &HitRecord,
    sample: &ScatterSample,
    scattered: &Ray,
)
    requires
        m.is_colored_by_light(),
    ensures
        is_light(m.spec_emitted(ray, hit)),
        attenuates(m.spec_scatter(ray, hit, sample)),
        m.spec_scattering_pdf(ray, hit, scattered)@ >= 0,
{
    crate::fixed::lemma_div_nonneg(
        hit.normal.dot(scattered.direction.normalize()).max(Fixed::zero()),
        Fixed::pi(),
    );
    match m {
        Surface::Lambertian(l) => {
            assert(is_light(l.albedo.spec_value(hit.u, hit.v, &hit.p)));
        },
        Surface::Metal(l) => {},
        Surface::Dielectric(l) => {},
        Surface::DiffuseLight(l) => {
            assert(is_light(l.emit.spec_value(hit.u, hit.v, &hit.p)));
        },
    }
}

} // verus!
