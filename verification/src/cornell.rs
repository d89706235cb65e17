//! The box scene: five walls, a lamp in the ceiling, a glass ball and a
//! rotated metal block.

use vstd::prelude::*;
use crate::cube::Cube;
use crate::fixed::Fixed;
use crate::material::Dielectric;
use crate::material::DiffuseLight;
use crate::material::Lambertian;
use crate::material::Metal;
use crate::material::Surface;
use crate::rect::AARect;
use crate::ray::Ray;
use crate::rect::Plane;
use crate::scene::Scene;
use crate::shape::Axis;
use crate::shape::Shape;
use crate::sphere::Sphere;
use crate::texture::ConstantTexture;
use crate::trig::cos_sin_degrees;
use crate::vec3::Vec3;

verus! {

/// The colour whose parts are the given hundredths.
pub open spec fn spec_tint(r: i32, g: i32, b: i32) -> ConstantTexture {
    ConstantTexture {
        color: Vec3 { x: Fixed::ratio(r, 100), y: Fixed::ratio(g, 100), z: Fixed::ratio(b, 100) },
    }
}

/// The colour whose parts are the given hundredths.
#[verifier::when_used_as_spec(spec_tint)]
pub fn tint(r: i32, g: i32, b: i32) -> (t: ConstantTexture)
    ensures
        t == spec_tint(r, g, b),
{
    ConstantTexture::new(Fixed::ratio(r, 100), Fixed::ratio(g, 100), Fixed::ratio(b, 100))
}

/// A colour whose parts are hundredths that are not negative is light.
pub proof fn lemma_tints_are_light()
    ensures
        forall|r: i32, g: i32, b: i32|
            r >= 0 && g >= 0 && b >= 0 ==> crate::vec3::is_light((#[trigger] spec_tint(r, g, b)).color),
{
    assert forall|r: i32, g: i32, b: i32| r >= 0 && g >= 0 && b >= 0 implies crate::vec3::is_light(
        (#[trigger] spec_tint(r, g, b)).color,
    ) by {
        crate::fixed::lemma_div_nonneg(Fixed::from_int(r), Fixed::from_int(100));
        crate::fixed::lemma_div_nonneg(Fixed::from_int(g), Fixed::from_int(100));
        crate::fixed::lemma_div_nonneg(Fixed::from_int(b), Fixed::from_int(100));
    }
}

/// A wall of the box: the square from 0 to 555 on `plane`, at position `k`.
pub open spec fn spec_wall(plane: Plane, k: i32) -> AARect {
    AARect {
        plane,
        a0: Fixed::from_int(0),
        a1: Fixed::from_int(555),
        b0: Fixed::from_int(0),
        b1: Fixed::from_int(555),
        k: Fixed::from_int(k),
    }
}

/// A wall of the box: the square from 0 to 555 on `plane`, at position `k`.
#[verifier::when_used_as_spec(spec_wall)]
pub fn wall(plane: Plane, k: i32) -> (r: AARect)
    ensures
        r == spec_wall(plane, k),
{
    AARect::new(
        plane,
        Fixed::from_int(0),
        Fixed::from_int(555),
        Fixed::from_int(0),
        Fixed::from_int(555),
        Fixed::from_int(k),
    )
}

/// The lamp: a rectangle just below the ceiling, from 227 to 332 along Z and
/// from 213 to 343 along X, at height 554.
pub open spec fn spec_lamp() -> AARect {
    AARect {
        plane: Plane::ZX,
        a0: Fixed::from_int(227),
        a1: Fixed::from_int(332),
        b0: Fixed::from_int(213),
        b1: Fixed::from_int(343),
        k: Fixed::from_int(554),
    }
}

/// The lamp.
#[verifier::when_used_as_spec(spec_lamp)]
pub fn lamp() -> (r: AARect)
    ensures
        r == spec_lamp(),
{
    AARect::new(
        Plane::ZX,
        Fixed::from_int(227),
        Fixed::from_int(332),
        Fixed::from_int(213),
        Fixed::from_int(343),
        Fixed::from_int(554),
    )
}

/// The glass ball: radius 90, resting on the floor at (190, 190).
pub open spec fn spec_ball() -> Sphere {
    Sphere { center: Vec3::from_ints(190, 90, 190), radius: Fixed::from_int(90) }
}

/// The glass ball.
#[verifier::when_used_as_spec(spec_ball)]
pub fn ball() -> (r: Sphere)
    ensures
        r == spec_ball(),
{
    Sphere::new(Vec3::from_ints(190, 90, 190), Fixed::from_int(90))
}

/// The metal block: 165 wide and deep, 330 high, turned by 15 degrees about
/// the vertical and moved to (265, 0, 295).
pub open spec fn spec_block() -> Shape {
    Shape::Translate {
        child: Box::new(
            Shape::Rotate {
                child: Box::new(
                    Shape::Cube(
                        Cube { p_min: Vec3::from_ints(0, 0, 0), p_max: Vec3::from_ints(165, 330, 165) },
                    ),
                ),
                axis: Axis::Y,
                angle: cos_sin_degrees(Fixed::from_int(15)),
            },
        ),
        offset: Vec3::from_ints(265, 0, 295),
    }
}

/// The metal block.
pub fn block() -> (r: Shape)
    ensures
        r == spec_block(),
{
    Shape::translate(
        Shape::rotate(
            Axis::Y,
            Shape::Cube(Cube::new(Vec3::from_ints(0, 0, 0), Vec3::from_ints(165, 330, 165))),
            Fixed::from_int(15),
        ),
        Vec3::from_ints(265, 0, 295),
    )
}

/// The shapes of the box scene, in their order: the green wall at X = 555
/// and the red wall at X = 0, the lamp, ceiling, floor and back wall, the
/// glass ball, the metal block. The walls at 555 and the lamp are flipped so
/// that every normal points into the box.
pub open spec fn cornell_shapes() -> Seq<Shape> {
    seq![
        Shape::FlipNormals { child: Box::new(Shape::Rect(spec_wall(Plane::YZ, 555))) },
        Shape::Rect(spec_wall(Plane::YZ, 0)),
        Shape::FlipNormals { child: Box::new(Shape::Rect(spec_lamp())) },
        Shape::FlipNormals { child: Box::new(Shape::Rect(spec_wall(Plane::ZX, 555))) },
        Shape::Rect(spec_wall(Plane::ZX, 0)),
        Shape::FlipNormals { child: Box::new(Shape::Rect(spec_wall(Plane::XY, 555))) },
        Shape::Sphere(spec_ball()),
        spec_block(),
    ]
}

/// The materials of the box scene, in the order of the shapes: diffuse
/// green, red and white walls, a lamp that emits 15 in each colour, glass of
/// index 1.5, and polished aluminium.
pub open spec fn cornell_materials() -> Seq<Surface<ConstantTexture>> {
    let white = Surface::Lambertian(Lambertian { albedo: spec_tint(73, 73, 73) });
    seq![
        Surface::Lambertian(Lambertian { albedo: spec_tint(12, 45, 15) }),
        Surface::Lambertian(Lambertian { albedo: spec_tint(65, 5, 5) }),
        Surface::DiffuseLight(DiffuseLight { emit: spec_tint(1500, 1500, 1500) }),
        white,
        white,
        white,
        Surface::Dielectric(Dielectric { ref_idx: Fixed::ratio(3, 2) }),
        Surface::Metal(Metal { albedo: spec_tint(80, 85, 88).color, fuzz: Fixed::zero() }),
    ]
}

/// Builds the box scene: the world, and the shapes that light is sampled
/// toward, which are the lamp and the glass ball.
pub fn cornell_box() -> (r: (Scene<Surface<ConstantTexture>>, Vec<Shape>))
    ensures
        r.0.objects@.len() == 8,
        forall|i: int|
            0 <= i < 8 ==> (#[trigger] r.0.objects@[i]).shape == cornell_shapes()[i]
                && r.0.objects@[i].material == cornell_materials()[i],
        r.1@ == seq![Shape::Rect(spec_lamp()), Shape::Sphere(spec_ball())],
        crate::integrator::is_physical(&r.0),
{
    let mut world = Scene::new();
    world.push(
        Shape::flip_normals(Shape::Rect(wall(Plane::YZ, 555))),
        Surface::Lambertian(Lambertian::new(tint(12, 45, 15))),
    );
    world.push(Shape::Rect(wall(Plane::YZ, 0)), Surface::Lambertian(Lambertian::new(tint(65, 5, 5))));
    world.push(
        Shape::flip_normals(Shape::Rect(lamp())),
        Surface::DiffuseLight(DiffuseLight::new(tint(1500, 1500, 1500))),
    );
    world.push(
        Shape::flip_normals(Shape::Rect(wall(Plane::ZX, 555))),
        Surface::Lambertian(Lambertian::new(tint(73, 73, 73))),
    );
    world.push(
        Shape::Rect(wall(Plane::ZX, 0)),
        Surface::Lambertian(Lambertian::new(tint(73, 73, 73))),
    );
    world.push(
        Shape::flip_normals(Shape::Rect(wall(Plane::XY, 555))),
        Surface::Lambertian(Lambertian::new(tint(73, 73, 73))),
    );
    world.push(Shape::Sphere(ball()), Surface::Dielectric(Dielectric::new(Fixed::ratio(3, 2))));
    world.push(block(), Surface::Metal(Metal::new(tint(80, 85, 88).color, Fixed::zero())));
    proof {
        lemma_tints_are_light();
        assert forall|i: int| 0 <= i < world.objects@.len() implies (
        #[trigger] world.objects@[i]).material.is_colored_by_light() by {
            assert(world.objects@[i].material == cornell_materials()[i]);
        }
        crate::integrator::lemma_colors_make_physical(&world);
    }
    let mut light_shapes = Vec::new();
    light_shapes.push(Shape::Rect(lamp()));
    light_shapes.push(Shape::Sphere(ball()));
    proof {
        assert(light_shapes@ =~= seq![Shape::Rect(spec_lamp()), Shape::Sphere(spec_ball())]);
    }
    (world, light_shapes)
}

/// Whether a ray starts in or before the box, where the camera stands, and
/// is neither too fast nor too slow: its origin's coordinates lie between
/// -800 and 1000, and its direction has components within 128 and a length
/// of at least one half. Such are the rays of the camera and the rays that
/// surfaces pass on at unit length or at the length they came with.
pub open spec fn is_plain_ray(ray: &Ray) -> bool {
    &&& -13421772800 <= ray.origin.x@ <= 16777216000
    &&& -13421772800 <= ray.origin.y@ <= 16777216000
    &&& -13421772800 <= ray.origin.z@ <= 16777216000
    &&& crate::vec3::is_within(ray.direction, crate::on_sphere::SPEED as int)
    &&& 4 * ray.direction.dot(ray.direction)@ >= crate::fixed::SCALE
}

/// Whether a ray starts inside the box and runs as far as from its origin
/// to a point of the lamp: its origin's coordinates lie between 0 and 555,
/// and its direction has components within 343 along X, 554 along Y and 332
/// along Z, and a length of at least one half. Such are the rays that a
/// surface sends toward the lamp.
pub open spec fn is_ray_to_the_lamp(ray: &Ray) -> bool {
    &&& 0 <= ray.origin.x@ <= 9311354880
    &&& 0 <= ray.origin.y@ <= 9311354880
    &&& 0 <= ray.origin.z@ <= 9311354880
    &&& crate::fixed::magnitude(ray.direction.x@) <= 5754585088
    &&& crate::fixed::magnitude(ray.direction.y@) <= 9294577664
    &&& crate::fixed::magnitude(ray.direction.z@) <= 5570035712
    &&& 4 * ray.direction.dot(ray.direction)@ >= crate::fixed::SCALE
}

/// Whether a ray is one of the two kinds.
pub open spec fn is_ray_of_the_box(ray: &Ray) -> bool {
    is_plain_ray(ray) || is_ray_to_the_lamp(ray)
}

/// The rays of the box are in reach of the glass ball.
pub proof fn lemma_ball_is_in_reach(ray: &Ray)
    requires
        is_ray_of_the_box(ray),
    ensures
        crate::on_sphere::in_reach(&spec_ball(), ray),
{
    let ball = spec_ball();
    assert(crate::fixed::REACH == 0x4_0000_0000 && crate::fixed::SCALE == 16777216);
    if is_plain_ray(ray) {
        assert(crate::on_sphere::in_plain_reach(&ball, ray));
        crate::on_sphere::lemma_plain_reach(&ball, ray);
    } else {
        let oc = ray.origin.sub(ball.center);
        let d = ray.direction;
        crate::fixed::lemma_bounded_product(d.x, d.x, 5754585088, 5754585088);
        crate::fixed::lemma_bounded_product(d.y, d.y, 9294577664, 9294577664);
        crate::fixed::lemma_bounded_product(d.z, d.z, 5570035712, 5570035712);
        crate::fixed::lemma_bounded_product(oc.x, d.x, 6123683840, 5754585088);
        crate::fixed::lemma_bounded_product(oc.y, d.y, 7801405440, 9294577664);
        crate::fixed::lemma_bounded_product(oc.z, d.z, 6123683840, 5570035712);
        crate::fixed::lemma_bounded_product(oc.x, oc.x, 6123683840, 6123683840);
        crate::fixed::lemma_bounded_product(oc.y, oc.y, 7801405440, 7801405440);
        crate::fixed::lemma_bounded_product(oc.z, oc.z, 6123683840, 6123683840);
        crate::fixed::lemma_bounded_product(ball.radius, ball.radius, 1509949440, 1509949440);
        assert(oc.x@ * oc.x@ >= 0 && oc.y@ * oc.y@ >= 0 && oc.z@ * oc.z@ >= 0
            && ball.radius@ * ball.radius@ >= 0) by (nonlinear_arith);
        assert(d.x@ * d.x@ >= 0 && d.y@ * d.y@ >= 0 && d.z@ * d.z@ >= 0) by (nonlinear_arith);
        let a = d.dot(d)@;
        let b = oc.dot(d)@;
        let c = oc.dot(oc).sub(ball.radius.square())@;
        assert(0 <= a <= 534789 * 16777216);
        assert(crate::fixed::magnitude(b) <= 503985 * 16777216);
        assert(crate::fixed::magnitude(c) <= 482675 * 16777216);
        assert(a * crate::fixed::magnitude(c) <= (534789 * 16777216) * (482675 * 16777216))
            by (nonlinear_arith)
            requires
                0 <= a <= 534789 * 16777216,
                crate::fixed::magnitude(c) <= 482675 * 16777216,
        ;
    }
}

/// Where the box scene reports a hit on its glass ball, the hit lies on the
/// ball as far as rounding allows: for every ray of the box and every
/// interval, the squared distance between the reported point and the ball's
/// centre differs from the squared radius by no more than the tolerance, and
/// the reported normal is the vector from the centre to the point, divided
/// by the radius, with a length that differs from one by no more than the
/// tolerance and the rounding of the quotients allow.
pub proof fn law_hits_on_the_ball<M>(
    world: &Scene<M>,
    ray: &Ray,
    t_min: Fixed,
    t_max: Fixed,
)
    requires
        world.objects@.len() == 8,
        world.objects@[6].shape == Shape::Sphere(spec_ball()),
        is_ray_of_the_box(ray),
    ensures
        world.spec_hit(ray, t_min, t_max) matches Some(found) ==> found.index == 6 ==> {
            let ball = spec_ball();
            let rec = found.record;
            let r = ball.radius@;
            let n = rec.normal;
            let s = crate::fixed::SCALE as int;
            let tolerance = crate::on_sphere::tolerance(&ball, ray, rec);
            let spread = crate::fixed::magnitude(rec.p.x@ - ball.center.x@)
                + crate::fixed::magnitude(rec.p.y@ - ball.center.y@) + crate::fixed::magnitude(
                rec.p.z@ - ball.center.z@,
            );
            &&& s * crate::fixed::magnitude(
                crate::on_sphere::squared_distance(rec.p, ball.center) - r * r,
            ) <= tolerance
            &&& n == rec.p.sub(ball.center).shrink(ball.radius)
            &&& (r * r) * crate::fixed::magnitude(n.x@ * n.x@ + n.y@ * n.y@ + n.z@ * n.z@ - s * s)
                <= s * tolerance + r * (3 * r + (2 * s) * spread)
        },
{
    let ball = spec_ball();
    assert(crate::fixed::REACH == 0x4_0000_0000 && crate::fixed::SCALE == 16777216);
    lemma_ball_is_in_reach(ray);
    crate::scene::law_scene_hit_is_nearest(world, ray, t_min, t_max);
    crate::on_sphere::law_hit_point_is_on_sphere(&ball, ray, t_min, t_max);
    crate::on_sphere::law_normal_is_unit(&ball, ray, t_min, t_max);
    if let Some(found) = world.spec_hit(ray, t_min, t_max) {
        if found.index == 6 {
            assert(Shape::Sphere(ball).spec_hit(ray, t_min, t_max) == ball.spec_hit(
                ray,
                t_min,
                t_max,
            ));
        }
    }
}

} // verus!
