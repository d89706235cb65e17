use rest_of_life::cornell::cornell_box;
use rest_of_life::fixed::Fixed;
use rest_of_life::fixed::SCALE;
use rest_of_life::hit::near;
use rest_of_life::integrator::bounce_pdf;
use rest_of_life::integrator::color;
use rest_of_life::integrator::diffuse_estimate;
use rest_of_life::integrator::specular_estimate;
use rest_of_life::integrator::BounceSample;
use rest_of_life::integrator::MAX_DEPTH;
use rest_of_life::material::Dielectric;
use rest_of_life::material::DiffuseLight;
use rest_of_life::material::Lambertian;
use rest_of_life::material::Metal;
use rest_of_life::material::Surface;
use rest_of_life::pdf::Pdf;
use rest_of_life::ray::Ray;
use rest_of_life::rect::AARect;
use rest_of_life::rect::Plane;
use rest_of_life::render::gather;
use rest_of_life::sampling::in_unit_sphere;
use rest_of_life::scene::Scene;
use rest_of_life::shape::Shape;
use rest_of_life::sphere::Sphere;
use rest_of_life::texture::ConstantTexture;
use rest_of_life::vec3::Vec3;

type Stuff = Surface<ConstantTexture>;

fn to_f64(x: Fixed) -> f64 {
    x.raw as f64 / SCALE as f64
}

fn fx(x: f64) -> Fixed {
    Fixed::from_raw((x * SCALE as f64).round() as i64)
}

fn v(x: f64, y: f64, z: f64) -> Vec3 {
    Vec3::new(fx(x), fx(y), fx(z))
}

fn grey(x: f64) -> Stuff {
    Surface::Lambertian(Lambertian::new(ConstantTexture::new(fx(x), fx(x), fx(x))))
}

fn glow(x: f64) -> Stuff {
    Surface::DiffuseLight(DiffuseLight::new(ConstantTexture::new(fx(x), fx(x), fx(x))))
}

fn square(plane: Plane, from: f64, to: f64, k: f64) -> AARect {
    AARect::new(plane, fx(from), fx(to), fx(from), fx(to), fx(k))
}

/// A closed room from 0 to 10 whose walls all face inward.
fn room() -> Scene<Stuff> {
    let mut world = Scene::new();
    world.push(Shape::Rect(square(Plane::ZX, 0.0, 10.0, 0.0)), grey(0.73));
    world.push(Shape::flip_normals(Shape::Rect(square(Plane::ZX, 0.0, 10.0, 10.0))), grey(0.73));
    world.push(Shape::Rect(square(Plane::YZ, 0.0, 10.0, 0.0)), grey(0.73));
    world.push(Shape::flip_normals(Shape::Rect(square(Plane::YZ, 0.0, 10.0, 10.0))), grey(0.73));
    world.push(Shape::Rect(square(Plane::XY, 0.0, 10.0, 0.0)), grey(0.73));
    world.push(Shape::flip_normals(Shape::Rect(square(Plane::XY, 0.0, 10.0, 10.0))), grey(0.73));
    world
}

/// The lamp of the room: a square just below the ceiling that shines down.
fn room_lamp() -> AARect {
    square(Plane::ZX, 4.0, 6.0, 9.875)
}

fn mean(ray: &Ray, world: &Scene<Stuff>, lights: &Vec<Shape>, samples: i32) -> f64 {
    let mut sum = Vec3::zeros();
    for _ in 0..samples {
        sum = sum.add(color(ray, world, lights, 0));
    }
    let m = sum.shrink(Fixed::from_int(samples));
    (to_f64(m.x) + to_f64(m.y) + to_f64(m.z)) / 3.0
}

#[test]
fn estimates_follow_their_formulas() {
    assert_eq!(
        specular_estimate(v(0.5, 1.0, 2.0), Vec3::from_ints(2, 4, 8)),
        Vec3::from_ints(1, 4, 16)
    );
    let emitted = Vec3::from_ints(1, 1, 1);
    let attenuation = v(0.5, 0.5, 0.5);
    let incoming = Vec3::from_ints(2, 4, 8);
    assert_eq!(
        diffuse_estimate(emitted, attenuation, fx(0.25), incoming, fx(0.5)),
        v(1.5, 2.0, 3.0)
    );
    assert_eq!(
        diffuse_estimate(Vec3::zeros(), Vec3::ones(), Fixed::one(), incoming, Fixed::one()),
        incoming
    );
}

#[test]
fn a_direction_of_no_density_adds_nothing() {
    let emitted = v(0.25, 0.5, 0.75);
    let incoming = Vec3::from_ints(2, 4, 8);
    assert_eq!(
        diffuse_estimate(emitted, Vec3::ones(), Fixed::one(), incoming, Fixed::zero()),
        emitted
    );
    assert_eq!(
        diffuse_estimate(emitted, Vec3::ones(), Fixed::one(), incoming, fx(-1.0)),
        emitted
    );
    let tiny = Fixed::from_raw(1);
    assert_ne!(diffuse_estimate(emitted, Vec3::ones(), Fixed::one(), incoming, tiny), emitted);
}

#[test]
fn drawn_bounce_chance_is_valid() {
    for _ in 0..500 {
        let b = BounceSample::draw();
        assert!(in_unit_sphere(b.scatter.offset));
        for x in [b.scatter.choice, b.direction.pick, b.direction.u1, b.direction.u2] {
            assert!(0 <= x.raw && x.raw < SCALE);
        }
    }
}

#[test]
fn a_bounce_mixes_the_lights_with_the_materials_own_density() {
    let lights = vec![Shape::Rect(room_lamp())];
    let origin = Vec3::from_ints(5, 0, 5);
    let up = Vec3::from_ints(0, 1, 0);
    match bounce_pdf(&lights, origin, Pdf::cosine(up)) {
        Pdf::Mixture { first, second } => {
            assert!(matches!(*first, Pdf::Hittable { .. }));
            assert!(matches!(*second, Pdf::Cosine { .. }));
            assert_eq!(first.value(up), Pdf::hittable(&lights, origin).value(up));
            assert_eq!(second.value(up), Pdf::cosine(up).value(up));
        }
        _ => panic!("a mixture was expected"),
    }
}

#[test]
fn a_ray_that_hits_nothing_brings_no_light() {
    let empty: Scene<Stuff> = Scene::new();
    let lights: Vec<Shape> = Vec::new();
    let ray = Ray::new(Vec3::zeros(), Vec3::from_ints(0, 0, -1), Fixed::zero());
    assert_eq!(color(&ray, &empty, &lights, 0), Vec3::zeros());
    let mut world = Scene::new();
    world.push(Shape::Sphere(Sphere::new(Vec3::from_ints(0, 0, -5), Fixed::one())), glow(15.0));
    let away = Ray::new(Vec3::zeros(), Vec3::from_ints(0, 0, 1), Fixed::zero());
    assert_eq!(color(&away, &world, &lights, 0), Vec3::zeros());
    assert_eq!(world.len(), 1);
}

#[test]
fn a_light_seen_directly_shows_its_emission_from_the_front_only() {
    let mut world = Scene::new();
    world.push(Shape::flip_normals(Shape::Rect(room_lamp())), glow(15.0));
    let lights = vec![Shape::Rect(room_lamp())];
    let from_below = Ray::new(Vec3::from_ints(5, 0, 5), Vec3::from_ints(0, 1, 0), Fixed::zero());
    assert_eq!(color(&from_below, &world, &lights, 0), Vec3::from_ints(15, 15, 15));
    assert_eq!(color(&from_below, &world, &lights, MAX_DEPTH), Vec3::from_ints(15, 15, 15));
    let from_above = Ray::new(Vec3::from_ints(5, 20, 5), Vec3::from_ints(0, -1, 0), Fixed::zero());
    assert_eq!(color(&from_above, &world, &lights, 0), Vec3::zeros());
}

#[test]
fn at_the_cap_a_path_brings_what_the_surface_emits() {
    let mut world = room();
    world.push(Shape::flip_normals(Shape::Rect(room_lamp())), glow(15.0));
    let lights = vec![Shape::Rect(room_lamp())];
    let onto_floor = Ray::new(Vec3::from_ints(5, 5, 5), Vec3::from_ints(0, -1, 0), Fixed::zero());
    for _ in 0..20 {
        assert_eq!(color(&onto_floor, &world, &lights, MAX_DEPTH), Vec3::zeros());
        assert_eq!(color(&onto_floor, &world, &lights, MAX_DEPTH + 7), Vec3::zeros());
    }
    // One bounce before the cap the lamp can still be found from the floor.
    let mut lit = 0;
    for _ in 0..200 {
        if color(&onto_floor, &world, &lights, MAX_DEPTH - 1) != Vec3::zeros() {
            lit += 1;
        }
    }
    assert!(lit > 50);
}

#[test]
fn a_mirror_passes_on_what_it_sees_filtered_by_its_colour() {
    let mut world = Scene::new();
    let tint = v(0.8, 0.5, 0.25);
    world.push(
        Shape::Rect(square(Plane::ZX, -10.0, 10.0, 0.0)),
        Surface::Metal(Metal::new(tint, Fixed::zero())),
    );
    world.push(Shape::flip_normals(Shape::Rect(square(Plane::ZX, -10.0, 10.0, 8.0))), glow(2.0));
    let lights = vec![Shape::Rect(square(Plane::ZX, -10.0, 10.0, 8.0))];
    let ray = Ray::new(Vec3::from_ints(0, 4, 0), Vec3::from_ints(1, -4, 0), Fixed::zero());
    assert_eq!(color(&ray, &world, &lights, 0), tint.times(Vec3::from_ints(2, 2, 2)));
}

#[test]
fn glass_passes_light_on_unfiltered() {
    let mut world = Scene::new();
    world.push(
        Shape::Sphere(Sphere::new(Vec3::from_ints(0, 0, -5), Fixed::one())),
        Surface::Dielectric(Dielectric::new(fx(1.5))),
    );
    world.push(Shape::Rect(square(Plane::XY, -10.0, 10.0, -20.0)), glow(3.0));
    world.push(Shape::flip_normals(Shape::Rect(square(Plane::XY, -10.0, 10.0, 20.0))), glow(3.0));
    let lights = vec![Shape::Rect(square(Plane::XY, -10.0, 10.0, -20.0))];
    // Through the centre of the ball the ray is either passed or sent back;
    // a lamp of the same brightness waits at either end.
    let ray = Ray::new(Vec3::zeros(), Vec3::from_ints(0, 0, -1), Fixed::zero());
    for _ in 0..200 {
        assert_eq!(color(&ray, &world, &lights, 0), Vec3::from_ints(3, 3, 3));
    }
}

#[test]
fn a_scene_without_lights_is_black() {
    let world = room();
    let none: Vec<Shape> = Vec::new();
    let dummy = vec![Shape::Rect(room_lamp())];
    let mut state = 5u64;
    for _ in 0..40 {
        let mut next = || {
            state = state.wrapping_mul(6364136223846793005).wrapping_add(1442695040888963407);
            ((state >> 11) as f64) / ((1u64 << 53) as f64) - 0.5
        };
        let ray = Ray::new(Vec3::from_ints(5, 5, 5), v(next(), next(), next()), Fixed::zero());
        assert!(world.hit(&ray, near(), Fixed::largest()).is_some());
        assert_eq!(color(&ray, &world, &none, MAX_DEPTH - 40), Vec3::zeros());
        assert_eq!(color(&ray, &world, &dummy, MAX_DEPTH - 40), Vec3::zeros());
    }
    let rays = vec![
        Ray::new(Vec3::from_ints(5, 5, 5), Vec3::from_ints(0, -1, 0), Fixed::zero()),
        Ray::new(Vec3::from_ints(5, 5, 5), Vec3::from_ints(1, 2, 3), Fixed::zero()),
    ];
    assert_eq!(gather(&rays, &world, &dummy), Vec3::zeros());
}

#[test]
fn light_that_is_not_seen_directly_arrives_by_bounces() {
    let mut world = room();
    world.push(Shape::flip_normals(Shape::Rect(room_lamp())), glow(15.0));
    let lights = vec![Shape::Rect(room_lamp())];
    // The ray meets the ceiling beside the lamp. From there only the lamp's
    // dark back can be seen, so all light takes two bounces or more.
    let ray = Ray::new(Vec3::from_ints(5, 5, 5), Vec3::from_ints(-3, 5, -3), Fixed::zero());
    let found = world.hit(&ray, near(), Fixed::largest()).unwrap();
    assert_eq!(found.index, 1);
    assert_eq!(found.record.p, Vec3::from_ints(2, 10, 2));
    let brightness = mean(&ray, &world, &lights, 3000);
    assert!(brightness > 0.01, "brightness {}", brightness);
    // By one bounce, onto the floor below the lamp, more light arrives.
    let onto_floor = Ray::new(Vec3::from_ints(5, 5, 5), Vec3::from_ints(0, -1, 0), Fixed::zero());
    let direct = mean(&onto_floor, &world, &lights, 3000);
    assert!(direct > brightness, "{} {}", direct, brightness);
}

#[test]
fn a_lit_sphere_is_brightest_below_the_lamp() {
    let mut world = Scene::new();
    world.push(
        Shape::Sphere(Sphere::new(Vec3::from_ints(0, -50, 0), Fixed::from_int(50))),
        grey(0.73),
    );
    let lamp = square(Plane::ZX, -1.0, 1.0, 10.0);
    world.push(Shape::flip_normals(Shape::Rect(lamp)), glow(15.0));
    let lights = vec![Shape::Rect(lamp)];
    // Rays that meet the sphere head-on at 0, 15 and 30 degrees from its top.
    let toward = |degrees: f64| {
        let a = degrees.to_radians();
        let normal = v(a.sin(), a.cos(), 0.0);
        let point = v(50.0 * a.sin(), 50.0 * a.cos() - 50.0, 0.0);
        Ray::new(point.add(normal.scale(Fixed::from_int(3))), normal.neg(), Fixed::zero())
    };
    let samples = 4000;
    let below = mean(&toward(0.0), &world, &lights, samples);
    let beside = mean(&toward(15.0), &world, &lights, samples);
    let far = mean(&toward(30.0), &world, &lights, samples);
    assert!(below > 2.0 * beside, "{} {}", below, beside);
    assert!(beside > 2.0 * far, "{} {}", beside, far);
    assert!(far >= 0.0);
    // Directly below, the lamp of area 4 at distance 10 gives about
    // 0.73 * 15 * 4 / (pi * 100).
    let expected = 0.73 * 15.0 * 4.0 / (std::f64::consts::PI * 100.0);
    assert!((below - expected).abs() < 0.15 * expected, "{} {}", below, expected);
    // Another run, with other chance, gives the same mean within tolerance.
    let again = mean(&toward(0.0), &world, &lights, samples);
    assert!((again - below).abs() < 0.15 * expected, "{} {}", again, below);
}

#[test]
fn no_estimate_is_negative() {
    let (world, lights) = cornell_box();
    let mut state = 17u64;
    let mut lit = 0;
    for _ in 0..3000 {
        let mut next = || {
            state = state.wrapping_mul(6364136223846793005).wrapping_add(1442695040888963407);
            ((state >> 11) as f64) / ((1u64 << 53) as f64)
        };
        let aim = v(555.0 * next(), 555.0 * next(), 555.0 * next());
        let origin = v(278.0, 278.0, -800.0);
        let ray = Ray::new(origin, aim.sub(origin), Fixed::zero());
        let c = color(&ray, &world, &lights, 0);
        assert!(c.x.raw >= 0 && c.y.raw >= 0 && c.z.raw >= 0);
        if c != Vec3::zeros() {
            lit += 1;
        }
    }
    assert!(lit > 300, "lit {}", lit);
}

#[test]
fn estimates_add_up_in_the_order_of_the_rays() {
    let mut world = Scene::new();
    world.push(Shape::flip_normals(Shape::Rect(room_lamp())), glow(15.0));
    let lights = vec![Shape::Rect(room_lamp())];
    let seen = Ray::new(Vec3::from_ints(5, 0, 5), Vec3::from_ints(0, 1, 0), Fixed::zero());
    let unseen = Ray::new(Vec3::from_ints(5, 0, 5), Vec3::from_ints(0, -1, 0), Fixed::zero());
    let none: Vec<Ray> = Vec::new();
    assert_eq!(gather(&none, &world, &lights), Vec3::zeros());
    assert_eq!(gather(&vec![seen], &world, &lights), Vec3::from_ints(15, 15, 15));
    assert_eq!(gather(&vec![seen, unseen, seen], &world, &lights), Vec3::from_ints(30, 30, 30));
}

#[test]
fn the_box_scene_holds_its_eight_objects_and_two_targets() {
    let (world, lights) = cornell_box();
    assert_eq!(world.len(), 8);
    assert_eq!(lights.len(), 2);
    let lamp = AARect::new(
        Plane::ZX,
        Fixed::from_int(227),
        Fixed::from_int(332),
        Fixed::from_int(213),
        Fixed::from_int(343),
        Fixed::from_int(554),
    );
    let ball = Sphere::new(Vec3::from_ints(190, 90, 190), Fixed::from_int(90));
    assert_eq!(lights[0], Shape::Rect(lamp));
    assert_eq!(lights[1], Shape::Sphere(ball));
    assert_eq!(world.objects[2].shape, Shape::flip_normals(Shape::Rect(lamp)));
    assert_eq!(world.objects[6].shape, Shape::Sphere(ball));
    assert!(matches!(world.objects[0].material, Surface::Lambertian(_)));
    assert!(matches!(world.objects[2].material, Surface::DiffuseLight(_)));
    assert!(matches!(world.objects[6].material, Surface::Dielectric(_)));
    assert!(matches!(world.objects[7].material, Surface::Metal(_)));
    assert!(matches!(world.objects[7].shape, Shape::Translate { .. }));
    match world.material(1) {
        Surface::Lambertian(m) => assert_eq!(
            m.albedo.color,
            Vec3::new(Fixed::ratio(65, 100), Fixed::ratio(5, 100), Fixed::ratio(5, 100))
        ),
        _ => panic!("the red wall was expected"),
    }
    match world.material(6) {
        Surface::Dielectric(m) => assert_eq!(m.ref_idx, fx(1.5)),
        _ => panic!("the glass ball was expected"),
    }
}

#[test]
fn the_box_scene_is_lit_by_its_lamp() {
    let (world, lights) = cornell_box();
    let up = Ray::new(Vec3::from_ints(278, 278, 278), Vec3::from_ints(0, 1, 0), Fixed::zero());
    let found = world.hit(&up, near(), Fixed::largest()).unwrap();
    assert_eq!(found.index, 2);
    assert_eq!(found.record.t, Fixed::from_int(276));
    assert_eq!(found.record.normal, Vec3::from_ints(0, -1, 0));
    assert_eq!(color(&up, &world, &lights, 0), Vec3::from_ints(15, 15, 15));
    // From the camera's side, the back wall is seen lit above the block.
    let ahead = Ray::new(Vec3::from_ints(278, 400, -800), Vec3::from_ints(0, 0, 1), Fixed::zero());
    let found = world.hit(&ahead, near(), Fixed::largest()).unwrap();
    assert_eq!(found.index, 5);
    assert_eq!(found.record.p, Vec3::from_ints(278, 400, 555));
    let brightness = mean(&ahead, &world, &lights, 300);
    assert!(brightness > 0.05 && brightness < 5.0, "brightness {}", brightness);
    // The block is met on its way.
    let low = Ray::new(Vec3::from_ints(350, 100, -800), Vec3::from_ints(0, 0, 1), Fixed::zero());
    assert_eq!(world.hit(&low, near(), Fixed::largest()).unwrap().index, 7);
}

#[test]
fn transforms_that_do_nothing_leave_the_scene_as_it_is() {
    let (world, lights) = cornell_box();
    let (plain, _) = cornell_box();
    let mut wrapped: Scene<Stuff> = Scene::new();
    for (i, o) in plain.objects.into_iter().enumerate() {
        let degrees = if i % 2 == 0 { Fixed::zero() } else { Fixed::from_int(360) };
        let axis = match i % 3 {
            0 => rest_of_life::shape::Axis::X,
            1 => rest_of_life::shape::Axis::Y,
            _ => rest_of_life::shape::Axis::Z,
        };
        wrapped.push(
            Shape::translate(Shape::rotate(axis, o.shape, degrees), Vec3::zeros()),
            o.material,
        );
    }
    let mut state = 83u64;
    let mut seen = [false; 8];
    for _ in 0..3000 {
        let mut next = || {
            state = state.wrapping_mul(6364136223846793005).wrapping_add(1442695040888963407);
            ((state >> 11) as f64) / ((1u64 << 53) as f64)
        };
        let aim = v(555.0 * next(), 555.0 * next(), 555.0 * next());
        let origin = v(278.0, 278.0, -800.0);
        let ray = Ray::new(origin, aim.sub(origin), Fixed::zero());
        let expected = world.hit(&ray, near(), Fixed::largest());
        assert_eq!(wrapped.hit(&ray, near(), Fixed::largest()), expected);
        if let Some(found) = expected {
            seen[found.index] = true;
        }
        // Where the path ends at once, the colour is the same too.
        assert_eq!(
            color(&ray, &wrapped, &lights, MAX_DEPTH),
            color(&ray, &world, &lights, MAX_DEPTH)
        );
    }
    assert!(seen.iter().filter(|s| **s).count() >= 6);
}
