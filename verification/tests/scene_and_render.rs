use rest_of_life::fixed::Fixed;
use rest_of_life::fixed::SCALE;
use rest_of_life::hit::near;
use rest_of_life::hit::Found;
use rest_of_life::material::Dielectric;
use rest_of_life::material::Lambertian;
use rest_of_life::material::Surface;
use rest_of_life::ray::Ray;
use rest_of_life::rect::AARect;
use rest_of_life::rect::Plane;
use rest_of_life::render::pixel_at;
use rest_of_life::render::screen_coordinate;
use rest_of_life::render::tone;
use rest_of_life::render::tone_pixel;
use rest_of_life::render::Pixel;
use rest_of_life::render::Rgb;
use rest_of_life::scene::Scene;
use rest_of_life::shape::Shape;
use rest_of_life::sphere::Sphere;
use rest_of_life::texture::ConstantTexture;
use rest_of_life::vec3::Vec3;
use rest_of_life::plain::cell;
use rest_of_life::plain::globe;
use rest_of_life::plain::onward;
use rest_of_life::plain::random_scene;
use rest_of_life::plain::ray_color;
use rest_of_life::plain::CellSample;
use rest_of_life::integrator::BounceSample;
use rest_of_life::material::Material;
use rest_of_life::material::Metal;
use rest_of_life::sampling::Sample;
use rest_of_life::sampling::ScatterSample;
use rest_of_life::hit::HitRecord;

fn to_f64(x: Fixed) -> f64 {
    x.raw as f64 / SCALE as f64
}

fn fx(x: f64) -> Fixed {
    Fixed::from_raw((x * SCALE as f64).round() as i64)
}

fn v(x: f64, y: f64, z: f64) -> Vec3 {
    Vec3::new(fx(x), fx(y), fx(z))
}

fn close(a: Vec3, b: Vec3, tolerance: f64) -> bool {
    (to_f64(a.x) - to_f64(b.x)).abs() < tolerance
        && (to_f64(a.y) - to_f64(b.y)).abs() < tolerance
        && (to_f64(a.z) - to_f64(b.z)).abs() < tolerance
}

fn grey() -> Surface<ConstantTexture> {
    Surface::Lambertian(Lambertian::new(ConstantTexture::new(fx(0.5), fx(0.5), fx(0.5))))
}

fn ball(z: i32) -> Shape {
    Shape::Sphere(Sphere::new(Vec3::from_ints(0, 0, z), Fixed::one()))
}

#[test]
fn the_scene_reports_the_nearest_object() {
    let mut world = Scene::new();
    assert_eq!(world.len(), 0);
    world.push(ball(-10), grey());
    world.push(ball(-4), grey());
    world.push(ball(-7), grey());
    assert_eq!(world.len(), 3);
    let ray = Ray::new(Vec3::zeros(), Vec3::from_ints(0, 0, -1), Fixed::zero());
    let found = world.hit(&ray, near(), Fixed::largest()).unwrap();
    assert_eq!(found.index, 1);
    assert_eq!(found.record.t, Fixed::from_int(3));
    assert_eq!(found.record, ball(-4).hit(&ray, near(), Fixed::largest()).unwrap());
    // Beyond the nearest, the next nearest is found.
    let found = world.hit(&ray, Fixed::from_int(5), Fixed::largest()).unwrap();
    assert_eq!((found.index, found.record.t), (2, Fixed::from_int(6)));
    let found = world.hit(&ray, Fixed::from_int(8), Fixed::largest()).unwrap();
    assert_eq!((found.index, found.record.t), (0, Fixed::from_int(9)));
    assert_eq!(world.hit(&ray, Fixed::from_int(11), Fixed::largest()), None);
    assert_eq!(world.hit(&ray, near(), Fixed::from_int(3)), None);
    let back = Ray::new(Vec3::zeros(), Vec3::from_ints(0, 0, 1), Fixed::zero());
    assert_eq!(world.hit(&back, near(), Fixed::largest()), None);
}

#[test]
fn the_order_of_the_objects_does_not_change_what_is_hit() {
    let ray = Ray::new(Vec3::zeros(), Vec3::from_ints(0, 0, -1), Fixed::zero());
    let orders = [[-10, -4, -7], [-4, -7, -10], [-7, -10, -4], [-10, -7, -4]];
    for order in orders {
        let mut world = Scene::new();
        for z in order {
            world.push(ball(z), grey());
        }
        let found = world.hit(&ray, near(), Fixed::largest()).unwrap();
        assert_eq!(found.record, ball(-4).hit(&ray, near(), Fixed::largest()).unwrap());
        assert_eq!(order[found.index], -4);
    }
}

#[test]
fn of_two_objects_at_one_distance_the_first_is_reported() {
    let mut world = Scene::new();
    let wall = AARect::new(
        Plane::XY,
        Fixed::from_int(-1),
        Fixed::from_int(1),
        Fixed::from_int(-1),
        Fixed::from_int(1),
        Fixed::from_int(-3),
    );
    world.push(ball(-9), grey());
    world.push(Shape::Rect(wall), grey());
    world.push(ball(-4), Surface::Dielectric(Dielectric::new(fx(1.5))));
    let ray = Ray::new(Vec3::zeros(), Vec3::from_ints(0, 0, -1), Fixed::zero());
    let found = world.hit(&ray, near(), Fixed::largest()).unwrap();
    assert_eq!(found, Found { index: 1, record: wall.hit(&ray, near(), Fixed::largest()).unwrap() });
    assert!(matches!(world.material(2), Surface::Dielectric(_)));
    assert!(matches!(world.material(found.index), Surface::Lambertian(_)));
}

#[test]
fn the_scene_reports_the_least_of_its_objects_hits() {
    let mut state = 23u64;
    let mut next = || {
        state = state.wrapping_mul(6364136223846793005).wrapping_add(1442695040888963407);
        ((state >> 11) as f64) / ((1u64 << 53) as f64)
    };
    let mut world = Scene::new();
    let mut shapes = Vec::new();
    for _ in 0..40 {
        let shape = Shape::Sphere(Sphere::new(
            v(20.0 * next() - 10.0, 20.0 * next() - 10.0, 20.0 * next() - 10.0),
            fx(0.5 + 2.0 * next()),
        ));
        shapes.push(shape.clone());
        world.push(shape, grey());
    }
    let mut hits = 0;
    for _ in 0..500 {
        let origin = v(20.0 * next() - 10.0, 20.0 * next() - 10.0, 20.0 * next() - 10.0);
        let ray = Ray::new(origin, v(next() - 0.5, next() - 0.5, next() - 0.5), Fixed::zero());
        let mut best: Option<Found> = None;
        for (i, shape) in shapes.iter().enumerate() {
            if let Some(rec) = shape.hit(&ray, near(), Fixed::largest()) {
                if best.map_or(true, |b| rec.t.raw < b.record.t.raw) {
                    best = Some(Found { index: i, record: rec });
                }
            }
        }
        if best.is_some() {
            hits += 1;
        }
        assert_eq!(world.hit(&ray, near(), Fixed::largest()), best);
    }
    assert!(hits > 100, "hits {}", hits);
}

#[test]
fn pixels_come_row_by_row_from_the_top() {
    assert_eq!(pixel_at(0, 3, 2), Pixel { x: 0, y: 1 });
    assert_eq!(pixel_at(1, 3, 2), Pixel { x: 1, y: 1 });
    assert_eq!(pixel_at(2, 3, 2), Pixel { x: 2, y: 1 });
    assert_eq!(pixel_at(3, 3, 2), Pixel { x: 0, y: 0 });
    assert_eq!(pixel_at(5, 3, 2), Pixel { x: 2, y: 0 });
    assert_eq!(pixel_at(0, 1, 1), Pixel { x: 0, y: 0 });
    let (nx, ny) = (7, 5);
    let mut seen = vec![false; nx * ny];
    for k in 0..nx * ny {
        let p = pixel_at(k, nx, ny);
        assert!(p.x < nx && p.y < ny);
        assert_eq!(k, (ny - 1 - p.y) * nx + p.x);
        assert!(!seen[p.y * nx + p.x]);
        seen[p.y * nx + p.x] = true;
    }
    assert!(seen.iter().all(|s| *s));
}

#[test]
fn screen_coordinates() {
    assert_eq!(screen_coordinate(1, Fixed::half(), 4), fx(0.375));
    assert_eq!(screen_coordinate(0, Fixed::zero(), 500), Fixed::zero());
    assert_eq!(screen_coordinate(3, Fixed::zero(), 4), fx(0.75));
    let last = screen_coordinate(499, Fixed::from_raw(SCALE - 1), 500);
    assert!(last.raw < SCALE && to_f64(last) > 0.999);
}

#[test]
fn tones() {
    assert_eq!(tone(Fixed::zero(), 10), 0);
    assert_eq!(tone(Fixed::from_int(10), 10), 255);
    assert_eq!(tone(Fixed::from_int(1), 4), 127);
    assert_eq!(tone(Fixed::from_int(1), 1), 255);
    assert_eq!(tone(fx(0.0625), 1), 63);
    assert_eq!(tone(Fixed::from_int(900), 100), 255);
    assert_eq!(tone(Fixed::from_int(-5), 10), 0);
    assert_eq!(tone(Fixed::one(), 0), 255);
    assert_eq!(tone(Fixed::zero(), 0), 0);
    let mut before = 0;
    for k in 0..=1000 {
        let byte = tone(Fixed::ratio(k, 1000), 1);
        assert!(byte >= before);
        let expected = (255.99 * (k as f64 / 1000.0).sqrt()) as i32;
        assert!((byte as i32 - expected).abs() <= 1);
        before = byte;
    }
    assert_eq!(
        tone_pixel(Vec3::new(Fixed::zero(), Fixed::from_int(1), Fixed::from_int(4)), 4),
        Rgb { r: 0, g: 127, b: 255 }
    );
}

#[test]
fn the_sky_blends_from_white_to_blue() {
    let up = Ray::new(Vec3::zeros(), Vec3::from_ints(0, 3, 0), Fixed::zero());
    assert_eq!(
        rest_of_life::sky::ray_color(&up),
        Vec3::new(Fixed::half(), Fixed::ratio(7, 10), Fixed::one())
    );
    let down = Ray::new(Vec3::zeros(), Vec3::from_ints(0, -1, 0), Fixed::zero());
    assert_eq!(rest_of_life::sky::ray_color(&down), Vec3::ones());
    let level = Ray::new(Vec3::zeros(), Vec3::from_ints(1, 0, 0), Fixed::zero());
    assert!(close(rest_of_life::sky::ray_color(&level), v(0.75, 0.85, 1.0), 1e-6));
}

#[test]
fn the_plain_renderer_shows_the_sky_where_nothing_is_hit() {
    let mut world = Scene::new();
    world.push(ball(-4), grey());
    let away = Ray::new(Vec3::zeros(), Vec3::from_ints(0, 1, 0), Fixed::zero());
    assert_eq!(ray_color(&away, &world, 50), rest_of_life::sky::ray_color(&away));
    assert_eq!(ray_color(&away, &world, 1), rest_of_life::sky::ray_color(&away));
    assert_eq!(ray_color(&away, &world, 0), Vec3::zeros());
    assert_eq!(ray_color(&away, &world, -3), Vec3::zeros());
    let at = Ray::new(Vec3::zeros(), Vec3::from_ints(0, 0, -1), Fixed::zero());
    assert_eq!(ray_color(&at, &world, 0), Vec3::zeros());
    // One bounce is not enough to reach the sky from the ball.
    assert_eq!(ray_color(&at, &world, 1), Vec3::zeros());
}

#[test]
fn the_plain_renderer_filters_the_sky_by_what_it_bounces_off() {
    let mut world = Scene::new();
    world.push(ball(-4), grey());
    let at = Ray::new(Vec3::zeros(), Vec3::from_ints(0, 0, -1), Fixed::zero());
    let mut sum = Vec3::zeros();
    for _ in 0..2000 {
        let c = ray_color(&at, &world, 50);
        assert!(c.x.raw >= 0 && c.x.raw <= SCALE / 2);
        assert!(c.z.raw >= 0 && c.z.raw <= SCALE / 2);
        sum = sum.add(c);
    }
    // A convex grey ball sends every ray on to the sky: half of its colour.
    let mean = sum.shrink(Fixed::from_int(2000));
    assert!(to_f64(mean.z) > 0.45 && to_f64(mean.z) <= 0.5);
    assert!(to_f64(mean.x) > 0.25 && to_f64(mean.x) < 0.5);
    // A mirror shows the sky filtered by its colour.
    let mut hall: Scene<Surface<ConstantTexture>> = Scene::new();
    let tint = v(0.8, 0.6, 0.2);
    hall.push(
        Shape::Rect(AARect::new(
            Plane::ZX,
            Fixed::from_int(-9),
            Fixed::from_int(9),
            Fixed::from_int(-9),
            Fixed::from_int(9),
            Fixed::zero(),
        )),
        Surface::Metal(Metal::new(tint, Fixed::zero())),
    );
    let ray = Ray::new(Vec3::from_ints(0, 1, 0), Vec3::from_ints(0, -1, 0), Fixed::zero());
    let up = Ray::new(Vec3::zeros(), Vec3::from_ints(0, 1, 0), Fixed::zero());
    assert_eq!(ray_color(&ray, &hall, 50), tint.times(rest_of_life::sky::ray_color(&up)));
}

#[test]
fn a_path_goes_on_as_the_bounce_says() {
    let hit = HitRecord {
        t: Fixed::one(),
        p: Vec3::from_ints(1, 0, 1),
        normal: Vec3::from_ints(0, 1, 0),
        u: Fixed::zero(),
        v: Fixed::zero(),
    };
    let ray = Ray::new(Vec3::from_ints(1, 5, 1), Vec3::from_ints(0, -1, 0), fx(0.5));
    let chance = BounceSample {
        scatter: ScatterSample { offset: Vec3::zeros(), choice: Fixed::half() },
        direction: Sample { pick: Fixed::zero(), u1: Fixed::zero(), u2: Fixed::zero() },
    };
    let tint = v(0.8, 0.6, 0.2);
    let mirror = Metal::new(tint, Fixed::zero());
    let (next, attenuation) =
        onward(mirror.scatter(&ray, &hit, &chance.scatter).unwrap(), hit.p, ray.time, &chance);
    assert_eq!(next, Ray::new(hit.p, Vec3::from_ints(0, 1, 0), fx(0.5)));
    assert_eq!(attenuation, tint);
    let matte = Lambertian::new(ConstantTexture::new(fx(0.5), fx(0.5), fx(0.5)));
    let (next, attenuation) =
        onward(matte.scatter(&ray, &hit, &chance.scatter).unwrap(), hit.p, ray.time, &chance);
    // With both numbers zero the cosine density chooses the normal itself.
    assert_eq!(next, Ray::new(hit.p, Vec3::from_ints(0, 1, 0), fx(0.5)));
    assert_eq!(attenuation, v(0.5, 0.5, 0.5));
}

#[test]
fn cells_of_the_random_scene() {
    let s = CellSample {
        choose_mat: fx(0.5),
        dx: Fixed::half(),
        dz: Fixed::zero(),
        first: v(0.5, 0.5, 1.0),
        second: v(0.5, 0.25, 0.5),
        fuzz: fx(0.4),
    };
    let o = cell(-3, 7, &s).unwrap();
    let center = Vec3::new(
        Fixed::from_int(-3).add(Fixed::ratio(9, 10).mul(Fixed::half())),
        Fixed::ratio(2, 10),
        Fixed::from_int(7),
    );
    assert_eq!(o.shape, Shape::Sphere(Sphere::new(center, Fixed::ratio(2, 10))));
    match o.material {
        Surface::Lambertian(m) => assert_eq!(m.albedo.color, v(0.25, 0.125, 0.5)),
        _ => panic!("a diffuse sphere was expected"),
    }
    let metal = CellSample { choose_mat: fx(0.9), ..s };
    match cell(-3, 7, &metal).unwrap().material {
        Surface::Metal(m) => {
            assert_eq!(m.albedo, v(0.75, 0.75, 1.0));
            assert_eq!(m.fuzz, fx(0.2));
        }
        _ => panic!("a metal sphere was expected"),
    }
    let glass = CellSample { choose_mat: fx(0.97), ..s };
    match cell(-3, 7, &glass).unwrap().material {
        Surface::Dielectric(m) => assert_eq!(m.ref_idx, fx(1.5)),
        _ => panic!("a glass sphere was expected"),
    }
    // The cell where the large metal sphere stands is left empty.
    let at_four = CellSample { dx: Fixed::zero(), dz: Fixed::zero(), ..s };
    assert!(cell(4, 0, &at_four).is_none());
    assert!(cell(3, 0, &CellSample { dx: Fixed::half(), ..at_four }).is_none());
    assert!(cell(3, 0, &at_four).is_some());
    let g = globe(Vec3::from_ints(1, 2, 3), Fixed::one(), grey());
    assert_eq!(g.shape, Shape::Sphere(Sphere::new(Vec3::from_ints(1, 2, 3), Fixed::one())));
}

#[test]
fn the_random_scene_has_ground_small_spheres_and_three_landmarks() {
    let mut sizes = std::collections::HashSet::new();
    for _ in 0..3 {
        let world = random_scene();
        let n = world.len();
        assert!(n >= 4 && n <= 488);
        // Nearly every cell holds a sphere.
        assert!(n > 470);
        sizes.insert(n);
        assert_eq!(
            world.objects[0].shape,
            Shape::Sphere(Sphere::new(Vec3::from_ints(0, -1000, 0), Fixed::from_int(1000)))
        );
        assert!(matches!(world.objects[0].material, Surface::Lambertian(_)));
        let landmarks = [(0, 3), (-4, 2), (4, 1)];
        for (x, back) in landmarks {
            assert_eq!(
                world.objects[n - back].shape,
                Shape::Sphere(Sphere::new(Vec3::from_ints(x, 1, 0), Fixed::one()))
            );
        }
        assert!(matches!(world.objects[n - 3].material, Surface::Dielectric(_)));
        assert!(matches!(world.objects[n - 2].material, Surface::Lambertian(_)));
        assert!(matches!(world.objects[n - 1].material, Surface::Metal(_)));
        let mut kinds = [0, 0, 0];
        let mut last_cell = -1;
        for o in world.objects[1..n - 3].iter() {
            match &o.shape {
                Shape::Sphere(s) => {
                    assert_eq!(s.radius, Fixed::ratio(2, 10));
                    assert_eq!(s.center.y, Fixed::ratio(2, 10));
                    assert!(to_f64(s.center.x) >= -11.0 && to_f64(s.center.x) < 11.0);
                    assert!(to_f64(s.center.z) >= -11.0 && to_f64(s.center.z) < 11.0);
                    // At most one sphere for a cell, the cells row by row.
                    let row = to_f64(s.center.x).floor() as i32 + 11;
                    let column = to_f64(s.center.z).floor() as i32 + 11;
                    assert!(row * 22 + column > last_cell);
                    last_cell = row * 22 + column;
                    let away = s.center.sub(Vec3::new(
                        Fixed::from_int(4),
                        Fixed::ratio(2, 10),
                        Fixed::zero(),
                    ));
                    assert!(away.magnitude().raw > Fixed::ratio(9, 10).raw);
                }
                _ => panic!("a small sphere was expected"),
            }
            match o.material {
                Surface::Lambertian(_) => kinds[0] += 1,
                Surface::Metal(m) => {
                    assert!(m.fuzz.raw >= 0 && m.fuzz.raw < SCALE / 2);
                    for part in [m.albedo.x, m.albedo.y, m.albedo.z] {
                        assert!(part.raw >= SCALE / 2 && part.raw < SCALE);
                    }
                    kinds[1] += 1
                }
                Surface::Dielectric(_) => kinds[2] += 1,
                Surface::DiffuseLight(_) => panic!("no light was expected"),
            }
        }
        assert!(kinds[0] > 300 && kinds[1] > 30 && kinds[2] > 3);
    }
}
