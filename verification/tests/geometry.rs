use rest_of_life::cube::Cube;
use rest_of_life::fixed::Fixed;
use rest_of_life::fixed::SCALE;
use rest_of_life::hit::near;
use rest_of_life::hit::restrict;
use rest_of_life::hit::HitRecord;
use rest_of_life::ray::Ray;
use rest_of_life::rect::AARect;
use rest_of_life::rect::Plane;
use rest_of_life::sphere::Roots;
use rest_of_life::sphere::Sphere;
use rest_of_life::vec3::Vec3;

fn to_f64(x: Fixed) -> f64 {
    x.raw as f64 / SCALE as f64
}

fn fx(x: f64) -> Fixed {
    Fixed::from_raw((x * SCALE as f64).round() as i64)
}

fn v(x: f64, y: f64, z: f64) -> Vec3 {
    Vec3::new(fx(x), fx(y), fx(z))
}

fn close(a: Vec3, b: Vec3, tolerance: f64) -> bool {
    (to_f64(a.x) - to_f64(b.x)).abs() < tolerance
        && (to_f64(a.y) - to_f64(b.y)).abs() < tolerance
        && (to_f64(a.z) - to_f64(b.z)).abs() < tolerance
}

/// A small generator of its own, so that the rays are the same in every run.
fn next(state: &mut u64) -> f64 {
    *state = state.wrapping_mul(6364136223846793005).wrapping_add(1442695040888963407);
    ((*state >> 11) as f64) / ((1u64 << 53) as f64)
}

#[test]
fn vector_arithmetic() {
    let a = Vec3::from_ints(1, 2, 3);
    let b = Vec3::from_ints(4, -5, 6);
    assert_eq!(a.add(b), Vec3::from_ints(5, -3, 9));
    assert_eq!(a.sub(b), Vec3::from_ints(-3, 7, -3));
    assert_eq!(a.neg(), Vec3::from_ints(-1, -2, -3));
    assert_eq!(a.scale(Fixed::from_int(2)), Vec3::from_ints(2, 4, 6));
    assert_eq!(a.shrink(Fixed::from_int(2)), v(0.5, 1.0, 1.5));
    assert_eq!(a.times(b), Vec3::from_ints(4, -10, 18));
    assert_eq!(a.dot(b), Fixed::from_int(12));
    assert_eq!(a.cross(b), Vec3::from_ints(27, 6, -13));
    assert_eq!(a.magnitude_squared(), Fixed::from_int(14));
    assert_eq!(Vec3::from_ints(3, 4, 0).magnitude(), Fixed::from_int(5));
    assert_eq!(Vec3::from_ints(0, 7, 0).normalize(), Vec3::from_ints(0, 1, 0));
    assert_eq!(Vec3::zeros().normalize(), Vec3::zeros());
    assert_eq!(Vec3::ones(), Vec3::from_ints(1, 1, 1));
}

#[test]
fn ray_reaches_its_points() {
    let ray = Ray::new(Vec3::from_ints(1, 2, 3), Vec3::from_ints(0, 0, -2), fx(0.25));
    assert_eq!(ray.origin(), Vec3::from_ints(1, 2, 3));
    assert_eq!(ray.direction(), Vec3::from_ints(0, 0, -2));
    assert_eq!(ray.time(), fx(0.25));
    assert_eq!(ray.point_at(Fixed::from_int(2)), Vec3::from_ints(1, 2, -1));
    assert_eq!(ray.point_at(Fixed::zero()), Vec3::from_ints(1, 2, 3));
}

#[test]
fn sphere_hit_head_on() {
    let sphere = Sphere::new(Vec3::from_ints(0, 0, -3), Fixed::one());
    let ray = Ray::new(Vec3::zeros(), Vec3::from_ints(0, 0, -1), Fixed::zero());
    assert_eq!(
        sphere.roots(&ray),
        Some(Roots { near: Fixed::from_int(2), far: Fixed::from_int(4) })
    );
    let rec = sphere.hit(&ray, near(), Fixed::largest()).unwrap();
    assert_eq!(rec.t, Fixed::from_int(2));
    assert_eq!(rec.p, Vec3::from_ints(0, 0, -2));
    assert_eq!(rec.normal, Vec3::from_ints(0, 0, 1));
    assert_eq!(rec.u, Fixed::zero());
    assert_eq!(rec.v, Fixed::zero());
}

#[test]
fn sphere_hit_takes_the_far_root_from_inside() {
    let sphere = Sphere::new(Vec3::from_ints(0, 0, -3), Fixed::one());
    let inside = Ray::new(Vec3::from_ints(0, 0, -3), Vec3::from_ints(0, 0, -1), Fixed::zero());
    let rec = sphere.hit(&inside, near(), Fixed::largest()).unwrap();
    assert_eq!(rec.t, Fixed::one());
    assert_eq!(rec.p, Vec3::from_ints(0, 0, -4));
    assert_eq!(rec.normal, Vec3::from_ints(0, 0, -1));
}

#[test]
fn sphere_hit_respects_the_interval() {
    let sphere = Sphere::new(Vec3::from_ints(0, 0, -3), Fixed::one());
    let ray = Ray::new(Vec3::zeros(), Vec3::from_ints(0, 0, -1), Fixed::zero());
    // The near root at 2 is excluded, the far root at 4 is taken.
    let rec = sphere.hit(&ray, Fixed::from_int(2), Fixed::largest()).unwrap();
    assert_eq!(rec.t, Fixed::from_int(4));
    // Both ends are open.
    assert_eq!(sphere.hit(&ray, Fixed::from_int(2), Fixed::from_int(4)), None);
    assert_eq!(sphere.hit(&ray, near(), Fixed::from_int(2)), None);
    assert_eq!(sphere.hit(&ray, Fixed::from_int(4), Fixed::largest()), None);
}

#[test]
fn sphere_is_missed() {
    let sphere = Sphere::new(Vec3::from_ints(0, 0, -3), Fixed::one());
    let beside = Ray::new(Vec3::zeros(), Vec3::from_ints(0, 1, 0), Fixed::zero());
    assert_eq!(sphere.roots(&beside), None);
    assert_eq!(sphere.hit(&beside, near(), Fixed::largest()), None);
    let away = Ray::new(Vec3::zeros(), Vec3::from_ints(0, 0, 1), Fixed::zero());
    assert_eq!(sphere.hit(&away, near(), Fixed::largest()), None);
    let nowhere = Ray::new(Vec3::zeros(), Vec3::zeros(), Fixed::zero());
    assert_eq!(sphere.hit(&nowhere, near(), Fixed::largest()), None);
    // A tangent ray has a discriminant of zero and counts as a miss.
    let tangent = Ray::new(Vec3::from_ints(0, 1, 0), Vec3::from_ints(0, 0, -1), Fixed::zero());
    assert_eq!(sphere.hit(&tangent, near(), Fixed::largest()), None);
}

#[test]
fn sphere_hit_points_lie_on_the_sphere() {
    let center = v(190.0, 90.0, 190.0);
    let sphere = Sphere::new(center, fx(90.0));
    let mut state = 7u64;
    let mut hits = 0;
    for _ in 0..2000 {
        let origin = v(
            600.0 * next(&mut state) - 100.0,
            600.0 * next(&mut state) - 100.0,
            -300.0 * next(&mut state) - 100.0,
        );
        let aim = v(
            190.0 + 200.0 * (next(&mut state) - 0.5),
            90.0 + 200.0 * (next(&mut state) - 0.5),
            190.0 + 200.0 * (next(&mut state) - 0.5),
        );
        let ray = Ray::new(origin, aim.sub(origin).normalize(), Fixed::zero());
        if let Some(rec) = sphere.hit(&ray, near(), Fixed::largest()) {
            hits += 1;
            let radial = rec.p.sub(center);
            assert!((to_f64(radial.magnitude()) - 90.0).abs() < 1e-2);
            assert!((to_f64(rec.normal.magnitude()) - 1.0).abs() < 1e-3);
            assert_eq!(rec.normal, radial.shrink(fx(90.0)));
            assert!(to_f64(rec.normal.cross(radial).magnitude()) < 1e-2);
            assert_eq!(rec.p, ray.point_at(rec.t));
            assert!(rec.t.raw > near().raw);
        }
    }
    assert!(hits > 500);
}

#[test]
fn rectangle_hit_and_texture_coordinates() {
    let rect = AARect::new(
        Plane::XY,
        Fixed::from_int(0),
        Fixed::from_int(4),
        Fixed::from_int(0),
        Fixed::from_int(2),
        Fixed::from_int(-5),
    );
    let ray = Ray::new(Vec3::from_ints(1, 1, 0), Vec3::from_ints(0, 0, -1), Fixed::zero());
    let rec = rect.hit(&ray, near(), Fixed::largest()).unwrap();
    assert_eq!(
        rec,
        HitRecord {
            t: Fixed::from_int(5),
            p: Vec3::from_ints(1, 1, -5),
            normal: Vec3::from_ints(0, 0, 1),
            u: fx(0.25),
            v: fx(0.5),
        }
    );
    assert_eq!(rect.candidate(&ray), Some(rec));
    assert_eq!(rect.area(), Fixed::from_int(8));
    assert_eq!(rect.point(fx(0.25), fx(0.5)), Vec3::from_ints(1, 1, -5));
    // Outside the first range, outside the second range.
    let left = Ray::new(Vec3::from_ints(-1, 1, 0), Vec3::from_ints(0, 0, -1), Fixed::zero());
    assert_eq!(rect.hit(&left, near(), Fixed::largest()), None);
    let above = Ray::new(Vec3::from_ints(1, 3, 0), Vec3::from_ints(0, 0, -1), Fixed::zero());
    assert_eq!(rect.hit(&above, near(), Fixed::largest()), None);
    // On the border counts as inside.
    let border = Ray::new(Vec3::from_ints(4, 2, 0), Vec3::from_ints(0, 0, -1), Fixed::zero());
    assert!(rect.hit(&border, near(), Fixed::largest()).is_some());
}

#[test]
fn rectangle_hit_respects_the_interval() {
    let rect = AARect::new(
        Plane::XY,
        Fixed::from_int(0),
        Fixed::from_int(4),
        Fixed::from_int(0),
        Fixed::from_int(2),
        Fixed::from_int(-5),
    );
    let ray = Ray::new(Vec3::from_ints(1, 1, 0), Vec3::from_ints(0, 0, -1), Fixed::zero());
    assert_eq!(rect.hit(&ray, near(), Fixed::from_int(5)), None);
    assert_eq!(rect.hit(&ray, Fixed::from_int(5), Fixed::largest()), None);
    assert!(rect.hit(&ray, near(), Fixed::from_int(6)).is_some());
    let rec = rect.candidate(&ray);
    assert_eq!(restrict(rec, near(), Fixed::from_int(5)), None);
    assert_eq!(restrict(rec, near(), Fixed::from_int(6)), rec);
    assert_eq!(restrict(None, near(), Fixed::from_int(6)), None);
}

#[test]
fn rectangle_is_missed_by_parallel_and_receding_rays() {
    let rect = AARect::new(
        Plane::ZX,
        Fixed::from_int(0),
        Fixed::from_int(4),
        Fixed::from_int(0),
        Fixed::from_int(4),
        Fixed::from_int(3),
    );
    let parallel = Ray::new(Vec3::from_ints(1, 0, 1), Vec3::from_ints(1, 0, 0), Fixed::zero());
    assert_eq!(rect.hit(&parallel, near(), Fixed::largest()), None);
    let within = Ray::new(Vec3::from_ints(1, 3, 1), Vec3::from_ints(1, 0, 0), Fixed::zero());
    assert_eq!(rect.hit(&within, near(), Fixed::largest()), None);
    let receding = Ray::new(Vec3::from_ints(1, 0, 1), Vec3::from_ints(0, -1, 0), Fixed::zero());
    assert_eq!(rect.hit(&receding, near(), Fixed::largest()), None);
    let toward = Ray::new(Vec3::from_ints(1, 0, 2), Vec3::from_ints(0, 1, 0), Fixed::zero());
    let rec = rect.hit(&toward, near(), Fixed::largest()).unwrap();
    assert_eq!(rec.t, Fixed::from_int(3));
    assert_eq!(rec.normal, Vec3::from_ints(0, 1, 0));
    // The first range of a ZX rectangle runs along Z.
    assert_eq!(rec.u, fx(0.5));
    assert_eq!(rec.v, fx(0.25));
}

#[test]
fn planes_name_their_axes() {
    let p = Vec3::from_ints(1, 2, 3);
    assert_eq!(Plane::XY.first(p), Fixed::from_int(1));
    assert_eq!(Plane::XY.second(p), Fixed::from_int(2));
    assert_eq!(Plane::XY.across(p), Fixed::from_int(3));
    assert_eq!(Plane::YZ.first(p), Fixed::from_int(2));
    assert_eq!(Plane::YZ.second(p), Fixed::from_int(3));
    assert_eq!(Plane::YZ.across(p), Fixed::from_int(1));
    assert_eq!(Plane::ZX.first(p), Fixed::from_int(3));
    assert_eq!(Plane::ZX.second(p), Fixed::from_int(1));
    assert_eq!(Plane::ZX.across(p), Fixed::from_int(2));
    let a = Fixed::from_int(7);
    let b = Fixed::from_int(8);
    let k = Fixed::from_int(9);
    assert_eq!(Plane::XY.compose(a, b, k), Vec3::from_ints(7, 8, 9));
    assert_eq!(Plane::YZ.compose(a, b, k), Vec3::from_ints(9, 7, 8));
    assert_eq!(Plane::ZX.compose(a, b, k), Vec3::from_ints(8, 9, 7));
    assert_eq!(Plane::XY.normal(), Vec3::from_ints(0, 0, 1));
    assert_eq!(Plane::YZ.normal(), Vec3::from_ints(1, 0, 0));
    assert_eq!(Plane::ZX.normal(), Vec3::from_ints(0, 1, 0));
}

#[test]
fn cube_reports_the_nearest_face_with_an_outward_normal() {
    let cube = Cube::new(Vec3::from_ints(0, 0, 0), Vec3::from_ints(2, 2, 2));
    let from_front = Ray::new(Vec3::from_ints(1, 1, 5), Vec3::from_ints(0, 0, -1), Fixed::zero());
    let rec = cube.hit(&from_front, near(), Fixed::largest()).unwrap();
    assert_eq!(rec.t, Fixed::from_int(3));
    assert_eq!(rec.p, Vec3::from_ints(1, 1, 2));
    assert_eq!(rec.normal, Vec3::from_ints(0, 0, 1));
    let from_behind = Ray::new(Vec3::from_ints(1, 1, -5), Vec3::from_ints(0, 0, 1), Fixed::zero());
    let rec = cube.hit(&from_behind, near(), Fixed::largest()).unwrap();
    assert_eq!(rec.t, Fixed::from_int(5));
    assert_eq!(rec.normal, Vec3::from_ints(0, 0, -1));
    let from_left = Ray::new(Vec3::from_ints(-1, 1, 1), Vec3::from_ints(1, 0, 0), Fixed::zero());
    let rec = cube.hit(&from_left, near(), Fixed::largest()).unwrap();
    assert_eq!(rec.t, Fixed::one());
    assert_eq!(rec.normal, Vec3::from_ints(-1, 0, 0));
    let from_above = Ray::new(Vec3::from_ints(1, 9, 1), Vec3::from_ints(0, -1, 0), Fixed::zero());
    let rec = cube.hit(&from_above, near(), Fixed::largest()).unwrap();
    assert_eq!(rec.t, Fixed::from_int(7));
    assert_eq!(rec.normal, Vec3::from_ints(0, 1, 0));
    // From inside, the face ahead is hit.
    let inside = Ray::new(Vec3::from_ints(1, 1, 1), Vec3::from_ints(1, 0, 0), Fixed::zero());
    let rec = cube.hit(&inside, near(), Fixed::largest()).unwrap();
    assert_eq!(rec.t, Fixed::one());
    assert_eq!(rec.normal, Vec3::from_ints(1, 0, 0));
    let past = Ray::new(Vec3::from_ints(5, 5, 5), Vec3::from_ints(0, 0, -1), Fixed::zero());
    assert_eq!(cube.hit(&past, near(), Fixed::largest()), None);
}

#[test]
fn cube_faces() {
    let cube = Cube::new(Vec3::from_ints(1, 2, 3), Vec3::from_ints(4, 6, 8));
    let top = cube.face(2);
    assert_eq!(top.plane, Plane::ZX);
    assert_eq!(top.k, Fixed::from_int(6));
    assert_eq!((top.a0, top.a1), (Fixed::from_int(3), Fixed::from_int(8)));
    assert_eq!((top.b0, top.b1), (Fixed::from_int(1), Fixed::from_int(4)));
    assert_eq!(cube.face(3).k, Fixed::from_int(2));
    assert_eq!(cube.face(0).k, Fixed::from_int(8));
    assert_eq!(cube.face(1).k, Fixed::from_int(3));
    assert_eq!(cube.face(4).k, Fixed::from_int(4));
    assert_eq!(cube.face(5).k, Fixed::from_int(1));
    let ray = Ray::new(Vec3::from_ints(2, 9, 5), Vec3::from_ints(0, -1, 0), Fixed::zero());
    let up = cube.face_hit(2, &ray, near(), Fixed::largest()).unwrap();
    let down = cube.face_hit(3, &ray, near(), Fixed::largest()).unwrap();
    assert_eq!(up.normal, Vec3::from_ints(0, 1, 0));
    assert_eq!(down.normal, Vec3::from_ints(0, -1, 0));
    assert_eq!(up.t, Fixed::from_int(3));
    assert_eq!(down.t, Fixed::from_int(7));
    assert_eq!(cube.hit(&ray, near(), Fixed::largest()), Some(up));
    assert!(close(up.p, v(2.0, 6.0, 5.0), 1e-9));
}

#[test]
fn rounding_keeps_hit_points_within_the_tolerance() {
    let scale = SCALE as i128;
    let mut state = 41u64;
    let mut hits = 0;
    let mut fast_hits = 0;
    let mut worst: f64 = 0.0;
    for round in 0..6000 {
        let center = v(
            1000.0 * next(&mut state) - 500.0,
            1000.0 * next(&mut state) - 500.0,
            1000.0 * next(&mut state) - 500.0,
        );
        let radius = fx(0.01 + 300.0 * next(&mut state) * next(&mut state));
        let sphere = Sphere::new(center, radius);
        let origin = v(
            1000.0 * next(&mut state) - 500.0,
            1000.0 * next(&mut state) - 500.0,
            1000.0 * next(&mut state) - 500.0,
        );
        let aim = center.add(v(
            0.6 * to_f64(radius) * (2.0 * next(&mut state) - 1.0),
            0.6 * to_f64(radius) * (2.0 * next(&mut state) - 1.0),
            0.6 * to_f64(radius) * (2.0 * next(&mut state) - 1.0),
        ));
        // Speeds from a little over one half to a thousand, slow and fast alike.
        let speed = if round % 2 == 0 {
            fx(0.6 + 3.0 * next(&mut state))
        } else {
            fx(0.6 * (1600.0f64).powf(next(&mut state)))
        };
        let direction = aim.sub(origin).normalize().scale(speed);
        let ray = Ray::new(origin, direction, Fixed::zero());
        let a = direction.dot(direction);
        assert!(4 * a.raw >= SCALE);
        let oc = origin.sub(center);
        let b = oc.dot(direction);
        let c = oc.dot(oc).sub(radius.square());
        // What is in reach: the origin within 1024 of the centre, the
        // direction within 1024, and coefficients whose products can be held.
        let fast = direction.x.raw.abs().max(direction.y.raw.abs()).max(direction.z.raw.abs());
        let apart = oc.x.raw.abs().max(oc.y.raw.abs()).max(oc.z.raw.abs());
        let held = b.raw.abs() < (1i64 << 43)
            && (a.raw as i128) * (c.raw.abs() as i128) <= (1i128 << 86);
        if fast > 1024 * SCALE || apart > 1024 * SCALE || !held {
            continue;
        }
        if fast <= 128 * SCALE {
            // Within 128 the coefficients can always be held.
            assert!(held);
        } else {
            fast_hits += 1;
        }
        let rec = match sphere.hit(&ray, near(), Fixed::largest()) {
            Some(rec) => rec,
            None => continue,
        };
        hits += 1;
        let root = b.square().sub(a.mul(c)).sqrt();
        let q = rec.p.sub(center);
        let spread = (q.x.raw.abs() + q.y.raw.abs() + q.z.raw.abs()) as i128;
        let t = rec.t.raw as i128;
        let tolerance = a.raw as i128
            + scale * (10 * root.raw as i128 + 11 * scale + 6 * t.abs() + 2 * spread + 3)
            + 3 * t * t;
        let squared = |x: Fixed| (x.raw as i128) * (x.raw as i128);
        let gap = (squared(q.x) + squared(q.y) + squared(q.z) - squared(radius)).abs();
        assert!(scale * gap <= tolerance, "gap {} tolerance {}", scale * gap, tolerance);
        worst = worst.max((scale * gap) as f64 / tolerance as f64);
        // The normal has unit length within what the tolerance allows.
        if radius.raw >= 4096 {
            let n = rec.normal;
            assert_eq!(n, q.shrink(radius));
            let r = radius.raw as i128;
            let off = (squared(n.x) + squared(n.y) + squared(n.z) - scale * scale).abs();
            assert!(r * r * off <= scale * tolerance + r * (3 * r + 2 * scale * spread));
        }
    }
    assert!(hits > 2500, "hits {}", hits);
    assert!(fast_hits > 100, "fast {}", fast_hits);
    assert!(worst > 0.0 && worst <= 1.0);
}

#[test]
fn rays_toward_the_lamp_meet_the_glass_ball_within_the_tolerance() {
    let scale = SCALE as i128;
    let ball = Sphere::new(Vec3::from_ints(190, 90, 190), Fixed::from_int(90));
    let mut state = 43u64;
    let mut hits = 0;
    for _ in 0..20000 {
        let origin = v(555.0 * next(&mut state), 555.0 * next(&mut state), 555.0 * next(&mut state));
        let lamp = v(213.0 + 130.0 * next(&mut state), 554.0, 227.0 + 105.0 * next(&mut state));
        let direction = lamp.sub(origin);
        let ray = Ray::new(origin, direction, Fixed::zero());
        let a = direction.dot(direction);
        if 4 * a.raw < SCALE {
            continue;
        }
        let oc = origin.sub(ball.center);
        let b = oc.dot(direction);
        let c = oc.dot(oc).sub(ball.radius.square());
        assert!(b.raw.abs() < (1i64 << 43));
        assert!((a.raw as i128) * (c.raw.abs() as i128) <= (1i128 << 86));
        let rec = match ball.hit(&ray, near(), Fixed::largest()) {
            Some(rec) => rec,
            None => continue,
        };
        hits += 1;
        let root = b.square().sub(a.mul(c)).sqrt();
        let q = rec.p.sub(ball.center);
        let spread = (q.x.raw.abs() + q.y.raw.abs() + q.z.raw.abs()) as i128;
        let t = rec.t.raw as i128;
        let tolerance = a.raw as i128
            + scale * (10 * root.raw as i128 + 11 * scale + 6 * t.abs() + 2 * spread + 3)
            + 3 * t * t;
        let squared = |x: Fixed| (x.raw as i128) * (x.raw as i128);
        let gap = (squared(q.x) + squared(q.y) + squared(q.z) - squared(ball.radius)).abs();
        assert!(scale * gap <= tolerance);
        assert!((to_f64(q.magnitude()) - 90.0).abs() < 1e-3);
        assert!((to_f64(rec.normal.magnitude()) - 1.0).abs() < 1e-4);
    }
    assert!(hits > 500, "hits {}", hits);
}
