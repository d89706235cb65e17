use rest_of_life::cube::Cube;
use rest_of_life::fixed::Fixed;
use rest_of_life::fixed::SCALE;
use rest_of_life::hit::near;
use rest_of_life::ray::Ray;
use rest_of_life::rect::AARect;
use rest_of_life::rect::Plane;
use rest_of_life::shape::shift_back;
use rest_of_life::shape::shifted;
use rest_of_life::shape::turn_back;
use rest_of_life::shape::turned;
use rest_of_life::shape::Axis;
use rest_of_life::shape::Shape;
use rest_of_life::sphere::Sphere;
use rest_of_life::trig::cos_sin_degrees;
use rest_of_life::vec3::Vec3;

fn to_f64(x: Fixed) -> f64 {
    x.raw as f64 / SCALE as f64
}

fn fx(x: f64) -> Fixed {
    Fixed::from_raw((x * SCALE as f64).round() as i64)
}

fn v(x: f64, y: f64, z: f64) -> Vec3 {
    Vec3::new(fx(x), fx(y), fx(z))
}

fn close(a: Vec3, b: Vec3, tolerance: f64) -> bool {
    (to_f64(a.x) - to_f64(b.x)).abs() < tolerance
        && (to_f64(a.y) - to_f64(b.y)).abs() < tolerance
        && (to_f64(a.z) - to_f64(b.z)).abs() < tolerance
}

fn next(state: &mut u64) -> f64 {
    *state = state.wrapping_mul(6364136223846793005).wrapping_add(1442695040888963407);
    ((*state >> 11) as f64) / ((1u64 << 53) as f64)
}

fn some_ray(state: &mut u64) -> Ray {
    let origin = v(
        6.0 * next(state) - 3.0,
        6.0 * next(state) - 3.0,
        6.0 * next(state) - 3.0,
    );
    let aim = v(next(state), next(state), next(state));
    Ray::new(origin, aim.sub(origin), fx(next(state)))
}

#[test]
fn quarter_turns_about_each_axis() {
    let quarter = cos_sin_degrees(Fixed::from_int(90));
    let p = Vec3::from_ints(1, 2, 3);
    assert_eq!(Axis::X.turn(quarter, p), Vec3::from_ints(1, -3, 2));
    assert_eq!(Axis::Y.turn(quarter, p), Vec3::from_ints(3, 2, -1));
    assert_eq!(Axis::Z.turn(quarter, p), Vec3::from_ints(-2, 1, 3));
    assert_eq!(Axis::X.turn(quarter.reversed(), p), Vec3::from_ints(1, 3, -2));
    assert_eq!(Axis::Y.turn(quarter.reversed(), Axis::Y.turn(quarter, p)), p);
    assert_eq!(quarter.reversed().sin, Fixed::from_int(-1));
    assert_eq!(quarter.reversed().cos, Fixed::zero());
}

#[test]
fn rays_and_records_move_between_frames() {
    let ray = Ray::new(Vec3::from_ints(1, 2, 3), Vec3::from_ints(0, 0, -1), fx(0.5));
    let offset = Vec3::from_ints(10, 20, 30);
    let moved = shifted(&ray, offset);
    assert_eq!(moved.origin, Vec3::from_ints(-9, -18, -27));
    assert_eq!(moved.direction, ray.direction);
    assert_eq!(moved.time, ray.time);
    let quarter = cos_sin_degrees(Fixed::from_int(90));
    let spun = turned(&ray, Axis::Y, quarter);
    assert_eq!(spun.origin, Vec3::from_ints(3, 2, -1));
    assert_eq!(spun.direction, Vec3::from_ints(-1, 0, 0));
    assert_eq!(spun.time, ray.time);
    let sphere = Sphere::new(Vec3::from_ints(1, 2, 0), Fixed::one());
    let rec = sphere.hit(&ray, near(), Fixed::largest()).unwrap();
    let back = shift_back(rec, offset);
    assert_eq!(back.p, rec.p.add(offset));
    assert_eq!((back.t, back.normal, back.u, back.v), (rec.t, rec.normal, rec.u, rec.v));
    let back = turn_back(rec, Axis::Y, quarter);
    assert_eq!(back.p, Axis::Y.turn(quarter, rec.p));
    assert_eq!(back.normal, Axis::Y.turn(quarter, rec.normal));
    assert_eq!((back.t, back.u, back.v), (rec.t, rec.u, rec.v));
}

#[test]
fn translation_moves_the_hit_point_only() {
    let sphere = Sphere::new(Vec3::from_ints(0, 0, 0), Fixed::one());
    let offset = Vec3::from_ints(5, 0, 0);
    let moved = Shape::translate(Shape::Sphere(sphere), offset);
    let ray = Ray::new(Vec3::from_ints(5, 0, 4), Vec3::from_ints(0, 0, -1), Fixed::zero());
    let rec = moved.hit(&ray, near(), Fixed::largest()).unwrap();
    assert_eq!(rec.t, Fixed::from_int(3));
    assert_eq!(rec.p, Vec3::from_ints(5, 0, 1));
    assert_eq!(rec.normal, Vec3::from_ints(0, 0, 1));
    let there = Shape::Sphere(Sphere::new(offset, Fixed::one()));
    assert_eq!(there.hit(&ray, near(), Fixed::largest()), Some(rec));
    let missed = Ray::new(Vec3::from_ints(0, 0, 4), Vec3::from_ints(0, 0, -1), Fixed::zero());
    assert_eq!(moved.hit(&missed, near(), Fixed::largest()), None);
}

#[test]
fn rotation_turns_point_and_normal() {
    // A wall at X = 2, turned a quarter about Y, faces along -Z at Z = -2.
    let wall = AARect::new(
        Plane::YZ,
        Fixed::from_int(-1),
        Fixed::from_int(1),
        Fixed::from_int(-1),
        Fixed::from_int(1),
        Fixed::from_int(2),
    );
    let turned = Shape::rotate(Axis::Y, Shape::Rect(wall), Fixed::from_int(90));
    let ray = Ray::new(Vec3::from_ints(0, 0, -5), Vec3::from_ints(0, 0, 1), Fixed::zero());
    let rec = turned.hit(&ray, near(), Fixed::largest()).unwrap();
    assert_eq!(rec.t, Fixed::from_int(3));
    assert_eq!(rec.p, Vec3::from_ints(0, 0, -2));
    assert_eq!(rec.normal, Vec3::from_ints(0, 0, -1));
    let along_x = Ray::new(Vec3::from_ints(-5, 0, 0), Vec3::from_ints(1, 0, 0), Fixed::zero());
    assert_eq!(turned.hit(&along_x, near(), Fixed::largest()), None);
}

#[test]
fn rotation_by_fifteen_degrees() {
    let cube = Shape::Cube(Cube::new(Vec3::from_ints(0, 0, 0), Vec3::from_ints(165, 330, 165)));
    let turned = Shape::rotate(Axis::Y, cube, Fixed::from_int(15));
    // The corner that was at (165, y, 0) now lies at (165 cos, y, -165 sin).
    let target = v(165.0 * 0.9659258 - 1.0, 100.0, -165.0 * 0.2588190 + 1.5);
    let origin = v(target.x.raw as f64 / SCALE as f64, 100.0, -500.0);
    let ray = Ray::new(origin, Vec3::from_ints(0, 0, 1), Fixed::zero());
    let rec = turned.hit(&ray, near(), Fixed::largest()).unwrap();
    // The face that is hit is the one that faced -Z; its normal is turned.
    assert!(close(rec.normal, v(-0.2588190, 0.0, -0.9659258), 1e-5));
    assert!((to_f64(rec.normal.magnitude()) - 1.0).abs() < 1e-5);
    assert!(close(rec.p, ray.point_at(rec.t), 1e-3));
}

#[test]
fn rotating_a_cube_by_no_or_a_whole_turn_changes_nothing() {
    let cube = Shape::Cube(Cube::new(Vec3::from_ints(0, 0, 0), Vec3::from_ints(1, 1, 1)));
    let mut state = 11u64;
    let mut hits = 0;
    for axis in [Axis::X, Axis::Y, Axis::Z] {
        let none = Shape::rotate(axis, cube.clone(), Fixed::zero());
        let whole = Shape::rotate(axis, cube.clone(), Fixed::from_int(360));
        let moved = Shape::translate(none.clone(), Vec3::from_ints(3, -2, 1));
        let plain = Shape::translate(cube.clone(), Vec3::from_ints(3, -2, 1));
        let unmoved = Shape::translate(cube.clone(), Vec3::zeros());
        for _ in 0..500 {
            let ray = some_ray(&mut state);
            let expected = cube.hit(&ray, near(), Fixed::largest());
            if expected.is_some() {
                hits += 1;
            }
            assert_eq!(none.hit(&ray, near(), Fixed::largest()), expected);
            assert_eq!(whole.hit(&ray, near(), Fixed::largest()), expected);
            assert_eq!(unmoved.hit(&ray, near(), Fixed::largest()), expected);
            let far = Ray::new(ray.origin.add(Vec3::from_ints(3, -2, 1)), ray.direction, ray.time);
            assert_eq!(
                moved.hit(&far, near(), Fixed::largest()),
                plain.hit(&far, near(), Fixed::largest())
            );
        }
    }
    assert!(hits > 300);
}

#[test]
fn flipping_negates_the_normal_and_nothing_else() {
    let shapes = vec![
        Shape::Sphere(Sphere::new(Vec3::from_ints(0, 0, 0), Fixed::one())),
        Shape::Rect(AARect::new(
            Plane::XY,
            Fixed::from_int(-2),
            Fixed::from_int(2),
            Fixed::from_int(-2),
            Fixed::from_int(2),
            fx(0.5),
        )),
        Shape::Cube(Cube::new(Vec3::from_ints(0, 0, 0), Vec3::from_ints(1, 1, 1))),
        Shape::rotate(
            Axis::Z,
            Shape::Cube(Cube::new(Vec3::from_ints(0, 0, 0), Vec3::from_ints(1, 1, 1))),
            Fixed::from_int(30),
        ),
    ];
    let mut state = 3u64;
    let mut hits = 0;
    for shape in shapes.iter() {
        let flipped = Shape::flip_normals(shape.clone());
        let twice = Shape::flip_normals(flipped.clone());
        for _ in 0..500 {
            let ray = some_ray(&mut state);
            let inner = shape.hit(&ray, near(), Fixed::largest());
            let outer = flipped.hit(&ray, near(), Fixed::largest());
            match (inner, outer) {
                (Some(a), Some(b)) => {
                    hits += 1;
                    assert_eq!(b.normal, a.normal.neg());
                    assert_eq!((b.t, b.p, b.u, b.v), (a.t, a.p, a.u, a.v));
                    assert_eq!(b, a.flipped());
                }
                (None, None) => {}
                _ => panic!("a flipped shape is hit exactly when its child is"),
            }
            assert_eq!(twice.hit(&ray, near(), Fixed::largest()), inner);
        }
    }
    assert!(hits > 400);
}

#[test]
fn cloned_shapes_are_equal() {
    let shape = Shape::translate(
        Shape::rotate(
            Axis::Y,
            Shape::flip_normals(Shape::Sphere(Sphere::new(Vec3::from_ints(1, 2, 3), fx(0.5)))),
            Fixed::from_int(15),
        ),
        Vec3::from_ints(4, 5, 6),
    );
    assert_eq!(shape.clone(), shape);
}

#[test]
fn moving_a_shape_is_placing_it_elsewhere() {
    let mut state = 29u64;
    let mut hits = 0;
    for _ in 0..300 {
        let offset = v(
            200.0 * next(&mut state) - 100.0,
            200.0 * next(&mut state) - 100.0,
            200.0 * next(&mut state) - 100.0,
        );
        let corner = v(next(&mut state), next(&mut state), next(&mut state));
        let cube = Cube::new(corner, corner.add(v(0.5 + next(&mut state), 1.0, 2.0)));
        let sphere = Sphere::new(corner, fx(0.25 + next(&mut state)));
        let rect = AARect::new(Plane::YZ, fx(-0.5), fx(1.5), fx(-1.0), fx(2.0), fx(0.25));
        let pairs = vec![
            (Shape::translate(Shape::Cube(cube), offset), Shape::Cube(cube.moved(offset))),
            (Shape::translate(Shape::Sphere(sphere), offset), Shape::Sphere(sphere.moved(offset))),
            (Shape::translate(Shape::Rect(rect), offset), Shape::Rect(rect.moved(offset))),
            (
                Shape::translate(
                    Shape::rotate(Axis::Y, Shape::Cube(cube), Fixed::from_int(360)),
                    offset,
                ),
                Shape::Cube(cube.moved(offset)),
            ),
            (
                Shape::translate(Shape::rotate(Axis::X, Shape::Cube(cube), Fixed::zero()), offset),
                Shape::Cube(cube.moved(offset)),
            ),
        ];
        for _ in 0..20 {
            let near_by = some_ray(&mut state);
            let ray = Ray::new(near_by.origin.add(offset), near_by.direction, near_by.time);
            for (wrapped, placed) in pairs.iter() {
                let expected = placed.hit(&ray, near(), Fixed::largest());
                assert_eq!(wrapped.hit(&ray, near(), Fixed::largest()), expected);
                if expected.is_some() {
                    hits += 1;
                }
            }
        }
    }
    assert!(hits > 3000, "hits {}", hits);
    let rect = AARect::new(Plane::ZX, fx(1.0), fx(2.0), fx(3.0), fx(4.0), fx(5.0));
    assert_eq!(
        rect.moved(Vec3::from_ints(10, 20, 30)),
        AARect::new(Plane::ZX, fx(31.0), fx(32.0), fx(13.0), fx(14.0), fx(25.0))
    );
}
