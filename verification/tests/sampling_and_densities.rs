use rest_of_life::cube::Cube;
use rest_of_life::fixed::Fixed;
use rest_of_life::fixed::SCALE;
use rest_of_life::onb::Onb;
use rest_of_life::pdf::list_density;
use rest_of_life::pdf::list_direction;
use rest_of_life::pdf::probe;
use rest_of_life::pdf::Pdf;
use rest_of_life::hit::near;
use rest_of_life::rect::AARect;
use rest_of_life::rect::Plane;
use rest_of_life::sampling::cone_cosine;
use rest_of_life::sampling::cone_direction;
use rest_of_life::sampling::cosine_direction;
use rest_of_life::sampling::cube_point;
use rest_of_life::sampling::in_unit_sphere;
use rest_of_life::sampling::pick_index;
use rest_of_life::sampling::picks_first;
use rest_of_life::sampling::random_in_unit_sphere;
use rest_of_life::sampling::random_unit;
use rest_of_life::sampling::rest_of_pick;
use rest_of_life::sampling::Sample;
use rest_of_life::sampling::ScatterSample;
use rest_of_life::shape::Shape;
use rest_of_life::sphere::Sphere;
use rest_of_life::vec3::Vec3;

fn to_f64(x: Fixed) -> f64 {
    x.raw as f64 / SCALE as f64
}

fn fx(x: f64) -> Fixed {
    Fixed::from_raw((x * SCALE as f64).round() as i64)
}

fn v(x: f64, y: f64, z: f64) -> Vec3 {
    Vec3::new(fx(x), fx(y), fx(z))
}

fn close(a: Vec3, b: Vec3, tolerance: f64) -> bool {
    (to_f64(a.x) - to_f64(b.x)).abs() < tolerance
        && (to_f64(a.y) - to_f64(b.y)).abs() < tolerance
        && (to_f64(a.z) - to_f64(b.z)).abs() < tolerance
}

fn unit_square_above() -> AARect {
    AARect::new(Plane::ZX, fx(-0.5), fx(0.5), fx(-0.5), fx(0.5), Fixed::one())
}

#[test]
fn drawn_numbers_are_uniform_in_the_unit_interval() {
    let mut sum = 0.0;
    let mut low = 0;
    let mut distinct = std::collections::HashSet::new();
    for _ in 0..20000 {
        let x = random_unit();
        assert!(0 <= x.raw && x.raw < SCALE);
        sum += to_f64(x);
        if x.raw < SCALE / 4 {
            low += 1;
        }
        distinct.insert(x.raw);
    }
    assert!((sum / 20000.0 - 0.5).abs() < 0.02);
    assert!((low as f64 / 20000.0 - 0.25).abs() < 0.02);
    assert!(distinct.len() > 19000);
}

#[test]
fn drawn_samples_are_valid() {
    for _ in 0..1000 {
        let s = Sample::draw();
        for x in [s.pick, s.u1, s.u2] {
            assert!(0 <= x.raw && x.raw < SCALE);
        }
        let c = ScatterSample::draw();
        assert!(in_unit_sphere(c.offset));
        assert!(0 <= c.choice.raw && c.choice.raw < SCALE);
    }
    let s = Sample::from_bits(0, 0x8000_0000, u32::MAX);
    assert_eq!(s.pick, Fixed::zero());
    assert_eq!(s.u1, Fixed::half());
    assert_eq!(s.u2.raw, SCALE - 1);
}

#[test]
fn points_of_the_cube() {
    assert_eq!(cube_point(0, 0, 0), Vec3::from_ints(-1, -1, -1));
    assert_eq!(cube_point(0x8000_0000, 0x8000_0000, 0x8000_0000), Vec3::zeros());
    assert_eq!(cube_point(0xc000_0000, 0x4000_0000, 0x8000_0000), v(0.5, -0.5, 0.0));
    assert!(in_unit_sphere(Vec3::zeros()));
    assert!(in_unit_sphere(v(0.5, -0.5, 0.5)));
    assert!(!in_unit_sphere(Vec3::from_ints(1, 0, 0)));
    assert!(!in_unit_sphere(v(0.6, 0.6, 0.6)));
}

#[test]
fn points_drawn_in_the_unit_sphere_are_inside_and_spread() {
    let mut sum = Vec3::zeros();
    let mut far = 0;
    for _ in 0..5000 {
        let p = random_in_unit_sphere();
        assert!(in_unit_sphere(p));
        assert!(p.magnitude_squared().raw < SCALE);
        sum = sum.add(p);
        if to_f64(p.magnitude()) > 0.5 {
            far += 1;
        }
    }
    let mean = sum.shrink(Fixed::from_int(5000));
    assert!(close(mean, Vec3::zeros(), 0.05));
    // Seven eighths of the ball lie beyond half the radius.
    assert!((far as f64 / 5000.0 - 0.875).abs() < 0.03);
}

#[test]
fn cosine_directions_from_given_numbers() {
    assert_eq!(cosine_direction(Fixed::zero(), Fixed::zero()), Vec3::from_ints(0, 0, 1));
    let d = cosine_direction(Fixed::zero(), fx(0.75));
    assert!(close(d, v(0.8660254, 0.0, 0.5), 1e-6));
    let d = cosine_direction(fx(0.25), fx(0.75));
    assert!(close(d, v(0.0, 0.8660254, 0.5), 1e-6));
    let d = cosine_direction(fx(0.5), Fixed::from_raw(SCALE - 1));
    assert!(close(d, v(-1.0, 0.0, 0.0), 1e-3));
    assert!(d.z.raw >= 0);
}

#[test]
fn cosine_directions_stay_in_the_hemisphere_and_follow_the_cosine() {
    let normals = [
        Vec3::from_ints(0, 1, 0),
        Vec3::from_ints(0, -1, 0),
        Vec3::from_ints(1, 0, 0),
        Vec3::from_ints(-1, 0, 0),
        Vec3::from_ints(0, 0, 1),
        Vec3::from_ints(0, 0, -1),
    ];
    for n in normals {
        let pdf = Pdf::cosine(n);
        let mut sum = 0.0;
        let mut steep = 0;
        let count = 20000;
        for _ in 0..count {
            let s = Sample::draw();
            let local = cosine_direction(s.u1, s.u2);
            assert!(local.z.raw >= 0);
            let d = pdf.generate(&s);
            let cosine = d.dot(n);
            assert!(cosine.raw >= 0);
            assert!((to_f64(d.magnitude()) - 1.0).abs() < 1e-3);
            sum += to_f64(cosine);
            if to_f64(cosine) > 0.5 {
                steep += 1;
            }
            // The density of the direction drawn is its cosine over pi.
            let density = to_f64(pdf.value(d));
            assert!((density - to_f64(cosine) / std::f64::consts::PI).abs() < 1e-5);
        }
        // For a density of cos / pi the mean cosine is 2/3, and the cosine
        // exceeds c with chance 1 - c^2.
        assert!((sum / count as f64 - 2.0 / 3.0).abs() < 0.01);
        assert!((steep as f64 / count as f64 - 0.75).abs() < 0.015);
    }
}

#[test]
fn frames_are_right_handed() {
    let frame = Onb::build_from_w(Vec3::from_ints(0, 5, 0));
    assert_eq!(frame.w, Vec3::from_ints(0, 1, 0));
    assert_eq!(frame.v, Vec3::from_ints(0, 0, -1));
    assert_eq!(frame.u, Vec3::from_ints(1, 0, 0));
    assert_eq!(frame.u.cross(frame.v), frame.w);
    assert_eq!(frame.local(Vec3::from_ints(1, 2, 3)), Vec3::from_ints(1, 3, -2));
    // An axis that leans along X takes the Y axis for help.
    let frame = Onb::build_from_w(Vec3::from_ints(2, 0, 0));
    assert_eq!(frame.w, Vec3::from_ints(1, 0, 0));
    assert_eq!(frame.v, Vec3::from_ints(0, 0, 1));
    assert_eq!(frame.u, Vec3::from_ints(0, 1, 0));
    assert_eq!(frame.u.cross(frame.v), frame.w);
    let frame = Onb::build_from_w(v(1.0, 2.0, -2.0));
    assert!(to_f64(frame.u.dot(frame.v)).abs() < 1e-5);
    assert!(to_f64(frame.u.dot(frame.w)).abs() < 1e-5);
    assert!(to_f64(frame.v.dot(frame.w)).abs() < 1e-5);
    assert!(close(frame.u.cross(frame.v), frame.w, 1e-5));
}

#[test]
fn cosine_density_values() {
    let pdf = Pdf::cosine(Vec3::from_ints(0, 1, 0));
    assert_eq!(pdf.value(Vec3::from_ints(0, 3, 0)), Fixed::one().div(Fixed::pi()));
    assert!((to_f64(pdf.value(Vec3::from_ints(0, 3, 0))) - 0.3183099).abs() < 1e-6);
    let slanted = pdf.value(v(0.8660254, 0.5, 0.0));
    assert!((to_f64(slanted) - 0.5 / std::f64::consts::PI).abs() < 1e-6);
    assert_eq!(pdf.value(Vec3::from_ints(1, 0, 0)), Fixed::zero());
    assert_eq!(pdf.value(Vec3::from_ints(1, -1, 0)), Fixed::zero());
}

#[test]
fn rectangle_density_is_distance_squared_over_cosine_times_area() {
    let rect = unit_square_above();
    let origin = Vec3::zeros();
    assert_eq!(rect.pdf_value(origin, Vec3::from_ints(0, 1, 0)), Fixed::one());
    assert_eq!(rect.pdf_value(origin, Vec3::from_ints(0, 2, 0)), Fixed::one());
    assert_eq!(rect.pdf_value(origin, Vec3::from_ints(0, -1, 0)), Fixed::zero());
    assert_eq!(rect.pdf_value(origin, Vec3::from_ints(1, 0, 0)), Fixed::zero());
    // Toward the point (0.25, 1, 0.25): distance^2 = 1.125, cosine = 1 / sqrt(1.125).
    let slanted = rect.pdf_value(origin, v(0.25, 1.0, 0.25));
    assert!((to_f64(slanted) - 1.125 * 1.125f64.sqrt()).abs() < 1e-5);
    // From twice as far the same rectangle is four times as dense.
    let far = rect.pdf_value(v(0.0, -1.0, 0.0), Vec3::from_ints(0, 1, 0));
    assert_eq!(far, Fixed::from_int(4));
    assert_eq!(rect.random(origin, fx(0.5), fx(0.5)), Vec3::from_ints(0, 1, 0));
    assert_eq!(rect.random(origin, Fixed::zero(), Fixed::zero()), v(-0.5, 1.0, -0.5));
    assert_eq!(rect.random(v(1.0, 1.0, 1.0), fx(0.75), fx(0.25)), v(-1.25, 0.0, -0.75));
    assert_eq!(probe(origin, Vec3::from_ints(0, 1, 0)).time, Fixed::zero());
}

#[test]
fn sphere_density_is_one_over_the_solid_angle() {
    let sphere = Sphere::new(Vec3::from_ints(0, 0, -2), Fixed::one());
    let origin = Vec3::zeros();
    let cosine = cone_cosine(Fixed::one(), Fixed::from_int(4));
    assert!((to_f64(cosine) - 0.75f64.sqrt()).abs() < 1e-6);
    let expected = 1.0 / (2.0 * std::f64::consts::PI * (1.0 - 0.75f64.sqrt()));
    let density = sphere.pdf_value(origin, Vec3::from_ints(0, 0, -1));
    assert!((to_f64(density) - expected).abs() < 1e-4);
    assert_eq!(sphere.pdf_value(origin, Vec3::from_ints(0, 0, 1)), Fixed::zero());
    assert_eq!(sphere.pdf_value(origin, Vec3::from_ints(1, 0, 0)), Fixed::zero());
    // From inside, the sphere fills every direction's half space: cosine zero.
    assert_eq!(cone_cosine(Fixed::from_int(2), Fixed::one()), Fixed::zero());
}

#[test]
fn sphere_directions_fall_into_the_cone() {
    let sphere = Sphere::new(Vec3::from_ints(0, 0, -2), Fixed::one());
    let origin = Vec3::zeros();
    let cosine = to_f64(cone_cosine(Fixed::one(), Fixed::from_int(4)));
    let axis = sphere.random(origin, Fixed::zero(), Fixed::zero());
    assert!(close(axis, v(0.0, 0.0, -1.0), 1e-6));
    let mut seen = 0;
    for _ in 0..2000 {
        let s = Sample::draw();
        let local = cone_direction(Fixed::one(), Fixed::from_int(4), s.u1, s.u2);
        assert!(to_f64(local.z) >= cosine - 1e-6 && to_f64(local.z) <= 1.0);
        assert!((to_f64(local.magnitude()) - 1.0).abs() < 1e-3);
        let d = sphere.random(origin, s.u1, s.u2);
        assert!(to_f64(d.dot(Vec3::from_ints(0, 0, -1))) >= cosine - 1e-5);
        if sphere.hit(&probe(origin, d), near(), Fixed::largest()).is_some() {
            seen += 1;
            assert!(sphere.pdf_value(origin, d).raw > 0);
        }
    }
    assert!(seen > 1950);
}

#[test]
fn transforms_hand_densities_on_and_a_box_is_no_target() {
    let rect = unit_square_above();
    let origin = Vec3::zeros();
    let up = Vec3::from_ints(0, 1, 0);
    let plain = Shape::Rect(rect);
    assert_eq!(plain.pdf_value(origin, up), Fixed::one());
    let flipped = Shape::flip_normals(Shape::Rect(rect));
    assert_eq!(flipped.pdf_value(origin, up), Fixed::one());
    assert_eq!(flipped.random(origin, fx(0.5), fx(0.5)), up);
    let moved = Shape::translate(Shape::Rect(rect), Vec3::from_ints(10, 0, 0));
    assert_eq!(moved.pdf_value(origin, up), Fixed::zero());
    assert_eq!(moved.pdf_value(Vec3::from_ints(10, 0, 0), up), Fixed::one());
    assert_eq!(moved.random(Vec3::from_ints(10, 0, 0), fx(0.5), fx(0.5)), up);
    assert_eq!(moved.random(origin, fx(0.5), fx(0.5)), Vec3::from_ints(10, 1, 0));
    let turned = Shape::rotate(rest_of_life::shape::Axis::Z, Shape::Rect(rect), Fixed::from_int(90));
    // Turned a quarter about Z, the square above lies to the left.
    assert_eq!(turned.pdf_value(origin, Vec3::from_ints(-1, 0, 0)), Fixed::one());
    assert_eq!(turned.pdf_value(origin, up), Fixed::zero());
    assert_eq!(turned.random(origin, fx(0.5), fx(0.5)), Vec3::from_ints(-1, 0, 0));
    let ball = Shape::Sphere(Sphere::new(Vec3::from_ints(0, 0, -2), Fixed::one()));
    assert!(ball.pdf_value(origin, Vec3::from_ints(0, 0, -1)).raw > 0);
    let cube = Shape::Cube(Cube::new(Vec3::from_ints(-1, 1, -1), Vec3::from_ints(1, 2, 1)));
    assert_eq!(cube.pdf_value(origin, up), Fixed::zero());
    assert_eq!(cube.random(origin, fx(0.5), fx(0.5)), Vec3::from_ints(1, 0, 0));
}

#[test]
fn a_list_of_targets_has_the_mean_density() {
    let origin = Vec3::zeros();
    let up = Vec3::from_ints(0, 1, 0);
    let above = Shape::Rect(unit_square_above());
    let below = Shape::Rect(AARect::new(
        Plane::ZX,
        fx(-0.5),
        fx(0.5),
        fx(-0.5),
        fx(0.5),
        Fixed::from_int(-1),
    ));
    let empty: Vec<Shape> = Vec::new();
    assert_eq!(list_density(&empty, origin, up), Fixed::zero());
    let s = Sample { pick: fx(0.3), u1: fx(0.5), u2: fx(0.5) };
    assert_eq!(list_direction(&empty, origin, &s), Vec3::from_ints(1, 0, 0));
    let one = vec![above.clone()];
    assert_eq!(list_density(&one, origin, up), Fixed::one());
    let two = vec![above.clone(), below.clone()];
    assert_eq!(list_density(&two, origin, up), Fixed::half());
    assert_eq!(list_density(&two, origin, up.neg()), Fixed::half());
    assert_eq!(list_density(&two, origin, Vec3::from_ints(1, 0, 0)), Fixed::zero());
    assert_eq!(list_direction(&two, origin, &s), up);
    let s = Sample { pick: fx(0.5), u1: fx(0.5), u2: fx(0.5) };
    assert_eq!(list_direction(&two, origin, &s), up.neg());
    let four = vec![above.clone(), above.clone(), above, below];
    assert_eq!(list_density(&four, origin, up), fx(0.75));
}

#[test]
fn picking_members_and_halves() {
    assert_eq!(pick_index(Fixed::zero(), 4), 0);
    assert_eq!(pick_index(fx(0.25), 4), 1);
    assert_eq!(pick_index(fx(0.5), 4), 2);
    assert_eq!(pick_index(Fixed::from_raw(SCALE - 1), 4), 3);
    assert_eq!(pick_index(Fixed::from_int(-1), 4), 0);
    assert_eq!(pick_index(Fixed::from_int(2), 4), 3);
    assert_eq!(pick_index(Fixed::largest(), usize::MAX), usize::MAX - 1);
    assert_eq!(pick_index(fx(0.999), 1), 0);
    assert!(picks_first(Fixed::zero()));
    assert!(picks_first(Fixed::from_raw(SCALE / 2 - 1)));
    assert!(!picks_first(Fixed::half()));
    assert_eq!(rest_of_pick(fx(0.25)), Fixed::half());
    assert_eq!(rest_of_pick(fx(0.75)), Fixed::half());
    assert_eq!(rest_of_pick(Fixed::zero()), Fixed::zero());
    assert_eq!(rest_of_pick(Fixed::half()), Fixed::zero());
    assert_eq!(rest_of_pick(Fixed::from_raw(SCALE - 1)).raw, SCALE - 2);
}

#[test]
fn a_mixture_has_the_mean_density_and_lets_the_pick_choose() {
    let origin = Vec3::zeros();
    let up = Vec3::from_ints(0, 1, 0);
    let targets = vec![Shape::Rect(unit_square_above())];
    let toward = Pdf::hittable(&targets, origin);
    assert_eq!(toward.value(up), Fixed::one());
    let around = Pdf::cosine(up);
    let cosine_value = around.value(up);
    let mixed = Pdf::mixture(toward, around);
    assert_eq!(
        mixed.value(up),
        Fixed::half().mul(Fixed::one()).add(Fixed::half().mul(cosine_value))
    );
    assert!((to_f64(mixed.value(up)) - (0.5 + 0.5 / std::f64::consts::PI)).abs() < 1e-6);
    // Beside the square only the cosine half contributes.
    let beside = v(0.8660254, 0.5, 0.0);
    assert!((to_f64(mixed.value(beside)) - 0.25 / std::f64::consts::PI).abs() < 1e-6);
    // The first half of the picks goes toward the target.
    let first = Sample { pick: fx(0.2), u1: fx(0.5), u2: fx(0.5) };
    assert_eq!(mixed.generate(&first), up);
    let second = Sample { pick: fx(0.7), u1: Fixed::zero(), u2: fx(0.75) };
    assert_eq!(mixed.generate(&second), Pdf::cosine(up).generate(&second));
    assert_ne!(mixed.generate(&second), up);
}

#[test]
fn a_mixture_draws_both_halves_equally_often() {
    let origin = Vec3::zeros();
    let up = Vec3::from_ints(0, 1, 0);
    // A small square far above: directions toward it are nearly vertical.
    let targets = vec![Shape::Rect(AARect::new(
        Plane::ZX,
        fx(-0.5),
        fx(0.5),
        fx(-0.5),
        fx(0.5),
        Fixed::from_int(100),
    ))];
    let mixed = Pdf::mixture(Pdf::hittable(&targets, origin), Pdf::cosine(up));
    let mut toward = 0;
    let count = 20000;
    for _ in 0..count {
        let d = mixed.generate(&Sample::draw());
        assert!(mixed.value(d).raw >= 0);
        if targets[0].pdf_value(origin, d).raw > 0 {
            toward += 1;
        }
    }
    assert!((toward as f64 / count as f64 - 0.5).abs() < 0.02);
}

#[test]
fn densities_are_never_negative() {
    let targets = vec![
        Shape::Rect(unit_square_above()),
        Shape::Sphere(Sphere::new(Vec3::from_ints(0, 0, -2), Fixed::one())),
        Shape::flip_normals(Shape::Rect(unit_square_above())),
        Shape::Cube(Cube::new(Vec3::from_ints(2, 2, 2), Vec3::from_ints(3, 3, 3))),
    ];
    for _ in 0..3000 {
        let d = random_in_unit_sphere();
        let o = random_in_unit_sphere();
        let n = random_in_unit_sphere();
        let mixed = Pdf::mixture(Pdf::hittable(&targets, o), Pdf::cosine(n));
        assert!(mixed.value(d).raw >= 0);
        for t in targets.iter() {
            assert!(t.pdf_value(o, d).raw >= 0);
        }
    }
}

#[test]
fn directions_keep_to_the_hemisphere_of_any_sound_normal() {
    let mut state = 77u64;
    let mut next = || {
        state = state.wrapping_mul(6364136223846793005).wrapping_add(1442695040888963407);
        ((state >> 11) as f64) / ((1u64 << 53) as f64)
    };
    for round in 0..3000 {
        // Lengths from two thousandths to a thousand.
        let length = 0.002 * (500000.0f64).powf(next());
        let n = v(
            length * (2.0 * next() - 1.0),
            length * (2.0 * next() - 1.0),
            length * (2.0 * next() - 1.0),
        );
        let largest = n.x.raw.abs().max(n.y.raw.abs()).max(n.z.raw.abs());
        if largest < 32768 || largest > 17179869184 {
            continue;
        }
        let pdf = Pdf::cosine(n);
        for k in 0..40 {
            let mut s = Sample::draw();
            if k < 10 {
                // The flattest directions there are.
                s.u2 = Fixed::from_raw(SCALE - 1 - k);
            }
            let d = pdf.generate(&s);
            assert!(d.dot(n).raw >= 0, "round {} normal {:?} sample {:?}", round, n, s);
        }
    }
}

#[test]
fn a_normal_that_is_too_short_can_lose_the_hemisphere() {
    let n = Vec3::new(Fixed::from_raw(-7), Fixed::from_raw(-5), Fixed::from_raw(6));
    let s = Sample {
        pick: Fixed::zero(),
        u1: Fixed::from_raw(9802720),
        u2: Fixed::from_raw(16777215),
    };
    assert!(Pdf::cosine(n).generate(&s).dot(n).raw < 0);
}
