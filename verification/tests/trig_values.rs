use rest_of_life::fixed::Fixed;
use rest_of_life::fixed::SCALE;
use rest_of_life::trig::cos_sin_degrees;
use rest_of_life::trig::cos_sin_turns;
use rest_of_life::trig::CosSin;

fn to_f64(x: Fixed) -> f64 {
    x.raw as f64 / SCALE as f64
}

#[test]
fn quarter_turns_are_exact() {
    let one = Fixed::one();
    let zero = Fixed::zero();
    assert_eq!(cos_sin_turns(zero), CosSin { cos: one, sin: zero });
    assert_eq!(cos_sin_turns(Fixed::ratio(1, 4)), CosSin { cos: zero, sin: one });
    assert_eq!(cos_sin_turns(Fixed::half()), CosSin { cos: one.neg(), sin: zero });
    assert_eq!(cos_sin_turns(Fixed::ratio(3, 4)), CosSin { cos: zero, sin: one.neg() });
    assert_eq!(cos_sin_turns(one), CosSin { cos: one, sin: zero });
    assert_eq!(cos_sin_turns(Fixed::from_int(-3)), CosSin { cos: one, sin: zero });
}

#[test]
fn whole_turns_in_degrees_are_exact() {
    let still = CosSin { cos: Fixed::one(), sin: Fixed::zero() };
    assert_eq!(cos_sin_degrees(Fixed::zero()), still);
    assert_eq!(cos_sin_degrees(Fixed::from_int(360)), still);
    assert_eq!(cos_sin_degrees(Fixed::from_int(-720)), still);
    assert_eq!(
        cos_sin_degrees(Fixed::from_int(90)),
        CosSin { cos: Fixed::zero(), sin: Fixed::one() }
    );
}

#[test]
fn cosine_and_sine_follow_the_circle() {
    let mut k: i32 = -720;
    while k <= 720 {
        let got = cos_sin_degrees(Fixed::from_int(k));
        let angle = (k as f64).to_radians();
        assert!((to_f64(got.cos) - angle.cos()).abs() < 2e-6, "cos {}", k);
        assert!((to_f64(got.sin) - angle.sin()).abs() < 2e-6, "sin {}", k);
        k += 1;
    }
}

#[test]
fn fifteen_degrees() {
    let got = cos_sin_degrees(Fixed::from_int(15));
    assert!((to_f64(got.cos) - 0.9659258).abs() < 1e-6);
    assert!((to_f64(got.sin) - 0.2588190).abs() < 1e-6);
}

#[test]
fn cosine_and_sine_stay_within_one() {
    let mut raw: i64 = -3 * SCALE;
    while raw < 3 * SCALE {
        let got = cos_sin_turns(Fixed::from_raw(raw));
        assert!(got.cos.raw.abs() <= SCALE && got.sin.raw.abs() <= SCALE);
        let norm = to_f64(got.cos) * to_f64(got.cos) + to_f64(got.sin) * to_f64(got.sin);
        assert!((norm - 1.0).abs() < 1e-5);
        raw += 7919;
    }
}
