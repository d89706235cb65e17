use rest_of_life::fixed::Fixed;
use rest_of_life::fixed::PI_RAW;
use rest_of_life::fixed::SCALE;

fn to_f64(x: Fixed) -> f64 {
    x.raw as f64 / SCALE as f64
}

#[test]
fn product_of_whole_numbers_is_exact() {
    assert_eq!(Fixed::from_int(2).mul(Fixed::from_int(3)), Fixed::from_int(6));
    assert_eq!(Fixed::from_int(-2).mul(Fixed::from_int(3)), Fixed::from_int(-6));
    assert_eq!(Fixed::from_int(7).mul(Fixed::zero()), Fixed::zero());
    assert_eq!(Fixed::from_int(7).mul(Fixed::one()), Fixed::from_int(7));
}

#[test]
fn product_rounds_toward_zero() {
    let tiny = Fixed::from_raw(1);
    assert_eq!(tiny.mul(Fixed::half()), Fixed::zero());
    assert_eq!(tiny.neg().mul(Fixed::half()), Fixed::zero());
    assert_eq!(Fixed::from_raw(3).mul(Fixed::half()), Fixed::from_raw(1));
    assert_eq!(Fixed::from_raw(-3).mul(Fixed::half()), Fixed::from_raw(-1));
}

#[test]
fn sum_and_difference_saturate() {
    let top = Fixed::largest();
    assert_eq!(top.add(Fixed::one()), top);
    assert_eq!(top.neg().sub(Fixed::from_int(5)), Fixed::from_raw(i64::MIN));
    assert_eq!(Fixed::from_raw(i64::MIN).neg(), top);
    assert_eq!(Fixed::from_raw(i64::MIN).abs(), top);
    assert_eq!(top.mul(top), top);
    assert_eq!(top.mul(top.neg()), Fixed::from_raw(i64::MIN));
}

#[test]
fn quotient_of_whole_numbers() {
    assert_eq!(Fixed::from_int(6).div(Fixed::from_int(3)), Fixed::from_int(2));
    assert_eq!(Fixed::from_int(-6).div(Fixed::from_int(3)), Fixed::from_int(-2));
    assert_eq!(Fixed::from_int(6).div(Fixed::from_int(-3)), Fixed::from_int(-2));
    assert_eq!(Fixed::from_int(1).div(Fixed::from_int(2)), Fixed::half());
    assert_eq!(Fixed::ratio(1, 4).raw, SCALE / 4);
    assert_eq!(Fixed::ratio(1, 3).raw, 5592405);
    assert_eq!(Fixed::ratio(-1, 3).raw, -5592405);
}

#[test]
fn division_by_zero_goes_to_the_end_of_the_range() {
    assert_eq!(Fixed::one().div(Fixed::zero()), Fixed::largest());
    assert_eq!(Fixed::one().neg().div(Fixed::zero()), Fixed::from_raw(i64::MIN));
    assert_eq!(Fixed::zero().div(Fixed::zero()), Fixed::zero());
}

#[test]
fn square_root_of_four_is_two() {
    assert_eq!(Fixed::from_int(4).sqrt(), Fixed::from_int(2));
    assert_eq!(Fixed::from_int(-4).sqrt(), Fixed::zero());
    assert_eq!(Fixed::zero().sqrt(), Fixed::zero());
    assert_eq!(Fixed::one().raw, SCALE);
}

#[test]
fn square_root_is_the_floor() {
    let two = Fixed::from_int(2).sqrt();
    assert_eq!(two.raw, 23726566);
    let r = two.raw as i128;
    let n = 2 * (SCALE as i128) * (SCALE as i128);
    assert!(r * r <= n && n < (r + 1) * (r + 1));
    let big = Fixed::largest().sqrt();
    let r = big.raw as i128;
    let n = (i64::MAX as i128) * (SCALE as i128);
    assert!(r * r <= n && n < (r + 1) * (r + 1));
}

#[test]
fn uniform_bits_keep_their_upper_24() {
    assert_eq!(Fixed::unit_from_bits(0), Fixed::zero());
    assert_eq!(Fixed::unit_from_bits(u32::MAX).raw, SCALE - 1);
    assert_eq!(Fixed::unit_from_bits(0x8000_0000), Fixed::half());
    assert_eq!(Fixed::unit_from_bits(0x0000_01ff).raw, 1);
}

#[test]
fn constants_have_their_values() {
    assert_eq!(Fixed::pi().raw, PI_RAW);
    assert!((to_f64(Fixed::pi()) - std::f64::consts::PI).abs() < 1e-7);
    assert_eq!(Fixed::from_count(3), Fixed::from_int(3));
    assert_eq!(Fixed::from_count(usize::MAX), Fixed::largest());
    assert_eq!(Fixed::from_int(5).min(Fixed::from_int(3)), Fixed::from_int(3));
    assert_eq!(Fixed::from_int(5).max(Fixed::from_int(3)), Fixed::from_int(5));
    assert_eq!(Fixed::from_int(-3).square(), Fixed::from_int(9));
}
