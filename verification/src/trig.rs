//! Cosine and sine of an angle given in turns.
//!
//! The angle is folded into an eighth of a turn, where both functions are
//! evaluated by their power series up to the ninth power, and the result is
//! clamped to `[-1, 1]`. Whole quarter turns give exact values.

use vstd::prelude::*;
use crate::fixed::Fixed;
use crate::fixed::SCALE;

verus! {

/// Raw value of a quarter.
pub const QUARTER: i64 = 4194304;

/// Raw value of an eighth.
pub const EIGHTH: i64 = 2097152;

/// Cosine and sine of one angle.
#[derive(Clone, Copy, Debug, PartialEq, Eq, Structural)]
pub struct CosSin {
    pub cos: Fixed,
    pub sin: Fixed,
}

/// Clamps a number to `[0, 1]`.
pub open spec fn spec_clamp_unit(x: Fixed) -> Fixed {
    x.max(Fixed::zero()).min(Fixed::one())
}

/// Clamps a number to `[0, 1]`.
#[verifier::when_used_as_spec(spec_clamp_unit)]
pub fn clamp_unit(x: Fixed) -> (r: Fixed)
    ensures
        r == spec_clamp_unit(x),
        0 <= r@ <= SCALE,
{
    x.max(Fixed::zero()).min(Fixed::one())
}

/// One step of a power series in nested form: `1 - (x2 / k) * inner`.
pub open spec fn spec_series_step(x2: Fixed, k: i32, inner: Fixed) -> Fixed {
    Fixed::one().sub(x2.div(Fixed::from_int(k)).mul(inner))
}

/// One step of a power series in nested form: `1 - (x2 / k) * inner`.
#[verifier::when_used_as_spec(spec_series_step)]
pub fn series_step(x2: Fixed, k: i32, inner: Fixed) -> (r: Fixed)
    ensures
        r == spec_series_step(x2, k, inner),
{
    Fixed::one().sub(x2.div(Fixed::from_int(k)).mul(inner))
}

/// The sine series `x - x^3/3! + x^5/5! - x^7/7! + x^9/9!` in radians,
/// clamped to `[0, 1]`.
pub open spec fn spec_sin_series(x: Fixed) -> Fixed {
    let x2 = x.square();
    clamp_unit(
        x.mul(
            series_step(
                x2,
                6,
                series_step(x2, 20, series_step(x2, 42, series_step(x2, 72, Fixed::one()))),
            ),
        ),
    )
}

/// The sine series `x - x^3/3! + x^5/5! - x^7/7! + x^9/9!` in radians,
/// clamped to `[0, 1]`.
#[verifier::when_used_as_spec(spec_sin_series)]
pub fn sin_series(x: Fixed) -> (r: Fixed)
    ensures
        r == spec_sin_series(x),
        0 <= r@ <= SCALE,
{
    let x2 = x.square();
    let t4 = series_step(x2, 72, Fixed::one());
    let t3 = series_step(x2, 42, t4);
    let t2 = series_step(x2, 20, t3);
    let t1 = series_step(x2, 6, t2);
    clamp_unit(x.mul(t1))
}

/// The cosine series `1 - x^2/2! + x^4/4! - x^6/6! + x^8/8!` in radians,
/// clamped to `[0, 1]`.
pub open spec fn spec_cos_series(x: Fixed) -> Fixed {
    let x2 = x.square();
    clamp_unit(
        series_step(
            x2,
            2,
            series_step(x2, 12, series_step(x2, 30, series_step(x2, 56, Fixed::one()))),
        ),
    )
}

/// The cosine series `1 - x^2/2! + x^4/4! - x^6/6! + x^8/8!` in radians,
/// clamped to `[0, 1]`.
#[verifier::when_used_as_spec(spec_cos_series)]
pub fn cos_series(x: Fixed) -> (r: Fixed)
    ensures
        r == spec_cos_series(x),
        0 <= r@ <= SCALE,
{
    let x2 = x.square();
    let t4 = series_step(x2, 56, Fixed::one());
    let t3 = series_step(x2, 30, t4);
    let t2 = series_step(x2, 12, t3);
    clamp_unit(series_step(x2, 2, t2))
}

/// Cosine and sine of `frac` of a turn, for a raw fraction below a quarter.
pub open spec fn spec_first_quarter(frac: i64) -> CosSin {
    let two_pi = Fixed::pi().add(Fixed::pi());
    if frac <= EIGHTH {
        let x = two_pi.mul(Fixed { raw: frac });
        CosSin { cos: cos_series(x), sin: sin_series(x) }
    } else {
        let x = two_pi.mul(Fixed { raw: (QUARTER - frac) as i64 });
        CosSin { cos: sin_series(x), sin: cos_series(x) }
    }
}

/// Cosine and sine of `frac` of a turn, for a raw fraction below a quarter.
#[verifier::when_used_as_spec(spec_first_quarter)]
pub fn first_quarter(frac: i64) -> (r: CosSin)
    requires
        0 <= frac < QUARTER,
    ensures
        r == spec_first_quarter(frac),
        0 <= r.cos@ <= SCALE,
        0 <= r.sin@ <= SCALE,
{
    let two_pi = Fixed::pi().add(Fixed::pi());
    if frac <= EIGHTH {
        let x = two_pi.mul(Fixed { raw: frac });
        CosSin { cos: cos_series(x), sin: sin_series(x) }
    } else {
        let x = two_pi.mul(Fixed { raw: QUARTER - frac });
        CosSin { cos: sin_series(x), sin: cos_series(x) }
    }
}

/// Cosine and sine of an angle of `turns` full turns.
///
/// The angle's magnitude is reduced modulo one turn and split into a number
/// of quarter turns and a rest; the rest is evaluated in the first quarter,
/// the quarter turns rotate it, and a negative angle flips the sine.
pub open spec fn spec_cos_sin_turns(turns: Fixed) -> CosSin {
    let f = turns.abs()@ % (SCALE as int);
    let q = f / (QUARTER as int);
    let base = spec_first_quarter((f % (QUARTER as int)) as i64);
    let turned = if q == 0 {
        base
    } else if q == 1 {
        CosSin { cos: base.sin.neg(), sin: base.cos }
    } else if q == 2 {
        CosSin { cos: base.cos.neg(), sin: base.sin.neg() }
    } else {
        CosSin { cos: base.sin, sin: base.cos.neg() }
    };
    if turns@ < 0 {
        CosSin { cos: turned.cos, sin: turned.sin.neg() }
    } else {
        turned
    }
}

/// Cosine and sine of an angle of `turns` full turns.
#[verifier::when_used_as_spec(spec_cos_sin_turns)]
pub fn cos_sin_turns(turns: Fixed) -> (r: CosSin)
    ensures
        r == spec_cos_sin_turns(turns),
        -SCALE <= r.cos@ <= SCALE,
        -SCALE <= r.sin@ <= SCALE,
{
    let f: i64 = turns.abs().raw % SCALE;
    let q: i64 = f / QUARTER;
    let base = first_quarter(f % QUARTER);
    let turned = if q == 0 {
        base
    } else if q == 1 {
        CosSin { cos: base.sin.neg(), sin: base.cos }
    } else if q == 2 {
        CosSin { cos: base.cos.neg(), sin: base.sin.neg() }
    } else {
        CosSin { cos: base.sin, sin: base.cos.neg() }
    };
    if turns.raw < 0 {
        CosSin { cos: turned.cos, sin: turned.sin.neg() }
    } else {
        turned
    }
}

/// Cosine and sine of an angle in degrees.
pub open spec fn spec_cos_sin_degrees(degrees: Fixed) -> CosSin {
    cos_sin_turns(degrees.div(Fixed::from_int(360)))
}

/// Cosine and sine of an angle in degrees.
#[verifier::when_used_as_spec(spec_cos_sin_degrees)]
pub fn cos_sin_degrees(degrees: Fixed) -> (r: CosSin)
    ensures
        r == spec_cos_sin_degrees(degrees),
        -SCALE <= r.cos@ <= SCALE,
        -SCALE <= r.sin@ <= SCALE,
{
    cos_sin_turns(degrees.div(Fixed::from_int(360)))
}

/// Zero degrees and 360 degrees have cosine one and sine zero.
pub proof fn lemma_whole_turn_degrees()
    ensures
        cos_sin_degrees(Fixed::zero()) == (CosSin { cos: Fixed::one(), sin: Fixed::zero() }),
        cos_sin_degrees(Fixed::from_int(360)) == (CosSin { cos: Fixed::one(), sin: Fixed::zero() }),
{
    crate::fixed::lemma_zero_div(Fixed::from_int(360));
    crate::fixed::lemma_div_self(Fixed::from_int(360));
    assert(Fixed::from_int(360).div(Fixed::from_int(360)) == Fixed::from_int(1));
    assert(Fixed::zero().div(Fixed::from_int(360)) == Fixed::from_int(0));
    lemma_whole_turns(0);
    lemma_whole_turns(1);
}

/// A whole number of turns has cosine one and sine zero.
pub proof fn lemma_whole_turns(n: i32)
    ensures
        cos_sin_turns(Fixed::from_int(n)) == (CosSin { cos: Fixed::one(), sin: Fixed::zero() }),
{
    let t = Fixed::from_int(n);
    let s = SCALE as int;
    let m: int = if n >= 0 { n as int } else { -n };
    assert(t.abs()@ == m * s);
    assert((m * s) % s == 0) by (nonlinear_arith)
        requires
            s > 0,
    ;
    lemma_series_at_zero();
}

/// A turn of `q` quarters, for `q` from 0 to 3, has the cosine and sine of
/// the direction (1, 0) turned `q` times by a right angle.
pub proof fn lemma_quarter_turns(q: int)
    requires
        0 <= q < 4,
    ensures
        cos_sin_turns(Fixed { raw: (q * QUARTER) as i64 }) == (if q == 0 {
            CosSin { cos: Fixed::one(), sin: Fixed::zero() }
        } else if q == 1 {
            CosSin { cos: Fixed::zero(), sin: Fixed::one() }
        } else if q == 2 {
            CosSin { cos: Fixed::one().neg(), sin: Fixed::zero() }
        } else {
            CosSin { cos: Fixed::zero(), sin: Fixed::one().neg() }
        }),
{
    lemma_series_at_zero();
    let raw: int = if q == 0 {
        0
    } else if q == 1 {
        4194304
    } else if q == 2 {
        8388608
    } else {
        12582912
    };
    assert(q * QUARTER == raw) by (nonlinear_arith)
        requires
            QUARTER == 4194304,
            0 <= q < 4,
            raw == (if q == 0 {
                0int
            } else if q == 1 {
                4194304
            } else if q == 2 {
                8388608
            } else {
                12582912
            }),
    ;
    let t = Fixed { raw: raw as i64 };
    assert(t.abs()@ == raw);
    let f = raw % (SCALE as int);
    assert(f == raw);
    assert(f / (QUARTER as int) == q);
    assert(f % (QUARTER as int) == 0);
}

/// A right angle, given in degrees, has cosine zero and sine one.
pub proof fn lemma_right_angle_degrees()
    ensures
        cos_sin_degrees(Fixed::from_int(90)) == (CosSin { cos: Fixed::zero(), sin: Fixed::one() }),
{
    let s = SCALE as int;
    assert(Fixed::from_int(90)@ * s == 25332747903959040) by (nonlinear_arith)
        requires
            Fixed::from_int(90)@ == 90 * 16777216,
            s == 16777216,
    ;
    assert(Fixed::from_int(360)@ == 6039797760);
    assert(25332747903959040int / 6039797760int == 4194304);
    assert(Fixed::from_int(90).div(Fixed::from_int(360)) == (Fixed { raw: QUARTER }));
    lemma_quarter_turns(1);
}

/// Both series are exact at zero.
pub proof fn lemma_series_at_zero()
    ensures
        spec_first_quarter(0) == (CosSin { cos: Fixed::one(), sin: Fixed::zero() }),
{
    let two_pi = Fixed::pi().add(Fixed::pi());
    let zero = Fixed::zero();
    crate::fixed::lemma_mul_zero(two_pi);
    let x = two_pi.mul(Fixed { raw: 0 });
    assert(x == zero);
    crate::fixed::lemma_mul_zero(zero);
    let x2 = x.square();
    assert(x2 == zero);
    assert forall|k: i32, inner: Fixed| k != 0 implies #[trigger] spec_series_step(zero, k, inner)
        == Fixed::one() by {
        crate::fixed::lemma_zero_div(Fixed::from_int(k));
        crate::fixed::lemma_mul_zero(inner);
    }
    let s1 = series_step(x2, 6, series_step(x2, 20, series_step(x2, 42, series_step(x2, 72, Fixed::one()))));
    crate::fixed::lemma_mul_zero(s1);
}

} // verus!
