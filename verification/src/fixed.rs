//! Saturating fixed-point scalars with 24 fractional bits.
//!
//! A [`Fixed`] holds the integer `raw` and stands for the number `raw / 2^24`:
//! numbers between `-2^39` and `2^39`, in steps of `2^-24`.
//! Every operation is total: a result outside the range of `i64` is clamped to
//! the nearest end of that range, a quotient or a product is rounded toward
//! zero, and a division by zero gives the end of the range on the dividend's
//! side (zero for `0 / 0`).

use vstd::prelude::*;

verus! {

/// The raw value that stands for the number one.
pub const SCALE: i64 = 16777216;

/// The circle constant times 2^24, rounded toward zero.
pub const PI_RAW: i64 = 52707178;

/// The raw value of 1024: how far from zero positions may lie for the bounds
/// on rounding to be proved of them.
pub const REACH: i64 = 17179869184;

/// Clamps an integer to the range of raw values.
pub open spec fn sat(v: int) -> int {
    if v > i64::MAX {
        i64::MAX as int
    } else if v < i64::MIN {
        i64::MIN as int
    } else {
        v
    }
}

/// Absolute value of an integer.
pub open spec fn magnitude(v: int) -> int {
    if v >= 0 {
        v
    } else {
        -v
    }
}

/// Quotient of `n` by a non-zero `d`, rounded toward zero.
pub open spec fn trunc_div(n: int, d: int) -> int
    recommends
        d != 0,
{
    if (n >= 0) == (d > 0) {
        magnitude(n) / magnitude(d)
    } else {
        -(magnitude(n) / magnitude(d))
    }
}

/// Whether `r` is the integer square root of `n`.
pub open spec fn is_floor_sqrt(n: int, r: int) -> bool {
    &&& 0 <= r
    &&& r * r <= n
    &&& n < (r + 1) * (r + 1)
}

/// The integer square root: the largest `r` with `r * r <= n`; zero for a
/// negative `n`.
pub open spec fn floor_sqrt(n: int) -> int {
    if n <= 0 {
        0
    } else {
        choose|r: int| is_floor_sqrt(n, r)
    }
}

/// At most one integer is the square root of `n`.
pub proof fn lemma_floor_sqrt_unique(n: int, r1: int, r2: int)
    requires
        is_floor_sqrt(n, r1),
        is_floor_sqrt(n, r2),
    ensures
        r1 == r2,
{
    if r1 < r2 {
        assert((r1 + 1) * (r1 + 1) <= r2 * r2) by (nonlinear_arith)
            requires
                0 <= r1,
                r1 + 1 <= r2,
        ;
    } else if r2 < r1 {
        assert((r2 + 1) * (r2 + 1) <= r1 * r1) by (nonlinear_arith)
            requires
                0 <= r2,
                r2 + 1 <= r1,
        ;
    }
}

/// Every natural number has an integer square root.
pub proof fn lemma_floor_sqrt_exists(n: nat)
    ensures
        is_floor_sqrt(n as int, floor_sqrt(n as int)),
    decreases n,
{
    if n == 0 {
        assert(is_floor_sqrt(0, 0));
    } else {
        lemma_floor_sqrt_exists((n - 1) as nat);
        let r = floor_sqrt(n - 1);
        if n < (r + 1) * (r + 1) {
            assert(is_floor_sqrt(n as int, r));
        } else {
            assert((r + 2) * (r + 2) > (r + 1) * (r + 1)) by (nonlinear_arith)
                requires
                    r >= 0,
            ;
            assert(is_floor_sqrt(n as int, r + 1));
        }
    }
}

/// The square root of a positive number is the integer square root of its
/// raw value times the scale, and no square root is negative.
pub proof fn lemma_sqrt(x: Fixed)
    ensures
        x.sqrt()@ >= 0,
        x.sqrt()@ == floor_sqrt(x@ * SCALE),
        x.sqrt()@ <= 0x1000_0000_0000,
        x@ > 0 ==> is_floor_sqrt(x@ * SCALE, x.sqrt()@),
{
    if x@ > 0 {
        let n = x@ * SCALE;
        lemma_floor_sqrt_exists(n as nat);
        let r = floor_sqrt(n);
        assert(r < 0x1000_0000_0000) by (nonlinear_arith)
            requires
                r >= 0,
                r * r <= n,
                n < 0x100_0000_0000_0000_0000_0000,
        ;
    }
}

/// A number `raw / 2^24`.
#[derive(Clone, Copy, Debug, PartialEq, Eq, Structural)]
pub struct Fixed {
    pub raw: i64,
}

fn clamp(v: i128) -> (r: i64)
    ensures
        r == sat(v as int),
{
    if v > i64::MAX as i128 {
        i64::MAX
    } else if v < i64::MIN as i128 {
        i64::MIN
    } else {
        v as i64
    }
}

/// Integer square root of `n`, by bisection.
fn isqrt(n: u128) -> (r: u128)
    requires
        n < 0x100_0000_0000_0000_0000_0000,
    ensures
        r == floor_sqrt(n as int),
        is_floor_sqrt(n as int, r as int),
        r < 0x1000_0000_0000,
{
    let mut lo: u128 = 0;
    let mut hi: u128 = 0x1000_0000_0000;
    assert(0x1000_0000_0000u128 * 0x1000_0000_0000u128 == 0x100_0000_0000_0000_0000_0000u128)
        by (nonlinear_arith);
    while hi - lo > 1
        invariant
            lo < hi <= 0x1000_0000_0000,
            lo * lo <= n,
            n < hi * hi,
        decreases hi - lo,
    {
        let mid: u128 = lo + (hi - lo) / 2;
        assert(mid * mid <= 0x100_0000_0000_0000_0000_0000) by (nonlinear_arith)
            requires
                0 <= mid <= 0x1000_0000_0000,
        ;
        if mid * mid <= n {
            lo = mid;
        } else {
            hi = mid;
        }
    }
    proof {
        assert(hi == lo + 1);
        assert(is_floor_sqrt(n as int, lo as int));
        if n > 0 {
            let c = choose|r: int| is_floor_sqrt(n as int, r);
            lemma_floor_sqrt_unique(n as int, lo as int, c);
        } else {
            assert(lo == 0) by (nonlinear_arith)
                requires
                    lo * lo <= 0,
                    lo >= 0,
            ;
        }
    }
    lo
}

impl Fixed {
    /// The raw value as a mathematical integer.
    pub open spec fn view(self) -> int {
        self.raw as int
    }

    pub open spec fn spec_from_raw(raw: i64) -> Fixed {
        Fixed { raw }
    }

    /// The number `raw / 2^24`.
    #[verifier::when_used_as_spec(spec_from_raw)]
    pub fn from_raw(raw: i64) -> (r: Fixed)
        ensures
            r == Fixed::spec_from_raw(raw),
    {
        Fixed { raw }
    }

    pub open spec fn spec_zero() -> Fixed {
        Fixed { raw: 0 }
    }

    /// The number zero.
    #[verifier::when_used_as_spec(spec_zero)]
    pub fn zero() -> (r: Fixed)
        ensures
            r == Fixed::spec_zero(),
    {
        Fixed { raw: 0 }
    }

    pub open spec fn spec_one() -> Fixed {
        Fixed { raw: SCALE }
    }

    /// The number one.
    #[verifier::when_used_as_spec(spec_one)]
    pub fn one() -> (r: Fixed)
        ensures
            r == Fixed::spec_one(),
    {
        Fixed { raw: SCALE }
    }

    pub open spec fn spec_pi() -> Fixed {
        Fixed { raw: PI_RAW }
    }

    /// The circle constant, rounded toward zero.
    #[verifier::when_used_as_spec(spec_pi)]
    pub fn pi() -> (r: Fixed)
        ensures
            r == Fixed::spec_pi(),
    {
        Fixed { raw: PI_RAW }
    }

    pub open spec fn spec_largest() -> Fixed {
        Fixed { raw: i64::MAX }
    }

    /// The largest representable number.
    #[verifier::when_used_as_spec(spec_largest)]
    pub fn largest() -> (r: Fixed)
        ensures
            r == Fixed::spec_largest(),
    {
        Fixed { raw: i64::MAX }
    }

    pub open spec fn spec_from_int(n: i32) -> Fixed {
        Fixed { raw: (n * SCALE) as i64 }
    }

    /// The whole number `n`, which is always representable.
    #[verifier::when_used_as_spec(spec_from_int)]
    pub fn from_int(n: i32) -> (r: Fixed)
        ensures
            r == Fixed::spec_from_int(n),
            r@ == n * SCALE,
    {
        Fixed { raw: (n as i64) * SCALE }
    }

    pub open spec fn spec_from_count(n: usize) -> Fixed {
        Fixed { raw: sat(n * SCALE) as i64 }
    }

    /// The whole number `n`, clamped to the representable range.
    #[verifier::when_used_as_spec(spec_from_count)]
    pub fn from_count(n: usize) -> (r: Fixed)
        ensures
            r == Fixed::spec_from_count(n),
            r@ >= 0,
            n > 0 ==> r@ > 0,
    {
        assert(n * SCALE == n * 16777216) by (nonlinear_arith)
            requires
                SCALE == 16777216,
        ;
        Fixed { raw: clamp((n as i128) * (SCALE as i128)) }
    }

    pub open spec fn spec_half() -> Fixed {
        Fixed { raw: 8388608 }
    }

    /// The number one half.
    #[verifier::when_used_as_spec(spec_half)]
    pub fn half() -> (r: Fixed)
        ensures
            r == Fixed::spec_half(),
    {
        Fixed { raw: 8388608 }
    }

    pub open spec fn spec_ratio(num: i32, den: i32) -> Fixed {
        Fixed::spec_from_int(num).spec_div(Fixed::spec_from_int(den))
    }

    /// The quotient `num / den` of two whole numbers.
    #[verifier::when_used_as_spec(spec_ratio)]
    pub fn ratio(num: i32, den: i32) -> (r: Fixed)
        ensures
            r == Fixed::spec_ratio(num, den),
    {
        Fixed::from_int(num).div(Fixed::from_int(den))
    }

    pub open spec fn spec_unit_from_bits(bits: u32) -> Fixed {
        Fixed { raw: (bits / 256) as i64 }
    }

    /// Maps 32 uniformly distributed bits to a number in `[0, 1)`: the upper
    /// 24 bits become the fraction.
    #[verifier::when_used_as_spec(spec_unit_from_bits)]
    pub fn unit_from_bits(bits: u32) -> (r: Fixed)
        ensures
            r == Fixed::spec_unit_from_bits(bits),
            r.is_unit(),
    {
        Fixed { raw: (bits / 256) as i64 }
    }

    /// Whether the number lies in `[0, 1)`.
    pub open spec fn is_unit(self) -> bool {
        0 <= self@ < SCALE
    }

    pub open spec fn spec_add(self, other: Fixed) -> Fixed {
        Fixed { raw: sat(self@ + other@) as i64 }
    }

    /// Sum, clamped to the representable range.
    #[verifier::when_used_as_spec(spec_add)]
    pub fn add(self, other: Fixed) -> (r: Fixed)
        ensures
            r == self.spec_add(other),
    {
        Fixed { raw: clamp(self.raw as i128 + other.raw as i128) }
    }

    pub open spec fn spec_sub(self, other: Fixed) -> Fixed {
        Fixed { raw: sat(self@ - other@) as i64 }
    }

    /// Difference, clamped to the representable range.
    #[verifier::when_used_as_spec(spec_sub)]
    pub fn sub(self, other: Fixed) -> (r: Fixed)
        ensures
            r == self.spec_sub(other),
    {
        Fixed { raw: clamp(self.raw as i128 - other.raw as i128) }
    }

    pub open spec fn spec_neg(self) -> Fixed {
        Fixed { raw: sat(-self@) as i64 }
    }

    /// Negation, clamped to the representable range.
    #[verifier::when_used_as_spec(spec_neg)]
    pub fn neg(self) -> (r: Fixed)
        ensures
            r == self.spec_neg(),
    {
        Fixed { raw: clamp(-(self.raw as i128)) }
    }

    pub open spec fn spec_abs(self) -> Fixed {
        if self@ >= 0 {
            self
        } else {
            self.spec_neg()
        }
    }

    /// Absolute value, clamped to the representable range.
    #[verifier::when_used_as_spec(spec_abs)]
    pub fn abs(self) -> (r: Fixed)
        ensures
            r == self.spec_abs(),
            r@ >= 0,
    {
        if self.raw >= 0 {
            self
        } else {
            self.neg()
        }
    }

    pub open spec fn spec_mul(self, other: Fixed) -> Fixed {
        Fixed { raw: sat(trunc_div(self@ * other@, SCALE as int)) as i64 }
    }

    /// Product, rounded toward zero and clamped.
    #[verifier::when_used_as_spec(spec_mul)]
    pub fn mul(self, other: Fixed) -> (r: Fixed)
        ensures
            r == self.spec_mul(other),
    {
        let a: i128 = self.raw as i128;
        let b: i128 = other.raw as i128;
        assert(-0x4000_0000_0000_0000_0000_0000_0000_0000 <= a * b
            <= 0x4000_0000_0000_0000_0000_0000_0000_0000) by (nonlinear_arith)
            requires
                -0x8000_0000_0000_0000 <= a <= 0x8000_0000_0000_0000,
                -0x8000_0000_0000_0000 <= b <= 0x8000_0000_0000_0000,
        ;
        let p: i128 = a * b;
        let q: i128 = if p >= 0 {
            p / (SCALE as i128)
        } else {
            -((-p) / (SCALE as i128))
        };
        Fixed { raw: clamp(q) }
    }

    pub open spec fn spec_div(self, other: Fixed) -> Fixed {
        if other@ == 0 {
            if self@ > 0 {
                Fixed { raw: i64::MAX }
            } else if self@ < 0 {
                Fixed { raw: i64::MIN }
            } else {
                Fixed { raw: 0 }
            }
        } else {
            Fixed { raw: sat(trunc_div(self@ * SCALE, other@)) as i64 }
        }
    }

    /// Quotient, rounded toward zero and clamped. A division by zero gives the
    /// end of the range on the dividend's side, and zero for `0 / 0`.
    #[verifier::when_used_as_spec(spec_div)]
    pub fn div(self, other: Fixed) -> (r: Fixed)
        ensures
            r == self.spec_div(other),
    {
        if other.raw == 0 {
            if self.raw > 0 {
                Fixed { raw: i64::MAX }
            } else if self.raw < 0 {
                Fixed { raw: i64::MIN }
            } else {
                Fixed { raw: 0 }
            }
        } else {
            assert(-0x8000_0000_0000_0000 * 16777216 <= self.raw * SCALE <= 0x8000_0000_0000_0000
                * 16777216) by (nonlinear_arith)
                requires
                    -0x8000_0000_0000_0000 <= self.raw <= 0x8000_0000_0000_0000,
                    SCALE == 16777216,
            ;
            let n: i128 = (self.raw as i128) * (SCALE as i128);
            let d: i128 = other.raw as i128;
            let an: u128 = if n >= 0 {
                n as u128
            } else {
                (-n) as u128
            };
            let ad: u128 = if d >= 0 {
                d as u128
            } else {
                (-d) as u128
            };
            let m: u128 = an / ad;
            let q: i128 = if (n >= 0) == (d > 0) {
                m as i128
            } else {
                -(m as i128)
            };
            Fixed { raw: clamp(q) }
        }
    }

    pub open spec fn spec_sqrt(self) -> Fixed {
        Fixed { raw: floor_sqrt(self@ * SCALE) as i64 }
    }

    /// Square root, rounded toward zero; zero for a negative number.
    #[verifier::when_used_as_spec(spec_sqrt)]
    pub fn sqrt(self) -> (r: Fixed)
        ensures
            r == self.spec_sqrt(),
            r@ >= 0,
            self@ > 0 ==> r@ * r@ <= self@ * SCALE < (r@ + 1) * (r@ + 1),
    {
        if self.raw <= 0 {
            Fixed { raw: 0 }
        } else {
            let n: u128 = (self.raw as u128) * (SCALE as u128);
            let s: u128 = isqrt(n);
            Fixed { raw: s as i64 }
        }
    }

    pub open spec fn spec_min(self, other: Fixed) -> Fixed {
        if self@ <= other@ {
            self
        } else {
            other
        }
    }

    /// The smaller of two numbers.
    #[verifier::when_used_as_spec(spec_min)]
    pub fn min(self, other: Fixed) -> (r: Fixed)
        ensures
            r == self.spec_min(other),
    {
        if self.raw <= other.raw {
            self
        } else {
            other
        }
    }

    pub open spec fn spec_max(self, other: Fixed) -> Fixed {
        if self@ >= other@ {
            self
        } else {
            other
        }
    }

    /// The larger of two numbers.
    #[verifier::when_used_as_spec(spec_max)]
    pub fn max(self, other: Fixed) -> (r: Fixed)
        ensures
            r == self.spec_max(other),
    {
        if self.raw >= other.raw {
            self
        } else {
            other
        }
    }

    pub open spec fn spec_square(self) -> Fixed {
        self.spec_mul(self)
    }

    /// The number times itself.
    #[verifier::when_used_as_spec(spec_square)]
    pub fn square(self) -> (r: Fixed)
        ensures
            r == self.spec_square(),
    {
        self.mul(self)
    }
}

/// Zero times anything, and anything times zero, is zero.
pub proof fn lemma_mul_zero(a: Fixed)
    ensures
        a.mul(Fixed::zero()) == Fixed::zero(),
        Fixed::zero().mul(a) == Fixed::zero(),
{
    assert(a@ * 0 == 0);
    assert(0 * a@ == 0);
}

/// One is the unit of multiplication.
pub proof fn lemma_mul_one(a: Fixed)
    ensures
        a.mul(Fixed::one()) == a,
        Fixed::one().mul(a) == a,
{
    let s = SCALE as int;
    assert(a@ * s == s * a@) by (nonlinear_arith);
    if a@ >= 0 {
        assert((a@ * s) / s == a@) by (nonlinear_arith)
            requires
                s > 0,
        ;
        assert(a@ * s >= 0) by (nonlinear_arith)
            requires
                a@ >= 0,
                s > 0,
        ;
    } else {
        assert(((-a@) * s) / s == -a@) by (nonlinear_arith)
            requires
                s > 0,
        ;
        assert(a@ * s < 0) by (nonlinear_arith)
            requires
                a@ < 0,
                s > 0,
        ;
        assert(-(a@ * s) == (-a@) * s) by (nonlinear_arith);
    }
}

/// Minus one times a number is its negation.
pub proof fn lemma_mul_minus_one(a: Fixed)
    ensures
        Fixed::one().neg().mul(a) == a.neg(),
        a.mul(Fixed::one().neg()) == a.neg(),
{
    let s = SCALE as int;
    assert(Fixed::one().neg()@ == -s);
    assert((-s) * a@ == -(a@ * s)) by (nonlinear_arith);
    assert(a@ * (-s) == -(a@ * s)) by (nonlinear_arith);
    if a@ >= 0 {
        assert((a@ * s) / s == a@) by (nonlinear_arith)
            requires
                s > 0,
        ;
        assert(a@ * s >= 0) by (nonlinear_arith)
            requires
                a@ >= 0,
                s > 0,
        ;
    } else {
        assert(((-a@) * s) / s == -a@) by (nonlinear_arith)
            requires
                s > 0,
        ;
        assert(a@ * s < 0) by (nonlinear_arith)
            requires
                a@ < 0,
                s > 0,
        ;
        assert(-(a@ * s) == (-a@) * s) by (nonlinear_arith);
    }
}

/// A number divided by one is itself, and the square root of one is one.
pub proof fn lemma_div_one(a: Fixed)
    ensures
        a.div(Fixed::one()) == a,
        Fixed::one().sqrt() == Fixed::one(),
{
    let s = SCALE as int;
    if a@ >= 0 {
        assert((a@ * s) / s == a@) by (nonlinear_arith)
            requires
                s > 0,
        ;
        assert(a@ * s >= 0) by (nonlinear_arith)
            requires
                a@ >= 0,
                s > 0,
        ;
    } else {
        assert(((-a@) * s) / s == -a@) by (nonlinear_arith)
            requires
                s > 0,
        ;
        assert(a@ * s < 0) by (nonlinear_arith)
            requires
                a@ < 0,
                s > 0,
        ;
        assert(-(a@ * s) == (-a@) * s) by (nonlinear_arith);
    }
    lemma_sqrt(Fixed::one());
    assert(is_floor_sqrt(s * s, s)) by (nonlinear_arith)
        requires
            s > 0,
    ;
    lemma_floor_sqrt_unique(s * s, s, Fixed::one().sqrt()@);
}

/// Zero divided by anything is zero.
pub proof fn lemma_zero_div(d: Fixed)
    ensures
        Fixed::zero().div(d) == Fixed::zero(),
{
    if d@ != 0 {
        assert(0int * (SCALE as int) == 0);
        assert(0int / magnitude(d@) == 0) by (nonlinear_arith)
            requires
                magnitude(d@) > 0,
        ;
    }
}

/// A whole number divided by itself is one.
pub proof fn lemma_div_self(a: Fixed)
    requires
        a@ != 0,
    ensures
        a.div(a) == Fixed::one(),
{
    let s = SCALE as int;
    let m = magnitude(a@);
    assert(magnitude(a@ * s) == m * s) by (nonlinear_arith)
        requires
            s > 0,
            m == magnitude(a@),
    ;
    assert((m * s) / m == s) by (nonlinear_arith)
        requires
            m > 0,
    ;
    assert((a@ * s >= 0) == (a@ > 0)) by (nonlinear_arith)
        requires
            s > 0,
            a@ != 0,
    ;
}

/// The product of two numbers that are not negative is not negative.
pub proof fn lemma_mul_nonneg(a: Fixed, b: Fixed)
    requires
        a@ >= 0,
        b@ >= 0,
    ensures
        a.mul(b)@ >= 0,
{
    assert(a@ * b@ >= 0) by (nonlinear_arith)
        requires
            a@ >= 0,
            b@ >= 0,
    ;
    vstd::arithmetic::div_mod::lemma_div_pos_is_pos(a@ * b@, SCALE as int);
}

/// No square is negative.
pub proof fn lemma_square_nonneg(a: Fixed)
    ensures
        a.square()@ >= 0,
{
    assert(a@ * a@ >= 0) by (nonlinear_arith);
    vstd::arithmetic::div_mod::lemma_div_pos_is_pos(a@ * a@, SCALE as int);
}

/// The quotient of two numbers that are not negative is not negative, also
/// where the divisor is zero.
pub proof fn lemma_div_nonneg(a: Fixed, b: Fixed)
    requires
        a@ >= 0,
        b@ >= 0,
    ensures
        a.div(b)@ >= 0,
{
    if b@ > 0 {
        assert(a@ * SCALE >= 0) by (nonlinear_arith)
            requires
                a@ >= 0,
                SCALE > 0,
        ;
        vstd::arithmetic::div_mod::lemma_div_pos_is_pos(a@ * SCALE, b@);
    }
}

/// The square root of a number that is at most one is at most one.
pub proof fn lemma_sqrt_at_most_one(x: Fixed)
    requires
        x@ <= SCALE,
    ensures
        0 <= x.sqrt()@ <= SCALE,
{
    lemma_sqrt(x);
    if x@ > 0 {
        let r = x.sqrt()@;
        let s = SCALE as int;
        assert(r <= s) by (nonlinear_arith)
            requires
                r >= 0,
                s > 0,
                r * r <= x@ * s,
                x@ <= s,
        ;
    }
}

/// Rounding toward zero loses less than one unit of the divisor, and never
/// gains: `trunc_div(n, d) * d` lies between zero and `n`, less than `d`
/// away from `n`.
pub proof fn lemma_trunc_div_error(n: int, d: int)
    requires
        d > 0,
    ensures
        magnitude(trunc_div(n, d) * d - n) < d,
        n >= 0 ==> 0 <= trunc_div(n, d) * d <= n,
        n <= 0 ==> n <= trunc_div(n, d) * d <= 0,
        magnitude(trunc_div(n, d)) * d <= magnitude(n),
{
    let m = magnitude(n);
    vstd::arithmetic::div_mod::lemma_fundamental_div_mod(m, d);
    vstd::arithmetic::div_mod::lemma_mod_bound(m, d);
    vstd::arithmetic::div_mod::lemma_div_pos_is_pos(m, d);
    let k = m / d;
    assert(m == d * k + m % d);
    assert(d * k == k * d) by (nonlinear_arith);
    if n >= 0 {
        assert(trunc_div(n, d) == k);
    } else {
        assert(trunc_div(n, d) == -k);
        assert((-k) * d == -(k * d)) by (nonlinear_arith);
    }
}

/// A product that stays in range is the exact product rounded toward zero:
/// it differs from the exact product by less than one raw unit.
pub proof fn lemma_mul_error(x: Fixed, y: Fixed)
    requires
        magnitude(x@ * y@) <= i64::MAX * SCALE,
    ensures
        x.mul(y)@ == trunc_div(x@ * y@, SCALE as int),
        magnitude(x.mul(y)@ * SCALE - x@ * y@) < SCALE,
        x@ * y@ >= 0 ==> 0 <= x.mul(y)@ * SCALE <= x@ * y@,
        magnitude(x.mul(y)@) * SCALE <= magnitude(x@ * y@),
{
    let n = x@ * y@;
    let s = SCALE as int;
    lemma_trunc_div_error(n, s);
    let m = trunc_div(n, s);
    assert(magnitude(m) <= i64::MAX) by (nonlinear_arith)
        requires
            magnitude(m) * s <= magnitude(n),
            magnitude(n) <= i64::MAX * s,
            s > 0,
    ;
}

/// A quotient that stays in range is the exact quotient rounded toward zero:
/// multiplied back, it differs from the dividend by less than the divisor.
pub proof fn lemma_div_error(n: Fixed, d: Fixed)
    requires
        d@ > 0,
        magnitude(n@ * SCALE) <= i64::MAX * d@,
    ensures
        n.div(d)@ == trunc_div(n@ * SCALE, d@),
        magnitude(n.div(d)@ * d@ - n@ * SCALE) < d@,
        magnitude(n.div(d)@) * d@ <= magnitude(n@ * SCALE),
        n@ >= 0 ==> n.div(d)@ >= 0,
        n@ <= 0 ==> n.div(d)@ <= 0,
{
    let x = n@ * SCALE;
    lemma_trunc_div_error(x, d@);
    let m = trunc_div(x, d@);
    assert(n@ >= 0 ==> x >= 0) by (nonlinear_arith)
        requires
            x == n@ * SCALE,
            SCALE > 0,
    ;
    assert(n@ <= 0 ==> x <= 0) by (nonlinear_arith)
        requires
            x == n@ * SCALE,
            SCALE > 0,
    ;
    assert(m * d@ >= 0 ==> m >= 0) by (nonlinear_arith)
        requires
            d@ > 0,
    ;
    assert(m * d@ <= 0 ==> m <= 0) by (nonlinear_arith)
        requires
            d@ > 0,
    ;
    assert(magnitude(m) <= i64::MAX) by (nonlinear_arith)
        requires
            magnitude(m) * d@ <= magnitude(x),
            magnitude(x) <= i64::MAX * d@,
            d@ > 0,
    ;
}

/// A product of two bounded numbers: it stays in range, differs from the
/// exact product by less than one raw unit, and is bounded in turn.
pub proof fn lemma_bounded_product(x: Fixed, y: Fixed, bx: int, by: int)
    requires
        magnitude(x@) <= bx,
        magnitude(y@) <= by,
        bx * by <= 0x7fff_ffff_ffff_ffff * 16777216,
    ensures
        magnitude(x.mul(y)@ * 16777216 - x@ * y@) < 16777216,
        x@ * y@ >= 0 ==> 0 <= x.mul(y)@ * 16777216 <= x@ * y@,
        magnitude(x.mul(y)@) * 16777216 <= bx * by,
{
    assert(magnitude(x@ * y@) <= bx * by) by (nonlinear_arith)
        requires
            magnitude(x@) <= bx,
            magnitude(y@) <= by,
    ;
    assert(i64::MAX * SCALE == 0x7fff_ffff_ffff_ffff * 16777216) by (nonlinear_arith)
        requires
            SCALE == 16777216,
    ;
    lemma_mul_error(x, y);
    let m = x.mul(y)@;
    assert(m * SCALE == m * 16777216) by (nonlinear_arith)
        requires
            SCALE == 16777216,
    ;
    assert(magnitude(m) * SCALE == magnitude(m) * 16777216) by (nonlinear_arith)
        requires
            SCALE == 16777216,
    ;
}

/// Dividing by a positive number keeps the order of the dividends.
pub proof fn lemma_div_monotone(a: Fixed, b: Fixed, d: Fixed)
    requires
        a@ <= b@,
        d@ > 0,
    ensures
        a.div(d)@ <= b.div(d)@,
{
    let s = SCALE as int;
    let x = a@ * s;
    let y = b@ * s;
    assert(x <= y) by (nonlinear_arith)
        requires
            a@ <= b@,
            s > 0,
            x == a@ * s,
            y == b@ * s,
    ;
    lemma_trunc_div_monotone(x, y, d@);
}

/// Rounding toward zero keeps the order of the dividends.
pub proof fn lemma_trunc_div_monotone(x: int, y: int, d: int)
    requires
        x <= y,
        d > 0,
    ensures
        trunc_div(x, d) <= trunc_div(y, d),
{
    if x >= 0 {
        vstd::arithmetic::div_mod::lemma_div_is_ordered(x, y, d);
    } else if y < 0 {
        vstd::arithmetic::div_mod::lemma_div_is_ordered(-y, -x, d);
    } else {
        vstd::arithmetic::div_mod::lemma_div_pos_is_pos(-x, d);
        vstd::arithmetic::div_mod::lemma_div_pos_is_pos(y, d);
    }
}

} // verus!
