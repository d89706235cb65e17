//! Three-component vectors of fixed-point numbers: points, directions and
//! colours.

use vstd::prelude::*;
use crate::fixed::Fixed;

verus! {

/// A vector with three fixed-point components.
#[derive(Clone, Copy, Debug, PartialEq, Eq, Structural)]
pub struct Vec3 {
    pub x: Fixed,
    pub y: Fixed,
    pub z: Fixed,
}

impl Vec3 {
    pub open spec fn spec_new(x: Fixed, y: Fixed, z: Fixed) -> Vec3 {
        Vec3 { x, y, z }
    }

    /// The vector with the given components.
    #[verifier::when_used_as_spec(spec_new)]
    pub fn new(x: Fixed, y: Fixed, z: Fixed) -> (r: Vec3)
        ensures
            r == Vec3::spec_new(x, y, z),
    {
        Vec3 { x, y, z }
    }

    pub open spec fn spec_from_ints(x: i32, y: i32, z: i32) -> Vec3 {
        Vec3 { x: Fixed::from_int(x), y: Fixed::from_int(y), z: Fixed::from_int(z) }
    }

    /// The vector with the given whole-number components.
    #[verifier::when_used_as_spec(spec_from_ints)]
    pub fn from_ints(x: i32, y: i32, z: i32) -> (r: Vec3)
        ensures
            r == Vec3::spec_from_ints(x, y, z),
    {
        Vec3 { x: Fixed::from_int(x), y: Fixed::from_int(y), z: Fixed::from_int(z) }
    }

    pub open spec fn spec_zeros() -> Vec3 {
        Vec3 { x: Fixed::zero(), y: Fixed::zero(), z: Fixed::zero() }
    }

    /// The zero vector.
    #[verifier::when_used_as_spec(spec_zeros)]
    pub fn zeros() -> (r: Vec3)
        ensures
            r == Vec3::spec_zeros(),
    {
        Vec3 { x: Fixed::zero(), y: Fixed::zero(), z: Fixed::zero() }
    }

    pub open spec fn spec_ones() -> Vec3 {
        Vec3 { x: Fixed::one(), y: Fixed::one(), z: Fixed::one() }
    }

    /// The vector whose components are all one.
    #[verifier::when_used_as_spec(spec_ones)]
    pub fn ones() -> (r: Vec3)
        ensures
            r == Vec3::spec_ones(),
    {
        Vec3 { x: Fixed::one(), y: Fixed::one(), z: Fixed::one() }
    }

    pub open spec fn spec_add(self, o: Vec3) -> Vec3 {
        Vec3 { x: self.x.add(o.x), y: self.y.add(o.y), z: self.z.add(o.z) }
    }

    /// Component-wise sum.
    #[verifier::when_used_as_spec(spec_add)]
    pub fn add(self, o: Vec3) -> (r: Vec3)
        ensures
            r == self.spec_add(o),
    {
        Vec3 { x: self.x.add(o.x), y: self.y.add(o.y), z: self.z.add(o.z) }
    }

    pub open spec fn spec_sub(self, o: Vec3) -> Vec3 {
        Vec3 { x: self.x.sub(o.x), y: self.y.sub(o.y), z: self.z.sub(o.z) }
    }

    /// Component-wise difference.
    #[verifier::when_used_as_spec(spec_sub)]
    pub fn sub(self, o: Vec3) -> (r: Vec3)
        ensures
            r == self.spec_sub(o),
    {
        Vec3 { x: self.x.sub(o.x), y: self.y.sub(o.y), z: self.z.sub(o.z) }
    }

    pub open spec fn spec_neg(self) -> Vec3 {
        Vec3 { x: self.x.neg(), y: self.y.neg(), z: self.z.neg() }
    }

    /// The opposite vector.
    #[verifier::when_used_as_spec(spec_neg)]
    pub fn neg(self) -> (r: Vec3)
        ensures
            r == self.spec_neg(),
    {
        Vec3 { x: self.x.neg(), y: self.y.neg(), z: self.z.neg() }
    }

    pub open spec fn spec_scale(self, k: Fixed) -> Vec3 {
        Vec3 { x: self.x.mul(k), y: self.y.mul(k), z: self.z.mul(k) }
    }

    /// The vector with every component multiplied by `k`.
    #[verifier::when_used_as_spec(spec_scale)]
    pub fn scale(self, k: Fixed) -> (r: Vec3)
        ensures
            r == self.spec_scale(k),
    {
        Vec3 { x: self.x.mul(k), y: self.y.mul(k), z: self.z.mul(k) }
    }

    pub open spec fn spec_shrink(self, k: Fixed) -> Vec3 {
        Vec3 { x: self.x.div(k), y: self.y.div(k), z: self.z.div(k) }
    }

    /// The vector with every component divided by `k`.
    #[verifier::when_used_as_spec(spec_shrink)]
    pub fn shrink(self, k: Fixed) -> (r: Vec3)
        ensures
            r == self.spec_shrink(k),
    {
        Vec3 { x: self.x.div(k), y: self.y.div(k), z: self.z.div(k) }
    }

    pub open spec fn spec_times(self, o: Vec3) -> Vec3 {
        Vec3 { x: self.x.mul(o.x), y: self.y.mul(o.y), z: self.z.mul(o.z) }
    }

    /// Component-wise product, as used to filter one colour by another.
    #[verifier::when_used_as_spec(spec_times)]
    pub fn times(self, o: Vec3) -> (r: Vec3)
        ensures
            r == self.spec_times(o),
    {
        Vec3 { x: self.x.mul(o.x), y: self.y.mul(o.y), z: self.z.mul(o.z) }
    }

    pub open spec fn spec_dot(self, o: Vec3) -> Fixed {
        self.x.mul(o.x).add(self.y.mul(o.y)).add(self.z.mul(o.z))
    }

    /// Dot product: the three products summed from left to right.
    #[verifier::when_used_as_spec(spec_dot)]
    pub fn dot(self, o: Vec3) -> (r: Fixed)
        ensures
            r == self.spec_dot(o),
    {
        self.x.mul(o.x).add(self.y.mul(o.y)).add(self.z.mul(o.z))
    }

    pub open spec fn spec_cross(self, o: Vec3) -> Vec3 {
        Vec3 {
            x: self.y.mul(o.z).sub(self.z.mul(o.y)),
            y: self.z.mul(o.x).sub(self.x.mul(o.z)),
            z: self.x.mul(o.y).sub(self.y.mul(o.x)),
        }
    }

    /// Cross product.
    #[verifier::when_used_as_spec(spec_cross)]
    pub fn cross(self, o: Vec3) -> (r: Vec3)
        ensures
            r == self.spec_cross(o),
    {
        Vec3 {
            x: self.y.mul(o.z).sub(self.z.mul(o.y)),
            y: self.z.mul(o.x).sub(self.x.mul(o.z)),
            z: self.x.mul(o.y).sub(self.y.mul(o.x)),
        }
    }

    pub open spec fn spec_magnitude_squared(self) -> Fixed {
        self.dot(self)
    }

    /// Squared length.
    #[verifier::when_used_as_spec(spec_magnitude_squared)]
    pub fn magnitude_squared(self) -> (r: Fixed)
        ensures
            r == self.spec_magnitude_squared(),
    {
        self.dot(self)
    }

    pub open spec fn spec_magnitude(self) -> Fixed {
        self.magnitude_squared().sqrt()
    }

    /// Length: the square root of the squared length.
    #[verifier::when_used_as_spec(spec_magnitude)]
    pub fn magnitude(self) -> (r: Fixed)
        ensures
            r == self.spec_magnitude(),
            r@ >= 0,
    {
        self.magnitude_squared().sqrt()
    }

    pub open spec fn spec_normalize(self) -> Vec3 {
        self.shrink(self.magnitude())
    }

    /// The vector divided by its length. A vector whose length rounds to zero
    /// has each non-zero component sent to the end of the range.
    #[verifier::when_used_as_spec(spec_normalize)]
    pub fn normalize(self) -> (r: Vec3)
        ensures
            r == self.spec_normalize(),
    {
        self.shrink(self.magnitude())
    }
}

/// Whether every component of `v` has a raw value of magnitude at most
/// `bound`.
pub open spec fn is_within(v: Vec3, bound: int) -> bool {
    crate::fixed::magnitude(v.x@) <= bound && crate::fixed::magnitude(v.y@) <= bound && crate::fixed::magnitude(v.z@) <= bound
}

/// Whether no component is negative, as holds of every colour of light.
pub open spec fn is_light(c: Vec3) -> bool {
    c.x@ >= 0 && c.y@ >= 0 && c.z@ >= 0
}

/// Light stays light when it is added to light, filtered by a colour that is
/// light, or multiplied or divided by a number that is not negative.
pub proof fn lemma_light_stays_light(a: Vec3, b: Vec3, k: Fixed)
    requires
        is_light(a),
        is_light(b),
        k@ >= 0,
    ensures
        is_light(a.add(b)),
        is_light(a.times(b)),
        is_light(a.scale(k)),
        is_light(a.shrink(k)),
        is_light(Vec3::zeros()),
        is_light(Vec3::ones()),
{
    crate::fixed::lemma_mul_nonneg(a.x, b.x);
    crate::fixed::lemma_mul_nonneg(a.y, b.y);
    crate::fixed::lemma_mul_nonneg(a.z, b.z);
    crate::fixed::lemma_mul_nonneg(a.x, k);
    crate::fixed::lemma_mul_nonneg(a.y, k);
    crate::fixed::lemma_mul_nonneg(a.z, k);
    crate::fixed::lemma_div_nonneg(a.x, k);
    crate::fixed::lemma_div_nonneg(a.y, k);
    crate::fixed::lemma_div_nonneg(a.z, k);
}

/// Whether `n` is one of the six unit vectors along the coordinate axes.
pub open spec fn is_axis_unit(n: Vec3) -> bool {
    ||| n == Vec3::from_ints(1, 0, 0)
    ||| n == Vec3::from_ints(-1i32, 0, 0)
    ||| n == Vec3::from_ints(0, 1, 0)
    ||| n == Vec3::from_ints(0, -1i32, 0)
    ||| n == Vec3::from_ints(0, 0, 1)
    ||| n == Vec3::from_ints(0, 0, -1i32)
}

/// A unit vector along a coordinate axis has length one, so that making it a
/// unit vector changes nothing.
pub proof fn lemma_axis_unit_is_normal(n: Vec3)
    requires
        is_axis_unit(n),
    ensures
        n.magnitude() == Fixed::one(),
        n.normalize() == n,
{
    let one = Fixed::one();
    let zero = Fixed::zero();
    crate::fixed::lemma_mul_one(one);
    crate::fixed::lemma_mul_zero(zero);
    crate::fixed::lemma_mul_minus_one(one.neg());
    assert(one.neg().neg() == one);
    assert(n.magnitude_squared() == one);
    crate::fixed::lemma_div_one(n.x);
    crate::fixed::lemma_div_one(n.y);
    crate::fixed::lemma_div_one(n.z);
}

/// Whether `p` is zero, one or minus one.
pub open spec fn is_sign(p: Fixed) -> bool {
    p == Fixed::zero() || p == Fixed::one() || p == Fixed::one().neg()
}

/// The products of zero, one and minus one are exact.
pub proof fn lemma_sign_products()
    ensures
        forall|p: Fixed, q: Fixed|
            is_sign(p) && is_sign(q) ==> #[trigger] p.mul(q) == (if p == Fixed::zero() || q
                == Fixed::zero() {
                Fixed::zero()
            } else if p == q {
                Fixed::one()
            } else {
                Fixed::one().neg()
            }),
{
    let one = Fixed::one();
    let zero = Fixed::zero();
    assert forall|p: Fixed, q: Fixed| is_sign(p) && is_sign(q) implies #[trigger] p.mul(q) == (if p
        == zero || q == zero {
        zero
    } else if p == q {
        one
    } else {
        one.neg()
    }) by {
        crate::fixed::lemma_mul_zero(p);
        crate::fixed::lemma_mul_zero(q);
        crate::fixed::lemma_mul_one(p);
        crate::fixed::lemma_mul_one(q);
        crate::fixed::lemma_mul_minus_one(p);
        crate::fixed::lemma_mul_minus_one(q);
        assert(one.neg().neg() == one);
    }
}

/// The dot product does not depend on the order of its arguments.
pub proof fn lemma_dot_commutes(a: Vec3, b: Vec3)
    ensures
        a.dot(b) == b.dot(a),
{
    assert(a.x@ * b.x@ == b.x@ * a.x@) by (nonlinear_arith);
    assert(a.y@ * b.y@ == b.y@ * a.y@) by (nonlinear_arith);
    assert(a.z@ * b.z@ == b.z@ * a.z@) by (nonlinear_arith);
}

/// No squared length is negative, and neither is a length.
pub proof fn lemma_magnitude_nonneg(a: Vec3)
    ensures
        a.magnitude_squared()@ >= 0,
        a.magnitude()@ >= 0,
{
    crate::fixed::lemma_square_nonneg(a.x);
    crate::fixed::lemma_square_nonneg(a.y);
    crate::fixed::lemma_square_nonneg(a.z);
    crate::fixed::lemma_sqrt(a.magnitude_squared());
}

/// Filtering by the zero colour, or filtering the zero colour, gives zero.
pub proof fn lemma_times_zeros(a: Vec3)
    ensures
        a.times(Vec3::zeros()) == Vec3::zeros(),
        Vec3::zeros().times(a) == Vec3::zeros(),
        Vec3::zeros().scale(a.x) == Vec3::zeros(),
{
    crate::fixed::lemma_mul_zero(a.x);
    crate::fixed::lemma_mul_zero(a.y);
    crate::fixed::lemma_mul_zero(a.z);
}

/// The zero vector divided by anything is the zero vector.
pub proof fn lemma_zeros_shrink(k: Fixed)
    ensures
        Vec3::zeros().shrink(k) == Vec3::zeros(),
{
    crate::fixed::lemma_zero_div(k);
}

} // verus!
