//! Orthonormal bases built around one direction.

use vstd::prelude::*;
use crate::fixed::Fixed;
use crate::vec3::Vec3;

verus! {

/// A right-handed frame of three axes `u`, `v`, `w`.
#[derive(Clone, Copy, Debug, PartialEq, Eq, Structural)]
pub struct Onb {
    pub u: Vec3,
    pub v: Vec3,
    pub w: Vec3,
}

impl Onb {
    /// The frame whose third axis is `n` at unit length.
    ///
    /// The second axis is perpendicular to the third and to a helper axis:
    /// the Y axis if the third axis leans along X by more than nine tenths,
    /// else the X axis. The first axis is the cross product of the second and
    /// the third, which makes the frame right-handed.
    pub open spec fn spec_build_from_w(n: Vec3) -> Onb {
        let w = n.normalize();
        let helper = if w.x.abs()@ > Fixed::ratio(9, 10)@ {
            Vec3::from_ints(0, 1, 0)
        } else {
            Vec3::from_ints(1, 0, 0)
        };
        let v = w.cross(helper).normalize();
        Onb { u: v.cross(w), v, w }
    }

    /// The frame whose third axis is `n` at unit length.
    #[verifier::when_used_as_spec(spec_build_from_w)]
    pub fn build_from_w(n: Vec3) -> (r: Onb)
        ensures
            r == Onb::spec_build_from_w(n),
            r.w == n.normalize(),
    {
        let w = n.normalize();
        let helper = if w.x.abs().raw > Fixed::ratio(9, 10).raw {
            Vec3::from_ints(0, 1, 0)
        } else {
            Vec3::from_ints(1, 0, 0)
        };
        let v = w.cross(helper).normalize();
        Onb { u: v.cross(w), v, w }
    }

    pub open spec fn spec_local(&self, a: Vec3) -> Vec3 {
        self.u.scale(a.x).add(self.v.scale(a.y)).add(self.w.scale(a.z))
    }

    /// The vector with coordinates `a` in this frame.
    #[verifier::when_used_as_spec(spec_local)]
    pub fn local(&self, a: Vec3) -> (r: Vec3)
        ensures
            r == self.spec_local(a),
    {
        self.u.scale(a.x).add(self.v.scale(a.y)).add(self.w.scale(a.z))
    }
}

/// Around a coordinate axis the frame is exact: its three axes are unit
/// vectors along coordinate axes, the third is the given one, and the
/// component along it of a vector given in the frame is that vector's third
/// coordinate.
pub proof fn lemma_axis_frame(n: Vec3, a: Vec3)
    requires
        crate::vec3::is_axis_unit(n),
        a.z@ > i64::MIN,
    ensures
        Onb::build_from_w(n).w == n,
        crate::vec3::is_axis_unit(Onb::build_from_w(n).u),
        crate::vec3::is_axis_unit(Onb::build_from_w(n).v),
        Onb::build_from_w(n).local(a).dot(n) == a.z,
{
    let one = Fixed::one();
    let zero = Fixed::zero();
    crate::vec3::lemma_axis_unit_is_normal(n);
    let w = n.normalize();
    assert(w == n);
    let helper = if w.x.abs()@ > Fixed::ratio(9, 10)@ {
        Vec3::from_ints(0, 1, 0)
    } else {
        Vec3::from_ints(1, 0, 0)
    };
    assert(Fixed::ratio(9, 10)@ == 15099494) by {
        assert(Fixed::from_int(9)@ * crate::fixed::SCALE == 2533274790395904) by (nonlinear_arith)
            requires
                Fixed::from_int(9)@ == 9 * 16777216,
                crate::fixed::SCALE == 16777216,
        ;
        assert(Fixed::from_int(10)@ == 167772160);
        assert(2533274790395904int / 167772160int == 15099494);
    }
    crate::vec3::lemma_sign_products();
    let c = w.cross(helper);
    assert(crate::vec3::is_axis_unit(c));
    crate::vec3::lemma_axis_unit_is_normal(c);
    let v = c.normalize();
    assert(v == c);
    let u = v.cross(w);
    assert(crate::vec3::is_axis_unit(u));
    crate::fixed::lemma_mul_zero(a.x);
    crate::fixed::lemma_mul_zero(a.y);
    crate::fixed::lemma_mul_zero(a.z);
    crate::fixed::lemma_mul_one(a.x);
    crate::fixed::lemma_mul_one(a.y);
    crate::fixed::lemma_mul_one(a.z);
    crate::fixed::lemma_mul_minus_one(a.x);
    crate::fixed::lemma_mul_minus_one(a.y);
    crate::fixed::lemma_mul_minus_one(a.z);
    let d = Onb::build_from_w(n).local(a);
    crate::fixed::lemma_mul_zero(d.x);
    crate::fixed::lemma_mul_zero(d.y);
    crate::fixed::lemma_mul_zero(d.z);
    crate::fixed::lemma_mul_one(d.x);
    crate::fixed::lemma_mul_one(d.y);
    crate::fixed::lemma_mul_one(d.z);
    crate::fixed::lemma_mul_minus_one(d.x);
    crate::fixed::lemma_mul_minus_one(d.y);
    crate::fixed::lemma_mul_minus_one(d.z);
}

} // verus!
