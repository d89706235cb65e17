//! The length of a bent direction: how far rounding, and vectors that are
//! not quite of unit length, can take it from one.

use vstd::prelude::*;
use crate::fixed::Fixed;
use crate::fixed::REACH;
use crate::fixed::SCALE;
use crate::fixed::lemma_bounded_product;
use crate::fixed::lemma_sqrt;
use crate::fixed::magnitude;
use crate::hemisphere::is_sound_normal;
use crate::hemisphere::lemma_normalized;
use crate::material::lemma_bent_component;
use crate::material::spec_refract;
use crate::material::spec_snell_discriminant;
use crate::vec3::Vec3;
use crate::vec3::is_within;

verus! {

/// The square of `x u - n c`, in terms of the squares and the product of `u`
/// and `n`.
pub proof fn lemma_square_of_difference(x: int, u: int, n: int, c: int)
    ensures
        (x * u - n * c) * (x * u - n * c) == (x * x) * (u * u) - (2 * (x * c)) * (u * n) + (c * c)
            * (n * n),
{
    let a = x * u;
    let b = n * c;
    assert((a - b) * (a - b) == a * a - 2 * (a * b) + b * b) by (nonlinear_arith);
    assert(a * a == (x * x) * (u * u)) by (nonlinear_arith)
        requires
            a == x * u,
    ;
    assert(b * b == (c * c) * (n * n)) by (nonlinear_arith)
        requires
            b == n * c,
    ;
    assert(a * b == (x * c) * (u * n)) by (nonlinear_arith)
        requires
            a == x * u,
            b == n * c,
    ;
    assert(2 * ((x * c) * (u * n)) == (2 * (x * c)) * (u * n)) by (nonlinear_arith);
}

/// A square moves by little where its root moves by little: for `p` within
/// `h` of `a`, the squares differ by at most `h (2 |a| + h)`.
pub proof fn lemma_square_near(p: int, a: int, h: int)
    requires
        magnitude(p - a) <= h,
    ensures
        magnitude(p * p - a * a) <= h * (2 * magnitude(a) + h),
{
    let d = p - a;
    assert(p * p - a * a == d * (2 * a + d)) by (nonlinear_arith)
        requires
            d == p - a,
    ;
    assert(magnitude(d * (2 * a + d)) <= h * (2 * magnitude(a) + h)) by (nonlinear_arith)
        requires
            magnitude(d) <= h,
    ;
}

/// What Snell's discriminant is made for: with the rounded square `q` of
/// `dt`, the rounded square `k2` of `k`, their rounded product `m1`, the
/// discriminant `S - m1` and its rounded root, `k^2 (S^2 - dt^2) + S^2
/// root^2` is `S^4` to within `k^2 S + S^2 |S - q| + S^3 + 2 S^2 root`.
pub proof fn lemma_discriminant_closes(
    s: int,
    k: int,
    dt: int,
    q: int,
    k2: int,
    m1: int,
    root: int,
)
    requires
        s > 0,
        0 <= dt * dt - q * s < s,
        0 <= k * k - k2 * s < s,
        magnitude(m1 * s - k2 * (s - q)) < s,
        root >= 0,
        root * root <= (s - m1) * s < (root + 1) * (root + 1),
    ensures
        magnitude((k * k) * (s * s - dt * dt) + (s * s) * (root * root) - (s * s) * (s * s)) <= (k
            * k) * s + (s * s) * magnitude(s - q) + s * s * s + (2 * (s * s)) * root,
{
    let kk = k * k;
    let ss = s * s;
    let theta = dt * dt - q * s;
    let kappa = kk - k2 * s;
    let mu = m1 * s - k2 * (s - q);
    let rho = (s - m1) * s - root * root;
    let z = s - q;
    // S^2 root^2 = S^4 - S (S m1) - S^2 rho, and S (S m1) = (k2 S) z + S mu.
    assert(ss * (root * root) == ss * ss - s * (s * (m1 * s)) - ss * rho) by (nonlinear_arith)
        requires
            ss == s * s,
            rho == (s - m1) * s - root * root,
    ;
    assert(s * (m1 * s) == (k2 * s) * z + s * mu) by (nonlinear_arith)
        requires
            mu == m1 * s - k2 * z,
    ;
    assert((k2 * s) * z == kk * z - kappa * z) by (nonlinear_arith)
        requires
            kappa == kk - k2 * s,
    ;
    assert(s * (kk * z - kappa * z + s * mu) == kk * (s * z) - kappa * (s * z) + ss * mu)
        by (nonlinear_arith)
        requires
            ss == s * s,
    ;
    assert(s * z == ss - dt * dt + theta) by (nonlinear_arith)
        requires
            z == s - q,
            ss == s * s,
            theta == dt * dt - q * s,
    ;
    assert(kk * (s * z) == kk * (ss - dt * dt) + kk * theta) by (nonlinear_arith)
        requires
            s * z == ss - dt * dt + theta,
    ;
    let w = kk * (ss - dt * dt) + ss * (root * root);
    assert(w - ss * ss == kappa * (s * z) - kk * theta - ss * mu - ss * rho);
    assert(0 <= kk * theta <= kk * s) by (nonlinear_arith)
        requires
            0 <= theta < s,
            kk == k * k,
    ;
    assert(magnitude(kappa * (s * z)) <= ss * magnitude(z)) by (nonlinear_arith)
        requires
            0 <= kappa < s,
            s > 0,
            ss == s * s,
    ;
    assert(magnitude(ss * mu) <= s * s * s) by (nonlinear_arith)
        requires
            magnitude(mu) < s,
            ss == s * s,
            s > 0,
    ;
    assert(0 <= rho <= 2 * root) by (nonlinear_arith)
        requires
            rho == (s - m1) * s - root * root,
            root * root <= (s - m1) * s < (root + 1) * (root + 1),
    ;
    assert(0 <= ss * rho <= (2 * ss) * root) by (nonlinear_arith)
        requires
            0 <= rho <= 2 * root,
            ss == s * s,
    ;
}

/// How far, in raw units to the sixth power, `S^4` times the squared length
/// of a bent direction may be from `S^6`.
///
/// Here `k` is the ratio of the indices, `c` is `dt k + S root` for the
/// cosine `dt` and the root of the discriminant, `q` is the rounded square
/// of `dt`, and `du` and `dn` say how far the squared lengths of the ray's
/// unit direction and of the normal are from `S^2`. In numbers, the squared
/// length differs from one by at most `k^2 du + c^2 dn` and a multiple of
/// `2^-24` that grows with `k` and `c`.
pub open spec fn length_tolerance(s: int, k: int, c: int, root: int, q: int, du: int, dn: int)
    -> int {
    let h = s * magnitude(k) + 2 * (s * s);
    let most = s * (2 * (s * magnitude(k)) + magnitude(c));
    let x = s * k;
    let closes = (k * k) * s + (s * s) * magnitude(s - q) + s * s * s + (2 * (s * s)) * root;
    3 * (h * (2 * most + h)) + (x * x) * du + 6 * (s * magnitude(x * c)) + (c * c) * dn + (s * s)
        * closes
}

/// The squared length of a bent direction, from what its components are
/// made of.
pub proof fn lemma_length_core(
    s: int,
    k: int,
    dt: int,
    root: int,
    q: int,
    u: (int, int, int),
    n: (int, int, int),
    r: (int, int, int),
)
    requires
        s > 0,
        root >= 0,
        magnitude(u.0) <= 2 * s && magnitude(u.1) <= 2 * s && magnitude(u.2) <= 2 * s,
        magnitude(n.0) <= s && magnitude(n.1) <= s && magnitude(n.2) <= s,
        magnitude(s * dt - (u.0 * n.0 + u.1 * n.1 + u.2 * n.2)) < 3 * s,
        magnitude((s * s) * r.0 - ((s * k) * u.0 - n.0 * (dt * k + s * root))) <= s * magnitude(k)
            + 2 * (s * s),
        magnitude((s * s) * r.1 - ((s * k) * u.1 - n.1 * (dt * k + s * root))) <= s * magnitude(k)
            + 2 * (s * s),
        magnitude((s * s) * r.2 - ((s * k) * u.2 - n.2 * (dt * k + s * root))) <= s * magnitude(k)
            + 2 * (s * s),
        magnitude((k * k) * (s * s - dt * dt) + (s * s) * (root * root) - (s * s) * (s * s)) <= (k
            * k) * s + (s * s) * magnitude(s - q) + s * s * s + (2 * (s * s)) * root,
    ensures
        magnitude(
            ((s * s) * (s * s)) * (r.0 * r.0 + r.1 * r.1 + r.2 * r.2) - (s * s) * ((s * s) * (s
                * s)),
        ) <= length_tolerance(
            s,
            k,
            dt * k + s * root,
            root,
            q,
            magnitude(u.0 * u.0 + u.1 * u.1 + u.2 * u.2 - s * s),
            magnitude(n.0 * n.0 + n.1 * n.1 + n.2 * n.2 - s * s),
        ),
{
    let ss = s * s;
    let x = s * k;
    let c = dt * k + s * root;
    let h = s * magnitude(k) + 2 * ss;
    let most = s * (2 * (s * magnitude(k)) + magnitude(c));
    let u2 = u.0 * u.0 + u.1 * u.1 + u.2 * u.2;
    let n2 = n.0 * n.0 + n.1 * n.1 + n.2 * n.2;
    let un = u.0 * n.0 + u.1 * n.1 + u.2 * n.2;
    let r2 = r.0 * r.0 + r.1 * r.1 + r.2 * r.2;
    let a0 = x * u.0 - n.0 * c;
    let a1 = x * u.1 - n.1 * c;
    let a2 = x * u.2 - n.2 * c;
    let p0 = ss * r.0;
    let p1 = ss * r.1;
    let p2 = ss * r.2;
    // Each component's square is near the square of what it is made of.
    lemma_component_bound(s, k, c, u.0, n.0);
    lemma_component_bound(s, k, c, u.1, n.1);
    lemma_component_bound(s, k, c, u.2, n.2);
    lemma_square_near(p0, a0, h);
    lemma_square_near(p1, a1, h);
    lemma_square_near(p2, a2, h);
    assert(h >= 0) by (nonlinear_arith)
        requires
            h == s * magnitude(k) + 2 * (s * s),
            s > 0,
    ;
    assert(h * (2 * magnitude(a0) + h) <= h * (2 * most + h) && h * (2 * magnitude(a1) + h) <= h
        * (2 * most + h) && h * (2 * magnitude(a2) + h) <= h * (2 * most + h)) by (nonlinear_arith)
        requires
            h >= 0,
            magnitude(a0) <= most,
            magnitude(a1) <= most,
            magnitude(a2) <= most,
    ;
    assert(p0 * p0 == (ss * ss) * (r.0 * r.0) && p1 * p1 == (ss * ss) * (r.1 * r.1) && p2 * p2
        == (ss * ss) * (r.2 * r.2)) by (nonlinear_arith)
        requires
            p0 == ss * r.0,
            p1 == ss * r.1,
            p2 == ss * r.2,
    ;
    assert((ss * ss) * r2 == (ss * ss) * (r.0 * r.0) + (ss * ss) * (r.1 * r.1) + (ss * ss) * (r.2
        * r.2)) by (nonlinear_arith)
        requires
            r2 == r.0 * r.0 + r.1 * r.1 + r.2 * r.2,
    ;
    let sum_a = a0 * a0 + a1 * a1 + a2 * a2;
    assert(magnitude((ss * ss) * r2 - sum_a) <= 3 * (h * (2 * most + h)));
    // The squares of what the components are made of.
    lemma_square_of_difference(x, u.0, n.0, c);
    lemma_square_of_difference(x, u.1, n.1, c);
    lemma_square_of_difference(x, u.2, n.2, c);
    let xx = x * x;
    let xc = 2 * (x * c);
    let cc = c * c;
    assert(xx * u2 == xx * (u.0 * u.0) + xx * (u.1 * u.1) + xx * (u.2 * u.2)) by (nonlinear_arith)
        requires
            u2 == u.0 * u.0 + u.1 * u.1 + u.2 * u.2,
    ;
    assert(xc * un == xc * (u.0 * n.0) + xc * (u.1 * n.1) + xc * (u.2 * n.2)) by (nonlinear_arith)
        requires
            un == u.0 * n.0 + u.1 * n.1 + u.2 * n.2,
    ;
    assert(cc * n2 == cc * (n.0 * n.0) + cc * (n.1 * n.1) + cc * (n.2 * n.2)) by (nonlinear_arith)
        requires
            n2 == n.0 * n.0 + n.1 * n.1 + n.2 * n.2,
    ;
    assert(sum_a == xx * u2 - xc * un + cc * n2);
    // With unit vectors and an exact cosine in their place.
    let g = xx * ss - xc * (s * dt) + cc * ss;
    let du = magnitude(u2 - ss);
    let dn = magnitude(n2 - ss);
    assert(xx * u2 - xx * ss == xx * (u2 - ss)) by (nonlinear_arith);
    assert(cc * n2 - cc * ss == cc * (n2 - ss)) by (nonlinear_arith);
    assert(xc * un - xc * (s * dt) == xc * (un - s * dt)) by (nonlinear_arith);
    assert(xx >= 0 && cc >= 0) by (nonlinear_arith)
        requires
            xx == x * x,
            cc == c * c,
    ;
    assert(magnitude(xx * (u2 - ss)) <= xx * du) by (nonlinear_arith)
        requires
            xx >= 0,
            du == magnitude(u2 - ss),
    ;
    assert(magnitude(cc * (n2 - ss)) <= cc * dn) by (nonlinear_arith)
        requires
            cc >= 0,
            dn == magnitude(n2 - ss),
    ;
    assert(magnitude(xc * (un - s * dt)) <= 6 * (s * magnitude(x * c))) by (nonlinear_arith)
        requires
            xc == 2 * (x * c),
            magnitude(un - s * dt) < 3 * s,
            s > 0,
    ;
    assert(magnitude(sum_a - g) <= xx * du + 6 * (s * magnitude(x * c)) + cc * dn);
    // What is left is the discriminant's doing.
    let a = dt * k;
    let b = s * root;
    let w = (k * k) * (ss - dt * dt) + ss * (root * root);
    assert(cc - 2 * (a * c) == b * b - a * a) by (nonlinear_arith)
        requires
            c == a + b,
            cc == c * c,
    ;
    assert(a * a == (k * k) * (dt * dt)) by (nonlinear_arith)
        requires
            a == dt * k,
    ;
    assert(b * b == ss * (root * root)) by (nonlinear_arith)
        requires
            b == s * root,
            ss == s * s,
    ;
    assert(xx == ss * (k * k)) by (nonlinear_arith)
        requires
            xx == x * x,
            x == s * k,
            ss == s * s,
    ;
    assert(xc * (s * dt) == ss * (2 * (a * c))) by (nonlinear_arith)
        requires
            xc == 2 * (x * c),
            x == s * k,
            a == dt * k,
            ss == s * s,
    ;
    assert((k * k) * (ss - dt * dt) == ss * (k * k) - (k * k) * (dt * dt)) by (nonlinear_arith);
    assert(g == ss * w) by (nonlinear_arith)
        requires
            g == xx * ss - ss * (2 * (a * c)) + cc * ss,
            xx == ss * (k * k),
            cc - 2 * (a * c) == b * b - a * a,
            a * a == (k * k) * (dt * dt),
            b * b == ss * (root * root),
            w == ss * (k * k) - (k * k) * (dt * dt) + ss * (root * root),
    ;
    let closes = (k * k) * s + ss * magnitude(s - q) + s * s * s + (2 * ss) * root;
    assert(magnitude(ss * w - ss * (ss * ss)) <= ss * closes) by (nonlinear_arith)
        requires
            magnitude(w - ss * ss) <= closes,
            ss == s * s,
            s > 0,
    ;
}

/// What a component of a bent direction is made of is bounded: `S k u - n c`
/// is within `S (2 S |k| + |c|)`.
pub proof fn lemma_component_bound(s: int, k: int, c: int, u: int, n: int)
    requires
        s > 0,
        magnitude(u) <= 2 * s,
        magnitude(n) <= s,
    ensures
        magnitude((s * k) * u - n * c) <= s * (2 * (s * magnitude(k)) + magnitude(c)),
{
    assert(magnitude((s * k) * u) <= s * (2 * (s * magnitude(k)))) by (nonlinear_arith)
        requires
            s > 0,
            magnitude(u) <= 2 * s,
    ;
    assert(magnitude(n * c) <= s * magnitude(c)) by (nonlinear_arith)
        requires
            magnitude(n) <= s,
    ;
    assert(s * (2 * (s * magnitude(k)) + magnitude(c)) == s * (2 * (s * magnitude(k))) + s
        * magnitude(c)) by (nonlinear_arith);
}

/// The squared length of a vector, in squared raw units.
pub open spec fn squared_length(v: Vec3) -> int {
    v.x@ * v.x@ + v.y@ * v.y@ + v.z@ * v.z@
}

/// The tolerance of a bent direction's length for a ray along `v`, a normal
/// `n` and a ratio of indices: [`length_tolerance`] for the cosine, the
/// discriminant's root and the two squared lengths that bending works with.
pub open spec fn bent_tolerance(v: Vec3, n: Vec3, ni_over_nt: Fixed) -> int {
    let s: int = 16777216;
    let uv = v.normalize();
    let dt = uv.dot(n);
    let root = spec_snell_discriminant(uv, n, ni_over_nt).sqrt();
    length_tolerance(
        s,
        ni_over_nt@,
        dt@ * ni_over_nt@ + s * root@,
        root@,
        dt.square()@,
        magnitude(squared_length(uv) - s * s),
        magnitude(squared_length(n) - s * s),
    )
}

/// A bent direction has unit length, as far as rounding and its makings
/// allow: where light passes a surface, `S^4` times the squared length of
/// the bent direction differs from `S^6` by no more than the tolerance. It
/// holds for every ray that is not too short or too long, every normal with
/// components within one and every ratio within 1024; the tolerance grows
/// with the distance of the normal's, and of the unit direction's, squared
/// length from one.
pub proof fn law_bent_direction_is_unit(v: Vec3, n: Vec3, ni_over_nt: Fixed)
    requires
        is_sound_normal(v),
        is_within(n, SCALE as int),
        magnitude(ni_over_nt@) <= REACH,
    ensures
        spec_refract(v, n, ni_over_nt) matches Some(bent) ==> magnitude(
            ((16777216int * 16777216) * (16777216int * 16777216)) * squared_length(bent) - (
            16777216int * 16777216) * ((16777216int * 16777216) * (16777216int * 16777216)),
        ) <= bent_tolerance(v, n, ni_over_nt),
{
    let s: int = 16777216;
    assert(SCALE == 16777216 && REACH == 0x4_0000_0000);
    let uv = v.normalize();
    let k = ni_over_nt;
    lemma_normalized(v);
    lemma_bounded_product(uv.x, n.x, 0x200_0000, 16777216);
    lemma_bounded_product(uv.y, n.y, 0x200_0000, 16777216);
    lemma_bounded_product(uv.z, n.z, 0x200_0000, 16777216);
    let dt = uv.dot(n);
    assert(magnitude(dt@) <= 0x600_0000);
    lemma_bounded_product(dt, dt, 0x1000_0000, 0x1000_0000);
    assert(dt@ * dt@ >= 0) by (nonlinear_arith);
    let q = dt.square();
    lemma_bounded_product(k, k, 0x4_0000_0000, 0x4_0000_0000);
    assert(k@ * k@ >= 0) by (nonlinear_arith);
    let k2 = k.square();
    let rest = Fixed::one().sub(q);
    assert(rest@ == s - q@);
    lemma_bounded_product(k2, rest, 0x1000_0000_0000, 0x1_0000_0000);
    let m1 = k2.mul(rest);
    let discriminant = spec_snell_discriminant(uv, n, k);
    assert(discriminant@ == s - m1@);
    if discriminant@ > 0 {
        lemma_sqrt(discriminant);
        let root = discriminant.sqrt();
        assert(discriminant@ * SCALE == (s - m1@) * s);
        lemma_bounded_product(n.x, dt, 16777216, 0x600_0000);
        lemma_bounded_product(n.y, dt, 16777216, 0x600_0000);
        lemma_bounded_product(n.z, dt, 16777216, 0x600_0000);
        let e = uv.sub(n.scale(dt));
        assert(is_within(e, 0x800_0000));
        lemma_bounded_product(e.x, k, 0x800_0000, 0x4_0000_0000);
        lemma_bounded_product(e.y, k, 0x800_0000, 0x4_0000_0000);
        lemma_bounded_product(e.z, k, 0x800_0000, 0x4_0000_0000);
        lemma_bounded_product(n.x, root, 16777216, 0x1000_0000_0000);
        lemma_bounded_product(n.y, root, 16777216, 0x1000_0000_0000);
        lemma_bounded_product(n.z, root, 16777216, 0x1000_0000_0000);
        let bent = e.scale(k).sub(n.scale(root));
        assert(spec_refract(v, n, k) == Some(bent));
        lemma_bent_component(s, k@, dt@, root@, uv.x@, n.x@, e.x@, bent.x@);
        lemma_bent_component(s, k@, dt@, root@, uv.y@, n.y@, e.y@, bent.y@);
        lemma_bent_component(s, k@, dt@, root@, uv.z@, n.z@, e.z@, bent.z@);
        assert(q@ * s == q@ * 16777216 && k2@ * s == k2@ * 16777216 && m1@ * s == m1@ * 16777216);
        lemma_discriminant_closes(s, k@, dt@, q@, k2@, m1@, root@);
        assert(s * dt@ == dt@ * 16777216);
        lemma_length_core(
            s,
            k@,
            dt@,
            root@,
            q@,
            (uv.x@, uv.y@, uv.z@),
            (n.x@, n.y@, n.z@),
            (bent.x@, bent.y@, bent.z@),
        );
    }
}

} // verus!
