//! How far rounding can move a sphere's hit point off the sphere.
//!
//! A hit parameter `t` is computed as a root of `a t^2 + 2 b t + c`, where
//! `a`, `b` and `c` are rounded dot products, the square root is rounded and
//! so is the quotient; the hit point is rounded once more. This module bounds
//! what all that rounding does to the distance between the hit point and the
//! sphere's centre.

use vstd::prelude::*;
use crate::fixed::Fixed;
use crate::fixed::SCALE;
use crate::fixed::REACH;
use crate::fixed::lemma_bounded_product;
use crate::fixed::lemma_div_error;
use crate::fixed::lemma_sqrt;
use crate::fixed::magnitude;
use crate::hit::HitRecord;
use crate::ray::Ray;
use crate::sphere::Sphere;
use crate::vec3::Vec3;
use crate::vec3::is_within;

verus! {

/// For one coordinate: with `S q = S oc + d t + e`, the scaled difference of
/// the squares `q^2 - oc^2` splits into the part that the ray accounts for
/// and a rest that is linear in the rounding error `e`.
pub proof fn lemma_square_shift(s: int, q: int, oc: int, d: int, t: int, e: int)
    requires
        s * q == s * oc + d * t + e,
    ensures
        s * s * (q * q - oc * oc) == (d * d) * (t * t) + (2 * s * t) * (oc * d) + e * (2 * (s * q)
            - e),
{
    let x = s * q;
    let y = s * oc;
    let z = d * t;
    assert(x * x - y * y == (z + e) * (2 * y + z + e)) by (nonlinear_arith)
        requires
            x == y + z + e,
    ;
    assert(s * s * (q * q - oc * oc) == x * x - y * y) by (nonlinear_arith)
        requires
            x == s * q,
            y == s * oc,
    ;
    assert((z + e) * (2 * y + z + e) == z * z + 2 * y * z + e * (2 * x - e)) by (nonlinear_arith)
        requires
            x == y + z + e,
    ;
    assert(z * z == (d * d) * (t * t)) by (nonlinear_arith)
        requires
            z == d * t,
    ;
    assert(2 * y * z == (2 * s * t) * (oc * d)) by (nonlinear_arith)
        requires
            y == s * oc,
            z == d * t,
    ;
}

/// The rest that one coordinate's rounding error leaves is small: for an
/// error below `S` it is at most `S (2 S |q| + S)`.
pub proof fn lemma_rest_is_small(s: int, q: int, e: int)
    requires
        s > 0,
        magnitude(e) < s,
    ensures
        magnitude(e * (2 * (s * q) - e)) <= (2 * (s * s)) * magnitude(q) + s * s,
{
    let m = magnitude(q);
    let w = 2 * (s * q) - e;
    assert(magnitude(w) <= 2 * (s * m) + s) by (nonlinear_arith)
        requires
            s > 0,
            magnitude(e) < s,
            m == magnitude(q),
            w == 2 * (s * q) - e,
    ;
    assert(magnitude(e * w) <= s * (2 * (s * m) + s)) by (nonlinear_arith)
        requires
            s > 0,
            magnitude(e) < s,
            magnitude(w) <= 2 * (s * m) + s,
    ;
    assert(s * (2 * (s * m) + s) == (2 * (s * s)) * m + s * s) by (nonlinear_arith);
}

/// The quadratic at the computed root is small. With `H = a t^2 + 2 S b t +
/// S^2 c`, the value that an exact root of exact coefficients would make
/// zero: `|H| <= a + 10 S root + 8 S^2`.
pub proof fn lemma_residual(
    s: int,
    a: int,
    b: int,
    c: int,
    disc: int,
    root: int,
    num: int,
    t: int,
)
    requires
        s > 0,
        a > 0,
        4 * a >= s,
        magnitude(disc * s - (b * b - a * c)) < 2 * s,
        root >= 0,
        root * root <= disc * s < (root + 1) * (root + 1),
        num + b == root || num + b == -root,
        magnitude(a * t - s * num) < a,
    ensures
        magnitude(a * (t * t) + (2 * s * t) * b + (s * s) * c) <= a + (10 * s) * root + 8 * (s * s),
{
    let h = a * (t * t) + (2 * s * t) * b + (s * s) * c;
    let u = a * t - s * num;
    let g = disc * s - (b * b - a * c);
    let k = disc * s - root * root;
    let v = a * t + s * b;
    // a H = (a t + S b)^2 - S^2 (b^2 - a c)
    let p = a * t;
    let w = s * b;
    let h1 = a * (t * t);
    let h2 = (2 * s * t) * b;
    let h3 = (s * s) * c;
    assert(v * v == p * p + 2 * (p * w) + w * w) by (nonlinear_arith)
        requires
            v == p + w,
    ;
    assert(p * p == a * h1) by (nonlinear_arith)
        requires
            p == a * t,
            h1 == a * (t * t),
    ;
    assert(2 * (p * w) == a * h2) by (nonlinear_arith)
        requires
            p == a * t,
            w == s * b,
            h2 == (2 * s * t) * b,
    ;
    assert(w * w == (s * s) * (b * b)) by (nonlinear_arith)
        requires
            w == s * b,
    ;
    assert((s * s) * (b * b - a * c) == (s * s) * (b * b) - a * h3) by (nonlinear_arith)
        requires
            h3 == (s * s) * c,
    ;
    assert(a * h == a * h1 + a * h2 + a * h3) by (nonlinear_arith)
        requires
            h == h1 + h2 + h3,
    ;
    assert(a * h == v * v - (s * s) * (b * b - a * c));
    // a t + S b = u + S (num + b)
    assert(v == u + s * (num + b)) by (nonlinear_arith)
        requires
            v == a * t + s * b,
            u == a * t - s * num,
    ;
    assert(v * v == u * u + (2 * u) * (s * (num + b)) + (s * s) * (root * root)) by (nonlinear_arith)
        requires
            v == u + s * (num + b),
            num + b == root || num + b == -root,
    ;
    assert(0 <= k <= 2 * root) by (nonlinear_arith)
        requires
            k == disc * s - root * root,
            root * root <= disc * s < (root + 1) * (root + 1),
    ;
    assert((s * s) * (root * root) - (s * s) * (b * b - a * c) == (s * s) * g - (s * s) * k)
        by (nonlinear_arith)
        requires
            g == disc * s - (b * b - a * c),
            k == disc * s - root * root,
    ;
    let cross = (2 * u) * (s * (num + b));
    assert(a * h == u * u + cross + (s * s) * g - (s * s) * k);
    assert(0 <= u * u <= a * a) by (nonlinear_arith)
        requires
            magnitude(u) < a,
    ;
    assert(magnitude(cross) <= 2 * a * (s * root)) by (nonlinear_arith)
        requires
            cross == (2 * u) * (s * (num + b)),
            magnitude(u) < a,
            s > 0,
            root >= 0,
            num + b == root || num + b == -root,
    ;
    assert(magnitude((s * s) * g) <= 2 * (s * s * s)) by (nonlinear_arith)
        requires
            magnitude(g) < 2 * s,
            s > 0,
    ;
    assert(0 <= (s * s) * k <= 2 * (s * s) * root) by (nonlinear_arith)
        requires
            0 <= k <= 2 * root,
            s > 0,
    ;
    assert(2 * (s * s * s) <= 8 * a * (s * s)) by (nonlinear_arith)
        requires
            4 * a >= s,
            s > 0,
    ;
    assert(2 * (s * s) * root <= 8 * a * (s * root)) by (nonlinear_arith)
        requires
            4 * a >= s,
            s > 0,
            root >= 0,
    ;
    let bound = a + (10 * s) * root + 8 * (s * s);
    assert(a * bound == a * a + 2 * a * (s * root) + 8 * a * (s * root) + 8 * a * (s * s))
        by (nonlinear_arith)
        requires
            bound == a + (10 * s) * root + 8 * (s * s),
    ;
    assert(magnitude(a * h) <= a * bound);
    assert(magnitude(h) <= bound) by (nonlinear_arith)
        requires
            a > 0,
            magnitude(a * h) <= a * bound,
    ;
}

/// What the rounding of the three coefficients leaves: with `A = a S +
/// alpha`, `B = b S + beta` and `K = c S + kappa`, the exact quadratic is `S`
/// times the rounded one plus a rest of at most `3 S t^2 + 6 S^2 |t| + 3 S^3`.
pub proof fn lemma_coefficients(
    s: int,
    t: int,
    big_a: int,
    big_b: int,
    big_k: int,
    a: int,
    b: int,
    c: int,
)
    requires
        s > 0,
        0 <= big_a - a * s < 3 * s,
        magnitude(big_b - b * s) < 3 * s,
        magnitude(big_k - c * s) < 3 * s,
    ensures
        magnitude(
            big_a * (t * t) + (2 * s * t) * big_b + (s * s) * big_k - s * (a * (t * t) + (2 * s
                * t) * b + (s * s) * c),
        ) <= (3 * s) * (t * t) + (6 * (s * s)) * magnitude(t) + 3 * (s * s * s),
{
    let tt = t * t;
    let alpha = big_a - a * s;
    let beta = big_b - b * s;
    let kappa = big_k - c * s;
    assert(big_a * tt == s * (a * tt) + alpha * tt) by (nonlinear_arith)
        requires
            alpha == big_a - a * s,
    ;
    assert((2 * s * t) * big_b == s * ((2 * s * t) * b) + (2 * s * t) * beta) by (nonlinear_arith)
        requires
            beta == big_b - b * s,
    ;
    assert((s * s) * big_k == s * ((s * s) * c) + (s * s) * kappa) by (nonlinear_arith)
        requires
            kappa == big_k - c * s,
    ;
    let h1 = a * tt;
    let h2 = (2 * s * t) * b;
    let h3 = (s * s) * c;
    assert(s * (h1 + h2 + h3) == s * h1 + s * h2 + s * h3) by (nonlinear_arith);
    assert(0 <= tt) by (nonlinear_arith)
        requires
            tt == t * t,
    ;
    assert(0 <= alpha * tt <= (3 * s) * tt) by (nonlinear_arith)
        requires
            0 <= alpha < 3 * s,
            0 <= tt,
    ;
    assert(magnitude((2 * s * t) * beta) <= (6 * (s * s)) * magnitude(t)) by (nonlinear_arith)
        requires
            magnitude(beta) < 3 * s,
            s > 0,
    ;
    assert(magnitude((s * s) * kappa) <= 3 * (s * s * s)) by (nonlinear_arith)
        requires
            magnitude(kappa) < 3 * s,
            s > 0,
    ;
}

/// The hit point of a rounded computation lies near the sphere.
///
/// Here `S` is the scale, `d`, `oc` and `q` are the ray's direction, the
/// vector from the centre to the ray's origin and the vector from the centre
/// to the hit point, `r2` is the squared radius, and `a`, `b`, `c`, `disc`,
/// `root`, `num` and `t` are what the computation holds for the coefficients,
/// the discriminant, its square root, the numerator and the root, each
/// within its rounding error of what it stands for. Then `|q|^2` differs from
/// `r2` by at most `a + S (10 root + 11 S + 6 |t| + 2 |q|_1 + 3) + 3 t^2`
/// over `S`.
pub proof fn lemma_off_sphere(
    s: int,
    d: (int, int, int),
    oc: (int, int, int),
    q: (int, int, int),
    r2: int,
    a: int,
    b: int,
    c: int,
    disc: int,
    root: int,
    num: int,
    t: int,
)
    requires
        s > 0,
        a > 0,
        4 * a >= s,
        0 <= d.0 * d.0 + d.1 * d.1 + d.2 * d.2 - a * s < 3 * s,
        magnitude(oc.0 * d.0 + oc.1 * d.1 + oc.2 * d.2 - b * s) < 3 * s,
        magnitude(oc.0 * oc.0 + oc.1 * oc.1 + oc.2 * oc.2 - r2 - c * s) < 3 * s,
        magnitude(disc * s - (b * b - a * c)) < 2 * s,
        root >= 0,
        root * root <= disc * s < (root + 1) * (root + 1),
        num + b == root || num + b == -root,
        magnitude(a * t - s * num) < a,
        magnitude(s * q.0 - (s * oc.0 + d.0 * t)) < s,
        magnitude(s * q.1 - (s * oc.1 + d.1 * t)) < s,
        magnitude(s * q.2 - (s * oc.2 + d.2 * t)) < s,
    ensures
        s * magnitude(q.0 * q.0 + q.1 * q.1 + q.2 * q.2 - r2) <= a + s * (10 * root + 11 * s + 6
            * magnitude(t) + 2 * (magnitude(q.0) + magnitude(q.1) + magnitude(q.2)) + 3) + 3 * (t
            * t),
{
    let tt = t * t;
    let big_a = d.0 * d.0 + d.1 * d.1 + d.2 * d.2;
    let big_b = oc.0 * d.0 + oc.1 * d.1 + oc.2 * d.2;
    let oc2 = oc.0 * oc.0 + oc.1 * oc.1 + oc.2 * oc.2;
    let big_k = oc2 - r2;
    let q2 = q.0 * q.0 + q.1 * q.1 + q.2 * q.2;
    let e0 = s * q.0 - (s * oc.0 + d.0 * t);
    let e1 = s * q.1 - (s * oc.1 + d.1 * t);
    let e2 = s * q.2 - (s * oc.2 + d.2 * t);
    lemma_square_shift(s, q.0, oc.0, d.0, t, e0);
    lemma_square_shift(s, q.1, oc.1, d.1, t, e1);
    lemma_square_shift(s, q.2, oc.2, d.2, t, e2);
    let rest0 = e0 * (2 * (s * q.0) - e0);
    let rest1 = e1 * (2 * (s * q.1) - e1);
    let rest2 = e2 * (2 * (s * q.2) - e2);
    lemma_rest_is_small(s, q.0, e0);
    lemma_rest_is_small(s, q.1, e1);
    lemma_rest_is_small(s, q.2, e2);
    let ss = s * s;
    let st = 2 * s * t;
    // Summed over the coordinates.
    assert(ss * (q2 - oc2) == ss * (q.0 * q.0 - oc.0 * oc.0) + ss * (q.1 * q.1 - oc.1 * oc.1) + ss
        * (q.2 * q.2 - oc.2 * oc.2)) by (nonlinear_arith)
        requires
            q2 == q.0 * q.0 + q.1 * q.1 + q.2 * q.2,
            oc2 == oc.0 * oc.0 + oc.1 * oc.1 + oc.2 * oc.2,
    ;
    assert(big_a * tt == (d.0 * d.0) * tt + (d.1 * d.1) * tt + (d.2 * d.2) * tt)
        by (nonlinear_arith)
        requires
            big_a == d.0 * d.0 + d.1 * d.1 + d.2 * d.2,
    ;
    assert(st * big_b == st * (oc.0 * d.0) + st * (oc.1 * d.1) + st * (oc.2 * d.2))
        by (nonlinear_arith)
        requires
            big_b == oc.0 * d.0 + oc.1 * d.1 + oc.2 * d.2,
    ;
    assert(ss * (q2 - r2) == ss * (q2 - oc2) + ss * big_k) by (nonlinear_arith)
        requires
            big_k == oc2 - r2,
    ;
    let exact = big_a * tt + st * big_b + ss * big_k;
    assert(ss * (q2 - r2) == exact + rest0 + rest1 + rest2);
    let h = a * tt + st * b + ss * c;
    lemma_coefficients(s, t, big_a, big_b, big_k, a, b, c);
    lemma_residual(s, a, b, c, disc, root, num, t);
    let w = exact - s * h;
    let bound_h = a + (10 * s) * root + 8 * ss;
    assert(magnitude(s * h) <= s * bound_h) by (nonlinear_arith)
        requires
            s > 0,
            magnitude(h) <= bound_h,
    ;
    let m = magnitude(q.0) + magnitude(q.1) + magnitude(q.2);
    let total = a + s * (10 * root + 11 * s + 6 * magnitude(t) + 2 * m + 3) + 3 * tt;
    let mt = magnitude(t);
    let inner = 10 * root + 11 * s + 6 * mt + 2 * m + 3;
    assert(s * inner == (10 * s) * root + 11 * ss + 6 * (s * mt) + 2 * (s * m) + 3 * s)
        by (nonlinear_arith)
        requires
            ss == s * s,
            inner == 10 * root + 11 * s + 6 * mt + 2 * m + 3,
    ;
    let i1 = (10 * s) * root;
    let i2 = s * mt;
    let i3 = s * m;
    assert(s * (i1 + 11 * ss + 6 * i2 + 2 * i3 + 3 * s) == s * i1 + 11 * (s * ss) + 6 * (s * i2)
        + 2 * (s * i3) + 3 * ss) by (nonlinear_arith)
        requires
            ss == s * s,
    ;
    assert(s * bound_h == s * a + s * i1 + 8 * (s * ss)) by (nonlinear_arith)
        requires
            bound_h == a + i1 + 8 * ss,
    ;
    assert((6 * ss) * mt == 6 * (s * i2)) by (nonlinear_arith)
        requires
            ss == s * s,
            i2 == s * mt,
    ;
    assert((2 * ss) * m == 2 * (s * i3)) by (nonlinear_arith)
        requires
            ss == s * s,
            i3 == s * m,
    ;
    assert((2 * ss) * m == (2 * ss) * magnitude(q.0) + (2 * ss) * magnitude(q.1) + (2 * ss)
        * magnitude(q.2)) by (nonlinear_arith)
        requires
            m == magnitude(q.0) + magnitude(q.1) + magnitude(q.2),
    ;
    assert((3 * s) * tt == s * (3 * tt)) by (nonlinear_arith);
    assert(3 * (s * s * s) == 3 * (s * ss)) by (nonlinear_arith)
        requires
            ss == s * s,
    ;
    assert(s * total == s * a + s * (s * inner) + s * (3 * tt)) by (nonlinear_arith)
        requires
            total == a + s * inner + 3 * tt,
    ;
    assert(magnitude(ss * (q2 - r2)) <= s * total);
    assert(ss * (q2 - r2) == s * (s * (q2 - r2))) by (nonlinear_arith)
        requires
            ss == s * s,
    ;
    assert(magnitude(s * (q2 - r2)) <= total) by (nonlinear_arith)
        requires
            s > 0,
            magnitude(s * (s * (q2 - r2))) <= s * total,
    ;
    assert(s * magnitude(q2 - r2) == magnitude(s * (q2 - r2))) by (nonlinear_arith)
        requires
            s > 0,
    ;
}

/// The raw value of 128.
pub const SPEED: i64 = 2147483648;

/// Whether a sphere and a ray are so placed that no step of their
/// intersection leaves the range of the numbers.
///
/// The ray's origin, the sphere's centre and its radius lie within 1024 of
/// zero, the origin lies within 1024 of the centre along each axis, and the
/// ray's direction has components within 1024 and a length of at least one
/// half. Of the quadratic's coefficients as computed, `b = oc . d` lies
/// below `2^19` and the product of `a = d . d` and `c = oc . oc - r^2` is at
/// most `2^38` in magnitude, so that `b^2` and `a c` can be held.
pub open spec fn in_reach(s: &Sphere, ray: &Ray) -> bool {
    let oc = ray.origin.sub(s.center);
    let d = ray.direction;
    &&& is_within(ray.origin, REACH as int)
    &&& is_within(s.center, REACH as int)
    &&& is_within(oc, REACH as int)
    &&& 0 <= s.radius@ <= REACH
    &&& is_within(d, REACH as int)
    &&& 4 * d.dot(d)@ >= SCALE
    &&& magnitude(oc.dot(d)@) < 0x800_0000_0000
    &&& d.dot(d)@ * magnitude(oc.dot(oc).sub(s.radius.square())@)
        <= 0x40_0000_0000_0000_0000_0000
}

/// A plainer bound that is in reach: origin, centre and radius within 1024
/// of zero, the origin within 1024 of the centre along each axis, and a
/// direction with components within 128 and a length of at least one half.
pub open spec fn in_plain_reach(s: &Sphere, ray: &Ray) -> bool {
    &&& is_within(ray.origin, REACH as int)
    &&& is_within(s.center, REACH as int)
    &&& is_within(ray.origin.sub(s.center), REACH as int)
    &&& 0 <= s.radius@ <= REACH
    &&& is_within(ray.direction, SPEED as int)
    &&& 4 * ray.direction.dot(ray.direction)@ >= SCALE
}

/// What is in plain reach is in reach.
pub proof fn lemma_plain_reach(s: &Sphere, ray: &Ray)
    requires
        in_plain_reach(s, ray),
    ensures
        in_reach(s, ray),
{
    let oc = ray.origin.sub(s.center);
    let d = ray.direction;
    assert(REACH == 0x4_0000_0000 && SPEED == 0x8000_0000);
    lemma_bounded_product(d.x, d.x, 0x8000_0000, 0x8000_0000);
    lemma_bounded_product(d.y, d.y, 0x8000_0000, 0x8000_0000);
    lemma_bounded_product(d.z, d.z, 0x8000_0000, 0x8000_0000);
    lemma_bounded_product(oc.x, d.x, 0x4_0000_0000, 0x8000_0000);
    lemma_bounded_product(oc.y, d.y, 0x4_0000_0000, 0x8000_0000);
    lemma_bounded_product(oc.z, d.z, 0x4_0000_0000, 0x8000_0000);
    lemma_bounded_product(oc.x, oc.x, 0x4_0000_0000, 0x4_0000_0000);
    lemma_bounded_product(oc.y, oc.y, 0x4_0000_0000, 0x4_0000_0000);
    lemma_bounded_product(oc.z, oc.z, 0x4_0000_0000, 0x4_0000_0000);
    lemma_bounded_product(s.radius, s.radius, 0x4_0000_0000, 0x4_0000_0000);
    let a = d.dot(d)@;
    let c = oc.dot(oc).sub(s.radius.square())@;
    assert(magnitude(a) <= 0xc0_0000_0000);
    assert(magnitude(c) <= 0x4000_0000_0000);
    assert(a * magnitude(c) <= 0xc0_0000_0000 * 0x4000_0000_0000) by (nonlinear_arith)
        requires
            magnitude(a) <= 0xc0_0000_0000,
            magnitude(c) <= 0x4000_0000_0000,
    ;
}

/// The three coefficients of a sphere's quadratic, as computed, against what
/// they stand for.
///
/// With `oc` the vector from the centre to the origin and `d` the direction:
/// `a` is `d . d`, `b` is `oc . d` and `c` is `oc . oc - r^2`, each rounded
/// by less than three raw units, and `a` never rounded up.
pub proof fn lemma_coefficient_errors(s: &Sphere, ray: &Ray)
    requires
        in_reach(s, ray),
    ensures
        ({
            let oc = ray.origin.sub(s.center);
            let d = ray.direction;
            let a = d.dot(d)@;
            let b = oc.dot(d)@;
            let c = oc.dot(oc).sub(s.radius.square())@;
            &&& oc.x@ == ray.origin.x@ - s.center.x@
            &&& oc.y@ == ray.origin.y@ - s.center.y@
            &&& oc.z@ == ray.origin.z@ - s.center.z@
            &&& 0 <= d.x@ * d.x@ + d.y@ * d.y@ + d.z@ * d.z@ - a * 16777216 < 3 * 16777216
            &&& magnitude(oc.x@ * d.x@ + oc.y@ * d.y@ + oc.z@ * d.z@ - b * 16777216) < 3 * 16777216
            &&& magnitude(
                oc.x@ * oc.x@ + oc.y@ * oc.y@ + oc.z@ * oc.z@ - s.radius@ * s.radius@ - c
                    * 16777216,
            ) < 3 * 16777216
            &&& is_within(oc, 0x4_0000_0000)
            &&& 0 <= a
            &&& d.x@ * d.x@ >= 0 && d.y@ * d.y@ >= 0 && d.z@ * d.z@ >= 0
        }),
{
    let oc = ray.origin.sub(s.center);
    let d = ray.direction;
    assert(REACH == 0x4_0000_0000);
    lemma_bounded_product(d.x, d.x, 0x4_0000_0000, 0x4_0000_0000);
    lemma_bounded_product(d.y, d.y, 0x4_0000_0000, 0x4_0000_0000);
    lemma_bounded_product(d.z, d.z, 0x4_0000_0000, 0x4_0000_0000);
    assert(d.x@ * d.x@ >= 0) by (nonlinear_arith);
    assert(d.y@ * d.y@ >= 0) by (nonlinear_arith);
    assert(d.z@ * d.z@ >= 0) by (nonlinear_arith);
    lemma_bounded_product(oc.x, d.x, 0x4_0000_0000, 0x4_0000_0000);
    lemma_bounded_product(oc.y, d.y, 0x4_0000_0000, 0x4_0000_0000);
    lemma_bounded_product(oc.z, d.z, 0x4_0000_0000, 0x4_0000_0000);
    lemma_bounded_product(oc.x, oc.x, 0x4_0000_0000, 0x4_0000_0000);
    lemma_bounded_product(oc.y, oc.y, 0x4_0000_0000, 0x4_0000_0000);
    lemma_bounded_product(oc.z, oc.z, 0x4_0000_0000, 0x4_0000_0000);
    assert(oc.x@ * oc.x@ >= 0) by (nonlinear_arith);
    assert(oc.y@ * oc.y@ >= 0) by (nonlinear_arith);
    assert(oc.z@ * oc.z@ >= 0) by (nonlinear_arith);
    lemma_bounded_product(s.radius, s.radius, 0x4_0000_0000, 0x4_0000_0000);
    assert(s.radius@ * s.radius@ >= 0) by (nonlinear_arith);
}

/// The discriminant, as computed, against `b^2 - a c` for the computed
/// coefficients: it is rounded by less than two raw units.
pub proof fn lemma_discriminant_error(s: &Sphere, ray: &Ray)
    requires
        in_reach(s, ray),
    ensures
        ({
            let oc = ray.origin.sub(s.center);
            let d = ray.direction;
            let a = d.dot(d)@;
            let b = oc.dot(d)@;
            let c = oc.dot(oc).sub(s.radius.square())@;
            let disc = s.spec_discriminant(ray)@;
            magnitude(disc * 16777216 - (b * b - a * c)) < 2 * 16777216
        }),
{
    let oc = ray.origin.sub(s.center);
    let d = ray.direction;
    let a = d.dot(d);
    let b = oc.dot(d);
    let c = oc.dot(oc).sub(s.radius.square());
    lemma_coefficient_errors(s, ray);
    assert(SCALE == 16777216);
    assert(i64::MAX * SCALE >= 0x40_0000_0000_0000_0000_0000) by (nonlinear_arith)
        requires
            SCALE == 16777216,
    ;
    assert(0 <= b@ * b@ < 0x40_0000_0000_0000_0000_0000) by (nonlinear_arith)
        requires
            magnitude(b@) < 0x800_0000_0000,
    ;
    assert(magnitude(a@ * c@) == a@ * magnitude(c@)) by (nonlinear_arith)
        requires
            a@ >= 0,
    ;
    crate::fixed::lemma_mul_error(b, b);
    crate::fixed::lemma_mul_error(a, c);
    let bb = b.mul(b)@;
    let ac = a.mul(c)@;
    assert(bb * SCALE == bb * 16777216 && ac * SCALE == ac * 16777216);
    assert(magnitude(ac) * SCALE == magnitude(ac) * 16777216);
    assert(b.square() == b.mul(b));
}

/// The squared distance between two points, in squared raw units.
pub open spec fn squared_distance(p: Vec3, c: Vec3) -> int {
    (p.x@ - c.x@) * (p.x@ - c.x@) + (p.y@ - c.y@) * (p.y@ - c.y@) + (p.z@ - c.z@) * (p.z@
        - c.z@)
}

/// How far, in squared raw units times the scale, the squared distance
/// between a hit point and the centre may be from the squared radius:
/// `a + S (10 root + 11 S + 6 |t| + 2 |p - C|_1 + 3) + 3 t^2`, with `a` the
/// direction's squared length and `root` the square root of the
/// discriminant, both as computed.
///
/// In numbers rather than raw values, the two squares differ by at most
/// `2^-24 (11 + 10 root + 6 |t| + 3 t^2 + 2 |p - C|_1)` and a little.
pub open spec fn tolerance(s: &Sphere, ray: &Ray, rec: HitRecord) -> int {
    let a = ray.direction.dot(ray.direction)@;
    let root = s.spec_discriminant(ray).sqrt()@;
    let spread = magnitude(rec.p.x@ - s.center.x@) + magnitude(rec.p.y@ - s.center.y@)
        + magnitude(rec.p.z@ - s.center.z@);
    a + SCALE * (10 * root + 11 * SCALE + 6 * magnitude(rec.t@) + 2 * spread + 3) + 3 * (rec.t@
        * rec.t@)
}

/// How far a ray travels along one axis: where the direction's squared
/// length is held by `a` to within three raw units, with `a` at least a
/// quarter, and `t` is `num / a` rounded toward zero, the product of a
/// component `d` of the direction and `t` is at most `3 S |num|`.
pub proof fn lemma_travel(a: int, d: int, t: int, num: int, big: int)
    requires
        4 * a >= 16777216,
        0 <= big - a * 16777216 < 3 * 16777216,
        0 <= d * d <= big,
        magnitude(t) * a <= magnitude(num * 16777216),
    ensures
        magnitude(d * t) <= 3 * (16777216 * magnitude(num)),
{
    let x = magnitude(d);
    let tau = magnitude(t);
    let nu = magnitude(num);
    assert(x * x == d * d) by (nonlinear_arith)
        requires
            x == magnitude(d),
    ;
    assert(x < 3 * a) by (nonlinear_arith)
        requires
            x >= 0,
            x * x < (a + 3) * 16777216,
            4 * a >= 16777216,
    ;
    assert(magnitude(num * 16777216) == 16777216 * nu);
    assert(x * tau <= (3 * a) * tau) by (nonlinear_arith)
        requires
            0 <= x < 3 * a,
            tau >= 0,
    ;
    assert((3 * a) * tau == 3 * (tau * a)) by (nonlinear_arith);
    assert(magnitude(d * t) == x * tau) by (nonlinear_arith)
        requires
            x == magnitude(d),
            tau == magnitude(t),
    ;
}

/// What a ray has travelled along one axis, as computed: the rounded
/// product of a component of the direction and the parameter stays in range
/// and is at most `3 |num|`.
pub proof fn lemma_travelled(d: Fixed, t: Fixed, num: int)
    requires
        magnitude(num) <= 0x2000_0000_0000,
        magnitude(d@ * t@) <= 3 * (16777216 * magnitude(num)),
    ensures
        magnitude(d.mul(t)@ * 16777216 - d@ * t@) < 16777216,
        magnitude(d.mul(t)@) <= 0x6000_0000_0000,
{
    assert(SCALE == 16777216);
    assert(i64::MAX * SCALE >= 3 * (16777216 * 0x2000_0000_0000)) by (nonlinear_arith)
        requires
            SCALE == 16777216,
    ;
    crate::fixed::lemma_mul_error(d, t);
    let m = d.mul(t)@;
    assert(m * SCALE == m * 16777216 && magnitude(m) * SCALE == magnitude(m) * 16777216);
}

/// The numerator of a root, as computed: minus `b`, less or plus the root
/// of the discriminant.
pub open spec fn spec_numerator(s: &Sphere, ray: &Ray, far: bool) -> Fixed {
    let b = ray.origin.sub(s.center).dot(ray.direction);
    let root = s.spec_discriminant(ray).sqrt();
    if far {
        b.neg().add(root)
    } else {
        b.neg().sub(root)
    }
}

/// A root of the quadratic, as computed: the numerator over `a`.
pub open spec fn spec_root(s: &Sphere, ray: &Ray, far: bool) -> Fixed {
    spec_numerator(s, ray, far).div(ray.direction.dot(ray.direction))
}

/// Either root, as computed, against what it stands for: the numerator is
/// minus `b`, less or plus the root of the discriminant, and the root of the
/// quadratic is the numerator over `a`, rounded by less than one raw unit.
pub proof fn lemma_root_error(s: &Sphere, ray: &Ray, far: bool)
    requires
        in_reach(s, ray),
        s.spec_discriminant(ray)@ > 0,
    ensures
        s.spec_roots(ray) is Some,
        spec_root(s, ray, far) == (if far {
            s.spec_roots(ray)->0.far
        } else {
            s.spec_roots(ray)->0.near
        }),
        ({
            let a = ray.direction.dot(ray.direction)@;
            let b = ray.origin.sub(s.center).dot(ray.direction)@;
            let root = s.spec_discriminant(ray).sqrt()@;
            let num = spec_numerator(s, ray, far)@;
            let t = spec_root(s, ray, far)@;
            &&& num + b == root || num + b == -root
            &&& magnitude(num) <= 0x2000_0000_0000
            &&& magnitude(a * t - 16777216 * num) < a
            &&& magnitude(t) * a <= magnitude(num * 16777216)
        }),
{
    let oc = ray.origin.sub(s.center);
    let d = ray.direction;
    let a = d.dot(d);
    let b = oc.dot(d);
    let disc = s.spec_discriminant(ray);
    let root = disc.sqrt();
    lemma_coefficient_errors(s, ray);
    lemma_sqrt(disc);
    assert(SCALE == 16777216);
    let num = spec_numerator(s, ray, far);
    assert(num@ + b@ == root@ || num@ + b@ == -root@);
    assert(magnitude(num@) <= 0x2000_0000_0000);
    assert(magnitude(num@ * SCALE) <= i64::MAX * a@) by (nonlinear_arith)
        requires
            magnitude(num@) <= 0x2000_0000_0000,
            SCALE == 16777216,
            4 * a@ >= 16777216,
    ;
    lemma_div_error(num, a);
    let t = num.div(a);
    assert(num@ * SCALE == 16777216 * num@) by (nonlinear_arith)
        requires
            SCALE == 16777216,
    ;
    assert(t@ * a@ == a@ * t@) by (nonlinear_arith);
}

/// The point at a root, as computed, against the ray: each coordinate of the
/// vector from the centre to the point is the origin's, less the centre's,
/// and what the ray has travelled, rounded by less than one raw unit.
pub proof fn lemma_point_error(s: &Sphere, ray: &Ray, far: bool)
    requires
        in_reach(s, ray),
        s.spec_discriminant(ray)@ > 0,
    ensures
        ({
            let oc = ray.origin.sub(s.center);
            let d = ray.direction;
            let t = spec_root(s, ray, far);
            let rec = s.spec_record_at(ray, t);
            let q = rec.p.sub(s.center);
            &&& q.x@ == rec.p.x@ - s.center.x@
            &&& q.y@ == rec.p.y@ - s.center.y@
            &&& q.z@ == rec.p.z@ - s.center.z@
            &&& is_within(q, 0x8000_0000_0000)
            &&& magnitude(16777216 * q.x@ - (16777216 * oc.x@ + d.x@ * t@)) < 16777216
            &&& magnitude(16777216 * q.y@ - (16777216 * oc.y@ + d.y@ * t@)) < 16777216
            &&& magnitude(16777216 * q.z@ - (16777216 * oc.z@ + d.z@ * t@)) < 16777216
        }),
{
    let oc = ray.origin.sub(s.center);
    let d = ray.direction;
    let a = d.dot(d);
    let num = spec_numerator(s, ray, far);
    let t = spec_root(s, ray, far);
    lemma_coefficient_errors(s, ray);
    lemma_root_error(s, ray, far);
    let big = d.x@ * d.x@ + d.y@ * d.y@ + d.z@ * d.z@;
    lemma_travel(a@, d.x@, t@, num@, big);
    lemma_travel(a@, d.y@, t@, num@, big);
    lemma_travel(a@, d.z@, t@, num@, big);
    lemma_travelled(d.x, t, num@);
    lemma_travelled(d.y, t, num@);
    lemma_travelled(d.z, t, num@);
    let rec = s.spec_record_at(ray, t);
    assert(rec.p.x@ == ray.origin.x@ + d.x.mul(t)@);
    assert(rec.p.y@ == ray.origin.y@ + d.y.mul(t)@);
    assert(rec.p.z@ == ray.origin.z@ + d.z.mul(t)@);
    let q = rec.p.sub(s.center);
    assert(q.x@ == oc.x@ + d.x.mul(t)@);
    assert(q.y@ == oc.y@ + d.y.mul(t)@);
    assert(q.z@ == oc.z@ + d.z.mul(t)@);
}

/// The point at either root lies on the sphere within the tolerance.
pub proof fn lemma_root_is_on_sphere(s: &Sphere, ray: &Ray, far: bool)
    requires
        in_reach(s, ray),
        s.spec_discriminant(ray)@ > 0,
    ensures
        s.spec_roots(ray) is Some,
        ({
            let roots = s.spec_roots(ray)->0;
            let rec = s.spec_record_at(
                ray,
                if far {
                    roots.far
                } else {
                    roots.near
                },
            );
            let q = rec.p.sub(s.center);
            &&& SCALE * magnitude(squared_distance(rec.p, s.center) - s.radius@ * s.radius@)
                <= tolerance(s, ray, rec)
            &&& q.x@ == rec.p.x@ - s.center.x@
            &&& q.y@ == rec.p.y@ - s.center.y@
            &&& q.z@ == rec.p.z@ - s.center.z@
            &&& is_within(q, 0x8000_0000_0000)
        }),
{
    let oc = ray.origin.sub(s.center);
    let d = ray.direction;
    let a = d.dot(d);
    let b = oc.dot(d);
    let c = oc.dot(oc).sub(s.radius.square());
    let disc = s.spec_discriminant(ray);
    let root = disc.sqrt();
    let num = spec_numerator(s, ray, far);
    let t = spec_root(s, ray, far);
    let rec = s.spec_record_at(ray, t);
    let q = rec.p.sub(s.center);
    let sc: int = 16777216;
    lemma_coefficient_errors(s, ray);
    lemma_discriminant_error(s, ray);
    lemma_sqrt(disc);
    lemma_root_error(s, ray, far);
    lemma_point_error(s, ray, far);
    assert(SCALE == 16777216);
    assert(disc@ * SCALE == disc@ * sc);
    lemma_off_sphere(
        sc,
        (d.x@, d.y@, d.z@),
        (oc.x@, oc.y@, oc.z@),
        (q.x@, q.y@, q.z@),
        s.radius@ * s.radius@,
        a@,
        b@,
        c@,
        disc@,
        root@,
        num@,
        t@,
    );
    assert(squared_distance(rec.p, s.center) == q.x@ * q.x@ + q.y@ * q.y@ + q.z@ * q.z@);
}

/// One component of a normal: with `n r = q S - f` for a rounding error `f`
/// below `r`, the scaled squares `r^2 n^2` and `S^2 q^2` differ by at most
/// `r (r + 2 S |q|)`.
pub proof fn lemma_normal_component(s: int, r: int, q: int, n: int)
    requires
        s > 0,
        r > 0,
        magnitude(n * r - q * s) < r,
    ensures
        magnitude((r * r) * (n * n) - (s * s) * (q * q)) <= r * (r + (2 * s) * magnitude(q)),
{
    let x = n * r;
    let y = q * s;
    let f = x - y;
    assert((r * r) * (n * n) == x * x) by (nonlinear_arith)
        requires
            x == n * r,
    ;
    assert((s * s) * (q * q) == y * y) by (nonlinear_arith)
        requires
            y == q * s,
    ;
    assert(x * x - y * y == f * (f + 2 * y)) by (nonlinear_arith)
        requires
            f == x - y,
    ;
    let m = magnitude(q);
    assert(magnitude(y) == s * m) by (nonlinear_arith)
        requires
            y == q * s,
            s > 0,
            m == magnitude(q),
    ;
    assert(magnitude(f * (f + 2 * y)) <= r * (r + 2 * (s * m))) by (nonlinear_arith)
        requires
            magnitude(f) < r,
            magnitude(y) == s * m,
            r > 0,
    ;
    assert(2 * (s * m) == (2 * s) * m) by (nonlinear_arith);
}

/// The least radius, as a raw value, for which the normal's length is
/// bounded: `2^-12`.
pub const LEAST_RADIUS: i64 = 4096;

/// A sphere's normal has unit length, as far as rounding allows: for a
/// sphere and a ray in reach, and a radius that is not tiny, the squared
/// length of the reported normal differs from one by no more than the
/// tolerance of the hit point and the rounding of the three quotients allow.
/// The normal itself is the vector from the centre to the hit point, divided
/// by the radius.
pub proof fn law_normal_is_unit(s: &Sphere, ray: &Ray, t_min: Fixed, t_max: Fixed)
    requires
        in_reach(s, ray),
        s.radius@ >= LEAST_RADIUS,
    ensures
        s.spec_hit(ray, t_min, t_max) matches Some(rec) ==> {
            let r = s.radius@;
            let n = rec.normal;
            let spread = magnitude(rec.p.x@ - s.center.x@) + magnitude(rec.p.y@ - s.center.y@)
                + magnitude(rec.p.z@ - s.center.z@);
            &&& n == rec.p.sub(s.center).shrink(s.radius)
            &&& (r * r) * magnitude(n.x@ * n.x@ + n.y@ * n.y@ + n.z@ * n.z@ - SCALE * SCALE)
                <= SCALE * tolerance(s, ray, rec) + r * (3 * r + (2 * SCALE) * spread)
        },
{
    if let Some(rec) = s.spec_hit(ray, t_min, t_max) {
        lemma_root_is_on_sphere(s, ray, false);
        lemma_root_is_on_sphere(s, ray, true);
        let r = s.radius@;
        let sc: int = 16777216;
        let q = rec.p.sub(s.center);
        let n = rec.normal;
        assert(n == q.shrink(s.radius));
        assert(magnitude(q.x@ * SCALE) <= i64::MAX * r && magnitude(q.y@ * SCALE) <= i64::MAX * r
            && magnitude(q.z@ * SCALE) <= i64::MAX * r) by (nonlinear_arith)
            requires
                is_within(q, 0x8000_0000_0000),
                SCALE == 16777216,
                r >= 4096,
        ;
        lemma_div_error(q.x, s.radius);
        lemma_div_error(q.y, s.radius);
        lemma_div_error(q.z, s.radius);
        assert(q.x@ * SCALE == q.x@ * sc && q.y@ * SCALE == q.y@ * sc && q.z@ * SCALE == q.z@
            * sc);
        lemma_normal_component(sc, r, q.x@, n.x@);
        lemma_normal_component(sc, r, q.y@, n.y@);
        lemma_normal_component(sc, r, q.z@, n.z@);
        let n2 = n.x@ * n.x@ + n.y@ * n.y@ + n.z@ * n.z@;
        let q2 = q.x@ * q.x@ + q.y@ * q.y@ + q.z@ * q.z@;
        let rr = r * r;
        let ss = sc * sc;
        assert(squared_distance(rec.p, s.center) == q2);
        assert(rr * n2 == rr * (n.x@ * n.x@) + rr * (n.y@ * n.y@) + rr * (n.z@ * n.z@))
            by (nonlinear_arith)
            requires
                n2 == n.x@ * n.x@ + n.y@ * n.y@ + n.z@ * n.z@,
        ;
        assert(ss * q2 == ss * (q.x@ * q.x@) + ss * (q.y@ * q.y@) + ss * (q.z@ * q.z@))
            by (nonlinear_arith)
            requires
                q2 == q.x@ * q.x@ + q.y@ * q.y@ + q.z@ * q.z@,
        ;
        let spread = magnitude(q.x@) + magnitude(q.y@) + magnitude(q.z@);
        assert(r * (r + (2 * sc) * magnitude(q.x@)) + r * (r + (2 * sc) * magnitude(q.y@)) + r * (r
            + (2 * sc) * magnitude(q.z@)) == r * (3 * r + (2 * sc) * spread)) by (nonlinear_arith)
            requires
                spread == magnitude(q.x@) + magnitude(q.y@) + magnitude(q.z@),
        ;
        assert(magnitude(rr * n2 - ss * q2) <= r * (3 * r + (2 * sc) * spread));
        let gap = magnitude(q2 - rr);
        let tol = tolerance(s, ray, rec);
        assert(sc * gap <= tol);
        assert(magnitude(ss * q2 - ss * rr) <= sc * tol) by (nonlinear_arith)
            requires
                sc > 0,
                ss == sc * sc,
                gap == magnitude(q2 - rr),
                sc * gap <= tol,
        ;
        assert(rr * (n2 - ss) == (rr * n2 - ss * q2) + (ss * q2 - ss * rr)) by (nonlinear_arith);
        assert(rr * magnitude(n2 - ss) == magnitude(rr * (n2 - ss))) by (nonlinear_arith)
            requires
                rr >= 0,
        ;
        assert(rr >= 0) by (nonlinear_arith)
            requires
                rr == r * r,
        ;
        assert(SCALE * SCALE == ss) by (nonlinear_arith)
            requires
                SCALE == 16777216,
                ss == sc * sc,
                sc == 16777216,
        ;
        assert(SCALE * tol == sc * tol);
        assert(2 * SCALE == 2 * sc);
    }
}

/// A sphere's hit point lies on the sphere, as far as rounding allows: for a
/// sphere and a ray in reach, the squared distance between the reported
/// point and the centre differs from the squared radius by no more than the
/// tolerance, which is of the order of `2^-24` times the squared distance
/// travelled.
pub proof fn law_hit_point_is_on_sphere(s: &Sphere, ray: &Ray, t_min: Fixed, t_max: Fixed)
    requires
        in_reach(s, ray),
    ensures
        s.spec_hit(ray, t_min, t_max) matches Some(rec) ==> SCALE * magnitude(
            squared_distance(rec.p, s.center) - s.radius@ * s.radius@,
        ) <= tolerance(s, ray, rec),
{
    if s.spec_hit(ray, t_min, t_max) is Some {
        lemma_root_is_on_sphere(s, ray, false);
        lemma_root_is_on_sphere(s, ray, true);
    }
}

} // verus!
