//! Why the cosine density keeps to its hemisphere in spite of rounding.
//!
//! A direction is chosen in a frame around the normal and carried into the
//! world by three rounded products and sums. Its height in the frame is at
//! least `2^-12`; this module shows that rounding moves the frame's axes too
//! little against the normal to turn that height negative.

use vstd::prelude::*;
use crate::fixed::Fixed;
use crate::fixed::SCALE;
use crate::fixed::REACH;
use crate::fixed::lemma_bounded_product;
use crate::fixed::lemma_div_error;
use crate::fixed::lemma_sqrt;
use crate::fixed::magnitude;
use crate::onb::Onb;
use crate::pdf::Pdf;
use crate::sampling::Sample;
use crate::sampling::cosine_direction;
use crate::vec3::Vec3;
use crate::vec3::is_within;

verus! {

/// A small determinant: where `w` is `n` scaled by `S / m` and rounded
/// toward zero, the part of `w x n` that `w1`, `w2`, `n1` and `n2` make up is
/// less than the two components of `n` together.
pub proof fn lemma_minor(s: int, m: int, w1: int, w2: int, n1: int, n2: int, bound: int)
    requires
        m > 0,
        magnitude(w1 * m - n1 * s) < m,
        magnitude(w2 * m - n2 * s) < m,
        magnitude(n1) <= bound,
        magnitude(n2) <= bound,
    ensures
        magnitude(w1 * n2 - w2 * n1) <= 2 * bound,
{
    let f1 = n1 * s - w1 * m;
    let f2 = n2 * s - w2 * m;
    let minor = w1 * n2 - w2 * n1;
    assert(m * minor == f2 * n1 - f1 * n2) by (nonlinear_arith)
        requires
            f1 == n1 * s - w1 * m,
            f2 == n2 * s - w2 * m,
            minor == w1 * n2 - w2 * n1,
    ;
    assert(magnitude(f2 * n1) <= m * bound) by (nonlinear_arith)
        requires
            magnitude(f2) < m,
            magnitude(n1) <= bound,
    ;
    assert(magnitude(f1 * n2) <= m * bound) by (nonlinear_arith)
        requires
            magnitude(f1) < m,
            magnitude(n2) <= bound,
    ;
    assert(magnitude(m * minor) <= m * (2 * bound)) by (nonlinear_arith)
        requires
            m * minor == f2 * n1 - f1 * n2,
            magnitude(f2 * n1) <= m * bound,
            magnitude(f1 * n2) <= m * bound,
    ;
    assert(magnitude(minor) <= 2 * bound) by (nonlinear_arith)
        requires
            m > 0,
            magnitude(m * minor) <= m * (2 * bound),
    ;
}

/// A sum of three products is bounded by the bounds of its factors.
pub proof fn lemma_dot_bound(
    a: (int, int, int),
    b: (int, int, int),
    bound_a: int,
    bound_b: int,
)
    requires
        magnitude(a.0) <= bound_a,
        magnitude(a.1) <= bound_a,
        magnitude(a.2) <= bound_a,
        magnitude(b.0) <= bound_b,
        magnitude(b.1) <= bound_b,
        magnitude(b.2) <= bound_b,
    ensures
        magnitude(a.0 * b.0 + a.1 * b.1 + a.2 * b.2) <= 3 * (bound_a * bound_b),
{
    assert(magnitude(a.0 * b.0) <= bound_a * bound_b) by (nonlinear_arith)
        requires
            magnitude(a.0) <= bound_a,
            magnitude(b.0) <= bound_b,
    ;
    assert(magnitude(a.1 * b.1) <= bound_a * bound_b) by (nonlinear_arith)
        requires
            magnitude(a.1) <= bound_a,
            magnitude(b.1) <= bound_b,
    ;
    assert(magnitude(a.2 * b.2) <= bound_a * bound_b) by (nonlinear_arith)
        requires
            magnitude(a.2) <= bound_a,
            magnitude(b.2) <= bound_b,
    ;
}

/// A rounded unit vector is nearly at right angles to what it was made at
/// right angles to: where `v` is `c` scaled by `S / l` and rounded, with a
/// length `l` of at least a quarter of `S`, the dot product of `v` with `n`
/// is at most `4 |c . n| + 3 |n|`.
pub proof fn lemma_scaled_dot(
    s: int,
    l: int,
    c: (int, int, int),
    v: (int, int, int),
    n: (int, int, int),
    bound: int,
    cn: int,
)
    requires
        s > 0,
        4 * l >= s,
        magnitude(v.0 * l - c.0 * s) < l,
        magnitude(v.1 * l - c.1 * s) < l,
        magnitude(v.2 * l - c.2 * s) < l,
        magnitude(n.0) <= bound,
        magnitude(n.1) <= bound,
        magnitude(n.2) <= bound,
        magnitude(c.0 * n.0 + c.1 * n.1 + c.2 * n.2) <= cn,
    ensures
        magnitude(v.0 * n.0 + v.1 * n.1 + v.2 * n.2) <= 4 * cn + 3 * bound,
{
    let g0 = c.0 * s - v.0 * l;
    let g1 = c.1 * s - v.1 * l;
    let g2 = c.2 * s - v.2 * l;
    let vn = v.0 * n.0 + v.1 * n.1 + v.2 * n.2;
    let cdn = c.0 * n.0 + c.1 * n.1 + c.2 * n.2;
    let gn = g0 * n.0 + g1 * n.1 + g2 * n.2;
    assert(l * (v.0 * n.0) == s * (c.0 * n.0) - g0 * n.0) by (nonlinear_arith)
        requires
            g0 == c.0 * s - v.0 * l,
    ;
    assert(l * (v.1 * n.1) == s * (c.1 * n.1) - g1 * n.1) by (nonlinear_arith)
        requires
            g1 == c.1 * s - v.1 * l,
    ;
    assert(l * (v.2 * n.2) == s * (c.2 * n.2) - g2 * n.2) by (nonlinear_arith)
        requires
            g2 == c.2 * s - v.2 * l,
    ;
    assert(l * vn == l * (v.0 * n.0) + l * (v.1 * n.1) + l * (v.2 * n.2)) by (nonlinear_arith)
        requires
            vn == v.0 * n.0 + v.1 * n.1 + v.2 * n.2,
    ;
    assert(s * cdn == s * (c.0 * n.0) + s * (c.1 * n.1) + s * (c.2 * n.2)) by (nonlinear_arith)
        requires
            cdn == c.0 * n.0 + c.1 * n.1 + c.2 * n.2,
    ;
    assert(l * vn == s * cdn - gn);
    lemma_dot_bound((g0, g1, g2), n, l, bound);
    assert(magnitude(s * cdn) <= (4 * l) * cn) by (nonlinear_arith)
        requires
            s > 0,
            4 * l >= s,
            magnitude(cdn) <= cn,
    ;
    assert((4 * l) * cn + 3 * (l * bound) == l * (4 * cn + 3 * bound)) by (nonlinear_arith);
    assert(magnitude(vn) <= 4 * cn + 3 * bound) by (nonlinear_arith)
        requires
            l > 0,
            magnitude(l * vn) <= l * (4 * cn + 3 * bound),
    ;
}

/// The triple product of `v`, `w` and `n` can be taken from either end:
/// `(v x w) . n = v . (w x n)`.
pub proof fn lemma_triple_product(v: (int, int, int), w: (int, int, int), n: (int, int, int))
    ensures
        (v.1 * w.2 - v.2 * w.1) * n.0 + (v.2 * w.0 - v.0 * w.2) * n.1 + (v.0 * w.1 - v.1 * w.0)
            * n.2 == v.0 * (w.1 * n.2 - w.2 * n.1) + v.1 * (w.2 * n.0 - w.0 * n.2) + v.2 * (w.0
            * n.1 - w.1 * n.0),
{
    assert((v.1 * w.2 - v.2 * w.1) * n.0 == v.1 * (w.2 * n.0) - v.2 * (w.1 * n.0))
        by (nonlinear_arith);
    assert((v.2 * w.0 - v.0 * w.2) * n.1 == v.2 * (w.0 * n.1) - v.0 * (w.2 * n.1))
        by (nonlinear_arith);
    assert((v.0 * w.1 - v.1 * w.0) * n.2 == v.0 * (w.1 * n.2) - v.1 * (w.0 * n.2))
        by (nonlinear_arith);
    assert(v.0 * (w.1 * n.2 - w.2 * n.1) == v.0 * (w.1 * n.2) - v.0 * (w.2 * n.1))
        by (nonlinear_arith);
    assert(v.1 * (w.2 * n.0 - w.0 * n.2) == v.1 * (w.2 * n.0) - v.1 * (w.0 * n.2))
        by (nonlinear_arith);
    assert(v.2 * (w.0 * n.1 - w.1 * n.0) == v.2 * (w.0 * n.1) - v.2 * (w.1 * n.0))
        by (nonlinear_arith);
}

/// The first axis of the frame is nearly at right angles to the normal:
/// where `u` is the rounded cross product of `v` and `w`, and `w` is `n`
/// scaled and rounded, the dot product of `u` with `n` is at most `60 |n|`.
pub proof fn lemma_first_axis(
    s: int,
    m: int,
    n: (int, int, int),
    w: (int, int, int),
    v: (int, int, int),
    u: (int, int, int),
    bound: int,
)
    requires
        s > 0,
        m > 0,
        magnitude(n.0) <= bound,
        magnitude(n.1) <= bound,
        magnitude(n.2) <= bound,
        magnitude(w.0 * m - n.0 * s) < m,
        magnitude(w.1 * m - n.1 * s) < m,
        magnitude(w.2 * m - n.2 * s) < m,
        magnitude(v.0) <= 9 * s,
        magnitude(v.1) <= 9 * s,
        magnitude(v.2) <= 9 * s,
        magnitude(s * u.0 - (v.1 * w.2 - v.2 * w.1)) < 2 * s,
        magnitude(s * u.1 - (v.2 * w.0 - v.0 * w.2)) < 2 * s,
        magnitude(s * u.2 - (v.0 * w.1 - v.1 * w.0)) < 2 * s,
    ensures
        magnitude(u.0 * n.0 + u.1 * n.1 + u.2 * n.2) <= 60 * bound,
{
    let min0 = w.1 * n.2 - w.2 * n.1;
    let min1 = w.2 * n.0 - w.0 * n.2;
    let min2 = w.0 * n.1 - w.1 * n.0;
    lemma_minor(s, m, w.1, w.2, n.1, n.2, bound);
    lemma_minor(s, m, w.2, w.0, n.2, n.0, bound);
    lemma_minor(s, m, w.0, w.1, n.0, n.1, bound);
    lemma_triple_product(v, w, n);
    let x0 = v.1 * w.2 - v.2 * w.1;
    let x1 = v.2 * w.0 - v.0 * w.2;
    let x2 = v.0 * w.1 - v.1 * w.0;
    let triple = x0 * n.0 + x1 * n.1 + x2 * n.2;
    lemma_dot_bound(v, (min0, min1, min2), 9 * s, 2 * bound);
    assert(3 * ((9 * s) * (2 * bound)) == 54 * (s * bound)) by (nonlinear_arith);
    assert(magnitude(triple) <= 54 * (s * bound));
    let h0 = x0 - s * u.0;
    let h1 = x1 - s * u.1;
    let h2 = x2 - s * u.2;
    lemma_dot_bound((h0, h1, h2), n, 2 * s, bound);
    assert(3 * ((2 * s) * bound) == 6 * (s * bound)) by (nonlinear_arith);
    let un = u.0 * n.0 + u.1 * n.1 + u.2 * n.2;
    assert(s * (u.0 * n.0) == x0 * n.0 - h0 * n.0) by (nonlinear_arith)
        requires
            h0 == x0 - s * u.0,
    ;
    assert(s * (u.1 * n.1) == x1 * n.1 - h1 * n.1) by (nonlinear_arith)
        requires
            h1 == x1 - s * u.1,
    ;
    assert(s * (u.2 * n.2) == x2 * n.2 - h2 * n.2) by (nonlinear_arith)
        requires
            h2 == x2 - s * u.2,
    ;
    assert(s * un == s * (u.0 * n.0) + s * (u.1 * n.1) + s * (u.2 * n.2)) by (nonlinear_arith)
        requires
            un == u.0 * n.0 + u.1 * n.1 + u.2 * n.2,
    ;
    assert(magnitude(s * un) <= s * (60 * bound)) by (nonlinear_arith)
        requires
            magnitude(s * un) <= 54 * (s * bound) + 6 * (s * bound),
    ;
    assert(magnitude(un) <= 60 * bound) by (nonlinear_arith)
        requires
            s > 0,
            magnitude(s * un) <= s * (60 * bound),
    ;
}

/// The third axis of the frame points along the normal: where `w` is `n`
/// scaled by `S / m` and rounded toward zero, with `m` at most twice the
/// largest component `bound` of `n`, twice the dot product of `w` with `n` is
/// at least `bound (S - 2)`.
pub proof fn lemma_third_axis(s: int, m: int, n: (int, int, int), w: (int, int, int), bound: int)
    requires
        s > 0,
        0 < m <= 2 * bound,
        magnitude(n.0) <= bound,
        magnitude(n.1) <= bound,
        magnitude(n.2) <= bound,
        magnitude(n.0) == bound || magnitude(n.1) == bound || magnitude(n.2) == bound,
        magnitude(w.0 * m - n.0 * s) < m,
        magnitude(w.1 * m - n.1 * s) < m,
        magnitude(w.2 * m - n.2 * s) < m,
        w.0 * n.0 >= 0,
        w.1 * n.1 >= 0,
        w.2 * n.2 >= 0,
    ensures
        2 * (w.0 * n.0 + w.1 * n.1 + w.2 * n.2) >= bound * s - 2 * bound,
{
    if magnitude(n.0) == bound {
        lemma_largest_term(s, m, n.0, w.0, bound);
    } else if magnitude(n.1) == bound {
        lemma_largest_term(s, m, n.1, w.1, bound);
    } else {
        lemma_largest_term(s, m, n.2, w.2, bound);
    }
}

/// The term of the largest component in the dot product of `w` with `n`.
pub proof fn lemma_largest_term(s: int, m: int, n: int, w: int, bound: int)
    requires
        s > 0,
        0 < m <= 2 * bound,
        magnitude(n) == bound,
        magnitude(w * m - n * s) < m,
    ensures
        2 * (w * n) >= bound * s - 2 * bound,
{
    let f = n * s - w * m;
    let p = w * n;
    assert(m * p == (n * n) * s - f * n) by (nonlinear_arith)
        requires
            f == n * s - w * m,
            p == w * n,
    ;
    assert(n * n == bound * bound) by (nonlinear_arith)
        requires
            magnitude(n) == bound,
    ;
    assert(magnitude(f * n) <= m * bound) by (nonlinear_arith)
        requires
            magnitude(f) < m,
            magnitude(n) == bound,
    ;
    assert(2 * ((bound * bound) * s) >= m * (bound * s)) by (nonlinear_arith)
        requires
            s > 0,
            0 < m <= 2 * bound,
    ;
    assert(m * (2 * p) >= m * (bound * s - 2 * bound)) by (nonlinear_arith)
        requires
            m * p >= (bound * bound) * s - m * bound,
            2 * ((bound * bound) * s) >= m * (bound * s),
    ;
    assert(2 * p >= bound * s - 2 * bound) by (nonlinear_arith)
        requires
            m > 0,
            m * (2 * p) >= m * (bound * s - 2 * bound),
    ;
}

/// One component of a direction carried out of its frame, times the same
/// component of `n`.
pub proof fn lemma_carried_component(
    s: int,
    d: int,
    n: int,
    u: int,
    v: int,
    w: int,
    x: int,
    y: int,
    z: int,
    k: int,
)
    requires
        k == (u * x + v * y + w * z) - s * d,
    ensures
        s * (d * n) == x * (u * n) + y * (v * n) + z * (w * n) - k * n,
{
    let sd = s * d;
    let a1 = u * x;
    let a2 = v * y;
    let a3 = w * z;
    assert(sd * n == a1 * n + a2 * n + a3 * n - k * n) by (nonlinear_arith)
        requires
            sd == a1 + a2 + a3 - k,
    ;
    assert(sd * n == s * (d * n)) by (nonlinear_arith)
        requires
            sd == s * d,
    ;
    assert(a1 * n == x * (u * n)) by (nonlinear_arith)
        requires
            a1 == u * x,
    ;
    assert(a2 * n == y * (v * n)) by (nonlinear_arith)
        requires
            a2 == v * y,
    ;
    assert(a3 * n == z * (w * n)) by (nonlinear_arith)
        requires
            a3 == w * z,
    ;
}

/// The height wins: a direction with a height `z` of at least `4096` raw
/// units in a frame whose first two axes are nearly at right angles to `n`
/// and whose third axis points along `n` has a dot product with `n` that is
/// not negative, once `n` has a component of at least `32768` raw units.
pub proof fn lemma_height_wins(
    s: int,
    n: (int, int, int),
    u: (int, int, int),
    v: (int, int, int),
    w: (int, int, int),
    x: int,
    y: int,
    z: int,
    d: (int, int, int),
    res: (int, int, int),
    bound: int,
)
    requires
        s == 16777216,
        bound >= 32768,
        magnitude(n.0) <= bound,
        magnitude(n.1) <= bound,
        magnitude(n.2) <= bound,
        magnitude(u.0 * n.0 + u.1 * n.1 + u.2 * n.2) <= 60 * bound,
        magnitude(v.0 * n.0 + v.1 * n.1 + v.2 * n.2) <= 11 * bound,
        2 * (w.0 * n.0 + w.1 * n.1 + w.2 * n.2) >= bound * s - 2 * bound,
        magnitude(x) <= s,
        magnitude(y) <= s,
        z >= 4096,
        magnitude(s * d.0 - (u.0 * x + v.0 * y + w.0 * z)) < 3 * s,
        magnitude(s * d.1 - (u.1 * x + v.1 * y + w.1 * z)) < 3 * s,
        magnitude(s * d.2 - (u.2 * x + v.2 * y + w.2 * z)) < 3 * s,
        magnitude(res.0 * s - d.0 * n.0) < s,
        magnitude(res.1 * s - d.1 * n.1) < s,
        magnitude(res.2 * s - d.2 * n.2) < s,
    ensures
        res.0 + res.1 + res.2 >= 0,
{
    let un = u.0 * n.0 + u.1 * n.1 + u.2 * n.2;
    let vn = v.0 * n.0 + v.1 * n.1 + v.2 * n.2;
    let wn = w.0 * n.0 + w.1 * n.1 + w.2 * n.2;
    let dn = d.0 * n.0 + d.1 * n.1 + d.2 * n.2;
    let k0 = (u.0 * x + v.0 * y + w.0 * z) - s * d.0;
    let k1 = (u.1 * x + v.1 * y + w.1 * z) - s * d.1;
    let k2 = (u.2 * x + v.2 * y + w.2 * z) - s * d.2;
    let kn = k0 * n.0 + k1 * n.1 + k2 * n.2;
    lemma_dot_bound((k0, k1, k2), n, 3 * s, bound);
    lemma_carried_component(s, d.0, n.0, u.0, v.0, w.0, x, y, z, k0);
    lemma_carried_component(s, d.1, n.1, u.1, v.1, w.1, x, y, z, k1);
    lemma_carried_component(s, d.2, n.2, u.2, v.2, w.2, x, y, z, k2);
    assert(s * dn == s * (d.0 * n.0) + s * (d.1 * n.1) + s * (d.2 * n.2)) by (nonlinear_arith)
        requires
            dn == d.0 * n.0 + d.1 * n.1 + d.2 * n.2,
    ;
    assert(x * un == x * (u.0 * n.0) + x * (u.1 * n.1) + x * (u.2 * n.2)) by (nonlinear_arith)
        requires
            un == u.0 * n.0 + u.1 * n.1 + u.2 * n.2,
    ;
    assert(y * vn == y * (v.0 * n.0) + y * (v.1 * n.1) + y * (v.2 * n.2)) by (nonlinear_arith)
        requires
            vn == v.0 * n.0 + v.1 * n.1 + v.2 * n.2,
    ;
    assert(z * wn == z * (w.0 * n.0) + z * (w.1 * n.1) + z * (w.2 * n.2)) by (nonlinear_arith)
        requires
            wn == w.0 * n.0 + w.1 * n.1 + w.2 * n.2,
    ;
    assert(s * dn == x * un + y * vn + z * wn - kn);
    assert(magnitude(x * un) <= s * (60 * bound)) by (nonlinear_arith)
        requires
            magnitude(x) <= s,
            magnitude(un) <= 60 * bound,
    ;
    assert(magnitude(y * vn) <= s * (11 * bound)) by (nonlinear_arith)
        requires
            magnitude(y) <= s,
            magnitude(vn) <= 11 * bound,
    ;
    assert(magnitude(kn) <= s * (9 * bound)) by (nonlinear_arith)
        requires
            magnitude(kn) <= 3 * ((3 * s) * bound),
    ;
    assert(2 * (z * wn) >= 4096 * (bound * s - 2 * bound)) by (nonlinear_arith)
        requires
            z >= 4096,
            2 * wn >= bound * s - 2 * bound,
            bound * s - 2 * bound >= 0,
    ;
    // With S = 2^24: S dn >= bound (2048 S - 4096 - 80 S).
    assert(s * (60 * bound) + s * (11 * bound) + s * (9 * bound) == 1342177280 * bound)
        by (nonlinear_arith)
        requires
            s == 16777216,
    ;
    assert(4096 * (bound * s - 2 * bound) == 68719468544 * bound) by (nonlinear_arith)
        requires
            s == 16777216,
    ;
    assert(2 * (s * dn) >= 66035113984 * bound);
    // The three roundings of the dot product cost 3 S at most.
    let total = res.0 + res.1 + res.2;
    assert(total * s >= dn - 3 * s) by (nonlinear_arith)
        requires
            total == res.0 + res.1 + res.2,
            dn == d.0 * n.0 + d.1 * n.1 + d.2 * n.2,
            magnitude(res.0 * s - d.0 * n.0) < s,
            magnitude(res.1 * s - d.1 * n.1) < s,
            magnitude(res.2 * s - d.2 * n.2) < s,
    ;
    assert(2 * (s * (total * s)) >= 2 * (s * dn) - 6 * (s * s)) by (nonlinear_arith)
        requires
            s > 0,
            total * s >= dn - 3 * s,
    ;
    assert(66035113984 * bound >= 66035113984 * 32768);
    assert(6 * (s * s) == 1688849860263936) by (nonlinear_arith)
        requires
            s == 16777216,
    ;
    assert(s * (total * s) > -(s * s));
    assert(total > -1) by (nonlinear_arith)
        requires
            s > 0,
            s * (total * s) > -(s * s),
    ;
}

/// The largest magnitude among the raw components of `n`.
pub open spec fn largest_component(n: Vec3) -> int {
    let a = magnitude(n.x@);
    let b = magnitude(n.y@);
    let c = magnitude(n.z@);
    if a >= b && a >= c {
        a
    } else if b >= c {
        b
    } else {
        c
    }
}

/// The raw value of the least size that a normal's largest component may
/// have: about two thousandths.
pub const LEAST_NORMAL: i64 = 32768;

/// Whether a normal is neither too long nor too short for the frame around
/// it to be accurate: its components lie within 1024, and one of them is at
/// least about two thousandths.
pub open spec fn is_sound_normal(n: Vec3) -> bool {
    is_within(n, REACH as int) && largest_component(n) >= LEAST_NORMAL
}

/// The length of a sound normal, as computed, lies between half of the
/// normal's largest component and twice that.
pub proof fn lemma_length(n: Vec3)
    requires
        is_sound_normal(n),
    ensures
        0 < n.magnitude()@ <= 2 * largest_component(n),
        2 * n.magnitude()@ >= largest_component(n),
        n.magnitude()@ * n.magnitude()@ <= n.x@ * n.x@ + n.y@ * n.y@ + n.z@ * n.z@,
{
    let big = largest_component(n);
    let a = n.magnitude_squared();
    assert(REACH == 0x4_0000_0000);
    lemma_bounded_product(n.x, n.x, 0x4_0000_0000, 0x4_0000_0000);
    lemma_bounded_product(n.y, n.y, 0x4_0000_0000, 0x4_0000_0000);
    lemma_bounded_product(n.z, n.z, 0x4_0000_0000, 0x4_0000_0000);
    assert(n.x@ * n.x@ >= 0) by (nonlinear_arith);
    assert(n.y@ * n.y@ >= 0) by (nonlinear_arith);
    assert(n.z@ * n.z@ >= 0) by (nonlinear_arith);
    let n2 = n.x@ * n.x@ + n.y@ * n.y@ + n.z@ * n.z@;
    assert(n2 - 3 * 16777216 < a@ * 16777216 <= n2);
    assert(big * big <= n2 <= 3 * (big * big)) by (nonlinear_arith)
        requires
            n2 == n.x@ * n.x@ + n.y@ * n.y@ + n.z@ * n.z@,
            magnitude(n.x@) <= big,
            magnitude(n.y@) <= big,
            magnitude(n.z@) <= big,
            magnitude(n.x@) == big || magnitude(n.y@) == big || magnitude(n.z@) == big,
    ;
    assert(big * big >= 32768 * big) by (nonlinear_arith)
        requires
            big >= 32768,
    ;
    assert(a@ > 0);
    lemma_sqrt(a);
    let m = a.sqrt()@;
    assert(SCALE == 16777216);
    assert(a@ * SCALE == a@ * 16777216);
    assert(m > 0) by (nonlinear_arith)
        requires
            m >= 0,
            a@ * 16777216 < (m + 1) * (m + 1),
            a@ > 0,
    ;
    assert(m <= 2 * big) by (nonlinear_arith)
        requires
            m >= 0,
            big >= 0,
            m * m <= 3 * (big * big),
    ;
    assert(2 * m >= big) by (nonlinear_arith)
        requires
            m >= 0,
            big >= 32768,
            (m + 1) * (m + 1) > big * big - 3 * 16777216,
    ;
}

/// One component of a vector scaled to unit length: its square, times the
/// squared length, is nearly the component's square times `S^2`.
pub proof fn lemma_unit_component(s: int, m: int, n: int, w: int, bound: int)
    requires
        s > 0,
        m > 0,
        magnitude(n) <= bound,
        magnitude(w * m - n * s) < m,
    ensures
        (m * m) * (w * w) >= (s * s) * (n * n) - 2 * (s * (bound * m)),
{
    let x = w * m;
    let y = n * s;
    assert((m * m) * (w * w) == x * x) by (nonlinear_arith)
        requires
            x == w * m,
    ;
    assert((s * s) * (n * n) == y * y) by (nonlinear_arith)
        requires
            y == n * s,
    ;
    assert(magnitude(y) <= s * bound) by (nonlinear_arith)
        requires
            y == n * s,
            s > 0,
            magnitude(n) <= bound,
    ;
    assert(x * x >= y * y - 2 * (magnitude(y) * m)) by (nonlinear_arith)
        requires
            magnitude(x - y) < m,
            m > 0,
    ;
    assert(magnitude(y) * m <= s * (bound * m)) by (nonlinear_arith)
        requires
            magnitude(y) <= s * bound,
            m > 0,
    ;
}

/// A sound normal scaled to unit length: each component is the normal's
/// component times `S / m`, rounded toward zero, and has its sign; no
/// component exceeds two; and the squared length is at least `S^2 - 12 S`.
pub proof fn lemma_normalized(n: Vec3)
    requires
        is_sound_normal(n),
    ensures
        ({
            let m = n.magnitude()@;
            let w = n.normalize();
            &&& magnitude(w.x@ * m - n.x@ * 16777216) < m
            &&& magnitude(w.y@ * m - n.y@ * 16777216) < m
            &&& magnitude(w.z@ * m - n.z@ * 16777216) < m
            &&& w.x@ * n.x@ >= 0
            &&& w.y@ * n.y@ >= 0
            &&& w.z@ * n.z@ >= 0
            &&& is_within(w, 0x200_0000)
            &&& w.x@ * w.x@ + w.y@ * w.y@ + w.z@ * w.z@ >= 16777216 * 16777216 - 12 * 16777216
        }),
{
    let big = largest_component(n);
    let length = n.magnitude();
    let m = length@;
    let w = n.normalize();
    let s: int = 16777216;
    lemma_length(n);
    assert(SCALE == 16777216 && REACH == 0x4_0000_0000);
    assert(magnitude(n.x@ * SCALE) <= i64::MAX * m && magnitude(n.y@ * SCALE) <= i64::MAX * m
        && magnitude(n.z@ * SCALE) <= i64::MAX * m) by (nonlinear_arith)
        requires
            is_within(n, 0x4_0000_0000),
            SCALE == 16777216,
            m >= 1,
    ;
    lemma_div_error(n.x, length);
    lemma_div_error(n.y, length);
    lemma_div_error(n.z, length);
    assert(n.x@ * SCALE == n.x@ * s && n.y@ * SCALE == n.y@ * s && n.z@ * SCALE == n.z@ * s);
    assert(w.x@ * n.x@ >= 0 && w.y@ * n.y@ >= 0 && w.z@ * n.z@ >= 0) by (nonlinear_arith)
        requires
            n.x@ >= 0 ==> w.x@ >= 0,
            n.x@ <= 0 ==> w.x@ <= 0,
            n.y@ >= 0 ==> w.y@ >= 0,
            n.y@ <= 0 ==> w.y@ <= 0,
            n.z@ >= 0 ==> w.z@ >= 0,
            n.z@ <= 0 ==> w.z@ <= 0,
    ;
    assert(magnitude(n.x@ * s) <= big * s && magnitude(n.y@ * s) <= big * s && magnitude(n.z@ * s)
        <= big * s) by (nonlinear_arith)
        requires
            s > 0,
            magnitude(n.x@) <= big,
            magnitude(n.y@) <= big,
            magnitude(n.z@) <= big,
    ;
    assert(big * s <= (2 * s) * m) by (nonlinear_arith)
        requires
            s > 0,
            big <= 2 * m,
    ;
    assert(magnitude(w.x@) <= 2 * s && magnitude(w.y@) <= 2 * s && magnitude(w.z@) <= 2 * s)
        by (nonlinear_arith)
        requires
            m > 0,
            magnitude(w.x@) * m <= (2 * s) * m,
            magnitude(w.y@) * m <= (2 * s) * m,
            magnitude(w.z@) * m <= (2 * s) * m,
    ;
    lemma_unit_component(s, m, n.x@, w.x@, big);
    lemma_unit_component(s, m, n.y@, w.y@, big);
    lemma_unit_component(s, m, n.z@, w.z@, big);
    let n2 = n.x@ * n.x@ + n.y@ * n.y@ + n.z@ * n.z@;
    let w2 = w.x@ * w.x@ + w.y@ * w.y@ + w.z@ * w.z@;
    let mm = m * m;
    let ss = s * s;
    assert(mm * w2 == mm * (w.x@ * w.x@) + mm * (w.y@ * w.y@) + mm * (w.z@ * w.z@))
        by (nonlinear_arith)
        requires
            w2 == w.x@ * w.x@ + w.y@ * w.y@ + w.z@ * w.z@,
    ;
    assert(ss * n2 == ss * (n.x@ * n.x@) + ss * (n.y@ * n.y@) + ss * (n.z@ * n.z@))
        by (nonlinear_arith)
        requires
            n2 == n.x@ * n.x@ + n.y@ * n.y@ + n.z@ * n.z@,
    ;
    assert(mm * w2 >= ss * n2 - 6 * (s * (big * m)));
    assert(ss * n2 >= ss * mm) by (nonlinear_arith)
        requires
            n2 >= mm,
            ss >= 0,
    ;
    assert(6 * (s * (big * m)) <= (12 * s) * mm) by (nonlinear_arith)
        requires
            s > 0,
            m > 0,
            big <= 2 * m,
            mm == m * m,
    ;
    assert(mm * w2 >= mm * (ss - 12 * s)) by (nonlinear_arith)
        requires
            mm * w2 >= ss * mm - (12 * s) * mm,
    ;
    assert(mm > 0) by (nonlinear_arith)
        requires
            m > 0,
            mm == m * m,
    ;
    assert(w2 >= ss - 12 * s) by (nonlinear_arith)
        requires
            mm > 0,
            mm * w2 >= mm * (ss - 12 * s),
    ;
}

/// A vector with a component of at least a quarter and a bit, and none
/// beyond two, scaled to unit length: its length is at least a quarter, each
/// component of the result is the vector's component times `S / l`, rounded,
/// and no component of the result exceeds eight.
pub proof fn lemma_normalized_axis(c: Vec3)
    requires
        is_within(c, 0x200_0000),
        largest_component(c) >= 4400000,
    ensures
        ({
            let l = c.magnitude()@;
            let v = c.normalize();
            &&& 4 * l >= 16777216
            &&& magnitude(v.x@ * l - c.x@ * 16777216) < l
            &&& magnitude(v.y@ * l - c.y@ * 16777216) < l
            &&& magnitude(v.z@ * l - c.z@ * 16777216) < l
            &&& is_within(v, 0x800_0000)
        }),
{
    let big = largest_component(c);
    let a = c.magnitude_squared();
    let s: int = 16777216;
    lemma_bounded_product(c.x, c.x, 0x200_0000, 0x200_0000);
    lemma_bounded_product(c.y, c.y, 0x200_0000, 0x200_0000);
    lemma_bounded_product(c.z, c.z, 0x200_0000, 0x200_0000);
    assert(c.x@ * c.x@ >= 0) by (nonlinear_arith);
    assert(c.y@ * c.y@ >= 0) by (nonlinear_arith);
    assert(c.z@ * c.z@ >= 0) by (nonlinear_arith);
    let c2 = c.x@ * c.x@ + c.y@ * c.y@ + c.z@ * c.z@;
    assert(c2 - 3 * 16777216 < a@ * 16777216 <= c2);
    assert(c2 >= big * big) by (nonlinear_arith)
        requires
            c2 == c.x@ * c.x@ + c.y@ * c.y@ + c.z@ * c.z@,
            magnitude(c.x@) == big || magnitude(c.y@) == big || magnitude(c.z@) == big,
    ;
    assert(big * big >= 4400000 * 4400000) by (nonlinear_arith)
        requires
            big >= 4400000,
    ;
    lemma_sqrt(a);
    let length = a.sqrt();
    let l = length@;
    assert(SCALE == 16777216);
    assert(a@ * SCALE == a@ * 16777216);
    assert(4 * l >= 16777216) by (nonlinear_arith)
        requires
            l >= 0,
            (l + 1) * (l + 1) > 4400000 * 4400000 - 3 * 16777216,
    ;
    let v = c.normalize();
    assert(magnitude(c.x@ * SCALE) <= i64::MAX * l && magnitude(c.y@ * SCALE) <= i64::MAX * l
        && magnitude(c.z@ * SCALE) <= i64::MAX * l) by (nonlinear_arith)
        requires
            is_within(c, 0x200_0000),
            SCALE == 16777216,
            l >= 1,
    ;
    lemma_div_error(c.x, length);
    lemma_div_error(c.y, length);
    lemma_div_error(c.z, length);
    assert(c.x@ * SCALE == c.x@ * s && c.y@ * SCALE == c.y@ * s && c.z@ * SCALE == c.z@ * s);
    assert(magnitude(c.x@ * s) <= (8 * s) * l && magnitude(c.y@ * s) <= (8 * s) * l && magnitude(
        c.z@ * s,
    ) <= (8 * s) * l) by (nonlinear_arith)
        requires
            s == 16777216,
            is_within(c, 0x200_0000),
            4 * l >= 16777216,
    ;
    assert(magnitude(v.x@) <= 8 * s && magnitude(v.y@) <= 8 * s && magnitude(v.z@) <= 8 * s)
        by (nonlinear_arith)
        requires
            l > 0,
            magnitude(v.x@) * l <= (8 * s) * l,
            magnitude(v.y@) * l <= (8 * s) * l,
            magnitude(v.z@) * l <= (8 * s) * l,
    ;
}

/// The vector that the second axis of a frame is made of: the cross product
/// of the third axis and a helper axis. It is the third axis with one
/// component dropped and the other two swapped, one of them negated; it has
/// a component of at least a quarter and a bit; and against the normal it
/// measures no more than two of the normal's largest components.
pub proof fn lemma_second_axis_source(n: Vec3)
    requires
        is_sound_normal(n),
    ensures
        ({
            let w = n.normalize();
            let helper = if w.x.abs()@ > Fixed::ratio(9, 10)@ {
                Vec3::from_ints(0, 1, 0)
            } else {
                Vec3::from_ints(1, 0, 0)
            };
            let c = w.cross(helper);
            &&& is_within(c, 0x200_0000)
            &&& largest_component(c) >= 4400000
            &&& magnitude(c.x@ * n.x@ + c.y@ * n.y@ + c.z@ * n.z@) <= 2 * largest_component(n)
        }),
{
    let w = n.normalize();
    let m = n.magnitude()@;
    let big = largest_component(n);
    let s: int = 16777216;
    lemma_length(n);
    lemma_normalized(n);
    assert(Fixed::ratio(9, 10)@ == 15099494) by {
        assert(Fixed::from_int(9)@ * SCALE == 2533274790395904) by (nonlinear_arith)
            requires
                Fixed::from_int(9)@ == 9 * 16777216,
                SCALE == 16777216,
        ;
        assert(Fixed::from_int(10)@ == 167772160);
        assert(2533274790395904int / 167772160int == 15099494);
    }
    crate::fixed::lemma_mul_zero(w.x);
    crate::fixed::lemma_mul_zero(w.y);
    crate::fixed::lemma_mul_zero(w.z);
    crate::fixed::lemma_mul_one(w.x);
    crate::fixed::lemma_mul_one(w.y);
    crate::fixed::lemma_mul_one(w.z);
    assert(Fixed::from_int(1) == Fixed::one());
    assert(Fixed::from_int(0) == Fixed::zero());
    if w.x.abs()@ > 15099494 {
        let c = w.cross(Vec3::from_ints(0, 1, 0));
        assert(c.x@ == -w.z@ && c.y@ == 0 && c.z@ == w.x@);
        lemma_minor(s, m, w.x@, w.z@, n.x@, n.z@, big);
        assert(c.x@ * n.x@ == -(w.z@ * n.x@)) by (nonlinear_arith)
            requires
                c.x@ == -w.z@,
        ;
        assert(c.y@ * n.y@ == 0) by (nonlinear_arith)
            requires
                c.y@ == 0,
        ;
    } else {
        let c = w.cross(Vec3::from_ints(1, 0, 0));
        assert(c.x@ == 0 && c.y@ == w.z@ && c.z@ == -w.y@);
        lemma_minor(s, m, w.z@, w.y@, n.z@, n.y@, big);
        assert(c.z@ * n.z@ == -(w.y@ * n.z@)) by (nonlinear_arith)
            requires
                c.z@ == -w.y@,
        ;
        assert(c.x@ * n.x@ == 0) by (nonlinear_arith)
            requires
                c.x@ == 0,
        ;
        // What the first component leaves of the squared length goes to the
        // other two.
        assert(w.x@ * w.x@ <= 15099494 * 15099494) by (nonlinear_arith)
            requires
                magnitude(w.x@) <= 15099494,
        ;
        let rest = w.y@ * w.y@ + w.z@ * w.z@;
        assert(rest >= 2 * (4400000 * 4400000));
        assert(magnitude(w.y@) >= 4400000 || magnitude(w.z@) >= 4400000) by (nonlinear_arith)
            requires
                w.y@ * w.y@ + w.z@ * w.z@ >= 2 * (4400000 * 4400000),
        ;
    }
}

/// The frame around a sound normal: its third axis is the normal at unit
/// length, its second axis measures at most eleven of the normal's largest
/// components against the normal, its first axis at most sixty, and twice
/// what its third axis measures is at least `S - 2` of them.
pub proof fn lemma_frame(n: Vec3)
    requires
        is_sound_normal(n),
    ensures
        ({
            let f = Onb::build_from_w(n);
            let big = largest_component(n);
            &&& is_within(f.u, 0x2000_0000)
            &&& is_within(f.v, 0x800_0000)
            &&& is_within(f.w, 0x200_0000)
            &&& magnitude(f.u.x@ * n.x@ + f.u.y@ * n.y@ + f.u.z@ * n.z@) <= 60 * big
            &&& magnitude(f.v.x@ * n.x@ + f.v.y@ * n.y@ + f.v.z@ * n.z@) <= 11 * big
            &&& 2 * (f.w.x@ * n.x@ + f.w.y@ * n.y@ + f.w.z@ * n.z@) >= big * 16777216 - 2 * big
        }),
{
    let w = n.normalize();
    let m = n.magnitude()@;
    let big = largest_component(n);
    let s: int = 16777216;
    let helper = if w.x.abs()@ > Fixed::ratio(9, 10)@ {
        Vec3::from_ints(0, 1, 0)
    } else {
        Vec3::from_ints(1, 0, 0)
    };
    let c = w.cross(helper);
    let v = c.normalize();
    let u = v.cross(w);
    let l = c.magnitude()@;
    lemma_length(n);
    lemma_normalized(n);
    lemma_second_axis_source(n);
    lemma_normalized_axis(c);
    lemma_scaled_dot(
        s,
        l,
        (c.x@, c.y@, c.z@),
        (v.x@, v.y@, v.z@),
        (n.x@, n.y@, n.z@),
        big,
        2 * big,
    );
    lemma_bounded_product(v.y, w.z, 0x800_0000, 0x200_0000);
    lemma_bounded_product(v.z, w.y, 0x800_0000, 0x200_0000);
    lemma_bounded_product(v.z, w.x, 0x800_0000, 0x200_0000);
    lemma_bounded_product(v.x, w.z, 0x800_0000, 0x200_0000);
    lemma_bounded_product(v.x, w.y, 0x800_0000, 0x200_0000);
    lemma_bounded_product(v.y, w.x, 0x800_0000, 0x200_0000);
    assert(s * u.x@ == 16777216 * u.x@ && s * u.y@ == 16777216 * u.y@ && s * u.z@ == 16777216
        * u.z@);
    lemma_first_axis(
        s,
        m,
        (n.x@, n.y@, n.z@),
        (w.x@, w.y@, w.z@),
        (v.x@, v.y@, v.z@),
        (u.x@, u.y@, u.z@),
        big,
    );
    lemma_third_axis(s, m, (n.x@, n.y@, n.z@), (w.x@, w.y@, w.z@), big);
    assert(big * s == big * 16777216);
}

/// The numbers of a direction chosen by the cosine density in its frame: for
/// a valid sample the two across the axis lie within one, and the height is
/// at least `2^-12` and at most one.
pub proof fn lemma_cosine_direction(sample: &Sample)
    requires
        sample.is_valid(),
    ensures
        ({
            let a = cosine_direction(sample.u1, sample.u2);
            &&& magnitude(a.x@) <= 16777216
            &&& magnitude(a.y@) <= 16777216
            &&& 4096 <= a.z@ <= 16777216
        }),
{
    let around = crate::trig::cos_sin_turns(sample.u1);
    let away = sample.u2.sqrt();
    let s: int = 16777216;
    assert(SCALE == 16777216);
    crate::fixed::lemma_sqrt_at_most_one(sample.u2);
    assert(magnitude(around.cos@) <= s && magnitude(around.sin@) <= s);
    lemma_bounded_product(around.cos, away, 16777216, 16777216);
    lemma_bounded_product(around.sin, away, 16777216, 16777216);
    let rest = Fixed::one().sub(sample.u2);
    assert(1 <= rest@ <= s);
    crate::fixed::lemma_sqrt_at_most_one(rest);
    lemma_sqrt(rest);
    let z = rest.sqrt()@;
    assert(rest@ * SCALE >= SCALE) by (nonlinear_arith)
        requires
            rest@ >= 1,
            SCALE > 0,
    ;
    assert(z >= 4096) by (nonlinear_arith)
        requires
            z >= 0,
            (z + 1) * (z + 1) > 16777216,
    ;
}

/// A vector given in a frame and carried into the world: each component is
/// the sum of the three axes' shares, each rounded by less than one raw
/// unit.
pub proof fn lemma_carried(f: Onb, a: Vec3)
    requires
        is_within(f.u, 0x2000_0000),
        is_within(f.v, 0x800_0000),
        is_within(f.w, 0x200_0000),
        is_within(a, 16777216),
    ensures
        ({
            let d = f.local(a);
            &&& is_within(d, 0x4000_0000)
            &&& magnitude(16777216 * d.x@ - (f.u.x@ * a.x@ + f.v.x@ * a.y@ + f.w.x@ * a.z@)) < 3
                * 16777216
            &&& magnitude(16777216 * d.y@ - (f.u.y@ * a.x@ + f.v.y@ * a.y@ + f.w.y@ * a.z@)) < 3
                * 16777216
            &&& magnitude(16777216 * d.z@ - (f.u.z@ * a.x@ + f.v.z@ * a.y@ + f.w.z@ * a.z@)) < 3
                * 16777216
        }),
{
    lemma_bounded_product(f.u.x, a.x, 0x2000_0000, 16777216);
    lemma_bounded_product(f.u.y, a.x, 0x2000_0000, 16777216);
    lemma_bounded_product(f.u.z, a.x, 0x2000_0000, 16777216);
    lemma_bounded_product(f.v.x, a.y, 0x800_0000, 16777216);
    lemma_bounded_product(f.v.y, a.y, 0x800_0000, 16777216);
    lemma_bounded_product(f.v.z, a.y, 0x800_0000, 16777216);
    lemma_bounded_product(f.w.x, a.z, 0x200_0000, 16777216);
    lemma_bounded_product(f.w.y, a.z, 0x200_0000, 16777216);
    lemma_bounded_product(f.w.z, a.z, 0x200_0000, 16777216);
}

/// The dot product of a carried vector with a normal in reach: the sum of
/// three products, each rounded by less than one raw unit.
pub proof fn lemma_rounded_dot(d: Vec3, n: Vec3)
    requires
        is_within(d, 0x4000_0000),
        is_within(n, 0x4_0000_0000),
    ensures
        d.dot(n)@ == d.x.mul(n.x)@ + d.y.mul(n.y)@ + d.z.mul(n.z)@,
        magnitude(d.x.mul(n.x)@ * 16777216 - d.x@ * n.x@) < 16777216,
        magnitude(d.y.mul(n.y)@ * 16777216 - d.y@ * n.y@) < 16777216,
        magnitude(d.z.mul(n.z)@ * 16777216 - d.z@ * n.z@) < 16777216,
{
    lemma_bounded_product(d.x, n.x, 0x4000_0000, 0x4_0000_0000);
    lemma_bounded_product(d.y, n.y, 0x4000_0000, 0x4_0000_0000);
    lemma_bounded_product(d.z, n.z, 0x4000_0000, 0x4_0000_0000);
}

/// A vector with a height of at least `2^-12` in the frame around a sound
/// normal, and within one across, has a dot product with the normal that is
/// not negative.
pub proof fn lemma_high_enough(n: Vec3, a: Vec3)
    requires
        is_sound_normal(n),
        magnitude(a.x@) <= 16777216,
        magnitude(a.y@) <= 16777216,
        4096 <= a.z@ <= 16777216,
    ensures
        Onb::build_from_w(n).local(a).dot(n)@ >= 0,
{
    let f = Onb::build_from_w(n);
    let d = f.local(a);
    let big = largest_component(n);
    let s: int = 16777216;
    lemma_frame(n);
    lemma_carried(f, a);
    assert(REACH == 0x4_0000_0000);
    lemma_rounded_dot(d, n);
    let res = (d.x.mul(n.x)@, d.y.mul(n.y)@, d.z.mul(n.z)@);
    lemma_height_wins(
        s,
        (n.x@, n.y@, n.z@),
        (f.u.x@, f.u.y@, f.u.z@),
        (f.v.x@, f.v.y@, f.v.z@),
        (f.w.x@, f.w.y@, f.w.z@),
        a.x@,
        a.y@,
        a.z@,
        (d.x@, d.y@, d.z@),
        res,
        big,
    );
}

/// The cosine density keeps to its hemisphere: around a sound normal, the
/// direction chosen for any valid sample has a dot product with the normal
/// that is not negative.
pub proof fn law_cosine_keeps_to_hemisphere(n: Vec3, sample: &Sample)
    requires
        is_sound_normal(n),
        sample.is_valid(),
    ensures
        (Pdf::Cosine { uvw: Onb::build_from_w(n) }).spec_generate(sample).dot(n)@ >= 0,
{
    lemma_cosine_direction(sample);
    lemma_high_enough(n, cosine_direction(sample.u1, sample.u2));
}

} // verus!
