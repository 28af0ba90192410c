//! How far the sphere around a part of the frustum can change when the
//! camera turns. A camera that moves by a vector of the lattice keeps the
//! sphere as it is; a camera that turns has its corners rounded to the
//! lattice anew, and the reach of the sphere can change by what the
//! rounding allows, and no more.

use crate::frustum::reach_spec;
use crate::project::distance_spec;
use crate::scalar::lemma_floor_sqrt;
use crate::scalar::lemma_mul_le;
use crate::vector::Vec3;
use crate::vector::V3;
use vstd::prelude::*;

verus! {

proof fn lemma_square_product(a: int, b: int)
    by (nonlinear_arith)
    ensures
        (a * a) * (b * b) == (a * b) * (a * b),
{
}

proof fn lemma_cross_product(a: int, b: int, c: int, d: int)
    by (nonlinear_arith)
    ensures
        (a * b) * (c * d) == (a * d) * (c * b),
{
}

proof fn lemma_two_squares(p: int, q: int)
    by (nonlinear_arith)
    ensures
        p * p + q * q >= 2 * (p * q),
{
}

proof fn lemma_nine_terms(a: int, b: int, c: int, p: int, q: int, r: int)
    by (nonlinear_arith)
    ensures
        (a + b + c) * (p + q + r) == a * p + a * q + a * r + b * p + b * q + b * r + c * p + c * q
            + c * r,
{
}

proof fn lemma_square_of_sum(x: int, y: int, z: int)
    by (nonlinear_arith)
    ensures
        (x + y + z) * (x + y + z) == x * x + y * y + z * z + 2 * (x * y) + 2 * (x * z) + 2 * (y
            * z),
{
}

proof fn lemma_binomial(a: int, b: int)
    by (nonlinear_arith)
    ensures
        (a + b) * (a + b) == a * a + 2 * (a * b) + b * b,
{
}

proof fn lemma_square_le(x: int, y: int)
    by (nonlinear_arith)
    requires
        0 <= y,
        x * x <= y * y,
    ensures
        x <= y,
{
}

proof fn lemma_square_lt(x: int, y: int)
    by (nonlinear_arith)
    requires
        0 <= y,
        x * x < y * y,
    ensures
        x < y,
{
}

proof fn lemma_square_within(x: int, e: int)
    by (nonlinear_arith)
    requires
        -e <= x <= e,
    ensures
        0 <= x * x <= e * e,
{
}

/// The square of the dot product of two vectors is at most the product
/// of their squared lengths.
pub proof fn lemma_cauchy_schwarz(v: V3, d: V3)
    ensures
        v.dot(d) * v.dot(d) <= v.norm2() * d.norm2(),
{
    let xx = v.x * d.x;
    let yy = v.y * d.y;
    let zz = v.z * d.z;
    let xy = v.x * d.y;
    let yx = v.y * d.x;
    let xz = v.x * d.z;
    let zx = v.z * d.x;
    let yz = v.y * d.z;
    let zy = v.z * d.y;
    lemma_nine_terms(v.x * v.x, v.y * v.y, v.z * v.z, d.x * d.x, d.y * d.y, d.z * d.z);
    lemma_square_product(v.x, d.x);
    lemma_square_product(v.x, d.y);
    lemma_square_product(v.x, d.z);
    lemma_square_product(v.y, d.x);
    lemma_square_product(v.y, d.y);
    lemma_square_product(v.y, d.z);
    lemma_square_product(v.z, d.x);
    lemma_square_product(v.z, d.y);
    lemma_square_product(v.z, d.z);
    lemma_square_of_sum(xx, yy, zz);
    lemma_cross_product(v.x, d.x, v.y, d.y);
    lemma_cross_product(v.x, d.x, v.z, d.z);
    lemma_cross_product(v.y, d.y, v.z, d.z);
    lemma_two_squares(xy, yx);
    lemma_two_squares(xz, zx);
    lemma_two_squares(yz, zy);
    assert(v.norm2() * d.norm2() == xx * xx + xy * xy + xz * xz + yx * yx + yy * yy + yz * yz + zx
        * zx + zy * zy + zz * zz);
    assert(xx * yy == xy * yx && xx * zz == xz * zx && yy * zz == yz * zy);
}

/// The lengths of two vectors that differ by at most `e` along each axis
/// differ by at most `2 * e`.
pub proof fn lemma_distance_near(v: V3, w: V3, e: int)
    requires
        0 <= e,
        w.minus(v).within(e),
    ensures
        distance_spec(w) <= distance_spec(v) + 2 * e,
        distance_spec(v) <= distance_spec(w) + 2 * e,
{
    lemma_longer_by(v, w, e);
    assert(v.minus(w).within(e));
    lemma_longer_by(w, v, e);
}

proof fn lemma_longer_by(v: V3, w: V3, e: int)
    requires
        0 <= e,
        w.minus(v).within(e),
    ensures
        distance_spec(w) <= distance_spec(v) + 2 * e,
{
    let d = w.minus(v);
    let a = distance_spec(v);
    let b = distance_spec(w);
    lemma_square_within(v.x, if v.x >= 0 { v.x } else { -v.x });
    lemma_square_within(v.y, if v.y >= 0 { v.y } else { -v.y });
    lemma_square_within(v.z, if v.z >= 0 { v.z } else { -v.z });
    lemma_square_within(w.x, if w.x >= 0 { w.x } else { -w.x });
    lemma_square_within(w.y, if w.y >= 0 { w.y } else { -w.y });
    lemma_square_within(w.z, if w.z >= 0 { w.z } else { -w.z });
    lemma_floor_sqrt(v.norm2());
    lemma_floor_sqrt(w.norm2());
    let big = a + 1;
    let step = 2 * e;
    // The squared length of the difference is at most the square of 2e.
    lemma_square_within(d.x, e);
    lemma_square_within(d.y, e);
    lemma_square_within(d.z, e);
    assert(step * step == 4 * (e * e)) by (nonlinear_arith)
        requires
            step == 2 * e,
    ;
    assert(e * e >= 0) by (nonlinear_arith);
    assert(d.norm2() <= step * step);
    // The dot product is at most the product of the two bounds.
    lemma_cauchy_schwarz(v, d);
    lemma_mul_le(v.norm2(), d.norm2(), big * big, step * step);
    lemma_square_product(big, step);
    let dot = v.dot(d);
    lemma_square_le(dot, big * step);
    // The squared length of the sum.
    lemma_binomial(v.x, d.x);
    lemma_binomial(v.y, d.y);
    lemma_binomial(v.z, d.z);
    assert(w.x == v.x + d.x && w.y == v.y + d.y && w.z == v.z + d.z);
    assert(w.norm2() == v.norm2() + 2 * dot + d.norm2());
    lemma_binomial(big, step);
    assert(w.norm2() < (big + step) * (big + step));
    assert(b * b < (big + step) * (big + step));
    lemma_square_lt(b, big + step);
}

/// The reach of a sphere changes by at most `2 * e` where each of the
/// offsets of the corners from the middle of the sphere is replaced by a
/// vector that lies within `e` of one of the same length. So it is after
/// a turn of the camera: `turned` holds the offsets as the turn leaves
/// them, with their lengths kept, and the corners of the turned frustum
/// are those rounded to the lattice.
pub proof fn lemma_reach_turned(
    s: Seq<Vec3>,
    c: V3,
    t: Seq<Vec3>,
    k: V3,
    turned: Seq<V3>,
    e: int,
    n: nat,
)
    requires
        0 <= e,
        n <= s.len(),
        n <= t.len(),
        n <= turned.len(),
        forall|i: int|
            0 <= i < n ==> (#[trigger] turned[i]).norm2() == s[i]@.minus(c).norm2()
                && t[i]@.minus(k).minus(turned[i]).within(e),
    ensures
        reach_spec(t, k, n) <= reach_spec(s, c, n) + 2 * e,
        reach_spec(s, c, n) <= reach_spec(t, k, n) + 2 * e,
    decreases n,
{
    if n > 0 {
        lemma_reach_turned(s, c, t, k, turned, e, (n - 1) as nat);
        let i = n - 1;
        assert(turned[i].norm2() == s[i]@.minus(c).norm2());
        assert(distance_spec(turned[i]) == distance_spec(s[i]@.minus(c)));
        lemma_distance_near(turned[i], t[i]@.minus(k), e);
    }
}

} // verus!
