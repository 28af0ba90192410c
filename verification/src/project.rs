//! From a position in the world to a texel of a shadow map.
//!
//! For a directional light the texel follows from where the position lies
//! between the planes of the projection box. For a point light it follows
//! from the direction out of the light: the face it falls on, and where it
//! pierces the square of that face.

use crate::cube::lemma_face_basis;
use crate::cube::lemma_select_face_covers;
use crate::cube::select_face;
use crate::cube::select_face_spec;
use crate::cube::view_rotate;
use crate::cube::CubeFace;
use crate::depth_map::MAX_RESOLUTION;
use crate::scalar::floor_sqrt;
use crate::scalar::isqrt;
use crate::scalar::lemma_mul_le;
use crate::scalar::ONE;
use crate::transform::OrthoTransform;
use crate::transform::OrthoView;
use crate::transform::AXIS_MAX;
use crate::vector::lemma_dot_bound;
use crate::vector::Vec3;
use crate::vector::COORD_MAX;
use crate::vector::V3;
use vstd::arithmetic::div_mod::lemma_div_by_multiple;
use vstd::arithmetic::div_mod::lemma_div_is_ordered;
use vstd::prelude::*;

verus! {

/// The largest magnitude of a component of a direction out of a point
/// light.
pub const LOOKUP_MAX: i64 = 0x2_0000_0000;

/// The largest magnitude of a component of the vector between two
/// positions of the world.
pub const SPAN_MAX: i64 = 0x8000_0000;

/// How far `v` lies from `lo` towards `hi`, in `steps` steps, rounded down.
/// An interval without length has its one point at 0.
pub open spec fn ratio(v: int, lo: int, hi: int, steps: int) -> int {
    if hi <= lo {
        0
    } else {
        ((v - lo) * steps) / (hi - lo)
    }
}

/// The cell of `count` equal cells between `lo` and `hi` in which `v` lies;
/// `hi` itself belongs to the last cell.
pub open spec fn cell(v: int, lo: int, hi: int, count: int) -> int {
    if ratio(v, lo, hi, count) >= count {
        count - 1
    } else {
        ratio(v, lo, hi, count)
    }
}

/// A position between the two ends has a ratio between 0 and the number of
/// steps, and a position further on has no smaller ratio.
pub proof fn lemma_ratio(v: int, lo: int, hi: int, steps: int)
    requires
        lo <= v <= hi,
        0 <= steps,
    ensures
        0 <= ratio(v, lo, hi, steps) <= steps,
        forall|u: int| v <= u <= hi ==> ratio(v, lo, hi, steps) <= #[trigger] ratio(u, lo, hi, steps),
{
    if lo < hi {
        let d = hi - lo;
        lemma_mul_le(v - lo, steps, d, steps);
        lemma_div_is_ordered(0, (v - lo) * steps, d);
        lemma_div_is_ordered((v - lo) * steps, d * steps, d);
        assert(d * steps == steps * d) by (nonlinear_arith);
        lemma_div_by_multiple(steps, d);
        assert forall|u: int| v <= u <= hi implies ratio(v, lo, hi, steps) <= #[trigger] ratio(
            u,
            lo,
            hi,
            steps,
        ) by {
            lemma_mul_le(v - lo, steps, u - lo, steps);
            lemma_div_is_ordered((v - lo) * steps, (u - lo) * steps, d);
        }
    }
}

/// How far `v` lies from `lo` towards `hi`, in `steps` steps.
pub fn ratio_of(v: i128, lo: i128, hi: i128, steps: u64) -> (r: u64)
    requires
        lo <= v <= hi,
        hi - lo <= 0x8_0000_0000_0000_0000,
        steps <= 0x1_0000_0000,
    ensures
        r == ratio(v as int, lo as int, hi as int, steps as int),
        r <= steps,
{
    proof {
        lemma_ratio(v as int, lo as int, hi as int, steps as int);
    }
    if hi <= lo {
        return 0;
    }
    proof {
        lemma_mul_le((v - lo) as int, steps as int, 0x8_0000_0000_0000_0000, 0x1_0000_0000);
    }
    let num: u128 = ((v - lo) as u128) * (steps as u128);
    let den: u128 = (hi - lo) as u128;
    (num / den) as u64
}

/// The cell of `count` equal cells between `lo` and `hi` in which `v` lies.
pub fn cell_of(v: i128, lo: i128, hi: i128, count: usize) -> (r: usize)
    requires
        lo <= v <= hi,
        hi - lo <= 0x8_0000_0000_0000_0000,
        1 <= count <= MAX_RESOLUTION,
    ensures
        r == cell(v as int, lo as int, hi as int, count as int),
        r < count,
{
    let q = ratio_of(v, lo, hi, count as u64);
    if q >= count as u64 {
        count - 1
    } else {
        q as usize
    }
}

/// A texel of a shadow map, with the depth that belongs in it.
#[derive(Clone, Copy, Debug, PartialEq, Eq, Structural)]
pub struct Texel {
    pub x: usize,
    pub y: usize,
    pub depth: u64,
}

/// The column of a map `width` texels wide on which `p` is projected.
pub open spec fn ortho_x(t: OrthoView, p: V3, width: int) -> int {
    cell(t.side.dot(p), t.left, t.right, width)
}

/// The row of a map `height` texels high on which `p` is projected.
pub open spec fn ortho_y(t: OrthoView, p: V3, height: int) -> int {
    cell(t.up.dot(p), t.bottom, t.top, height)
}

/// The depth of `p` between the near and the far plane, in fixed point.
pub open spec fn ortho_depth(t: OrthoView, p: V3) -> int {
    ratio(t.forward.dot(p), t.near, t.far, ONE as int)
}

/// Along the light, a position further from it has no smaller depth.
pub proof fn lemma_ortho_depth_monotone(t: OrthoView, p: V3, q: V3)
    requires
        t.contains(p),
        t.contains(q),
        t.forward.dot(p) <= t.forward.dot(q),
    ensures
        0 <= ortho_depth(t, p) <= ortho_depth(t, q) <= ONE,
{
    lemma_ratio(t.forward.dot(p), t.near, t.far, ONE as int);
    lemma_ratio(t.forward.dot(q), t.near, t.far, ONE as int);
}

/// Projects a position of the world on a shadow map of the given size. A
/// position outside the projection box has no texel.
pub fn ortho_texel(t: &OrthoTransform, p: &Vec3, width: usize, height: usize) -> (r: Option<Texel>)
    requires
        t@.wf(),
        p@.within(COORD_MAX as int),
        1 <= width <= MAX_RESOLUTION,
        1 <= height <= MAX_RESOLUTION,
    ensures
        r is Some <==> t@.contains(p@),
        r is Some ==> {
            &&& r->0.x == ortho_x(t@, p@, width as int)
            &&& r->0.y == ortho_y(t@, p@, height as int)
            &&& r->0.depth == ortho_depth(t@, p@)
            &&& r->0.x < width
            &&& r->0.y < height
            &&& r->0.depth <= ONE
        },
{
    proof {
        lemma_dot_bound(t.side@, p@, AXIS_MAX as int, COORD_MAX as int);
        lemma_dot_bound(t.up@, p@, AXIS_MAX as int, COORD_MAX as int);
        lemma_dot_bound(t.forward@, p@, AXIS_MAX as int, COORD_MAX as int);
    }
    let u = t.side.dot(p);
    let v = t.up.dot(p);
    let d = t.forward.dot(p);
    if u < t.left as i128 || u > t.right as i128 || v < t.bottom as i128 || v > t.top as i128 || d
        < t.near as i128 || d > t.far as i128 {
        return None;
    }
    let x = cell_of(u, t.left as i128, t.right as i128, width);
    let y = cell_of(v, t.bottom as i128, t.top as i128, height);
    let depth = ratio_of(d, t.near as i128, t.far as i128, ONE);
    Some(Texel { x, y, depth })
}

/// The column of a face `size` texels wide that the direction `v` pierces.
pub open spec fn cube_x(v: V3, size: int) -> int {
    let r = view_rotate(select_face_spec(v), v);
    cell(r.x, r.z, -r.z, size)
}

/// The row of a face `size` texels high that the direction `v` pierces.
pub open spec fn cube_y(v: V3, size: int) -> int {
    let r = view_rotate(select_face_spec(v), v);
    cell(r.y, r.z, -r.z, size)
}

/// The face and the texel of it that a direction out of the light pierces.
pub fn cube_texel(v: &Vec3, size: usize) -> (r: (CubeFace, usize, usize))
    requires
        !v@.is_zero(),
        v@.within(LOOKUP_MAX as int),
        1 <= size <= MAX_RESOLUTION,
    ensures
        r.0 == select_face_spec(v@),
        r.1 == cube_x(v@, size as int),
        r.2 == cube_y(v@, size as int),
        r.1 < size,
        r.2 < size,
{
    let face = select_face(v);
    proof {
        lemma_select_face_covers(v@);
        lemma_face_basis(face);
        lemma_dot_bound(face.side_spec(), v@, 1, LOOKUP_MAX as int);
        lemma_dot_bound(face.up_spec(), v@, 1, LOOKUP_MAX as int);
        lemma_dot_bound(face.direction_spec(), v@, 1, LOOKUP_MAX as int);
    }
    let sc = face.side().dot(v);
    let tc = face.up().dot(v);
    let ma = face.direction().dot(v);
    let x = cell_of(sc, -ma, ma, size);
    let y = cell_of(tc, -ma, ma, size);
    (face, x, y)
}

/// The distance that a vector spans, rounded down.
pub open spec fn distance_spec(v: V3) -> int {
    floor_sqrt(v.norm2())
}

/// No component of a vector is longer than the vector.
pub proof fn lemma_component_le_distance(v: V3)
    ensures
        v.within(distance_spec(v)),
        0 <= distance_spec(v),
{
    let n = v.norm2();
    assert(v.x * v.x >= 0 && v.y * v.y >= 0 && v.z * v.z >= 0) by (nonlinear_arith);
    crate::scalar::lemma_floor_sqrt(n);
    let r = distance_spec(v);
    lemma_square_bound(v.x, r);
    lemma_square_bound(v.y, r);
    lemma_square_bound(v.z, r);
}

proof fn lemma_square_bound(a: int, r: int)
    by (nonlinear_arith)
    requires
        0 <= r,
        a * a < (r + 1) * (r + 1),
    ensures
        -r <= a <= r,
{
}

/// The distance that a vector spans, rounded down.
pub fn distance(v: &Vec3) -> (r: u64)
    requires
        v@.within(SPAN_MAX as int),
    ensures
        r == distance_spec(v@),
        crate::scalar::is_floor_sqrt(v@.norm2(), r as int),
        r <= 2 * SPAN_MAX,
{
    proof {
        lemma_dot_bound(v@, v@, SPAN_MAX as int, SPAN_MAX as int);
        assert(v.x * v.x >= 0 && v.y * v.y >= 0 && v.z * v.z >= 0) by (nonlinear_arith);
    }
    let n = v.dot(v);
    let r = isqrt(n as u64);
    proof {
        assert(r <= 2 * SPAN_MAX) by (nonlinear_arith)
            requires
                r * r <= n,
                n <= 3 * (SPAN_MAX * SPAN_MAX),
                r >= 0,
        ;
    }
    r
}

/// The depth that a point light stores for a distance within its reach:
/// the distance as a part of the far plane, in fixed point.
pub open spec fn stored_depth(dist: int, far: int) -> int {
    (dist * ONE) / far
}

/// The distance that a stored depth stands for.
pub open spec fn restored_distance(depth: int, far: int) -> int {
    (depth * far) / (ONE as int)
}

/// Storing a distance and restoring it loses less than one step of depth:
/// the restored distance is not beyond the true one, and falls short of it
/// by less than the length of a step, rounded up.
pub proof fn lemma_restore(dist: int, far: int)
    requires
        0 <= dist <= far,
        0 < far,
    ensures
        0 <= stored_depth(dist, far) <= ONE,
        restored_distance(stored_depth(dist, far), far) <= dist,
        dist - restored_distance(stored_depth(dist, far), far) <= far / (ONE as int) + 1,
{
    let s = stored_depth(dist, far);
    let r = restored_distance(s, far);
    lemma_mul_le(dist, ONE as int, far, ONE as int);
    lemma_div_is_ordered(0, dist * ONE, far);
    lemma_div_is_ordered(dist * ONE, far * ONE, far);
    assert(far * ONE == ONE * far) by (nonlinear_arith);
    lemma_div_by_multiple(ONE as int, far);
    vstd::arithmetic::div_mod::lemma_fundamental_div_mod(dist * ONE, far);
    vstd::arithmetic::div_mod::lemma_fundamental_div_mod(s * far, ONE as int);
    vstd::arithmetic::div_mod::lemma_fundamental_div_mod(far, ONE as int);
    let m1 = (dist * ONE) % far;
    let m2 = (s * far) % (ONE as int);
    let q = far / (ONE as int);
    assert(dist * ONE == far * s + m1);
    assert(s * far == ONE * r + m2);
    assert(far * s == s * far) by (nonlinear_arith);
    assert(ONE * (dist - r) == m1 + m2);
    assert(0 <= m1 < far && 0 <= m2 < ONE);
    assert(dist - r >= 0 && dist - r <= q + 1) by (nonlinear_arith)
        requires
            ONE * (dist - r) == m1 + m2,
            0 <= m1 < far,
            0 <= m2 < ONE,
            far == ONE * q + far % (ONE as int),
            0 <= far % (ONE as int) < ONE,
    ;
}

/// The depth that a point light stores for a distance within its reach.
pub fn store_distance(dist: u64, far: i64) -> (r: u64)
    requires
        0 < far <= COORD_MAX,
        dist <= far,
    ensures
        r == stored_depth(dist as int, far as int),
        r <= ONE,
{
    proof {
        lemma_restore(dist as int, far as int);
        lemma_mul_le(dist as int, ONE as int, COORD_MAX as int, ONE as int);
    }
    (dist * ONE) / (far as u64)
}

/// The distance that a stored depth stands for.
pub fn restore_distance(depth: u64, far: i64) -> (r: u64)
    requires
        0 < far <= COORD_MAX,
        depth <= ONE,
    ensures
        r == restored_distance(depth as int, far as int),
        r <= far,
{
    proof {
        lemma_mul_le(depth as int, far as int, ONE as int, COORD_MAX as int);
        lemma_mul_le(depth as int, far as int, ONE as int, far as int);
        lemma_div_is_ordered(depth * far, ONE * far, ONE as int);
        assert(ONE * far == far * ONE) by (nonlinear_arith);
        lemma_div_by_multiple(far as int, ONE as int);
    }
    (depth * (far as u64)) / ONE
}

} // verus!
