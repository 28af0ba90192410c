//! Light-space transforms. A directional light gets an orthographic box
//! around the scene, given by three axes and the box's extent along each; a
//! point light gets six square views, one through each face of a cube,
//! which the module `cube` describes.
//!
//! The axes are not normalised: a coordinate along an axis is the dot
//! product with it, and positions inside the box are ratios of such
//! coordinates, in which the length of the axis cancels.

use crate::bounds::Aabb;
use crate::bounds::Box3;
use crate::cube::point_transform;
use crate::cube::CubeTransform;
use crate::cube::CUBE_FOV_DEGREES;
use crate::error::ShadowError;
use crate::light::Light;
use crate::light::NEAR_EPSILON;
use crate::scalar::ONE;
use crate::vector::lemma_cross_bound;
use crate::vector::lemma_cross_orthogonal;
use crate::vector::lemma_dot_bound;
use crate::vector::lemma_mul_abs_le;
use crate::vector::Vec3;
use crate::vector::COORD_MAX;
use crate::vector::DIR_MAX;
use crate::vector::V3;
use vstd::arithmetic::div_mod::lemma_fundamental_div_mod;
use vstd::arithmetic::div_mod::lemma_hoist_over_denominator;
use vstd::prelude::*;

verus! {

/// The largest magnitude of a component of an axis of a light's view.
pub const AXIS_MAX: i64 = 0x8000_0000;

/// The largest magnitude of a coordinate of the scene along an axis of a
/// light's view.
pub const EXTENT_MAX: i64 = 0x3000_0000_0000_0000;

/// The up vector for a view along `d`: the world's up, or, where `d` is
/// parallel to it, the world's forward.
pub open spec fn up_hint(d: V3) -> V3 {
    if d.x == 0 && d.z == 0 {
        V3 { x: 0, y: 0, z: 1 }
    } else {
        V3 { x: 0, y: 1, z: 0 }
    }
}

/// The axis that points to the right in a view along `d`.
pub open spec fn side_axis(d: V3) -> V3 {
    d.cross(up_hint(d))
}

/// The axis that points up in a view along `d`.
pub open spec fn up_axis(d: V3) -> V3 {
    side_axis(d).cross(d)
}

/// The smallest value of `a * p` for `p` between `lo` and `hi`.
pub open spec fn span_lo(a: int, lo: int, hi: int) -> int {
    if a >= 0 {
        a * lo
    } else {
        a * hi
    }
}

/// The largest value of `a * p` for `p` between `lo` and `hi`.
pub open spec fn span_hi(a: int, lo: int, hi: int) -> int {
    if a >= 0 {
        a * hi
    } else {
        a * lo
    }
}

/// The smallest coordinate along `axis` of a point of the box `b`.
pub open spec fn axis_lo(axis: V3, b: Box3) -> int {
    span_lo(axis.x, b.min.x, b.max.x) + span_lo(axis.y, b.min.y, b.max.y) + span_lo(
        axis.z,
        b.min.z,
        b.max.z,
    )
}

/// The largest coordinate along `axis` of a point of the box `b`.
pub open spec fn axis_hi(axis: V3, b: Box3) -> int {
    span_hi(axis.x, b.min.x, b.max.x) + span_hi(axis.y, b.min.y, b.max.y) + span_hi(
        axis.z,
        b.min.z,
        b.max.z,
    )
}

/// The corner of a box at which the coordinate along `axis` is smallest.
pub open spec fn lo_corner(axis: V3) -> int {
    (if axis.x >= 0 { 0int } else { 1int }) + (if axis.y >= 0 { 0int } else { 2int }) + (if axis.z
        >= 0 { 0int } else { 4int })
}

/// The corner of a box at which the coordinate along `axis` is largest.
pub open spec fn hi_corner(axis: V3) -> int {
    (if axis.x >= 0 { 1int } else { 0int }) + (if axis.y >= 0 { 2int } else { 0int }) + (if axis.z
        >= 0 { 4int } else { 0int })
}

/// An orthographic light-space transform over mathematical integers.
pub struct OrthoView {
    pub side: V3,
    pub up: V3,
    pub forward: V3,
    pub left: int,
    pub right: int,
    pub bottom: int,
    pub top: int,
    pub near: int,
    pub far: int,
}

impl OrthoView {
    /// Whether `p` lies in the projection box.
    pub open spec fn contains(self, p: V3) -> bool {
        &&& self.left <= self.side.dot(p) <= self.right
        &&& self.bottom <= self.up.dot(p) <= self.top
        &&& self.near <= self.forward.dot(p) <= self.far
    }

    /// The axes are in range and the box is not inverted. The forward axis,
    /// being the direction of a light, has the range of one.
    pub open spec fn wf(self) -> bool {
        &&& self.side.within(AXIS_MAX as int)
        &&& self.up.within(AXIS_MAX as int)
        &&& self.forward.within(DIR_MAX as int)
        &&& self.left <= self.right
        &&& self.bottom <= self.top
        &&& self.near <= self.far
    }

    /// The box reaches no further than a scene in the world can.
    pub open spec fn bounded(self) -> bool {
        &&& -EXTENT_MAX <= self.left <= self.right <= EXTENT_MAX
        &&& -EXTENT_MAX <= self.bottom <= self.top <= EXTENT_MAX
        &&& -EXTENT_MAX <= self.near <= self.far <= EXTENT_MAX
    }
}

/// The orthographic light-space transform of a directional light: the axes
/// of a view along the light, and along each axis the extent of the scene.
#[derive(Clone, Copy, Debug, PartialEq, Eq, Structural)]
pub struct OrthoTransform {
    /// The axis to the right of the view.
    pub side: Vec3,
    /// The axis to the top of the view.
    pub up: Vec3,
    /// The axis into the view: the direction of the light.
    pub forward: Vec3,
    pub left: i64,
    pub right: i64,
    pub bottom: i64,
    pub top: i64,
    pub near: i64,
    pub far: i64,
}

impl View for OrthoTransform {
    type V = OrthoView;

    open spec fn view(&self) -> OrthoView {
        OrthoView {
            side: self.side@,
            up: self.up@,
            forward: self.forward@,
            left: self.left as int,
            right: self.right as int,
            bottom: self.bottom as int,
            top: self.top as int,
            near: self.near as int,
            far: self.far as int,
        }
    }
}

/// Whether a light may shine along `d`.
pub open spec fn direction_valid(d: V3) -> bool {
    !d.is_zero() && d.within(DIR_MAX as int)
}

/// The transform of a light along `d` for a scene within `b`.
pub open spec fn directional_spec(d: V3, b: Box3) -> OrthoView {
    OrthoView {
        side: side_axis(d),
        up: up_axis(d),
        forward: d,
        left: axis_lo(side_axis(d), b),
        right: axis_hi(side_axis(d), b),
        bottom: axis_lo(up_axis(d), b),
        top: axis_hi(up_axis(d), b),
        near: axis_lo(d, b),
        far: axis_hi(d, b),
    }
}

/// Along any axis, a point of a box lies between the box's two extremes.
pub proof fn lemma_axis_bounds(axis: V3, b: Box3, p: V3)
    requires
        b.contains(p),
    ensures
        axis_lo(axis, b) <= axis.dot(p) <= axis_hi(axis, b),
{
    lemma_span(axis.x, b.min.x, b.max.x, p.x);
    lemma_span(axis.y, b.min.y, b.max.y, p.y);
    lemma_span(axis.z, b.min.z, b.max.z, p.z);
}

proof fn lemma_span(a: int, lo: int, hi: int, p: int)
    by (nonlinear_arith)
    requires
        lo <= p <= hi,
    ensures
        span_lo(a, lo, hi) <= a * p <= span_hi(a, lo, hi),
{
}

/// Along any axis, the two extremes of a box are reached at corners of it.
pub proof fn lemma_axis_tight(axis: V3, b: Box3)
    ensures
        axis.dot(b.corner(lo_corner(axis))) == axis_lo(axis, b),
        axis.dot(b.corner(hi_corner(axis))) == axis_hi(axis, b),
        0 <= lo_corner(axis) < 8,
        0 <= hi_corner(axis) < 8,
{
}

/// Along any axis, the extremes of a box that is moved by `d` move by the
/// coordinate of `d` along the axis: the box keeps its extent.
pub proof fn lemma_axis_moved(axis: V3, b: Box3, d: V3)
    ensures
        axis_lo(axis, crate::bounds::moved_box(b, d)) == axis_lo(axis, b) + axis.dot(d),
        axis_hi(axis, crate::bounds::moved_box(b, d)) == axis_hi(axis, b) + axis.dot(d),
{
    lemma_span_moved(axis.x, b.min.x, b.max.x, d.x);
    lemma_span_moved(axis.y, b.min.y, b.max.y, d.y);
    lemma_span_moved(axis.z, b.min.z, b.max.z, d.z);
}

proof fn lemma_span_moved(a: int, lo: int, hi: int, d: int)
    by (nonlinear_arith)
    ensures
        span_lo(a, lo + d, hi + d) == span_lo(a, lo, hi) + a * d,
        span_hi(a, lo + d, hi + d) == span_hi(a, lo, hi) + a * d,
{
}

/// The extremes of a box in the world along a bounded axis are bounded.
pub proof fn lemma_axis_range(axis: V3, b: Box3, m: int)
    requires
        b.wf(),
        0 <= m,
        axis.within(m),
    ensures
        -(3 * (m * COORD_MAX)) <= axis_lo(axis, b) <= axis_hi(axis, b) <= 3 * (m * COORD_MAX),
{
    lemma_mul_abs_le(axis.x, b.min.x, m, COORD_MAX as int);
    lemma_mul_abs_le(axis.x, b.max.x, m, COORD_MAX as int);
    lemma_mul_abs_le(axis.y, b.min.y, m, COORD_MAX as int);
    lemma_mul_abs_le(axis.y, b.max.y, m, COORD_MAX as int);
    lemma_mul_abs_le(axis.z, b.min.z, m, COORD_MAX as int);
    lemma_mul_abs_le(axis.z, b.max.z, m, COORD_MAX as int);
    lemma_axis_bounds(axis, b, b.min);
}

/// The axes of a view along a valid direction: none of them vanishes, they
/// are orthogonal to each other, and their components are in range.
pub proof fn lemma_view_axes(d: V3)
    requires
        direction_valid(d),
    ensures
        !side_axis(d).is_zero(),
        !up_axis(d).is_zero(),
        side_axis(d).dot(d) == 0,
        up_axis(d).dot(d) == 0,
        up_axis(d).dot(side_axis(d)) == 0,
        side_axis(d).within(DIR_MAX as int),
        up_axis(d).within(AXIS_MAX as int),
{
    let s = side_axis(d);
    let u = up_axis(d);
    lemma_cross_orthogonal(d, up_hint(d));
    lemma_cross_orthogonal(s, d);
    lemma_side_axis(d);
    lemma_cross_bound(s, d, DIR_MAX as int, DIR_MAX as int);
    if d.x == 0 && d.z == 0 {
        assert(u.z == d.y * d.y) by (nonlinear_arith)
            requires
                u.z == s.x * d.y - s.y * d.x,
                s.x == d.y,
                s.y == 0,
        ;
        assert(d.y * d.y != 0) by (nonlinear_arith)
            requires
                d.y != 0,
        ;
    } else {
        assert(u.y == d.z * d.z + d.x * d.x) by (nonlinear_arith)
            requires
                u.y == s.z * d.x - s.x * d.z,
                s.x == -d.z,
                s.z == d.x,
        ;
        assert(d.z * d.z + d.x * d.x != 0) by (nonlinear_arith)
            requires
                d.x != 0 || d.z != 0,
        ;
    }
}

/// The side axis, written out: it lies in the ground plane, or, for a light
/// straight up or down, along the world's x axis.
pub proof fn lemma_side_axis(d: V3)
    ensures
        d.x == 0 && d.z == 0 ==> side_axis(d) == (V3 { x: d.y, y: 0, z: 0 }),
        !(d.x == 0 && d.z == 0) ==> side_axis(d) == (V3 { x: -d.z, y: 0, z: d.x }),
{
    let h = up_hint(d);
    let s = d.cross(h);
    if d.x == 0 && d.z == 0 {
        assert(h.x == 0 && h.y == 0 && h.z == 1);
        assert(d.y * h.z - d.z * h.y == d.y) by (nonlinear_arith)
            requires
                h.y == 0,
                h.z == 1,
        ;
        assert(d.z * h.x - d.x * h.z == 0) by (nonlinear_arith)
            requires
                h.x == 0,
                d.x == 0,
        ;
        assert(d.x * h.y - d.y * h.x == 0) by (nonlinear_arith)
            requires
                h.x == 0,
                h.y == 0,
        ;
    } else {
        assert(h.x == 0 && h.y == 1 && h.z == 0);
        assert(d.y * h.z - d.z * h.y == -d.z) by (nonlinear_arith)
            requires
                h.y == 1,
                h.z == 0,
        ;
        assert(d.z * h.x - d.x * h.z == 0) by (nonlinear_arith)
            requires
                h.x == 0,
                h.z == 0,
        ;
        assert(d.x * h.y - d.y * h.x == d.x) by (nonlinear_arith)
            requires
                h.x == 0,
                h.y == 1,
        ;
    }
}

/// The projection box of a directional light holds the whole scene: every
/// point within the scene's bounds, and so each corner of them, lies in it.
pub proof fn lemma_directional_contains(d: V3, b: Box3, p: V3)
    requires
        b.contains(p),
    ensures
        directional_spec(d, b).contains(p),
{
    lemma_axis_bounds(side_axis(d), b, p);
    lemma_axis_bounds(up_axis(d), b, p);
    lemma_axis_bounds(d, b, p);
}

/// The projection box of a directional light is no larger than the scene
/// asks for: each of its six planes passes through a corner of the bounds.
pub proof fn lemma_directional_tight(d: V3, b: Box3)
    ensures
        ({
            let t = directional_spec(d, b);
            &&& t.side.dot(b.corner(lo_corner(t.side))) == t.left
            &&& t.side.dot(b.corner(hi_corner(t.side))) == t.right
            &&& t.up.dot(b.corner(lo_corner(t.up))) == t.bottom
            &&& t.up.dot(b.corner(hi_corner(t.up))) == t.top
            &&& t.forward.dot(b.corner(lo_corner(t.forward))) == t.near
            &&& t.forward.dot(b.corner(hi_corner(t.forward))) == t.far
        }),
{
    lemma_axis_tight(side_axis(d), b);
    lemma_axis_tight(up_axis(d), b);
    lemma_axis_tight(d, b);
}

/// The transform of a directional light is well formed.
pub proof fn lemma_directional_wf(d: V3, b: Box3)
    requires
        direction_valid(d),
        b.wf(),
    ensures
        directional_spec(d, b).wf(),
        directional_spec(d, b).bounded(),
{
    lemma_view_axes(d);
    lemma_axis_range(side_axis(d), b, AXIS_MAX as int);
    lemma_axis_range(up_axis(d), b, AXIS_MAX as int);
    lemma_axis_range(d, b, AXIS_MAX as int);
}

/// Two transforms that stand for the same mathematical transform are equal.
pub proof fn lemma_ortho_view_injective(a: OrthoTransform, b: OrthoTransform)
    requires
        a@ == b@,
    ensures
        a == b,
{
    assert(a.side@ == b.side@);
    assert(a.up@ == b.up@);
    assert(a.forward@ == b.forward@);
}

fn span(a: i64, lo: i64, hi: i64) -> (r: (i64, i64))
    requires
        -AXIS_MAX <= a <= AXIS_MAX,
        -COORD_MAX <= lo <= hi <= COORD_MAX,
    ensures
        r.0 == span_lo(a as int, lo as int, hi as int),
        r.1 == span_hi(a as int, lo as int, hi as int),
        -(AXIS_MAX * COORD_MAX) <= r.0 <= r.1 <= AXIS_MAX * COORD_MAX,
{
    proof {
        lemma_mul_abs_le(a as int, lo as int, AXIS_MAX as int, COORD_MAX as int);
        lemma_mul_abs_le(a as int, hi as int, AXIS_MAX as int, COORD_MAX as int);
        lemma_span(a as int, lo as int, hi as int, lo as int);
    }
    if a >= 0 {
        (a * lo, a * hi)
    } else {
        (a * hi, a * lo)
    }
}

/// The extremes of the box `b` along `axis`.
pub fn axis_extent(axis: &Vec3, b: &Aabb) -> (r: (i64, i64))
    requires
        axis@.within(AXIS_MAX as int),
        b@.wf(),
    ensures
        r.0 == axis_lo(axis@, b@),
        r.1 == axis_hi(axis@, b@),
        -EXTENT_MAX <= r.0 <= r.1 <= EXTENT_MAX,
{
    let x = span(axis.x, b.min.x, b.max.x);
    let y = span(axis.y, b.min.y, b.max.y);
    let z = span(axis.z, b.min.z, b.max.z);
    (x.0 + y.0 + z.0, x.1 + y.1 + z.1)
}

/// The up vector for a view along `d`.
pub fn choose_up(d: &Vec3) -> (r: Vec3)
    ensures
        r@ == up_hint(d@),
{
    if d.x == 0 && d.z == 0 {
        Vec3 { x: 0, y: 0, z: 1 }
    } else {
        Vec3 { x: 0, y: 1, z: 0 }
    }
}

/// Builds the light-space transform of a directional light that shines
/// along `direction` on a scene within `bounds`. The direction is rejected
/// where it is the zero vector or out of range.
pub fn directional_transform(direction: &Vec3, bounds: &Aabb) -> (r: Result<
    OrthoTransform,
    ShadowError,
>)
    requires
        bounds@.wf(),
    ensures
        r is Ok <==> direction_valid(direction@),
        r is Err ==> r->Err_0 == ShadowError::InvalidLightState,
        r is Ok ==> {
            &&& r->Ok_0@ == directional_spec(direction@, bounds@)
            &&& r->Ok_0@.wf()
            &&& r->Ok_0@.bounded()
            &&& forall|p: V3| bounds@.contains(p) ==> #[trigger] r->Ok_0@.contains(p)
        },
{
    if direction.is_zero() || !direction.within(DIR_MAX) {
        return Err(ShadowError::InvalidLightState);
    }
    let hint = choose_up(direction);
    proof {
        lemma_view_axes(direction@);
        lemma_directional_wf(direction@, bounds@);
    }
    let side = direction.cross(&hint);
    let up = side.cross(direction);
    let (left, right) = axis_extent(&side, bounds);
    let (bottom, top) = axis_extent(&up, bounds);
    let (near, far) = axis_extent(direction, bounds);
    let t = OrthoTransform { side, up, forward: *direction, left, right, bottom, top, near, far };
    proof {
        assert forall|p: V3| bounds@.contains(p) implies #[trigger] t@.contains(p) by {
            lemma_directional_contains(direction@, bounds@, p);
        }
    }
    Ok(t)
}

/// From where a view looks, at what, and which way is up in it.
#[derive(Clone, Copy, Debug, PartialEq, Eq, Structural)]
pub struct ViewFrame {
    pub eye: Vec3,
    pub target: Vec3,
    pub up: Vec3,
}

/// The middle of a box, rounded down.
pub open spec fn center_spec(b: Box3) -> V3 {
    V3 {
        x: (b.min.x + b.max.x) / 2,
        y: (b.min.y + b.max.y) / 2,
        z: (b.min.z + b.max.z) / 2,
    }
}

/// The quotient of `a` by `d`, rounded up.
pub open spec fn ceil_div(a: int, d: int) -> int {
    (a + d - 1) / d
}

/// How many steps of `d` the eye of a light along `d` stands back from the
/// middle of the scene: as few as bring it to the near plane or before.
pub open spec fn retreat_spec(d: V3, b: Box3) -> int {
    ceil_div(d.dot(center_spec(b)) - axis_lo(d, b), d.norm2())
}

/// The point from which a light along `d` looks at a scene within `b`.
pub open spec fn eye_spec(d: V3, b: Box3) -> V3 {
    center_spec(b).minus(d.scaled(retreat_spec(d, b)))
}

/// The middle of a box that is moved by `d` is the middle of the box,
/// moved by `d`.
pub proof fn lemma_center_moved(b: Box3, d: V3)
    ensures
        center_spec(crate::bounds::moved_box(b, d)) == center_spec(b).plus(d),
{
    lemma_hoist_over_denominator(b.min.x + b.max.x, d.x, 2);
    lemma_hoist_over_denominator(b.min.y + b.max.y, d.y, 2);
    lemma_hoist_over_denominator(b.min.z + b.max.z, d.z, 2);
}

/// The middle of a box lies in the box.
pub proof fn lemma_center(b: Box3)
    requires
        b.wf(),
    ensures
        b.contains(center_spec(b)),
        center_spec(b).within(COORD_MAX as int),
{
}

/// The dot product with a point moved back along the direction itself.
pub proof fn lemma_dot_retreat(d: V3, c: V3, k: int)
    ensures
        d.dot(c.minus(d.scaled(k))) == d.dot(c) - k * d.norm2(),
{
    lemma_dot_term(d.x, c.x, k);
    lemma_dot_term(d.y, c.y, k);
    lemma_dot_term(d.z, c.z, k);
    assert(k * (d.x * d.x + d.y * d.y + d.z * d.z) == k * (d.x * d.x) + k * (d.y * d.y) + k * (d.z
        * d.z)) by (nonlinear_arith);
}

proof fn lemma_dot_term(d: int, c: int, k: int)
    by (nonlinear_arith)
    ensures
        d * (c - d * k) == d * c - k * (d * d),
{
}

/// The eye of a directional light stands on the line through the middle
/// of the scene along the light, before the whole scene, and no further
/// back than one step of the direction requires.
pub proof fn lemma_eye_behind(d: V3, b: Box3)
    requires
        direction_valid(d),
        b.wf(),
    ensures
        0 <= retreat_spec(d, b),
        d.dot(eye_spec(d, b)) <= axis_lo(d, b),
        axis_lo(d, b) - d.norm2() < d.dot(eye_spec(d, b)),
        forall|p: V3| b.contains(p) ==> d.dot(eye_spec(d, b)) <= #[trigger] d.dot(p),
{
    let c = center_spec(b);
    let n = d.dot(c) - axis_lo(d, b);
    let den = d.norm2();
    let k = retreat_spec(d, b);
    lemma_center(b);
    lemma_axis_bounds(d, b, c);
    lemma_norm2_positive(d);
    lemma_fundamental_div_mod(n + den - 1, den);
    let m = (n + den - 1) % den;
    assert(den * k == k * den) by (nonlinear_arith);
    assert(n + den - 1 == k * den + m);
    assert(k >= 0) by (nonlinear_arith)
        requires
            n + den - 1 == k * den + m,
            0 <= m < den,
            n >= 0,
            den >= 1,
    ;
    lemma_dot_retreat(d, c, k);
    assert forall|p: V3| b.contains(p) implies d.dot(eye_spec(d, b)) <= #[trigger] d.dot(p) by {
        lemma_axis_bounds(d, b, p);
    }
}

/// A vector other than zero has a squared length of 1 or more.
pub proof fn lemma_norm2_positive(d: V3)
    requires
        !d.is_zero(),
    ensures
        d.norm2() >= 1,
{
    assert(d.x * d.x >= 0 && d.y * d.y >= 0 && d.z * d.z >= 0) by (nonlinear_arith);
    assert(d.x != 0 ==> d.x * d.x >= 1) by (nonlinear_arith);
    assert(d.y != 0 ==> d.y * d.y >= 1) by (nonlinear_arith);
    assert(d.z != 0 ==> d.z * d.z >= 1) by (nonlinear_arith);
}

fn midpoint(lo: i64, hi: i64) -> (r: i64)
    requires
        -COORD_MAX <= lo <= hi <= COORD_MAX,
    ensures
        r == (lo + hi) / 2,
        lo <= r <= hi,
{
    proof {
        lemma_hoist_over_denominator((lo + hi) as int, COORD_MAX as int, 2);
    }
    (lo + hi + 2 * COORD_MAX) / 2 - COORD_MAX
}

/// The middle of a box, rounded down.
pub fn center(b: &Aabb) -> (r: Vec3)
    requires
        b@.wf(),
    ensures
        r@ == center_spec(b@),
        b@.contains(r@),
{
    Vec3 {
        x: midpoint(b.min.x, b.max.x),
        y: midpoint(b.min.y, b.max.y),
        z: midpoint(b.min.z, b.max.z),
    }
}

/// Finds the view of a directional light that shines along `direction` on
/// a scene within `bounds`: it looks at the middle of the scene from a
/// point moved back against the light until the whole scene lies before
/// it. The direction is rejected where it is the zero vector or out of
/// range.
pub fn directional_view(direction: &Vec3, bounds: &Aabb) -> (r: Result<ViewFrame, ShadowError>)
    requires
        bounds@.wf(),
    ensures
        r is Ok <==> direction_valid(direction@),
        r is Err ==> r->Err_0 == ShadowError::InvalidLightState,
        r is Ok ==> {
            &&& r->Ok_0.eye@ == eye_spec(direction@, bounds@)
            &&& r->Ok_0.target@ == center_spec(bounds@)
            &&& r->Ok_0.up@ == up_hint(direction@)
            &&& forall|p: V3|
                bounds@.contains(p) ==> direction@.dot(r->Ok_0.eye@) <= #[trigger] direction@.dot(p)
        },
{
    if direction.is_zero() || !direction.within(DIR_MAX) {
        return Err(ShadowError::InvalidLightState);
    }
    let target = center(bounds);
    let (lo, _hi) = axis_extent(direction, bounds);
    proof {
        lemma_eye_behind(direction@, bounds@);
        lemma_norm2_positive(direction@);
        lemma_axis_bounds(direction@, bounds@, target@);
        lemma_dot_bound(direction@, target@, DIR_MAX as int, COORD_MAX as int);
        lemma_dot_bound(direction@, direction@, DIR_MAX as int, DIR_MAX as int);
        lemma_axis_range(direction@, bounds@, DIR_MAX as int);
    }
    let n: i128 = direction.dot(&target) - lo as i128;
    let den: i128 = direction.dot(direction);
    let k: i128 = (n + den - 1) / den;
    proof {
        let m = (n + den - 1) % (den as int);
        lemma_fundamental_div_mod((n + den - 1) as int, den as int);
        assert(den * k == k * den) by (nonlinear_arith);
        assert(0 <= k <= n) by (nonlinear_arith)
            requires
                n + den - 1 == k * den + m,
                0 <= m < den,
                n >= 0,
                den >= 1,
        ;
        lemma_mul_abs_le(direction.x as int, k as int, DIR_MAX as int, 6 * (DIR_MAX * COORD_MAX));
        lemma_mul_abs_le(direction.y as int, k as int, DIR_MAX as int, 6 * (DIR_MAX * COORD_MAX));
        lemma_mul_abs_le(direction.z as int, k as int, DIR_MAX as int, 6 * (DIR_MAX * COORD_MAX));
    }
    let back: i64 = k as i64;
    let eye = Vec3 {
        x: target.x - direction.x * back,
        y: target.y - direction.y * back,
        z: target.z - direction.z * back,
    };
    Ok(ViewFrame { eye, target, up: choose_up(direction) })
}

/// The light-space transform of a light, by the kind of the light.
#[derive(Clone, Copy, Debug, PartialEq, Eq, Structural)]
pub enum LightTransform {
    Directional(OrthoTransform),
    Point(CubeTransform),
}

/// Whether `t` is the transform of `light` for a scene within `b`.
pub open spec fn built_from(light: Light, b: Box3, t: LightTransform) -> bool {
    match light {
        Light::Directional { direction } => {
            t matches LightTransform::Directional(o) && o@ == directional_spec(direction@, b)
        },
        Light::Point { position, far_plane } => {
            t == LightTransform::Point(
                CubeTransform {
                    eye: position,
                    near: NEAR_EPSILON,
                    far: far_plane,
                    fov_degrees: CUBE_FOV_DEGREES,
                    aspect: ONE,
                },
            )
        },
    }
}

/// Building twice from the same light and the same bounds gives the same
/// transform: nothing else enters into it.
pub proof fn lemma_builder_deterministic(light: Light, b: Box3, t1: LightTransform, t2: LightTransform)
    requires
        built_from(light, b, t1),
        built_from(light, b, t2),
    ensures
        t1 == t2,
{
    match light {
        Light::Directional { direction } => {
            lemma_ortho_view_injective(t1->Directional_0, t2->Directional_0);
        },
        Light::Point { .. } => {},
    }
}

/// Builds the light-space transform of `light` for a scene within `bounds`:
/// an orthographic one for a directional light, a cube of perspective views
/// for a point light, which does not depend on the bounds. A light that is
/// not valid is rejected.
pub fn light_transform(light: &Light, bounds: &Aabb) -> (r: Result<LightTransform, ShadowError>)
    requires
        bounds@.wf(),
    ensures
        r is Ok <==> light.valid(),
        r is Err ==> r->Err_0 == ShadowError::InvalidLightState,
        r is Ok ==> built_from(*light, bounds@, r->Ok_0),
        r is Ok && *light is Directional ==> r->Ok_0->Directional_0@.wf(),
        r is Ok && *light is Point ==> r->Ok_0->Point_0.wf(),
{
    match light {
        Light::Directional { direction } => {
            match directional_transform(direction, bounds) {
                Ok(t) => Ok(LightTransform::Directional(t)),
                Err(e) => Err(e),
            }
        },
        Light::Point { position, far_plane } => {
            match point_transform(position, *far_plane) {
                Ok(t) => Ok(LightTransform::Point(t)),
                Err(e) => Err(e),
            }
        },
    }
}

} // verus!
