//! The camera's frustum and the part of it that one cascade covers.

use crate::bounds::hull;
use crate::bounds::holds_all;
use crate::bounds::lemma_hull_least;
use crate::bounds::lemma_hull_moved;
use crate::bounds::moved_box;
use crate::bounds::lemma_hull_minimal;
use crate::bounds::max_int;
use crate::bounds::min_int;
use crate::bounds::Aabb;
use crate::bounds::Box3;
use crate::project::distance;
use crate::project::distance_spec;
use crate::project::lemma_component_le_distance;
use crate::scalar::lemma_mul_le;
use crate::transform::center;
use crate::transform::center_spec;
use crate::split::Split;
use crate::vector::Vec3;
use crate::vector::COORD_MAX;
use crate::vector::V3;
use vstd::arithmetic::div_mod::lemma_div_is_ordered;
use vstd::arithmetic::div_mod::lemma_hoist_over_denominator;
use vstd::prelude::*;

verus! {

/// A camera's frustum: the depths of its near and far plane and, in the
/// world, the four corners of each. Corner `k` of the near plane and
/// corner `k` of the far plane lie on one edge.
#[derive(Clone, Copy, Debug)]
pub struct Frustum {
    pub near: u64,
    pub far: u64,
    pub near_corners: [Vec3; 4],
    pub far_corners: [Vec3; 4],
}

/// The point at depth `d` of a line that is at `a` at depth `near` and at
/// `b` at depth `far`, rounded down.
pub open spec fn along(a: int, b: int, d: int, near: int, far: int) -> int {
    (a * (far - d) + b * (d - near)) / (far - near)
}

/// The point at depth `d` of the edge from `a` to `b`.
pub open spec fn edge_point(a: Vec3, b: Vec3, d: int, near: int, far: int) -> Vec3 {
    Vec3 {
        x: along(a.x as int, b.x as int, d, near, far) as i64,
        y: along(a.y as int, b.y as int, d, near, far) as i64,
        z: along(a.z as int, b.z as int, d, near, far) as i64,
    }
}

/// A point of a line lies between the line's two ends, and at the ends'
/// depths it is the ends themselves.
pub proof fn lemma_along(a: int, b: int, d: int, near: int, far: int)
    requires
        near < far,
        near <= d <= far,
    ensures
        min_int(a, b) <= along(a, b, d, near, far) <= max_int(a, b),
        d == near ==> along(a, b, d, near, far) == a,
        d == far ==> along(a, b, d, near, far) == b,
{
    let w = far - near;
    let n = a * (far - d) + b * (d - near);
    let lo = min_int(a, b);
    let hi = max_int(a, b);
    assert(lo * w <= n <= hi * w) by (nonlinear_arith)
        requires
            lo <= a <= hi,
            lo <= b <= hi,
            0 <= far - d,
            0 <= d - near,
            w == (far - d) + (d - near),
            n == a * (far - d) + b * (d - near),
    ;
    lemma_div_is_ordered(lo * w, n, w);
    lemma_div_is_ordered(n, hi * w, w);
    lemma_signed_div_by_multiple(lo, w);
    lemma_signed_div_by_multiple(hi, w);
    if d == near {
        assert(n == a * w) by (nonlinear_arith)
            requires
                n == a * (far - d) + b * (d - near),
                d == near,
                w == far - near,
        ;
        lemma_signed_div_by_multiple(a, w);
    }
    if d == far {
        assert(n == b * w) by (nonlinear_arith)
            requires
                n == a * (far - d) + b * (d - near),
                d == far,
                w == far - near,
        ;
        lemma_signed_div_by_multiple(b, w);
    }
}

/// A multiple of a positive number, divided by it, gives the factor back.
pub proof fn lemma_signed_div_by_multiple(b: int, d: int)
    requires
        0 < d,
    ensures
        (b * d) / d == b,
{
    vstd::arithmetic::div_mod::lemma_fundamental_div_mod_converse(b * d, d, b, 0);
}

/// A coordinate at depth `d` of an edge of the frustum.
pub fn along_edge(a: i64, b: i64, d: u64, near: u64, far: u64) -> (r: i64)
    requires
        -COORD_MAX <= a <= COORD_MAX,
        -COORD_MAX <= b <= COORD_MAX,
        near < far,
        near <= d <= far,
    ensures
        r == along(a as int, b as int, d as int, near as int, far as int),
        -COORD_MAX <= r <= COORD_MAX,
{
    let w: u128 = (far - near) as u128;
    let a_up: u128 = (a + COORD_MAX) as u128;
    let b_up: u128 = (b + COORD_MAX) as u128;
    proof {
        lemma_along(a as int, b as int, d as int, near as int, far as int);
        lemma_mul_le(a_up as int, (far - d) as int, 2 * COORD_MAX, u64::MAX as int);
        lemma_mul_le(b_up as int, (d - near) as int, 2 * COORD_MAX, u64::MAX as int);
        let n = a * (far - d) + b * (d - near);
        assert(a_up * (far - d) + b_up * (d - near) == n + COORD_MAX * w) by (nonlinear_arith)
            requires
                a_up == a + COORD_MAX,
                b_up == b + COORD_MAX,
                w == (far - d) + (d - near),
                n == a * (far - d) + b * (d - near),
        ;
        lemma_hoist_over_denominator(n, COORD_MAX as int, w as nat);
    }
    let num: u128 = a_up * ((far - d) as u128) + b_up * ((d - near) as u128);
    let q: u128 = num / w;
    (q as i64) - COORD_MAX
}

/// How the box of a cascade is fitted to its part of the frustum.
#[derive(Clone, Copy, Debug, PartialEq, Eq, Structural)]
pub enum FitMode {
    /// The smallest box around the part: it is tight, and changes its size
    /// as the camera turns.
    Box,
    /// The cube around a sphere that holds the part: it is larger, and
    /// keeps its size as the camera turns.
    Sphere,
}

/// The largest distance from `c` to one of the first `n` points of `pts`,
/// each rounded down.
pub open spec fn reach_spec(pts: Seq<Vec3>, c: V3, n: nat) -> int
    decreases n,
{
    if n == 0 {
        0
    } else {
        max_int(reach_spec(pts, c, (n - 1) as nat), distance_spec(pts[n - 1]@.minus(c)))
    }
}

/// A coordinate, limited to the world.
pub open spec fn clamp_coord(x: int) -> int {
    if x < -COORD_MAX {
        -COORD_MAX as int
    } else if x > COORD_MAX {
        COORD_MAX as int
    } else {
        x
    }
}

/// The cube that reaches `r` from `c` along each axis, cut off at the
/// limits of the world.
pub open spec fn cube_around(c: V3, r: int) -> Box3 {
    Box3 {
        min: V3 { x: clamp_coord(c.x - r), y: clamp_coord(c.y - r), z: clamp_coord(c.z - r) },
        max: V3 { x: clamp_coord(c.x + r), y: clamp_coord(c.y + r), z: clamp_coord(c.z + r) },
    }
}

/// The reach is not negative, and none of the points lies further from
/// the centre along an axis.
pub proof fn lemma_reach(pts: Seq<Vec3>, c: V3, n: nat)
    requires
        n <= pts.len(),
    ensures
        0 <= reach_spec(pts, c, n),
        forall|i: int| 0 <= i < n ==> (#[trigger] pts[i])@.minus(c).within(reach_spec(pts, c, n)),
    decreases n,
{
    if n > 0 {
        lemma_reach(pts, c, (n - 1) as nat);
        lemma_component_le_distance(pts[n - 1]@.minus(c));
        assert forall|i: int| 0 <= i < n implies (#[trigger] pts[i])@.minus(c).within(
            reach_spec(pts, c, n),
        ) by {
            if i < n - 1 {
                assert(pts[i]@.minus(c).within(reach_spec(pts, c, (n - 1) as nat)));
            }
        }
    }
}

/// The cube around a centre in the world that reaches as far as the
/// furthest of some points of the world holds all of them.
pub proof fn lemma_cube_around(pts: Seq<Vec3>, c: V3)
    requires
        c.within(COORD_MAX as int),
        forall|i: int| 0 <= i < pts.len() ==> (#[trigger] pts[i])@.within(COORD_MAX as int),
    ensures
        cube_around(c, reach_spec(pts, c, pts.len())).wf(),
        holds_all(cube_around(c, reach_spec(pts, c, pts.len())), pts),
{
    lemma_reach(pts, c, pts.len());
    let b = cube_around(c, reach_spec(pts, c, pts.len()));
    assert forall|i: int| 0 <= i < pts.len() implies b.contains(#[trigger] pts[i]@) by {
        assert(pts[i]@.minus(c).within(reach_spec(pts, c, pts.len())));
        assert(pts[i]@.within(COORD_MAX as int));
    }
}

/// A cube that the limits of the world do not cut off has the same size
/// along every axis: twice its reach. The size of the box of a cascade
/// then depends on the size of the sphere alone, and not on where the
/// camera has turned it.
pub proof fn lemma_cube_size(c: V3, r: int)
    requires
        0 <= r,
        c.minus(V3 { x: r, y: r, z: r }).within(COORD_MAX as int),
        c.plus(V3 { x: r, y: r, z: r }).within(COORD_MAX as int),
    ensures
        cube_around(c, r).max.x - cube_around(c, r).min.x == 2 * r,
        cube_around(c, r).max.y - cube_around(c, r).min.y == 2 * r,
        cube_around(c, r).max.z - cube_around(c, r).min.z == 2 * r,
{
}

fn clamp_to_world(x: i64) -> (r: i64)
    ensures
        r == clamp_coord(x as int),
{
    if x < -COORD_MAX {
        -COORD_MAX
    } else if x > COORD_MAX {
        COORD_MAX
    } else {
        x
    }
}

impl Frustum {
    /// Every corner lies within the world.
    pub open spec fn wf(&self) -> bool {
        forall|k: int|
            0 <= k < 4 ==> (#[trigger] self.near_corners[k])@.within(COORD_MAX as int) && (
            #[trigger] self.far_corners[k])@.within(COORD_MAX as int)
    }

    /// The eight corners: those of the near plane, then those of the far
    /// plane.
    pub open spec fn corners(&self) -> Seq<Vec3> {
        self.slice_corners(self.near as int, self.far as int)
    }

    /// The eight corners of the part of the frustum between the depths
    /// `from` and `to`: the four at `from`, then the four at `to`.
    pub open spec fn slice_corners(&self, from: int, to: int) -> Seq<Vec3> {
        Seq::new(
            8,
            |i: int|
                if i < 4 {
                    edge_point(
                        self.near_corners[i],
                        self.far_corners[i],
                        from,
                        self.near as int,
                        self.far as int,
                    )
                } else {
                    edge_point(
                        self.near_corners[i - 4],
                        self.far_corners[i - 4],
                        to,
                        self.near as int,
                        self.far as int,
                    )
                },
        )
    }

    /// The smallest box around the whole frustum.
    pub open spec fn bounds_spec(&self) -> Box3 {
        hull(self.corners())
    }

    /// The smallest box around the part of the frustum that `s` covers.
    pub open spec fn slice_bounds_spec(&self, s: Split) -> Box3 {
        hull(self.slice_corners(s.near as int, s.far as int))
    }

    /// Whether `s` is a part of the camera's depth range.
    pub open spec fn covers(&self, s: Split) -> bool {
        self.near <= s.near <= s.far <= self.far
    }

    /// The point at depth `d` of the edge with index `k`.
    pub fn edge_at(&self, k: usize, d: u64) -> (r: Vec3)
        requires
            self.wf(),
            k < 4,
            self.near < self.far,
            self.near <= d <= self.far,
        ensures
            r == edge_point(
                self.near_corners[k as int],
                self.far_corners[k as int],
                d as int,
                self.near as int,
                self.far as int,
            ),
            r@.within(COORD_MAX as int),
    {
        let a = self.near_corners[k];
        let b = self.far_corners[k];
        assert(a@.within(COORD_MAX as int) && b@.within(COORD_MAX as int));
        Vec3 {
            x: along_edge(a.x, b.x, d, self.near, self.far),
            y: along_edge(a.y, b.y, d, self.near, self.far),
            z: along_edge(a.z, b.z, d, self.near, self.far),
        }
    }

    /// The eight corners of the part of the frustum that `s` covers.
    pub fn slice_points(&self, s: &Split) -> (points: Vec<Vec3>)
        requires
            self.wf(),
            self.near < self.far,
            self.covers(*s),
        ensures
            points@ == self.slice_corners(s.near as int, s.far as int),
            forall|i: int| 0 <= i < 8 ==> (#[trigger] points[i])@.within(COORD_MAX as int),
    {
        let mut points: Vec<Vec3> = Vec::new();
        let mut k: usize = 0;
        while k < 4
            invariant
                k <= 4,
                self.wf(),
                self.near < self.far,
                self.covers(*s),
                points.len() == k,
                forall|i: int|
                    0 <= i < k ==> #[trigger] points[i] == self.slice_corners(
                        s.near as int,
                        s.far as int,
                    )[i] && points[i]@.within(COORD_MAX as int),
            decreases 4 - k,
        {
            points.push(self.edge_at(k, s.near));
            k = k + 1;
        }
        while k < 8
            invariant
                4 <= k <= 8,
                self.wf(),
                self.near < self.far,
                self.covers(*s),
                points.len() == k,
                forall|i: int|
                    0 <= i < k ==> #[trigger] points[i] == self.slice_corners(
                        s.near as int,
                        s.far as int,
                    )[i] && points[i]@.within(COORD_MAX as int),
            decreases 8 - k,
        {
            points.push(self.edge_at(k - 4, s.far));
            k = k + 1;
        }
        assert(points@ =~= self.slice_corners(s.near as int, s.far as int));
        points
    }

    /// The smallest box around the part of the frustum that `s` covers.
    pub fn slice_bounds(&self, s: &Split) -> (r: Aabb)
        requires
            self.wf(),
            self.near < self.far,
            self.covers(*s),
        ensures
            r@ == self.slice_bounds_spec(*s),
            r@.wf(),
            holds_all(r@, self.slice_corners(s.near as int, s.far as int)),
    {
        let points = self.slice_points(s);
        Aabb::enclosing(&points).unwrap()
    }

    /// The cube around a sphere that holds the part of the frustum that
    /// `s` covers: the sphere stands in the middle of the part's box and
    /// reaches to the furthest corner.
    pub open spec fn slice_sphere_spec(&self, s: Split) -> Box3 {
        let pts = self.slice_corners(s.near as int, s.far as int);
        let c = center_spec(hull(pts));
        cube_around(c, reach_spec(pts, c, 8))
    }

    /// The box fitted to the part of the frustum that `s` covers.
    pub open spec fn fitted_spec(&self, s: Split, fit: FitMode) -> Box3 {
        match fit {
            FitMode::Box => self.slice_bounds_spec(s),
            FitMode::Sphere => self.slice_sphere_spec(s),
        }
    }

    /// The cube around a sphere that holds the part of the frustum that
    /// `s` covers.
    pub fn slice_sphere(&self, s: &Split) -> (r: Aabb)
        requires
            self.wf(),
            self.near < self.far,
            self.covers(*s),
        ensures
            r@ == self.slice_sphere_spec(*s),
            r@.wf(),
            holds_all(r@, self.slice_corners(s.near as int, s.far as int)),
    {
        let points = self.slice_points(s);
        let tight = Aabb::enclosing(&points).unwrap();
        let c = center(&tight);
        let mut reach: u64 = 0;
        let mut k: usize = 0;
        while k < 8
            invariant
                k <= 8,
                points.len() == 8,
                c@.within(COORD_MAX as int),
                forall|i: int| 0 <= i < 8 ==> (#[trigger] points[i])@.within(COORD_MAX as int),
                reach == reach_spec(points@, c@, k as nat),
                reach <= 2 * crate::project::SPAN_MAX,
            decreases 8 - k,
        {
            let p = points[k];
            assert(p@.within(COORD_MAX as int));
            let v = p.minus(&c);
            let d = distance(&v);
            if d > reach {
                reach = d;
            }
            k = k + 1;
        }
        proof {
            lemma_cube_around(points@, c@);
        }
        let r: i64 = reach as i64;
        Aabb {
            min: Vec3 {
                x: clamp_to_world(c.x - r),
                y: clamp_to_world(c.y - r),
                z: clamp_to_world(c.z - r),
            },
            max: Vec3 {
                x: clamp_to_world(c.x + r),
                y: clamp_to_world(c.y + r),
                z: clamp_to_world(c.z + r),
            },
        }
    }

    /// The box fitted to the part of the frustum that `s` covers.
    pub fn fitted(&self, s: &Split, fit: FitMode) -> (r: Aabb)
        requires
            self.wf(),
            self.near < self.far,
            self.covers(*s),
        ensures
            r@ == self.fitted_spec(*s, fit),
            r@.wf(),
            holds_all(r@, self.slice_corners(s.near as int, s.far as int)),
    {
        match fit {
            FitMode::Box => self.slice_bounds(s),
            FitMode::Sphere => self.slice_sphere(s),
        }
    }

    /// The smallest box around the whole frustum.
    pub fn bounds(&self) -> (r: Aabb)
        requires
            self.wf(),
            self.near < self.far,
        ensures
            r@ == self.bounds_spec(),
            r@.wf(),
    {
        self.slice_bounds(&Split { near: self.near, far: self.far })
    }
}

/// At the depths of the two planes the edges are at the corners of the
/// frustum: the part of it from the near to the far plane is the whole.
pub proof fn lemma_corners(f: &Frustum)
    requires
        f.wf(),
        f.near < f.far,
    ensures
        f.corners().len() == 8,
        forall|k: int| 0 <= k < 4 ==> #[trigger] f.corners()[k] == f.near_corners[k],
        forall|k: int| 4 <= k < 8 ==> #[trigger] f.corners()[k] == f.far_corners[k - 4],
{
    assert forall|k: int| 0 <= k < 4 implies #[trigger] f.corners()[k] == f.near_corners[k] by {
        let a = f.near_corners[k];
        let b = f.far_corners[k];
        lemma_along(a.x as int, b.x as int, f.near as int, f.near as int, f.far as int);
        lemma_along(a.y as int, b.y as int, f.near as int, f.near as int, f.far as int);
        lemma_along(a.z as int, b.z as int, f.near as int, f.near as int, f.far as int);
    }
    assert forall|k: int| 4 <= k < 8 implies #[trigger] f.corners()[k] == f.far_corners[k - 4] by {
        let a = f.near_corners[k - 4];
        let b = f.far_corners[k - 4];
        lemma_along(a.x as int, b.x as int, f.far as int, f.near as int, f.far as int);
        lemma_along(a.y as int, b.y as int, f.far as int, f.near as int, f.far as int);
        lemma_along(a.z as int, b.z as int, f.far as int, f.near as int, f.far as int);
    }
}

/// The box around a part of the frustum lies within the box around the
/// whole.
pub proof fn lemma_slice_within(f: &Frustum, s: Split)
    requires
        f.wf(),
        f.near < f.far,
        f.covers(s),
    ensures
        f.bounds_spec().encloses(f.slice_bounds_spec(s)),
{
    let whole = f.bounds_spec();
    let part = f.slice_corners(s.near as int, s.far as int);
    lemma_corners(f);
    lemma_hull_minimal(f.corners());
    assert forall|i: int| 0 <= i < 8 implies whole.contains(#[trigger] part[i]@) by {
        let k = if i < 4 { i } else { i - 4 };
        let d = if i < 4 { s.near as int } else { s.far as int };
        let a = f.near_corners[k];
        let b = f.far_corners[k];
        assert(f.corners()[k] == a && f.corners()[k + 4] == b);
        assert(whole.contains(f.corners()[k]@) && whole.contains(f.corners()[k + 4]@));
        assert(a@.within(COORD_MAX as int) && b@.within(COORD_MAX as int));
        lemma_along(a.x as int, b.x as int, d, f.near as int, f.far as int);
        lemma_along(a.y as int, b.y as int, d, f.near as int, f.far as int);
        lemma_along(a.z as int, b.z as int, d, f.near as int, f.far as int);
    }
    lemma_hull_least(part, whole);
}

/// However a box is fitted to a part of the frustum, it holds the part:
/// each of the eight corners lies in it.
pub proof fn lemma_fitted_holds(f: &Frustum, s: Split, fit: FitMode)
    requires
        f.wf(),
        f.near < f.far,
        f.covers(s),
    ensures
        f.fitted_spec(s, fit).wf(),
        holds_all(f.fitted_spec(s, fit), f.slice_corners(s.near as int, s.far as int)),
{
    let pts = f.slice_corners(s.near as int, s.far as int);
    lemma_slice_in_world(f, s);
    lemma_hull_minimal(pts);
    lemma_hull_in_world(pts);
    match fit {
        FitMode::Box => {},
        FitMode::Sphere => {
            crate::transform::lemma_center(hull(pts));
            lemma_cube_around(pts, center_spec(hull(pts)));
        },
    }
}

/// The corners of a part of the frustum lie within the world.
pub proof fn lemma_slice_in_world(f: &Frustum, s: Split)
    requires
        f.wf(),
        f.near < f.far,
        f.covers(s),
    ensures
        forall|i: int|
            0 <= i < 8 ==> (#[trigger] f.slice_corners(s.near as int, s.far as int)[i])@.within(
                COORD_MAX as int,
            ),
{
    let pts = f.slice_corners(s.near as int, s.far as int);
    assert forall|i: int| 0 <= i < 8 implies (#[trigger] pts[i])@.within(COORD_MAX as int) by {
        let k = if i < 4 { i } else { i - 4 };
        let d = if i < 4 { s.near as int } else { s.far as int };
        let a = f.near_corners[k];
        let b = f.far_corners[k];
        assert(a@.within(COORD_MAX as int) && b@.within(COORD_MAX as int));
        lemma_along(a.x as int, b.x as int, d, f.near as int, f.far as int);
        lemma_along(a.y as int, b.y as int, d, f.near as int, f.far as int);
        lemma_along(a.z as int, b.z as int, d, f.near as int, f.far as int);
    }
}

/// The hull of points of the world lies within the world.
pub proof fn lemma_hull_in_world(pts: Seq<Vec3>)
    requires
        pts.len() >= 1,
        forall|i: int| 0 <= i < pts.len() ==> (#[trigger] pts[i])@.within(COORD_MAX as int),
    ensures
        hull(pts).wf(),
    decreases pts.len(),
{
    if pts.len() > 1 {
        let t = pts.drop_last();
        assert forall|i: int| 0 <= i < t.len() implies (#[trigger] t[i])@.within(
            COORD_MAX as int,
        ) by {
            assert(t[i] == pts[i]);
        }
        lemma_hull_in_world(t);
        assert(pts[pts.len() - 1]@.within(COORD_MAX as int));
    } else {
        assert(pts[0]@.within(COORD_MAX as int));
    }
}

/// Whether `g` is the frustum `f`, moved by `d`: the same depths, and
/// every corner moved by `d`.
pub open spec fn moved_by(f: &Frustum, g: &Frustum, d: V3) -> bool {
    &&& g.near == f.near
    &&& g.far == f.far
    &&& forall|k: int|
        0 <= k < 4 ==> (#[trigger] g.near_corners[k])@ == f.near_corners[k]@.plus(d) && (
        #[trigger] g.far_corners[k])@ == f.far_corners[k]@.plus(d)
}

impl Frustum {
    /// The middle of the sphere around the part of the frustum that `s`
    /// covers.
    pub open spec fn slice_center_spec(&self, s: Split) -> V3 {
        center_spec(hull(self.slice_corners(s.near as int, s.far as int)))
    }

    /// The reach of the sphere around the part of the frustum that `s`
    /// covers.
    pub open spec fn slice_reach_spec(&self, s: Split) -> int {
        reach_spec(self.slice_corners(s.near as int, s.far as int), self.slice_center_spec(s), 8)
    }
}

/// A point of a line whose two ends are moved by `d` is moved by `d`.
pub proof fn lemma_along_moved(a: int, b: int, d: int, depth: int, near: int, far: int)
    requires
        near < far,
    ensures
        along(a + d, b + d, depth, near, far) == along(a, b, depth, near, far) + d,
{
    let w = far - near;
    let n = a * (far - depth) + b * (depth - near);
    assert((a + d) * (far - depth) + (b + d) * (depth - near) == n + d * w) by (nonlinear_arith)
        requires
            w == (far - depth) + (depth - near),
            n == a * (far - depth) + b * (depth - near),
    ;
    lemma_hoist_over_denominator(n, d, w as nat);
}

/// The reach of points around a centre does not change when the points
/// and the centre are moved alike.
pub proof fn lemma_reach_moved(s: Seq<Vec3>, t: Seq<Vec3>, c: V3, d: V3, n: nat)
    requires
        n <= s.len(),
        t.len() == s.len(),
        forall|i: int| 0 <= i < s.len() ==> (#[trigger] t[i])@ == s[i]@.plus(d),
    ensures
        reach_spec(t, c.plus(d), n) == reach_spec(s, c, n),
    decreases n,
{
    if n > 0 {
        lemma_reach_moved(s, t, c, d, (n - 1) as nat);
        assert(t[n - 1]@ == s[n - 1]@.plus(d));
        assert(t[n - 1]@.minus(c.plus(d)) == s[n - 1]@.minus(c));
    }
}

/// When the camera moves by a vector of the lattice, the part of the
/// frustum that a cascade covers moves with it and keeps its shape: every
/// corner, the box around the part and the middle of the sphere move by
/// the same vector, and the sphere keeps its reach. The box fitted to the
/// sphere therefore keeps its size, and moves by the same vector wherever
/// the limits of the world do not cut it off.
pub proof fn lemma_moved_slice(f: &Frustum, g: &Frustum, d: V3, s: Split)
    requires
        f.wf(),
        g.wf(),
        f.near < f.far,
        f.covers(s),
        moved_by(f, g, d),
    ensures
        forall|k: int|
            0 <= k < 8 ==> (#[trigger] g.slice_corners(s.near as int, s.far as int)[k])@
                == f.slice_corners(s.near as int, s.far as int)[k]@.plus(d),
        g.slice_bounds_spec(s) == moved_box(f.slice_bounds_spec(s), d),
        g.slice_center_spec(s) == f.slice_center_spec(s).plus(d),
        g.slice_reach_spec(s) == f.slice_reach_spec(s),
        g.slice_sphere_spec(s) == cube_around(f.slice_center_spec(s).plus(d), f.slice_reach_spec(s)),
        f.slice_sphere_spec(s) == cube_around(f.slice_center_spec(s), f.slice_reach_spec(s)),
{
    let from = s.near as int;
    let to = s.far as int;
    let ps = f.slice_corners(from, to);
    let pt = g.slice_corners(from, to);
    lemma_slice_in_world(f, s);
    lemma_slice_in_world(g, s);
    assert forall|k: int| 0 <= k < 8 implies (#[trigger] pt[k])@ == ps[k]@.plus(d) by {
        let e = if k < 4 { k } else { k - 4 };
        let depth = if k < 4 { from } else { to };
        let a = f.near_corners[e];
        let b = f.far_corners[e];
        let a2 = g.near_corners[e];
        let b2 = g.far_corners[e];
        assert(a2@ == a@.plus(d) && b2@ == b@.plus(d));
        lemma_along_moved(a.x as int, b.x as int, d.x, depth, f.near as int, f.far as int);
        lemma_along_moved(a.y as int, b.y as int, d.y, depth, f.near as int, f.far as int);
        lemma_along_moved(a.z as int, b.z as int, d.z, depth, f.near as int, f.far as int);
        lemma_along(a.x as int, b.x as int, depth, f.near as int, f.far as int);
        lemma_along(a.y as int, b.y as int, depth, f.near as int, f.far as int);
        lemma_along(a.z as int, b.z as int, depth, f.near as int, f.far as int);
        lemma_along(a2.x as int, b2.x as int, depth, f.near as int, f.far as int);
        lemma_along(a2.y as int, b2.y as int, depth, f.near as int, f.far as int);
        lemma_along(a2.z as int, b2.z as int, depth, f.near as int, f.far as int);
        assert(a@.within(COORD_MAX as int) && b@.within(COORD_MAX as int));
        assert(a2@.within(COORD_MAX as int) && b2@.within(COORD_MAX as int));
    }
    lemma_hull_moved(ps, pt, d);
    crate::transform::lemma_center_moved(hull(ps), d);
    lemma_reach_moved(ps, pt, center_spec(hull(ps)), d, 8);
}

} // verus!
