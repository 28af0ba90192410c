//! Axis-aligned boxes around scene geometry.

use crate::vector::Vec3;
use crate::vector::COORD_MAX;
use crate::vector::V3;
use vstd::prelude::*;

verus! {

/// An axis-aligned box of mathematical integers: what an `Aabb` stands for.
pub struct Box3 {
    pub min: V3,
    pub max: V3,
}

impl Box3 {
    /// The box is not inverted and lies within the world.
    pub open spec fn wf(self) -> bool {
        &&& self.min.within(COORD_MAX as int)
        &&& self.max.within(COORD_MAX as int)
        &&& self.min.x <= self.max.x
        &&& self.min.y <= self.max.y
        &&& self.min.z <= self.max.z
    }

    /// Whether `p` lies in the box, its faces included.
    pub open spec fn contains(self, p: V3) -> bool {
        &&& self.min.x <= p.x <= self.max.x
        &&& self.min.y <= p.y <= self.max.y
        &&& self.min.z <= p.z <= self.max.z
    }

    /// Whether `o` lies in the box.
    pub open spec fn encloses(self, o: Box3) -> bool {
        self.contains(o.min) && self.contains(o.max)
    }

    /// One of the eight corners: bit 0 of `i` picks the larger x, bit 1 the
    /// larger y, bit 2 the larger z.
    pub open spec fn corner(self, i: int) -> V3 {
        V3 {
            x: if i % 2 == 1 { self.max.x } else { self.min.x },
            y: if (i / 2) % 2 == 1 { self.max.y } else { self.min.y },
            z: if (i / 4) % 2 == 1 { self.max.z } else { self.min.z },
        }
    }
}

/// An axis-aligned box.
#[derive(Clone, Copy, Debug, PartialEq, Eq, Structural)]
pub struct Aabb {
    pub min: Vec3,
    pub max: Vec3,
}

impl View for Aabb {
    type V = Box3;

    open spec fn view(&self) -> Box3 {
        Box3 { min: self.min@, max: self.max@ }
    }
}

pub open spec fn min_int(a: int, b: int) -> int {
    if a <= b {
        a
    } else {
        b
    }
}

pub open spec fn max_int(a: int, b: int) -> int {
    if a >= b {
        a
    } else {
        b
    }
}

fn min_i64(a: i64, b: i64) -> (r: i64)
    ensures
        r == min_int(a as int, b as int),
{
    if a <= b {
        a
    } else {
        b
    }
}

fn max_i64(a: i64, b: i64) -> (r: i64)
    ensures
        r == max_int(a as int, b as int),
{
    if a >= b {
        a
    } else {
        b
    }
}

/// The smallest box that holds both `a` and `b`.
pub open spec fn span_of(a: V3, b: V3) -> Box3 {
    Box3 {
        min: V3 { x: min_int(a.x, b.x), y: min_int(a.y, b.y), z: min_int(a.z, b.z) },
        max: V3 { x: max_int(a.x, b.x), y: max_int(a.y, b.y), z: max_int(a.z, b.z) },
    }
}

/// The smallest box that holds the box `b` and the point `p`.
pub open spec fn grown(b: Box3, p: V3) -> Box3 {
    Box3 {
        min: V3 { x: min_int(b.min.x, p.x), y: min_int(b.min.y, p.y), z: min_int(b.min.z, p.z) },
        max: V3 { x: max_int(b.max.x, p.x), y: max_int(b.max.y, p.y), z: max_int(b.max.z, p.z) },
    }
}

/// The smallest box that holds the points `s`, which are at least one.
pub open spec fn hull(s: Seq<Vec3>) -> Box3
    decreases s.len(),
{
    if s.len() <= 1 {
        span_of(s[0]@, s[0]@)
    } else {
        grown(hull(s.drop_last()), s.last()@)
    }
}

/// Every point of `s` lies in `b`.
pub open spec fn holds_all(b: Box3, s: Seq<Vec3>) -> bool {
    forall|i: int| 0 <= i < s.len() ==> b.contains(#[trigger] s[i]@)
}

/// Every face of `b` passes through a point of `s`.
pub open spec fn touches_all(b: Box3, s: Seq<Vec3>) -> bool {
    &&& exists|i: int| 0 <= i < s.len() && (#[trigger] s[i]).x == b.min.x
    &&& exists|i: int| 0 <= i < s.len() && (#[trigger] s[i]).y == b.min.y
    &&& exists|i: int| 0 <= i < s.len() && (#[trigger] s[i]).z == b.min.z
    &&& exists|i: int| 0 <= i < s.len() && (#[trigger] s[i]).x == b.max.x
    &&& exists|i: int| 0 <= i < s.len() && (#[trigger] s[i]).y == b.max.y
    &&& exists|i: int| 0 <= i < s.len() && (#[trigger] s[i]).z == b.max.z
}

/// The hull of some points holds each of them, and no smaller box does:
/// each of its faces passes through one of the points.
pub proof fn lemma_hull_minimal(s: Seq<Vec3>)
    requires
        s.len() >= 1,
    ensures
        holds_all(hull(s), s),
        touches_all(hull(s), s),
    decreases s.len(),
{
    if s.len() == 1 {
        assert(s[0].x == hull(s).min.x);
    } else {
        let t = s.drop_last();
        let n = s.len() - 1;
        lemma_hull_minimal(t);
        let h = hull(t);
        let g = hull(s);
        assert forall|i: int| 0 <= i < s.len() implies g.contains(#[trigger] s[i]@) by {
            if i < n {
                assert(h.contains(t[i]@));
            }
        }
        let ix0 = choose|i: int| 0 <= i < t.len() && (#[trigger] t[i]).x == h.min.x;
        let iy0 = choose|i: int| 0 <= i < t.len() && (#[trigger] t[i]).y == h.min.y;
        let iz0 = choose|i: int| 0 <= i < t.len() && (#[trigger] t[i]).z == h.min.z;
        let ix1 = choose|i: int| 0 <= i < t.len() && (#[trigger] t[i]).x == h.max.x;
        let iy1 = choose|i: int| 0 <= i < t.len() && (#[trigger] t[i]).y == h.max.y;
        let iz1 = choose|i: int| 0 <= i < t.len() && (#[trigger] t[i]).z == h.max.z;
        let jx0 = if s[n].x < h.min.x { n } else { ix0 };
        let jy0 = if s[n].y < h.min.y { n } else { iy0 };
        let jz0 = if s[n].z < h.min.z { n } else { iz0 };
        let jx1 = if s[n].x > h.max.x { n } else { ix1 };
        let jy1 = if s[n].y > h.max.y { n } else { iy1 };
        let jz1 = if s[n].z > h.max.z { n } else { iz1 };
        assert(s[jx0].x == g.min.x && t[ix0] == s[ix0]);
        assert(s[jy0].y == g.min.y && t[iy0] == s[iy0]);
        assert(s[jz0].z == g.min.z && t[iz0] == s[iz0]);
        assert(s[jx1].x == g.max.x && t[ix1] == s[ix1]);
        assert(s[jy1].y == g.max.y && t[iy1] == s[iy1]);
        assert(s[jz1].z == g.max.z && t[iz1] == s[iz1]);
    }
}

/// A box that holds all of some points encloses their hull.
pub proof fn lemma_hull_least(s: Seq<Vec3>, b: Box3)
    requires
        s.len() >= 1,
        holds_all(b, s),
    ensures
        b.encloses(hull(s)),
    decreases s.len(),
{
    if s.len() == 1 {
        assert(b.contains(s[0]@));
    } else {
        let t = s.drop_last();
        assert forall|i: int| 0 <= i < t.len() implies b.contains(#[trigger] t[i]@) by {
            assert(t[i] == s[i]);
        }
        lemma_hull_least(t, b);
        assert(b.contains(s[s.len() - 1]@));
    }
}

/// The box `b`, moved by `d`.
pub open spec fn moved_box(b: Box3, d: V3) -> Box3 {
    Box3 { min: b.min.plus(d), max: b.max.plus(d) }
}

/// The hull of points that are all moved by `d` is the hull of the points,
/// moved by `d`.
pub proof fn lemma_hull_moved(s: Seq<Vec3>, t: Seq<Vec3>, d: V3)
    requires
        s.len() >= 1,
        t.len() == s.len(),
        forall|i: int| 0 <= i < s.len() ==> (#[trigger] t[i])@ == s[i]@.plus(d),
    ensures
        hull(t) == moved_box(hull(s), d),
    decreases s.len(),
{
    if s.len() == 1 {
        assert(t[0]@ == s[0]@.plus(d));
    } else {
        assert forall|i: int| 0 <= i < s.drop_last().len() implies (#[trigger] t.drop_last()[i])@
            == s.drop_last()[i]@.plus(d) by {
            assert(t[i]@ == s[i]@.plus(d));
        }
        lemma_hull_moved(s.drop_last(), t.drop_last(), d);
        assert(t[t.len() - 1]@ == s[s.len() - 1]@.plus(d));
    }
}

impl Aabb {
    /// The smallest box that holds two points of the world; none where one
    /// of them lies outside the world.
    pub fn new(a: Vec3, b: Vec3) -> (r: Option<Aabb>)
        ensures
            r is Some <==> a@.within(COORD_MAX as int) && b@.within(COORD_MAX as int),
            r is Some ==> r->0@ == span_of(a@, b@) && r->0@.wf(),
    {
        if !a.within(COORD_MAX) || !b.within(COORD_MAX) {
            return None;
        }
        Some(
            Aabb {
                min: Vec3 { x: min_i64(a.x, b.x), y: min_i64(a.y, b.y), z: min_i64(a.z, b.z) },
                max: Vec3 { x: max_i64(a.x, b.x), y: max_i64(a.y, b.y), z: max_i64(a.z, b.z) },
            },
        )
    }

    /// The smallest box that holds all of `points`; none where there is no
    /// point, or one of them lies outside the world.
    pub fn enclosing(points: &Vec<Vec3>) -> (r: Option<Aabb>)
        ensures
            r is Some <==> points.len() >= 1 && forall|i: int|
                0 <= i < points.len() ==> (#[trigger] points[i])@.within(COORD_MAX as int),
            r is Some ==> {
                &&& r->0@ == hull(points@)
                &&& r->0@.wf()
                &&& holds_all(r->0@, points@)
                &&& touches_all(r->0@, points@)
            },
    {
        if points.len() == 0 {
            return None;
        }
        if !points[0].within(COORD_MAX) {
            return None;
        }
        let mut b = Aabb { min: points[0], max: points[0] };
        let mut i: usize = 1;
        assert(points@.take(1).len() == 1);
        while i < points.len()
            invariant
                1 <= i <= points.len(),
                b@ == hull(points@.take(i as int)),
                b@.wf(),
                forall|j: int| 0 <= j < i ==> (#[trigger] points[j])@.within(COORD_MAX as int),
            decreases points.len() - i,
        {
            let p = points[i];
            if !p.within(COORD_MAX) {
                return None;
            }
            proof {
                let s = points@.take(i + 1);
                assert(s.drop_last() =~= points@.take(i as int));
                assert(s.last() == p);
            }
            b = Aabb {
                min: Vec3 {
                    x: min_i64(b.min.x, p.x),
                    y: min_i64(b.min.y, p.y),
                    z: min_i64(b.min.z, p.z),
                },
                max: Vec3 {
                    x: max_i64(b.max.x, p.x),
                    y: max_i64(b.max.y, p.y),
                    z: max_i64(b.max.z, p.z),
                },
            };
            i = i + 1;
        }
        proof {
            assert(points@.take(i as int) =~= points@);
            lemma_hull_minimal(points@);
        }
        Some(b)
    }

    /// One of the eight corners, in the order of `Box3::corner`.
    pub fn corner(&self, i: usize) -> (r: Vec3)
        requires
            i < 8,
        ensures
            r@ == self@.corner(i as int),
    {
        Vec3 {
            x: if i % 2 == 1 { self.max.x } else { self.min.x },
            y: if (i / 2) % 2 == 1 { self.max.y } else { self.min.y },
            z: if (i / 4) % 2 == 1 { self.max.z } else { self.min.z },
        }
    }

    /// Whether `p` lies in the box, its faces included.
    pub fn contains(&self, p: &Vec3) -> (r: bool)
        ensures
            r == self@.contains(p@),
    {
        self.min.x <= p.x && p.x <= self.max.x && self.min.y <= p.y && p.y <= self.max.y
            && self.min.z <= p.z && p.z <= self.max.z
    }
}

} // verus!
