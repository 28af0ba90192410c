//! The depth pass: writing the depths of occluders into a shadow map.
//!
//! Occluders are given as positions in the world. Each is projected by the
//! light's transform and written through the depth test, so that a texel
//! ends up with the least depth of all that landed on it. A point light's
//! cube can be filled face by face, in six passes over the occluders, or
//! in one pass that hands each occluder to all six faces; both leave the
//! same depths behind.

use crate::cube::select_face_spec;
use crate::cube::CubeFace;
use crate::cube::CubeTransform;
use crate::depth_map::lemma_texel_index;
use crate::depth_map::lemma_texel_index_injective;
use crate::depth_map::DepthCube;
use crate::depth_map::DepthMap;
use crate::project::cube_texel;
use crate::project::cube_x;
use crate::project::cube_y;
use crate::project::distance;
use crate::project::distance_spec;
use crate::project::ortho_depth;
use crate::project::ortho_texel;
use crate::project::ortho_x;
use crate::project::ortho_y;
use crate::project::store_distance;
use crate::project::stored_depth;
use crate::scalar::ONE;
use crate::transform::OrthoTransform;
use crate::transform::OrthoView;
use crate::vector::Vec3;
use crate::vector::COORD_MAX;
use crate::vector::V3;
use vstd::prelude::*;

verus! {

/// How the six faces of a point light's cube are filled.
#[derive(Clone, Copy, Debug, PartialEq, Eq, Structural)]
pub enum CubeStrategy {
    /// One pass over the occluders for each face.
    SixPasses,
    /// One pass over the occluders, each handed to all six faces.
    Amplified,
}

/// Whether the occluder at `p` lands on texel `(x, y)` of a map of `w` by
/// `h` texels. An occluder outside the world or outside the projection box
/// lands nowhere.
pub open spec fn lands_ortho(t: OrthoView, w: int, h: int, p: V3, x: int, y: int) -> bool {
    &&& p.within(COORD_MAX as int)
    &&& t.contains(p)
    &&& ortho_x(t, p, w) == x
    &&& ortho_y(t, p, h) == y
}

/// The depth of texel `(x, y)` after the occluders `pts` have been
/// written over a depth of `base`: the least of `base` and the depths of
/// the occluders that land on the texel.
pub open spec fn ortho_after(
    base: u64,
    t: OrthoView,
    w: int,
    h: int,
    pts: Seq<Vec3>,
    x: int,
    y: int,
) -> u64
    decreases pts.len(),
{
    if pts.len() == 0 {
        base
    } else {
        let before = ortho_after(base, t, w, h, pts.drop_last(), x, y);
        let p = pts.last()@;
        if lands_ortho(t, w, h, p, x, y) && ortho_depth(t, p) < before {
            ortho_depth(t, p) as u64
        } else {
            before
        }
    }
}

/// Writes the occluders at `points` into the map of a directional light or
/// of a cascade.
pub fn render_ortho(m: &mut DepthMap, t: &OrthoTransform, points: &Vec<Vec3>)
    requires
        old(m).wf(),
        t@.wf(),
    ensures
        final(m).wf(),
        final(m).width == old(m).width,
        final(m).height == old(m).height,
        forall|x: int, y: int|
            old(m).inside(x, y) ==> #[trigger] final(m).at(x, y) == ortho_after(
                old(m).at(x, y),
                t@,
                old(m).width as int,
                old(m).height as int,
                points@,
                x,
                y,
            ),
{
    let mut i: usize = 0;
    while i < points.len()
        invariant
            i <= points.len(),
            m.wf(),
            t@.wf(),
            m.width == old(m).width,
            m.height == old(m).height,
            forall|x: int, y: int|
                old(m).inside(x, y) ==> #[trigger] m.at(x, y) == ortho_after(
                    old(m).at(x, y),
                    t@,
                    m.width as int,
                    m.height as int,
                    points@.take(i as int),
                    x,
                    y,
                ),
        decreases points.len() - i,
    {
        let p = points[i];
        let ghost before = *m;
        let ghost done = points@.take(i as int);
        let ghost next = points@.take(i + 1);
        proof {
            assert(next.drop_last() =~= done);
            assert(next.last() == p);
        }
        let landed = if p.within(COORD_MAX) {
            ortho_texel(t, &p, m.width, m.height)
        } else {
            None
        };
        match landed {
            Some(texel) => {
                m.store(texel.x, texel.y, texel.depth);
                proof {
                    let w = m.width as int;
                    let h = m.height as int;
                    assert forall|x: int, y: int| old(m).inside(x, y) implies #[trigger] m.at(x, y)
                        == ortho_after(old(m).at(x, y), t@, w, h, next, x, y) by {
                        lemma_texel_index(x, y, w, h);
                        lemma_texel_index(texel.x as int, texel.y as int, w, h);
                        if y * w + x == texel.y * w + texel.x {
                            lemma_texel_index_injective(x, y, texel.x as int, texel.y as int, w);
                        }
                        assert(before.at(x, y) == ortho_after(old(m).at(x, y), t@, w, h, done, x, y));
                    }
                }
            },
            None => {
                proof {
                    let w = m.width as int;
                    let h = m.height as int;
                    assert forall|x: int, y: int| old(m).inside(x, y) implies #[trigger] m.at(x, y)
                        == ortho_after(old(m).at(x, y), t@, w, h, next, x, y) by {
                        assert(before.at(x, y) == ortho_after(old(m).at(x, y), t@, w, h, done, x, y));
                    }
                }
            },
        }
        i = i + 1;
    }
    proof {
        assert(points@.take(i as int) =~= points@);
    }
}

/// Whether the occluder at `p` lands on texel `(x, y)` of the face `face`
/// of the cube of the light `t`. An occluder outside the world, at the
/// light itself or beyond the far plane lands nowhere.
pub open spec fn lands_cube(t: CubeTransform, size: int, p: V3, face: CubeFace, x: int, y: int) -> bool {
    let v = p.minus(t.eye@);
    &&& p.within(COORD_MAX as int)
    &&& !v.is_zero()
    &&& distance_spec(v) <= t.far
    &&& select_face_spec(v) == face
    &&& cube_x(v, size) == x
    &&& cube_y(v, size) == y
}

/// The depth that the light `t` stores for an occluder at `p`.
pub open spec fn cube_depth(t: CubeTransform, p: V3) -> int {
    stored_depth(distance_spec(p.minus(t.eye@)), t.far as int)
}

/// The depth of texel `(x, y)` of a face after the occluders `pts` have
/// been written over a depth of `base`.
pub open spec fn cube_after(
    base: u64,
    t: CubeTransform,
    size: int,
    pts: Seq<Vec3>,
    face: CubeFace,
    x: int,
    y: int,
) -> u64
    decreases pts.len(),
{
    if pts.len() == 0 {
        base
    } else {
        let before = cube_after(base, t, size, pts.drop_last(), face, x, y);
        let p = pts.last()@;
        if lands_cube(t, size, p, face, x, y) && cube_depth(t, p) < before {
            cube_depth(t, p) as u64
        } else {
            before
        }
    }
}

/// Whether the cube `after` holds what the occluders `pts` leave behind
/// in the cube `before`.
pub open spec fn cube_rendered(before: &DepthCube, after: &DepthCube, t: CubeTransform, pts: Seq<Vec3>) -> bool {
    &&& after.wf()
    &&& after.size == before.size
    &&& forall|f: CubeFace, x: int, y: int|
        0 <= x < before.size && 0 <= y < before.size ==> #[trigger] after.at(f, x, y) == cube_after(
            before.at(f, x, y),
            t,
            before.size as int,
            pts,
            f,
            x,
            y,
        )
}

/// Where the occluder at `p` lands in the cube, if anywhere.
fn cube_landing(t: &CubeTransform, size: usize, p: &Vec3) -> (r: Option<(CubeFace, usize, usize, u64)>)
    requires
        t.wf(),
        1 <= size <= crate::depth_map::MAX_RESOLUTION,
    ensures
        r is None ==> forall|f: CubeFace, x: int, y: int|
            !lands_cube(*t, size as int, p@, f, x, y),
        r is Some ==> {
            let (face, x, y, depth) = r->0;
            &&& lands_cube(*t, size as int, p@, face, x as int, y as int)
            &&& depth == cube_depth(*t, p@)
            &&& depth <= ONE
            &&& x < size
            &&& y < size
        },
{
    if !p.within(COORD_MAX) {
        return None;
    }
    let v = p.minus(&t.eye);
    if v.is_zero() {
        return None;
    }
    let dist = distance(&v);
    if dist > t.far as u64 {
        return None;
    }
    let (face, x, y) = cube_texel(&v, size);
    let depth = store_distance(dist, t.far);
    Some((face, x, y, depth))
}

/// A texel on which an occluder does not land keeps its depth.
proof fn lemma_cube_step(
    base: u64,
    t: CubeTransform,
    size: int,
    pts: Seq<Vec3>,
    n: int,
    f: CubeFace,
    x: int,
    y: int,
)
    requires
        0 <= n < pts.len(),
    ensures
        cube_after(base, t, size, pts.take(n + 1), f, x, y) == ({
            let before = cube_after(base, t, size, pts.take(n), f, x, y);
            if lands_cube(t, size, pts[n]@, f, x, y) && cube_depth(t, pts[n]@) < before {
                cube_depth(t, pts[n]@) as u64
            } else {
                before
            }
        }),
{
    let next = pts.take(n + 1);
    assert(next.drop_last() =~= pts.take(n));
    assert(next.last() == pts[n]);
}

/// Fills the cube in one pass over the occluders: each is handed to all
/// six faces, and lands on the one that it faces.
pub fn render_cube_amplified(c: &mut DepthCube, t: &CubeTransform, points: &Vec<Vec3>)
    requires
        old(c).wf(),
        t.wf(),
    ensures
        cube_rendered(old(c), final(c), *t, points@),
{
    let mut i: usize = 0;
    while i < points.len()
        invariant
            i <= points.len(),
            t.wf(),
            cube_rendered(old(c), c, *t, points@.take(i as int)),
        decreases points.len() - i,
    {
        let p = points[i];
        let ghost before = *c;
        let landed = cube_landing(t, c.size, &p);
        let mut f: usize = 0;
        while f < 6
            invariant
                f <= 6,
                i < points.len(),
                p == points[i as int],
                t.wf(),
                c.wf(),
                c.size == old(c).size,
                before.wf(),
                before.size == old(c).size,
                landed is None ==> forall|g: CubeFace, x: int, y: int|
                    !lands_cube(*t, c.size as int, p@, g, x, y),
                landed is Some ==> {
                    let (face, x, y, depth) = landed->0;
                    &&& lands_cube(*t, c.size as int, p@, face, x as int, y as int)
                    &&& depth == cube_depth(*t, p@)
                    &&& depth <= ONE
                    &&& x < c.size
                    &&& y < c.size
                },
                cube_rendered(old(c), &before, *t, points@.take(i as int)),
                forall|g: CubeFace, x: int, y: int|
                    0 <= x < c.size && 0 <= y < c.size ==> #[trigger] c.at(g, x, y) == (if g.index_spec()
                        < f {
                        cube_after(old(c).at(g, x, y), *t, c.size as int, points@.take(i + 1), g, x, y)
                    } else {
                        before.at(g, x, y)
                    }),
            decreases 6 - f,
        {
            let face = CubeFace::from_index(f).unwrap();
            let ghost mid = *c;
            let hit = match landed {
                Some((lf, x, y, depth)) => lf.index() == f,
                None => false,
            };
            if hit {
                let (lf, x, y, depth) = landed.unwrap();
                assert(lf == face);
                c.store(face, x, y, depth);
                proof {
                    let s = c.size as int;
                    assert forall|g: CubeFace, gx: int, gy: int|
                        0 <= gx < s && 0 <= gy < s implies #[trigger] c.at(g, gx, gy) == (if g.index_spec()
                        < f + 1 {
                        cube_after(old(c).at(g, gx, gy), *t, s, points@.take(i + 1), g, gx, gy)
                    } else {
                        before.at(g, gx, gy)
                    }) by {
                        lemma_cube_step(old(c).at(g, gx, gy), *t, s, points@, i as int, g, gx, gy);
                        assert(mid.at(g, gx, gy) == (if g.index_spec() < f {
                            cube_after(old(c).at(g, gx, gy), *t, s, points@.take(i + 1), g, gx, gy)
                        } else {
                            before.at(g, gx, gy)
                        }));
                        if g.index_spec() == f {
                            assert(g == face);
                            lemma_texel_index(gx, gy, s, s);
                            lemma_texel_index(x as int, y as int, s, s);
                            if gy * s + gx == y * s + x {
                                lemma_texel_index_injective(gx, gy, x as int, y as int, s);
                            }
                        } else {
                            assert(c.faces[g.index_spec()] == mid.faces[g.index_spec()]);
                        }
                    }
                }
            } else {
                proof {
                    let s = c.size as int;
                    assert forall|g: CubeFace, gx: int, gy: int|
                        0 <= gx < s && 0 <= gy < s implies #[trigger] c.at(g, gx, gy) == (if g.index_spec()
                        < f + 1 {
                        cube_after(old(c).at(g, gx, gy), *t, s, points@.take(i + 1), g, gx, gy)
                    } else {
                        before.at(g, gx, gy)
                    }) by {
                        lemma_cube_step(old(c).at(g, gx, gy), *t, s, points@, i as int, g, gx, gy);
                        if g.index_spec() == f {
                            assert(g == face);
                        }
                    }
                }
            }
            f = f + 1;
        }
        i = i + 1;
    }
    proof {
        assert(points@.take(i as int) =~= points@);
    }
}

/// Fills the cube face by face, in six passes over the occluders.
pub fn render_cube_six_passes(c: &mut DepthCube, t: &CubeTransform, points: &Vec<Vec3>)
    requires
        old(c).wf(),
        t.wf(),
    ensures
        cube_rendered(old(c), final(c), *t, points@),
{
    let mut f: usize = 0;
    while f < 6
        invariant
            f <= 6,
            t.wf(),
            c.wf(),
            c.size == old(c).size,
            forall|g: CubeFace, x: int, y: int|
                0 <= x < c.size && 0 <= y < c.size ==> #[trigger] c.at(g, x, y) == (if g.index_spec()
                    < f {
                    cube_after(old(c).at(g, x, y), *t, c.size as int, points@, g, x, y)
                } else {
                    old(c).at(g, x, y)
                }),
        decreases 6 - f,
    {
        let face = CubeFace::from_index(f).unwrap();
        let ghost start = *c;
        let mut i: usize = 0;
        while i < points.len()
            invariant
                i <= points.len(),
                f < 6,
                face.index_spec() == f,
                t.wf(),
                c.wf(),
                c.size == old(c).size,
                forall|g: CubeFace, x: int, y: int|
                    0 <= x < c.size && 0 <= y < c.size ==> #[trigger] c.at(g, x, y) == (if g.index_spec()
                        < f {
                        cube_after(old(c).at(g, x, y), *t, c.size as int, points@, g, x, y)
                    } else if g.index_spec() == f {
                        cube_after(old(c).at(g, x, y), *t, c.size as int, points@.take(i as int), g, x, y)
                    } else {
                        old(c).at(g, x, y)
                    }),
            decreases points.len() - i,
        {
            let p = points[i];
            let ghost mid = *c;
            let landed = cube_landing(t, c.size, &p);
            let hit = match landed {
                Some((lf, x, y, depth)) => lf.index() == f,
                None => false,
            };
            if hit {
                let (lf, x, y, depth) = landed.unwrap();
                assert(lf == face);
                c.store(face, x, y, depth);
                proof {
                    let s = c.size as int;
                    assert forall|g: CubeFace, gx: int, gy: int|
                        0 <= gx < s && 0 <= gy < s implies #[trigger] c.at(g, gx, gy) == (if g.index_spec()
                        < f {
                        cube_after(old(c).at(g, gx, gy), *t, s, points@, g, gx, gy)
                    } else if g.index_spec() == f {
                        cube_after(old(c).at(g, gx, gy), *t, s, points@.take(i + 1), g, gx, gy)
                    } else {
                        old(c).at(g, gx, gy)
                    }) by {
                        lemma_cube_step(old(c).at(g, gx, gy), *t, s, points@, i as int, g, gx, gy);
                        assert(mid.at(g, gx, gy) == (if g.index_spec() < f {
                            cube_after(old(c).at(g, gx, gy), *t, s, points@, g, gx, gy)
                        } else if g.index_spec() == f {
                            cube_after(old(c).at(g, gx, gy), *t, s, points@.take(i as int), g, gx, gy)
                        } else {
                            old(c).at(g, gx, gy)
                        }));
                        if g.index_spec() == f {
                            assert(g == face);
                            lemma_texel_index(gx, gy, s, s);
                            lemma_texel_index(x as int, y as int, s, s);
                            if gy * s + gx == y * s + x {
                                lemma_texel_index_injective(gx, gy, x as int, y as int, s);
                            }
                        } else {
                            assert(c.faces[g.index_spec()] == mid.faces[g.index_spec()]);
                        }
                    }
                }
            } else {
                proof {
                    let s = c.size as int;
                    assert forall|g: CubeFace, gx: int, gy: int|
                        0 <= gx < s && 0 <= gy < s implies #[trigger] c.at(g, gx, gy) == (if g.index_spec()
                        < f {
                        cube_after(old(c).at(g, gx, gy), *t, s, points@, g, gx, gy)
                    } else if g.index_spec() == f {
                        cube_after(old(c).at(g, gx, gy), *t, s, points@.take(i + 1), g, gx, gy)
                    } else {
                        old(c).at(g, gx, gy)
                    }) by {
                        lemma_cube_step(old(c).at(g, gx, gy), *t, s, points@, i as int, g, gx, gy);
                        if g.index_spec() == f {
                            assert(g == face);
                        }
                    }
                }
            }
            i = i + 1;
        }
        proof {
            assert(points@.take(i as int) =~= points@);
        }
        f = f + 1;
    }
}

/// Fills the cube of a point light with the occluders at `points`, by the
/// strategy asked for. What the cube holds afterwards does not depend on
/// the strategy.
pub fn render_cube(c: &mut DepthCube, t: &CubeTransform, points: &Vec<Vec3>, strategy: CubeStrategy)
    requires
        old(c).wf(),
        t.wf(),
    ensures
        cube_rendered(old(c), final(c), *t, points@),
{
    match strategy {
        CubeStrategy::SixPasses => render_cube_six_passes(c, t, points),
        CubeStrategy::Amplified => render_cube_amplified(c, t, points),
    }
}

/// Six passes and one amplified pass are equivalent: two cubes rendered
/// from the same start with the same occluders hold the same depth in
/// every texel.
pub proof fn lemma_strategies_agree(
    start: &DepthCube,
    six: &DepthCube,
    amplified: &DepthCube,
    t: CubeTransform,
    pts: Seq<Vec3>,
)
    requires
        cube_rendered(start, six, t, pts),
        cube_rendered(start, amplified, t, pts),
    ensures
        forall|f: CubeFace, x: int, y: int|
            0 <= x < start.size && 0 <= y < start.size ==> #[trigger] six.at(f, x, y)
                == amplified.at(f, x, y),
{
    assert forall|f: CubeFace, x: int, y: int|
        0 <= x < start.size && 0 <= y < start.size implies #[trigger] six.at(f, x, y)
        == amplified.at(f, x, y) by {
        assert(six.at(f, x, y) == cube_after(start.at(f, x, y), t, start.size as int, pts, f, x, y));
        assert(amplified.at(f, x, y) == cube_after(
            start.at(f, x, y),
            t,
            start.size as int,
            pts,
            f,
            x,
            y,
        ));
    }
}

} // verus!
