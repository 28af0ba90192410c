//! What the depth pass and the sampler mean together: a scene without
//! occluders is unshadowed, and a fragment behind an occluder is
//! shadowed.

use crate::cube::select_face_spec;
use crate::cube::CubeFace;
use crate::cube::CubeTransform;
use crate::depth_map::lemma_texel_index;
use crate::depth_map::DepthCube;
use crate::depth_map::DepthMap;
use crate::depth_pass::cube_after;
use crate::depth_pass::cube_depth;
use crate::depth_pass::lands_cube;
use crate::depth_pass::lands_ortho;
use crate::depth_pass::ortho_after;
use crate::project::cube_x;
use crate::project::cube_y;
use crate::project::distance_spec;
use crate::project::lemma_ratio;
use crate::project::lemma_restore;
use crate::project::ortho_depth;
use crate::project::ortho_x;
use crate::project::ortho_y;
use crate::project::restored_distance;
use crate::sampler::cosine_spec;
use crate::sampler::disk_direction;
use crate::sampler::lemma_cleared_is_lit;
use crate::sampler::lemma_occluded_is_dark;
use crate::sampler::lemma_part;
use crate::sampler::lit_in_disk;
use crate::sampler::point_lit;
use crate::sampler::sample_directional_spec;
use crate::sampler::sample_point_spec;
use crate::sampler::slope_bias_spec;
use crate::sampler::Filter;
use crate::sampler::DISK_SAMPLES;
use crate::scalar::ONE;
use crate::transform::OrthoView;
use crate::vector::Vec3;
use crate::vector::COORD_MAX;
use crate::vector::DIR_MAX;
use crate::vector::V3;
use vstd::arithmetic::div_mod::lemma_div_by_multiple;
use vstd::prelude::*;

verus! {

/// After a depth pass a texel holds no more than it held before, and no
/// more than the depth of any occluder that landed on it.
pub proof fn lemma_ortho_after_least(
    base: u64,
    t: OrthoView,
    w: int,
    h: int,
    pts: Seq<Vec3>,
    x: int,
    y: int,
)
    ensures
        ortho_after(base, t, w, h, pts, x, y) <= base,
        forall|i: int|
            0 <= i < pts.len() && lands_ortho(t, w, h, (#[trigger] pts[i])@, x, y) ==> ortho_after(
                base,
                t,
                w,
                h,
                pts,
                x,
                y,
            ) <= ortho_depth(t, pts[i]@),
    decreases pts.len(),
{
    if pts.len() > 0 {
        let rest = pts.drop_last();
        let p = pts.last()@;
        lemma_ortho_after_least(base, t, w, h, rest, x, y);
        if lands_ortho(t, w, h, p, x, y) {
            lemma_ratio(t.forward.dot(p), t.near, t.far, ONE as int);
        }
        assert forall|i: int|
            0 <= i < pts.len() && lands_ortho(t, w, h, (#[trigger] pts[i])@, x, y) implies ortho_after(
            base,
            t,
            w,
            h,
            pts,
            x,
            y,
        ) <= ortho_depth(t, pts[i]@) by {
            if i < pts.len() - 1 {
                assert(rest[i] == pts[i]);
            }
        }
    }
}

/// After a depth pass a texel of a cube holds no more than it held before,
/// and no more than the depth of any occluder that landed on it.
pub proof fn lemma_cube_after_least(
    base: u64,
    t: CubeTransform,
    size: int,
    pts: Seq<Vec3>,
    face: CubeFace,
    x: int,
    y: int,
)
    requires
        0 < t.far,
    ensures
        cube_after(base, t, size, pts, face, x, y) <= base,
        forall|i: int|
            0 <= i < pts.len() && lands_cube(t, size, (#[trigger] pts[i])@, face, x, y)
                ==> cube_after(base, t, size, pts, face, x, y) <= cube_depth(t, pts[i]@),
    decreases pts.len(),
{
    if pts.len() > 0 {
        let rest = pts.drop_last();
        let p = pts.last()@;
        lemma_cube_after_least(base, t, size, rest, face, x, y);
        if lands_cube(t, size, p, face, x, y) {
            crate::project::lemma_component_le_distance(p.minus(t.eye@));
            lemma_restore(distance_spec(p.minus(t.eye@)), t.far as int);
        }
        assert forall|i: int|
            0 <= i < pts.len() && lands_cube(t, size, (#[trigger] pts[i])@, face, x, y) implies cube_after(
            base,
            t,
            size,
            pts,
            face,
            x,
            y,
        ) <= cube_depth(t, pts[i]@) by {
            if i < pts.len() - 1 {
                assert(rest[i] == pts[i]);
            }
        }
    }
}

/// A directional light whose map holds no occluder shadows nothing: every
/// fragment has the factor `ONE`.
pub proof fn lemma_unoccluded_directional(m: &DepthMap, t: OrthoView, p: V3, n: V3, f: Filter)
    requires
        m.wf(),
        m.cleared(),
    ensures
        sample_directional_spec(m, t, p, n, f) == ONE,
{
    if p.within(COORD_MAX as int) && n.within(DIR_MAX as int) && t.contains(p) {
        lemma_ratio(t.forward.dot(p), t.near, t.far, ONE as int);
        crate::sampler::lemma_bias_range(
            f.bias.min as int,
            f.bias.max as int,
            cosine_spec(n, t.forward.scaled(-1)),
        );
        lemma_cleared_is_lit(
            m,
            ortho_x(t, p, m.width as int),
            ortho_y(t, p, m.height as int),
            f.reach(),
            ortho_depth(t, p),
            slope_bias_spec(
                f.bias.min as int,
                f.bias.max as int,
                cosine_spec(n, t.forward.scaled(-1)),
            ),
        );
    }
}

/// Under a directional light, a fragment is in full shadow where every
/// texel of the window around its own holds a depth that lies more than
/// the bias before it: the depth of an occluder, or less.
pub proof fn lemma_occluders_shadow(m: &DepthMap, t: OrthoView, p: V3, n: V3, f: Filter)
    requires
        p.within(COORD_MAX as int),
        n.within(DIR_MAX as int),
        t.contains(p),
        forall|u: int, v: int|
            ortho_x(t, p, m.width as int) - f.reach() <= u <= ortho_x(t, p, m.width as int)
                + f.reach() && ortho_y(t, p, m.height as int) - f.reach() <= v <= ortho_y(
                t,
                p,
                m.height as int,
            ) + f.reach() ==> (#[trigger] m.fetch_spec(u, v)) + slope_bias_spec(
                f.bias.min as int,
                f.bias.max as int,
                cosine_spec(n, t.forward.scaled(-1)),
            ) < ortho_depth(t, p),
    ensures
        sample_directional_spec(m, t, p, n, f) == 0,
{
    lemma_occluded_is_dark(
        m,
        ortho_x(t, p, m.width as int),
        ortho_y(t, p, m.height as int),
        f.reach(),
        ortho_depth(t, p),
        slope_bias_spec(f.bias.min as int, f.bias.max as int, cosine_spec(n, t.forward.scaled(-1))),
    );
}

/// Every sample of a cube without occluders lights the fragment.
proof fn lemma_disk_cleared(
    c: &DepthCube,
    v: V3,
    radius: int,
    dist: int,
    far: int,
    bias: int,
    k: nat,
)
    requires
        c.wf(),
        c.cleared(),
        0 <= dist <= far,
        0 <= bias,
        forall|j: int|
            0 <= j < k && !disk_direction(v, radius, j).is_zero() ==> 0 <= #[trigger] cube_x(
                disk_direction(v, radius, j),
                c.size as int,
            ) < c.size && 0 <= cube_y(disk_direction(v, radius, j), c.size as int) < c.size,
    ensures
        lit_in_disk(c, v, radius, dist, far, bias, k) == k,
    decreases k,
{
    if k > 0 {
        lemma_disk_cleared(c, v, radius, dist, far, bias, (k - 1) as nat);
        let dir = disk_direction(v, radius, k - 1);
        if !dir.is_zero() {
            let face = select_face_spec(dir);
            let x = cube_x(dir, c.size as int);
            let y = cube_y(dir, c.size as int);
            assert(0 <= x < c.size && 0 <= y < c.size);
            let m = c.faces[face.index_spec()];
            assert(m.wf() && m.cleared());
            lemma_texel_index(x, y, c.size as int, c.size as int);
            assert(c.at(face, x, y) == ONE);
            assert(ONE * far == far * ONE) by (nonlinear_arith);
            lemma_div_by_multiple(far, ONE as int);
            assert(restored_distance(ONE as int, far) == far);
        }
        assert(point_lit(c, dir, dist, far, bias));
    }
}

/// A point light whose cube holds no occluder shadows nothing: every
/// fragment has the factor `ONE`.
pub proof fn lemma_unoccluded_point(c: &DepthCube, t: CubeTransform, p: V3, bias: int, radius: int)
    requires
        c.wf(),
        c.cleared(),
        t.wf(),
        0 <= bias,
    ensures
        sample_point_spec(c, t, p, bias, radius) == ONE,
{
    let v = p.minus(t.eye@);
    if p.within(COORD_MAX as int) && !v.is_zero() && distance_spec(v) <= t.far {
        crate::project::lemma_component_le_distance(v);
        assert forall|j: int|
            0 <= j < DISK_SAMPLES && !disk_direction(v, radius, j).is_zero() implies 0
            <= #[trigger] cube_x(disk_direction(v, radius, j), c.size as int) < c.size && 0 <= cube_y(
            disk_direction(v, radius, j),
            c.size as int,
        ) < c.size by {
            let dir = disk_direction(v, radius, j);
            crate::cube::lemma_select_face_covers(dir);
            let r = crate::cube::view_rotate(select_face_spec(dir), dir);
            crate::project::lemma_ratio(r.x, r.z, -r.z, c.size as int);
            crate::project::lemma_ratio(r.y, r.z, -r.z, c.size as int);
        }
        lemma_disk_cleared(
            c,
            v,
            radius,
            distance_spec(v),
            t.far as int,
            bias,
            DISK_SAMPLES as nat,
        );
        lemma_part(DISK_SAMPLES as int, DISK_SAMPLES as int);
    }
}

} // verus!
