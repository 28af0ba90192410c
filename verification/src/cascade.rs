//! Cascaded shadow maps: one light transform for each part of the camera's
//! depth range, the choice of the cascade for a fragment, and the blend
//! between two cascades where they meet.

use crate::bounds::Aabb;
use crate::depth_map::DepthMap;
use crate::depth_map::MAX_RESOLUTION;
use crate::error::ShadowError;
use crate::frustum::lemma_fitted_holds;
use crate::frustum::FitMode;
use crate::frustum::Frustum;
use crate::sampler::sample_directional;
use crate::sampler::sample_directional_spec;
use crate::sampler::Filter;
use crate::scalar::lemma_mix_between;
use crate::scalar::lemma_mul_le;
use crate::scalar::mix;
use crate::scalar::mix_spec;
use crate::scalar::ONE;
use crate::snap::snap_to_texels;
use crate::snap::snapped_spec;
use crate::snap::texel_step;
use crate::snap::texel_step_spec;
use crate::split::boundary;
use crate::split::contiguous;
use crate::split::degenerate;
use crate::split::lemma_cuts;
use crate::split::split_depths;
use crate::split::Split;
use crate::split::SplitScheme;
use crate::transform::direction_valid;
use crate::transform::directional_spec;
use crate::transform::directional_transform;
use crate::transform::lemma_directional_contains;
use crate::transform::OrthoTransform;
use crate::vector::Vec3;
use crate::vector::DIR_MAX;
use crate::vector::V3;
use vstd::arithmetic::div_mod::lemma_div_by_multiple;
use vstd::arithmetic::div_mod::lemma_div_is_ordered;
use vstd::prelude::*;

verus! {

/// One cascade: the depths it covers, the box around that part of the
/// camera's frustum, and the light's transform fitted to the box.
#[derive(Clone, Copy, Debug, PartialEq, Eq, Structural)]
pub struct Cascade {
    pub split: Split,
    pub bounds: Aabb,
    pub transform: OrthoTransform,
}

/// Whether `c` is the cascade with index `i` of `n` for a camera, a light
/// along `d`, a logarithmic weight of `w` and a way of fitting the box.
pub open spec fn is_cascade(
    camera: &Frustum,
    d: V3,
    n: nat,
    w: int,
    fit: FitMode,
    i: nat,
    c: Cascade,
) -> bool {
    &&& c.split.near == boundary(camera.near as int, camera.far as int, n, w, i)
    &&& c.split.far == boundary(camera.near as int, camera.far as int, n, w, (i + 1) as nat)
    &&& c.bounds@ == camera.fitted_spec(c.split, fit)
    &&& c.transform@ == directional_spec(d, c.bounds@)
}

/// The depths that the cascades cover, in their order.
pub open spec fn splits_of(cs: Seq<Cascade>) -> Seq<Split> {
    Seq::new(cs.len(), |i: int| cs[i].split)
}

/// Cuts the camera's frustum into `n` cascades and fits the transform of a
/// light along `direction` to each.
///
/// A direction that is zero or out of range is rejected first, then a
/// depth range that is degenerate. Every other request is met.
pub fn fit_cascades(
    camera: &Frustum,
    direction: &Vec3,
    n: usize,
    scheme: SplitScheme,
    fit: FitMode,
) -> (r: Result<Vec<Cascade>, ShadowError>)
    requires
        camera.wf(),
    ensures
        !direction_valid(direction@) <==> r == Err::<Vec<Cascade>, ShadowError>(
            ShadowError::InvalidLightState,
        ),
        direction_valid(direction@) && degenerate(camera.near as int, camera.far as int, n as int)
            <==> r == Err::<Vec<Cascade>, ShadowError>(ShadowError::DegenerateFrustum),
        r is Ok <==> direction_valid(direction@) && !degenerate(
            camera.near as int,
            camera.far as int,
            n as int,
        ),
        r is Ok ==> {
            let cs = r->Ok_0@;
            &&& cs.len() == n
            &&& forall|i: int|
                0 <= i < n ==> is_cascade(
                    camera,
                    direction@,
                    n as nat,
                    scheme.weight(),
                    fit,
                    i as nat,
                    #[trigger] cs[i],
                )
            &&& forall|i: int|
                0 <= i < n ==> (#[trigger] cs[i]).transform@.wf() && cs[i].transform@.bounded()
                    && cs[i].bounds@.wf()
            &&& contiguous(splits_of(cs), camera.near as int, camera.far as int)
        },
{
    if direction.is_zero() || !direction.within(DIR_MAX) {
        return Err(ShadowError::InvalidLightState);
    }
    let splits = match split_depths(camera.near, camera.far, n, scheme) {
        Ok(s) => s,
        Err(e) => {
            return Err(e);
        },
    };
    let mut cascades: Vec<Cascade> = Vec::new();
    let mut i: usize = 0;
    while i < n
        invariant
            i <= n,
            camera.wf(),
            camera.near < camera.far,
            direction_valid(direction@),
            splits.len() == n,
            contiguous(splits@, camera.near as int, camera.far as int),
            forall|j: int|
                0 <= j < n ==> (#[trigger] splits[j]).near == boundary(
                    camera.near as int,
                    camera.far as int,
                    n as nat,
                    scheme.weight(),
                    j as nat,
                ) && splits[j].far == boundary(
                    camera.near as int,
                    camera.far as int,
                    n as nat,
                    scheme.weight(),
                    (j + 1) as nat,
                ),
            cascades.len() == i,
            forall|j: int|
                0 <= j < i ==> is_cascade(
                    camera,
                    direction@,
                    n as nat,
                    scheme.weight(),
                    fit,
                    j as nat,
                    #[trigger] cascades[j],
                ) && cascades[j].split == splits[j] && cascades[j].transform@.wf()
                    && cascades[j].transform@.bounded() && cascades[j].bounds@.wf(),
        decreases n - i,
    {
        let split = splits[i];
        proof {
            lemma_cuts(camera.near, camera.far, n, scheme, i);
            lemma_cuts(camera.near, camera.far, n, scheme, (i + 1) as usize);
        }
        let bounds = camera.fitted(&split, fit);
        let transform = match directional_transform(direction, &bounds) {
            Ok(t) => t,
            Err(e) => {
                return Err(e);
            },
        };
        cascades.push(Cascade { split, bounds, transform });
        i = i + 1;
    }
    assert(splits_of(cascades@) =~= splits@);
    Ok(cascades)
}

/// The transform `t` with its box snapped to the texels of a square map
/// of the given resolution.
pub open spec fn snapped_to_map(t: crate::transform::OrthoView, resolution: int) -> crate::transform::OrthoView {
    snapped_spec(
        t,
        texel_step_spec(t.left, t.right, resolution),
        texel_step_spec(t.bottom, t.top, resolution),
    )
}

/// Cuts the camera's frustum into `n` cascades as `fit_cascades` does, and
/// snaps the box of each to the texels of its map, a square map of the
/// given resolution. A snapped box still holds what the box held.
pub fn fit_snapped_cascades(
    camera: &Frustum,
    direction: &Vec3,
    n: usize,
    scheme: SplitScheme,
    fit: FitMode,
    resolution: usize,
) -> (r: Result<Vec<Cascade>, ShadowError>)
    requires
        camera.wf(),
        2 <= resolution <= MAX_RESOLUTION,
    ensures
        !direction_valid(direction@) <==> r == Err::<Vec<Cascade>, ShadowError>(
            ShadowError::InvalidLightState,
        ),
        direction_valid(direction@) && degenerate(camera.near as int, camera.far as int, n as int)
            <==> r == Err::<Vec<Cascade>, ShadowError>(ShadowError::DegenerateFrustum),
        r is Ok <==> direction_valid(direction@) && !degenerate(
            camera.near as int,
            camera.far as int,
            n as int,
        ),
        r is Ok ==> {
            let cs = r->Ok_0@;
            &&& cs.len() == n
            &&& forall|i: int|
                0 <= i < n ==> {
                    let c = #[trigger] cs[i];
                    &&& c.split.near == boundary(
                        camera.near as int,
                        camera.far as int,
                        n as nat,
                        scheme.weight(),
                        i as nat,
                    )
                    &&& c.split.far == boundary(
                        camera.near as int,
                        camera.far as int,
                        n as nat,
                        scheme.weight(),
                        (i + 1) as nat,
                    )
                    &&& c.bounds@ == camera.fitted_spec(c.split, fit)
                    &&& c.transform@ == snapped_to_map(
                        directional_spec(direction@, c.bounds@),
                        resolution as int,
                    )
                    &&& c.transform@.wf()
                    &&& c.bounds@.wf()
                    &&& forall|p: V3| c.bounds@.contains(p) ==> #[trigger] c.transform@.contains(p)
                }
        },
{
    let fitted = match fit_cascades(camera, direction, n, scheme, fit) {
        Ok(cs) => cs,
        Err(e) => {
            return Err(e);
        },
    };
    let mut out: Vec<Cascade> = Vec::new();
    let mut i: usize = 0;
    while i < n
        invariant
            i <= n,
            fitted.len() == n,
            out.len() == i,
            2 <= resolution <= MAX_RESOLUTION,
            forall|j: int|
                0 <= j < n ==> is_cascade(
                    camera,
                    direction@,
                    n as nat,
                    scheme.weight(),
                    fit,
                    j as nat,
                    #[trigger] fitted[j],
                ) && fitted[j].transform@.wf() && fitted[j].transform@.bounded()
                    && fitted[j].bounds@.wf(),
            forall|j: int|
                0 <= j < i ==> {
                    let c = #[trigger] out[j];
                    &&& c.split == fitted[j].split
                    &&& c.bounds == fitted[j].bounds
                    &&& c.transform@ == snapped_to_map(fitted[j].transform@, resolution as int)
                    &&& c.transform@.wf()
                    &&& c.bounds@.wf()
                    &&& forall|p: V3| c.bounds@.contains(p) ==> #[trigger] c.transform@.contains(p)
                },
        decreases n - i,
    {
        let c = fitted[i];
        let t = c.transform;
        let step_x = texel_step(t.left, t.right, resolution);
        let step_y = texel_step(t.bottom, t.top, resolution);
        let snapped = snap_to_texels(&t, step_x, step_y);
        proof {
            assert forall|p: V3| c.bounds@.contains(p) implies #[trigger] snapped@.contains(p) by {
                lemma_directional_contains(direction@, c.bounds@, p);
                assert(t@.contains(p));
            }
        }
        out.push(Cascade { split: c.split, bounds: c.bounds, transform: snapped });
        i = i + 1;
    }
    Ok(out)
}

/// With one cascade the splitter does what the builder does for the whole
/// frustum: the cascade covers the camera's depth range, its box is the
/// box around the frustum, and its transform is the one of that box.
pub proof fn lemma_single_cascade(camera: &Frustum, d: V3, w: int, c: Cascade)
    requires
        camera.wf(),
        camera.near < camera.far,
        0 <= w <= ONE,
        is_cascade(camera, d, 1, w, FitMode::Box, 0, c),
    ensures
        c.split == (Split { near: camera.near, far: camera.far }),
        c.bounds@ == camera.bounds_spec(),
        c.transform@ == directional_spec(d, camera.bounds_spec()),
{
    let scheme = if w == 0 {
        SplitScheme::Uniform
    } else {
        SplitScheme::Practical { blend: w as u64 }
    };
    lemma_cuts(camera.near, camera.far, 1, scheme, 0);
}

/// The transform of a cascade holds the part of the frustum that the
/// cascade covers, however its box was fitted: none of the eight corners
/// of the part lies outside the projection box.
pub proof fn lemma_cascade_holds_slice(
    camera: &Frustum,
    d: V3,
    n: nat,
    w: int,
    fit: FitMode,
    i: nat,
    c: Cascade,
)
    requires
        camera.wf(),
        camera.near < camera.far,
        camera.covers(c.split),
        is_cascade(camera, d, n, w, fit, i, c),
    ensures
        forall|k: int|
            0 <= k < 8 ==> c.transform@.contains(
                #[trigger] camera.slice_corners(c.split.near as int, c.split.far as int)[k]@,
            ),
{
    let pts = camera.slice_corners(c.split.near as int, c.split.far as int);
    lemma_fitted_holds(camera, c.split, fit);
    assert forall|k: int| 0 <= k < 8 implies c.transform@.contains(#[trigger] pts[k]@) by {
        assert(c.bounds@.contains(pts[k]@));
        lemma_directional_contains(d, c.bounds@, pts[k]@);
    }
}

/// Whether the cascade with index `i` is the first whose far cut lies
/// beyond `depth`.
pub open spec fn selects(cs: Seq<Cascade>, depth: int, i: int) -> bool {
    &&& 0 <= i < cs.len()
    &&& cs[i].split.far > depth
    &&& forall|j: int| 0 <= j < i ==> (#[trigger] cs[j]).split.far <= depth
}

/// Whether no cascade reaches beyond `depth`.
pub open spec fn beyond_all(cs: Seq<Cascade>, depth: int) -> bool {
    forall|j: int| 0 <= j < cs.len() ==> (#[trigger] cs[j]).split.far <= depth
}

/// The cascade for a fragment at a view depth: the first whose far cut
/// lies beyond it; none where the fragment lies beyond them all.
pub fn select_cascade(cascades: &Vec<Cascade>, depth: u64) -> (r: Option<usize>)
    ensures
        r is Some ==> selects(cascades@, depth as int, r->0 as int),
        r is None ==> beyond_all(cascades@, depth as int),
{
    let mut i: usize = 0;
    while i < cascades.len()
        invariant
            i <= cascades.len(),
            forall|j: int| 0 <= j < i ==> (#[trigger] cascades[j]).split.far <= depth,
        decreases cascades.len() - i,
    {
        if cascades[i].split.far > depth {
            return Some(i);
        }
        i = i + 1;
    }
    None
}

/// At most one cascade is selected for a depth.
pub proof fn lemma_selects_unique(cs: Seq<Cascade>, depth: int, i: int, j: int)
    requires
        selects(cs, depth, i),
        selects(cs, depth, j),
    ensures
        i == j,
{
    if i < j {
        assert(cs[i].split.far <= depth);
    } else if j < i {
        assert(cs[j].split.far <= depth);
    }
}

/// The cascades to sample for a fragment: the one selected, a neighbour
/// of it, and the weight of the neighbour in fixed point.
#[derive(Clone, Copy, Debug, PartialEq, Eq, Structural)]
pub struct CascadeBlend {
    pub primary: usize,
    pub secondary: usize,
    pub weight: u64,
}

/// The weight of the neighbouring cascade at a distance of `gap` from the
/// cut, in a zone that reaches `half` to each side of it: a half at the
/// cut, nothing at the rim of the zone.
pub open spec fn zone_weight(gap: int, half: int) -> int {
    ((half - gap) * ONE) / (2 * half)
}

/// The weight in a zone is at most a half, and a half at the cut.
pub proof fn lemma_zone_weight(gap: int, half: int)
    requires
        0 <= gap <= half,
        0 < half,
    ensures
        0 <= zone_weight(gap, half) <= ONE / 2,
        gap == 0 ==> zone_weight(gap, half) == ONE / 2,
        gap == half ==> zone_weight(gap, half) == 0,
{
    let h = ONE / 2;
    lemma_mul_le(half - gap, ONE as int, half, ONE as int);
    lemma_div_is_ordered(0, (half - gap) * ONE, 2 * half);
    lemma_div_is_ordered((half - gap) * ONE, half * ONE, 2 * half);
    assert(half * ONE == h * (2 * half)) by (nonlinear_arith)
        requires
            h * 2 == ONE,
    ;
    lemma_div_by_multiple(h as int, 2 * half);
    assert(0 * ONE == 0) by (nonlinear_arith);
}

/// Whether a fragment at `depth` in cascade `i` lies in the zone before
/// the far cut of the cascade.
pub open spec fn in_far_zone(cs: Seq<Cascade>, depth: int, half: int, i: int) -> bool {
    half > 0 && i + 1 < cs.len() && cs[i].split.far - depth <= half
}

/// Whether a fragment at `depth` in cascade `i` lies in the zone behind
/// the near cut of the cascade.
pub open spec fn in_near_zone(cs: Seq<Cascade>, depth: int, half: int, i: int) -> bool {
    half > 0 && i > 0 && depth >= cs[i].split.near && depth - cs[i].split.near < half
}

/// The blend for a fragment at `depth` for which cascade `i` is selected.
/// Within `half` of a cut the cascade on the other side of the cut is
/// mixed in; where the fragment lies in the zones of both cuts of its
/// cascade, the nearer cut counts, and the far cut where both are as near.
pub open spec fn blend_spec(cs: Seq<Cascade>, depth: int, half: int, i: int) -> CascadeBlend {
    if in_near_zone(cs, depth, half, i) && (!in_far_zone(cs, depth, half, i) || depth
        - cs[i].split.near < cs[i].split.far - depth) {
        CascadeBlend {
            primary: i as usize,
            secondary: (i - 1) as usize,
            weight: zone_weight(depth - cs[i].split.near, half) as u64,
        }
    } else if in_far_zone(cs, depth, half, i) {
        CascadeBlend {
            primary: i as usize,
            secondary: (i + 1) as usize,
            weight: zone_weight(cs[i].split.far - depth, half) as u64,
        }
    } else {
        CascadeBlend { primary: i as usize, secondary: i as usize, weight: 0 }
    }
}

/// The weight of a blend is at most a half, and its cascades exist.
pub proof fn lemma_blend(cs: Seq<Cascade>, depth: int, half: int, i: int)
    requires
        selects(cs, depth, i),
        cs.len() <= usize::MAX,
        0 <= half <= u64::MAX,
        0 <= depth,
    ensures
        blend_spec(cs, depth, half, i).primary == i,
        blend_spec(cs, depth, half, i).secondary < cs.len(),
        blend_spec(cs, depth, half, i).weight <= ONE / 2,
{
    if in_far_zone(cs, depth, half, i) {
        lemma_zone_weight(cs[i].split.far - depth, half);
    }
    if in_near_zone(cs, depth, half, i) {
        lemma_zone_weight(depth - cs[i].split.near, half);
    }
}

/// On the cut between two cascades the two are mixed half and half: the
/// cascade that begins at the cut and the one before it, whatever the
/// lengths of the cascades.
pub proof fn lemma_blend_on_cut(cs: Seq<Cascade>, depth: int, half: int, i: int)
    requires
        selects(cs, depth, i),
        0 < i,
        0 < half,
        depth == cs[i].split.near,
        cs.len() <= usize::MAX,
    ensures
        blend_spec(cs, depth, half, i).secondary == i - 1,
        blend_spec(cs, depth, half, i).weight == ONE / 2,
{
    lemma_zone_weight(0, half);
}

fn zone_weight_of(gap: u64, half: u64) -> (r: u64)
    requires
        gap <= half,
        0 < half,
    ensures
        r == zone_weight(gap as int, half as int),
        r <= ONE / 2,
{
    proof {
        lemma_zone_weight(gap as int, half as int);
        lemma_mul_le((half - gap) as int, ONE as int, u64::MAX as int, ONE as int);
    }
    let num: u128 = ((half - gap) as u128) * (ONE as u128);
    let den: u128 = 2 * (half as u128);
    (num / den) as u64
}

/// The blend for a fragment at `depth`, in a zone that reaches `half_zone`
/// to each side of a cut; none where the fragment lies beyond all cascades.
pub fn cascade_blend(cascades: &Vec<Cascade>, depth: u64, half_zone: u64) -> (r: Option<
    CascadeBlend,
>)
    ensures
        r is None ==> beyond_all(cascades@, depth as int),
        r is Some ==> {
            &&& selects(cascades@, depth as int, r->0.primary as int)
            &&& r->0 == blend_spec(cascades@, depth as int, half_zone as int, r->0.primary as int)
            &&& r->0.secondary < cascades.len()
            &&& r->0.weight <= ONE / 2
        },
{
    let i = match select_cascade(cascades, depth) {
        None => {
            return None;
        },
        Some(i) => i,
    };
    let count = cascades.len();
    proof {
        assert(cascades@.len() == count);
        lemma_blend(cascades@, depth as int, half_zone as int, i as int);
    }
    let c = &cascades[i];
    let far_zone = half_zone > 0 && i < count - 1 && c.split.far - depth <= half_zone;
    let near_zone = half_zone > 0 && i > 0 && depth >= c.split.near && depth - c.split.near
        < half_zone;
    if near_zone && (!far_zone || depth - c.split.near < c.split.far - depth) {
        let w = zone_weight_of(depth - c.split.near, half_zone);
        Some(CascadeBlend { primary: i, secondary: i - 1, weight: w })
    } else if far_zone {
        let w = zone_weight_of(c.split.far - depth, half_zone);
        Some(CascadeBlend { primary: i, secondary: i + 1, weight: w })
    } else {
        Some(CascadeBlend { primary: i, secondary: i, weight: 0 })
    }
}

/// The mix of the factors of two cascades for the weight of the second.
pub fn blend_factors(primary: u64, secondary: u64, weight: u64) -> (r: u64)
    ensures
        r == mix_spec(primary as int, secondary as int, crate::scalar::clamp_unit(weight as int)),
        primary <= secondary ==> primary <= r <= secondary,
        secondary <= primary ==> secondary <= r <= primary,
{
    mix(primary, secondary, weight)
}

/// A blended factor is a convex combination of the factors of the two
/// cascades: it lies between them, whatever the weight.
pub proof fn lemma_blend_convex(primary: int, secondary: int, weight: int)
    requires
        0 <= weight <= ONE,
    ensures
        primary <= secondary ==> primary <= mix_spec(primary, secondary, weight) <= secondary,
        secondary <= primary ==> secondary <= mix_spec(primary, secondary, weight) <= primary,
{
    lemma_mix_between(primary, secondary, weight);
}

/// Every map is well formed, and so is every cascade's transform.
pub open spec fn cascades_wf(cs: Seq<Cascade>, maps: Seq<DepthMap>) -> bool {
    &&& cs.len() == maps.len()
    &&& forall|i: int| 0 <= i < cs.len() ==> (#[trigger] cs[i]).transform@.wf()
    &&& forall|i: int| 0 <= i < maps.len() ==> (#[trigger] maps[i]).wf()
}

/// The shadow factor of a fragment under a directional light with
/// cascades. Beyond all cascades the fragment is unshadowed. Else the
/// factor of the selected cascade is mixed with that of the neighbour in
/// the blend, each computed from its own map and transform.
pub open spec fn sample_cascaded_spec(
    cs: Seq<Cascade>,
    maps: Seq<DepthMap>,
    p: V3,
    n: V3,
    depth: int,
    f: Filter,
    half: int,
) -> int {
    if beyond_all(cs, depth) {
        ONE as int
    } else {
        let i = choose|i: int| selects(cs, depth, i);
        let b = blend_spec(cs, depth, half, i);
        let first = sample_directional_spec(&maps[i], cs[i].transform@, p, n, f);
        if b.weight == 0 {
            first
        } else {
            mix_spec(
                first,
                sample_directional_spec(
                    &maps[b.secondary as int],
                    cs[b.secondary as int].transform@,
                    p,
                    n,
                    f,
                ),
                b.weight as int,
            )
        }
    }
}

/// The shadow factor of a fragment under a directional light with
/// cascades.
pub fn sample_cascaded(
    cascades: &Vec<Cascade>,
    maps: &Vec<DepthMap>,
    position: &Vec3,
    normal: &Vec3,
    view_depth: u64,
    filter: Filter,
    half_zone: u64,
) -> (r: u64)
    requires
        cascades_wf(cascades@, maps@),
    ensures
        r == sample_cascaded_spec(
            cascades@,
            maps@,
            position@,
            normal@,
            view_depth as int,
            filter,
            half_zone as int,
        ),
        r <= ONE,
{
    match cascade_blend(cascades, view_depth, half_zone) {
        None => ONE,
        Some(b) => {
            proof {
                let i = choose|i: int| selects(cascades@, view_depth as int, i);
                lemma_selects_unique(cascades@, view_depth as int, i, b.primary as int);
                assert(!beyond_all(cascades@, view_depth as int)) by {
                    assert(cascades@[b.primary as int].split.far > view_depth);
                }
            }
            let first = sample_directional(
                &maps[b.primary],
                &cascades[b.primary].transform,
                position,
                normal,
                filter,
            );
            if b.weight == 0 {
                first
            } else {
                let second = sample_directional(
                    &maps[b.secondary],
                    &cascades[b.secondary].transform,
                    position,
                    normal,
                    filter,
                );
                blend_factors(first, second, b.weight)
            }
        },
    }
}

/// A fragment on the cut between two cascades gets a convex combination
/// of the factors that the two cascades give it on their own: their mix
/// half and half, which lies between the two. There is no seam.
pub proof fn lemma_sample_on_cut(
    cs: Seq<Cascade>,
    maps: Seq<DepthMap>,
    p: V3,
    n: V3,
    depth: int,
    f: Filter,
    half: int,
    i: int,
)
    requires
        selects(cs, depth, i),
        0 < i,
        0 < half,
        depth == cs[i].split.near,
        cs.len() <= usize::MAX,
    ensures
        ({
            let here = sample_directional_spec(&maps[i], cs[i].transform@, p, n, f);
            let before = sample_directional_spec(&maps[i - 1], cs[i - 1].transform@, p, n, f);
            let mixed = sample_cascaded_spec(cs, maps, p, n, depth, f, half);
            &&& mixed == mix_spec(here, before, (ONE / 2) as int)
            &&& here <= before ==> here <= mixed <= before
            &&& before <= here ==> before <= mixed <= here
        }),
{
    let chosen = choose|j: int| selects(cs, depth, j);
    lemma_selects_unique(cs, depth, chosen, i);
    lemma_blend_on_cut(cs, depth, half, i);
    assert(!beyond_all(cs, depth)) by {
        assert(cs[i].split.far > depth);
    }
    let here = sample_directional_spec(&maps[i], cs[i].transform@, p, n, f);
    let before = sample_directional_spec(&maps[i - 1], cs[i - 1].transform@, p, n, f);
    lemma_mix_between(here, before, (ONE / 2) as int);
}

/// Between two cascades that meet at a cut there is no seam. A fragment
/// at the depth at which cascade `i` ends and cascade `i + 1`, which is
/// not empty, begins gets a convex combination of the factors that the
/// two give it on their own: their mix half and half.
pub proof fn lemma_no_seam(
    cs: Seq<Cascade>,
    maps: Seq<DepthMap>,
    p: V3,
    n: V3,
    depth: int,
    f: Filter,
    half: int,
    i: int,
)
    requires
        0 <= i,
        i + 1 < cs.len(),
        cs.len() <= usize::MAX,
        0 < half,
        cs[i].split.far == depth,
        cs[i + 1].split.near == depth,
        cs[i + 1].split.far > depth,
        forall|j: int| 0 <= j <= i ==> (#[trigger] cs[j]).split.far <= depth,
    ensures
        ({
            let before = sample_directional_spec(&maps[i], cs[i].transform@, p, n, f);
            let after = sample_directional_spec(&maps[i + 1], cs[i + 1].transform@, p, n, f);
            let mixed = sample_cascaded_spec(cs, maps, p, n, depth, f, half);
            &&& mixed == mix_spec(after, before, (ONE / 2) as int)
            &&& before <= after ==> before <= mixed <= after
            &&& after <= before ==> after <= mixed <= before
        }),
{
    assert(selects(cs, depth, i + 1));
    lemma_sample_on_cut(cs, maps, p, n, depth, f, half, i + 1);
}

/// The size of a texel is at least one step of the lattice.
pub proof fn lemma_texel_step(lo: int, hi: int, resolution: int)
    requires
        1 <= resolution,
    ensures
        1 <= texel_step_spec(lo, hi, resolution),
{
    if hi - lo > resolution {
        lemma_div_is_ordered(resolution, hi - lo + resolution - 1, resolution);
        assert(1 * resolution == resolution) by (nonlinear_arith);
        lemma_div_by_multiple(1, resolution);
    }
}

/// The shadows of a cascade that is fitted to a sphere and snapped to its
/// map do not swim when the camera moves by a vector of the lattice.
/// Where the limits of the world cut off neither cube, the projection box
/// of the moved camera is the box of the camera moved along each axis by
/// the coordinate of the move: it has the same size, and so the same size
/// of texel. Snapped, the planes of the two boxes lie whole texels apart.
pub proof fn lemma_moved_cascade(
    f: &Frustum,
    g: &Frustum,
    d: V3,
    s: Split,
    light: V3,
    resolution: int,
)
    requires
        f.wf(),
        g.wf(),
        f.near < f.far,
        f.covers(s),
        crate::frustum::moved_by(f, g, d),
        1 <= resolution,
        ({
            let c = f.slice_center_spec(s);
            let r = f.slice_reach_spec(s);
            let reach = V3 { x: r, y: r, z: r };
            &&& c.minus(reach).within(crate::vector::COORD_MAX as int)
            &&& c.plus(reach).within(crate::vector::COORD_MAX as int)
            &&& c.plus(d).minus(reach).within(crate::vector::COORD_MAX as int)
            &&& c.plus(d).plus(reach).within(crate::vector::COORD_MAX as int)
        }),
    ensures
        ({
            let a = directional_spec(light, f.slice_sphere_spec(s));
            let b = directional_spec(light, g.slice_sphere_spec(s));
            let step_x = texel_step_spec(a.left, a.right, resolution);
            let step_y = texel_step_spec(a.bottom, a.top, resolution);
            let sa = snapped_to_map(a, resolution);
            let sb = snapped_to_map(b, resolution);
            &&& b.left == a.left + a.side.dot(d) && b.right == a.right + a.side.dot(d)
            &&& b.bottom == a.bottom + a.up.dot(d) && b.top == a.top + a.up.dot(d)
            &&& b.near == a.near + a.forward.dot(d) && b.far == a.far + a.forward.dot(d)
            &&& texel_step_spec(b.left, b.right, resolution) == step_x
            &&& texel_step_spec(b.bottom, b.top, resolution) == step_y
            &&& 1 <= step_x && 1 <= step_y
            &&& (sb.left - sa.left) % step_x == 0 && (sb.right - sa.right) % step_x == 0
            &&& (sb.bottom - sa.bottom) % step_y == 0 && (sb.top - sa.top) % step_y == 0
        }),
{
    let c = f.slice_center_spec(s);
    let r = f.slice_reach_spec(s);
    crate::frustum::lemma_moved_slice(f, g, d, s);
    let box_f = f.slice_sphere_spec(s);
    let box_g = g.slice_sphere_spec(s);
    assert(box_g == crate::bounds::moved_box(box_f, d));
    let a = directional_spec(light, box_f);
    let b = directional_spec(light, box_g);
    crate::transform::lemma_axis_moved(a.side, box_f, d);
    crate::transform::lemma_axis_moved(a.up, box_f, d);
    crate::transform::lemma_axis_moved(a.forward, box_f, d);
    let step_x = texel_step_spec(a.left, a.right, resolution);
    let step_y = texel_step_spec(a.bottom, a.top, resolution);
    lemma_texel_step(a.left, a.right, resolution);
    lemma_texel_step(a.bottom, a.top, resolution);
    crate::snap::lemma_snapped_apart(b.left, a.left, step_x);
    crate::snap::lemma_snapped_apart(b.right, a.right, step_x);
    crate::snap::lemma_snapped_apart(b.bottom, a.bottom, step_y);
    crate::snap::lemma_snapped_apart(b.top, a.top, step_y);
}

} // verus!
