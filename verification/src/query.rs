//! The shadow factor of a fragment for a light of either kind.

use crate::depth_map::DepthCube;
use crate::depth_map::DepthMap;
use crate::error::ShadowError;
use crate::sampler::cosine;
use crate::sampler::cosine_spec;
use crate::sampler::sample_directional;
use crate::sampler::sample_directional_spec;
use crate::sampler::sample_point;
use crate::sampler::sample_point_spec;
use crate::sampler::slope_bias;
use crate::sampler::slope_bias_spec;
use crate::sampler::Filter;
use crate::scalar::lemma_mul_le;
use crate::scalar::ONE;
use crate::transform::LightTransform;
use crate::vector::Vec3;
use crate::vector::COORD_MAX;
use crate::vector::DIR_MAX;
use crate::vector::V3;
use vstd::arithmetic::div_mod::lemma_div_by_multiple;
use vstd::arithmetic::div_mod::lemma_div_is_ordered;
use vstd::prelude::*;

verus! {

/// The shadow map of a light, by the kind of the light.
#[derive(Debug)]
pub enum ShadowMap {
    Flat(DepthMap),
    Cube(DepthCube),
}

impl ShadowMap {
    pub open spec fn wf(&self) -> bool {
        match self {
            ShadowMap::Flat(m) => m.wf(),
            ShadowMap::Cube(c) => c.wf(),
        }
    }
}

/// Whether a transform that was built is well formed.
pub open spec fn transform_wf(t: LightTransform) -> bool {
    match t {
        LightTransform::Directional(o) => o@.wf(),
        LightTransform::Point(c) => c.wf(),
    }
}

/// The longest component of a vector.
pub open spec fn longest(v: V3) -> int {
    crate::cube::max3(crate::cube::abs_int(v.x), crate::cube::abs_int(v.y), crate::cube::abs_int(v.z))
}

/// A component of a vector whose longest component is `m`, stretched or
/// shrunk so that the longest becomes `DIR_MAX`, rounded towards zero.
pub open spec fn scaled_component(c: int, m: int) -> int {
    if c >= 0 {
        (c * DIR_MAX) / m
    } else {
        -(((-c) * DIR_MAX) / m)
    }
}

/// The direction of `v` in the range of directions: `v` stretched or shrunk
/// so that its longest component becomes `DIR_MAX`.
pub open spec fn to_direction_spec(v: V3) -> V3 {
    V3 {
        x: scaled_component(v.x, longest(v)),
        y: scaled_component(v.y, longest(v)),
        z: scaled_component(v.z, longest(v)),
    }
}

/// A component no longer than the longest stays within the range of
/// directions, and the longest becomes `DIR_MAX`.
pub proof fn lemma_scaled_component(c: int, m: int)
    requires
        0 < m,
        -m <= c <= m,
    ensures
        -DIR_MAX <= scaled_component(c, m) <= DIR_MAX,
        c == m ==> scaled_component(c, m) == DIR_MAX,
        c == -m ==> scaled_component(c, m) == -DIR_MAX,
{
    let a = if c >= 0 { c } else { -c };
    lemma_mul_le(a, DIR_MAX as int, m, DIR_MAX as int);
    lemma_div_is_ordered(0, a * DIR_MAX, m);
    lemma_div_is_ordered(a * DIR_MAX, m * DIR_MAX, m);
    assert(m * DIR_MAX == DIR_MAX * m) by (nonlinear_arith);
    lemma_div_by_multiple(DIR_MAX as int, m);
}

fn scale_component(c: i64, m: i64) -> (r: i64)
    requires
        0 < m <= 2 * COORD_MAX,
        -m <= c <= m,
    ensures
        r == scaled_component(c as int, m as int),
        -DIR_MAX <= r <= DIR_MAX,
{
    proof {
        lemma_scaled_component(c as int, m as int);
        lemma_mul_le(if c >= 0 { c as int } else { -c as int }, DIR_MAX as int, 2 * COORD_MAX, DIR_MAX as int);
    }
    if c >= 0 {
        (c * DIR_MAX) / m
    } else {
        -(((-c) * DIR_MAX) / m)
    }
}

/// The direction of a vector between two positions of the world, in the
/// range of directions. The zero vector has no direction and stays zero.
pub fn to_direction(v: &Vec3) -> (r: Vec3)
    requires
        v@.within(2 * COORD_MAX),
    ensures
        v@.is_zero() ==> r@.is_zero(),
        !v@.is_zero() ==> r@ == to_direction_spec(v@) && !r@.is_zero(),
        r@.within(DIR_MAX as int),
{
    if v.is_zero() {
        return Vec3 { x: 0, y: 0, z: 0 };
    }
    let ax: i64 = if v.x < 0 { -v.x } else { v.x };
    let ay: i64 = if v.y < 0 { -v.y } else { v.y };
    let az: i64 = if v.z < 0 { -v.z } else { v.z };
    let m: i64 = if ax >= ay && ax >= az {
        ax
    } else if ay >= az {
        ay
    } else {
        az
    };
    proof {
        lemma_scaled_component(v.x as int, m as int);
        lemma_scaled_component(v.y as int, m as int);
        lemma_scaled_component(v.z as int, m as int);
    }
    Vec3 { x: scale_component(v.x, m), y: scale_component(v.y, m), z: scale_component(v.z, m) }
}

/// The bias for a fragment at `p` with the normal `n` under a point light
/// at `eye`: the slope-scaled bias for the angle between the normal and
/// the direction from the fragment to the light.
pub open spec fn point_bias_spec(eye: V3, p: V3, n: V3, f: Filter) -> int {
    let to_light = eye.minus(p);
    let d = if to_light.is_zero() {
        to_light
    } else {
        to_direction_spec(to_light)
    };
    slope_bias_spec(f.bias.min as int, f.bias.max as int, cosine_spec(n, d))
}

/// The shadow factor of a fragment at `p` with the normal `n`.
///
/// A light whose transform could not be built casts no shadow for the
/// frame, and neither does one whose map is of the other kind: the
/// fragment is unshadowed. So is a fragment under a point light whose
/// normal is out of range.
pub open spec fn shadow_factor_spec(
    transform: Result<LightTransform, ShadowError>,
    map: &ShadowMap,
    p: V3,
    n: V3,
    f: Filter,
    disk: int,
) -> int {
    match (transform, map) {
        (Ok(LightTransform::Directional(t)), ShadowMap::Flat(m)) => sample_directional_spec(
            m,
            t@,
            p,
            n,
            f,
        ),
        (Ok(LightTransform::Point(t)), ShadowMap::Cube(c)) => {
            if !p.within(COORD_MAX as int) || !n.within(DIR_MAX as int) {
                ONE as int
            } else {
                sample_point_spec(c, t, p, point_bias_spec(t.eye@, p, n, f), disk)
            }
        },
        _ => ONE as int,
    }
}

/// The shadow factor of a fragment for a light of either kind: 0 in full
/// shadow, `ONE` in full light. It never fails: what cannot be sampled is
/// unshadowed.
pub fn shadow_factor(
    transform: &Result<LightTransform, ShadowError>,
    map: &ShadowMap,
    position: &Vec3,
    normal: &Vec3,
    filter: Filter,
    disk_radius: u32,
) -> (r: u64)
    requires
        map.wf(),
        *transform is Ok ==> transform_wf(transform->Ok_0),
    ensures
        r == shadow_factor_spec(*transform, map, position@, normal@, filter, disk_radius as int),
        r <= ONE,
        *transform is Err ==> r == ONE,
{
    match (transform, map) {
        (Ok(LightTransform::Directional(t)), ShadowMap::Flat(m)) => sample_directional(
            m,
            t,
            position,
            normal,
            filter,
        ),
        (Ok(LightTransform::Point(t)), ShadowMap::Cube(c)) => {
            if !position.within(COORD_MAX) || !normal.within(DIR_MAX) {
                return ONE;
            }
            let to_light = t.eye.minus(position);
            let d = to_direction(&to_light);
            let bias = slope_bias(filter.bias, cosine(normal, &d));
            sample_point(c, t, position, bias, disk_radius)
        },
        _ => ONE,
    }
}

} // verus!
