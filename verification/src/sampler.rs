//! The shadow factor of a fragment: 0 in full shadow, `ONE` in full light.
//!
//! A fragment is lit by a texel when its depth, less a bias, is not beyond
//! the depth that the texel holds. The factor is the part of a
//! neighbourhood of texels that lights the fragment, so that the border of
//! a shadow comes out soft.

use crate::bounds::max_int;
use crate::cube::CubeTransform;
use crate::depth_map::DepthCube;
use crate::depth_map::DepthMap;
use crate::project::cube_texel;
use crate::project::cube_x;
use crate::project::cube_y;
use crate::project::distance;
use crate::project::distance_spec;
use crate::project::ortho_depth;
use crate::project::ortho_texel;
use crate::project::ortho_x;
use crate::project::ortho_y;
use crate::project::restore_distance;
use crate::project::restored_distance;
use crate::cube::select_face_spec;
use crate::scalar::floor_sqrt;
use crate::scalar::isqrt_limited;
use crate::scalar::lemma_mul_le;
use crate::scalar::ONE;
use crate::transform::OrthoTransform;
use crate::transform::OrthoView;
use crate::vector::lemma_dot_bound;
use crate::vector::Vec3;
use crate::vector::COORD_MAX;
use crate::vector::DIR_MAX;
use crate::vector::V3;
use vstd::arithmetic::div_mod::lemma_div_by_multiple;
use vstd::arithmetic::div_mod::lemma_div_is_ordered;
use vstd::prelude::*;

verus! {

/// The number of directions in which a point light's map is sampled.
pub const DISK_SAMPLES: usize = 20;

/// The least and the greatest bias, in units of depth.
#[derive(Clone, Copy, Debug, PartialEq, Eq, Structural)]
pub struct BiasRange {
    pub min: u32,
    pub max: u32,
}

/// A cosine in fixed point, limited to `[-ONE, ONE]`.
pub open spec fn clamp_cos(c: int) -> int {
    if c < -ONE {
        -ONE
    } else if c > ONE {
        ONE as int
    } else {
        c
    }
}

/// The bias for a surface whose normal makes an angle of cosine `cos`, in
/// fixed point, with the direction to the light: `max` times one less the
/// cosine, and never less than `min`.
pub open spec fn slope_bias_spec(min: int, max: int, cos: int) -> int {
    max_int((max * (ONE - clamp_cos(cos))) / (ONE as int), min)
}

/// The bias does not shrink while the angle between the normal and the
/// direction to the light grows from 0 to 90 degrees, that is, while its
/// cosine falls from `ONE` to 0; nor does it beyond.
pub proof fn lemma_bias_monotone(min: int, max: int, cos_small_angle: int, cos_large_angle: int)
    requires
        0 <= max,
        cos_large_angle <= cos_small_angle,
    ensures
        slope_bias_spec(min, max, cos_small_angle) <= slope_bias_spec(min, max, cos_large_angle),
{
    let a = ONE - clamp_cos(cos_small_angle);
    let b = ONE - clamp_cos(cos_large_angle);
    lemma_mul_le(max, a, max, b);
    lemma_div_is_ordered(max * a, max * b, ONE as int);
}

/// The bias lies between the least bias and the larger of the least bias
/// and twice the greatest; for a surface that faces the light, between the
/// least and the larger of the two.
pub proof fn lemma_bias_range(min: int, max: int, cos: int)
    requires
        0 <= max,
    ensures
        min <= slope_bias_spec(min, max, cos) <= max_int(2 * max, min),
        0 <= cos ==> slope_bias_spec(min, max, cos) <= max_int(max, min),
        ONE <= cos ==> slope_bias_spec(min, max, cos) == max_int(0, min),
{
    let a = ONE - clamp_cos(cos);
    lemma_mul_le(max, a, max, 2 * ONE);
    lemma_div_is_ordered(max * a, max * (2 * ONE), ONE as int);
    assert(max * (2 * ONE) == (2 * max) * ONE) by (nonlinear_arith);
    lemma_div_by_multiple(2 * max, ONE as int);
    if 0 <= cos {
        lemma_mul_le(max, a, max, ONE as int);
        lemma_div_is_ordered(max * a, max * ONE, ONE as int);
        lemma_div_by_multiple(max, ONE as int);
    }
    if ONE <= cos {
        assert(max * a == 0) by (nonlinear_arith)
            requires
                a == 0,
        ;
    }
}

/// The slope-scaled bias for a cosine in fixed point.
pub fn slope_bias(range: BiasRange, cos: i64) -> (r: u64)
    ensures
        r == slope_bias_spec(range.min as int, range.max as int, cos as int),
{
    let one: i64 = 1_000_000;
    let c: i64 = if cos < -one {
        -one
    } else if cos > one {
        one
    } else {
        cos
    };
    let steep: u64 = (one - c) as u64;
    proof {
        lemma_mul_le(range.max as int, steep as int, u32::MAX as int, 2 * ONE);
    }
    let scaled: u64 = ((range.max as u64) * steep) / ONE;
    if scaled >= range.min as u64 {
        scaled
    } else {
        range.min as u64
    }
}

/// The cosine of the angle between two vectors, in fixed point, rounded
/// towards zero and limited to `[-ONE, ONE]`: the square root of the
/// square of their dot product over the product of their squared lengths,
/// with the sign of the dot product. It is 0 where one of the vectors is
/// the zero vector.
pub open spec fn cosine_spec(a: V3, b: V3) -> int {
    let n = a.norm2() * b.norm2();
    let dot = a.dot(b);
    if n == 0 {
        0
    } else {
        let root = floor_sqrt(((dot * dot) * (ONE * ONE)) / n);
        let size = if root > ONE {
            ONE as int
        } else {
            root
        };
        if dot >= 0 {
            size
        } else {
            -size
        }
    }
}

/// The cosine of the angle between two vectors, in fixed point.
pub fn cosine(a: &Vec3, b: &Vec3) -> (r: i64)
    requires
        a@.within(DIR_MAX as int),
        b@.within(DIR_MAX as int),
    ensures
        r == cosine_spec(a@, b@),
        -ONE <= r <= ONE,
{
    proof {
        lemma_dot_bound(a@, a@, DIR_MAX as int, DIR_MAX as int);
        lemma_dot_bound(b@, b@, DIR_MAX as int, DIR_MAX as int);
        lemma_dot_bound(a@, b@, DIR_MAX as int, DIR_MAX as int);
        assert(a.x * a.x >= 0 && a.y * a.y >= 0 && a.z * a.z >= 0) by (nonlinear_arith);
        assert(b.x * b.x >= 0 && b.y * b.y >= 0 && b.z * b.z >= 0) by (nonlinear_arith);
        assert(a@.norm2() <= 0xC000_0000 && b@.norm2() <= 0xC000_0000);
        assert(-0xC000_0000 <= a@.dot(b@) <= 0xC000_0000);
        lemma_mul_le(a@.norm2(), b@.norm2(), 0xC000_0000, 0xC000_0000);
    }
    let na: u128 = a.dot(a) as u128;
    let nb: u128 = b.dot(b) as u128;
    let n: u128 = na * nb;
    if n == 0 {
        return 0;
    }
    let d: i128 = a.dot(b);
    let size: u128 = if d >= 0 {
        d as u128
    } else {
        (-d) as u128
    };
    proof {
        lemma_mul_le(size as int, size as int, 0xC000_0000, 0xC000_0000);
        assert(size * size == d * d) by (nonlinear_arith)
            requires
                size == d || size == -d,
        ;
        lemma_mul_le(
            (size * size) as int,
            (ONE * ONE) as int,
            0x9000_0000_0000_0000,
            1_000_000_000_000,
        );
    }
    let square: u128 = (size * size) * 1_000_000_000_000u128;
    let root = isqrt_limited(square / n, ONE);
    if d >= 0 {
        root as i64
    } else {
        -(root as i64)
    }
}

/// Whether a texel that holds `stored` lights a fragment at `depth`.
pub open spec fn lit(stored: int, depth: int, bias: int) -> bool {
    depth - bias <= stored
}

/// The number of texels that light the fragment among the `n` texels of
/// row `y` from column `x0` on.
pub open spec fn lit_in_row(m: &DepthMap, y: int, x0: int, n: nat, depth: int, bias: int) -> nat
    decreases n,
{
    if n == 0 {
        0
    } else {
        lit_in_row(m, y, x0, (n - 1) as nat, depth, bias) + if lit(
            m.fetch_spec(x0 + n - 1, y) as int,
            depth,
            bias,
        ) {
            1nat
        } else {
            0nat
        }
    }
}

/// The number of texels that light the fragment in a window `w` texels
/// wide and `h` texels high whose first texel is `(x0, y0)`.
pub open spec fn lit_in_window(
    m: &DepthMap,
    x0: int,
    y0: int,
    w: nat,
    h: nat,
    depth: int,
    bias: int,
) -> nat
    decreases h,
{
    if h == 0 {
        0
    } else {
        lit_in_window(m, x0, y0, w, (h - 1) as nat, depth, bias) + lit_in_row(
            m,
            y0 + h - 1,
            x0,
            w,
            depth,
            bias,
        )
    }
}

/// The part of the window of `radius` texels around `(x, y)` that lights
/// the fragment, in fixed point.
pub open spec fn pcf_spec(m: &DepthMap, x: int, y: int, radius: int, depth: int, bias: int) -> int {
    let k = (2 * radius + 1) as nat;
    (lit_in_window(m, x - radius, y - radius, k, k, depth, bias) * ONE) / ((k * k) as int)
}

/// No more texels light a fragment than the row has.
pub proof fn lemma_lit_in_row(m: &DepthMap, y: int, x0: int, n: nat, depth: int, bias: int)
    ensures
        lit_in_row(m, y, x0, n, depth, bias) <= n,
    decreases n,
{
    if n > 0 {
        lemma_lit_in_row(m, y, x0, (n - 1) as nat, depth, bias);
    }
}

/// No more texels light a fragment than the window has.
pub proof fn lemma_lit_in_window(
    m: &DepthMap,
    x0: int,
    y0: int,
    w: nat,
    h: nat,
    depth: int,
    bias: int,
)
    ensures
        lit_in_window(m, x0, y0, w, h, depth, bias) <= w * h,
    decreases h,
{
    if h > 0 {
        lemma_lit_in_window(m, x0, y0, w, (h - 1) as nat, depth, bias);
        lemma_lit_in_row(m, y0 + h - 1, x0, w, depth, bias);
        assert(w * (h - 1) + w == w * h) by (nonlinear_arith);
    } else {
        assert(w * h == 0) by (nonlinear_arith)
            requires
                h == 0,
        ;
    }
}

/// A part of a whole, in fixed point, lies between 0 and `ONE`.
pub proof fn lemma_part(count: int, total: int)
    requires
        0 <= count <= total,
        0 < total,
    ensures
        0 <= (count * ONE) / total <= ONE,
        count == total ==> (count * ONE) / total == ONE,
        count == 0 ==> (count * ONE) / total == 0,
{
    lemma_mul_le(count, ONE as int, total, ONE as int);
    lemma_div_is_ordered(0, count * ONE, total);
    lemma_div_is_ordered(count * ONE, total * ONE, total);
    assert(total * ONE == ONE * total) by (nonlinear_arith);
    lemma_div_by_multiple(ONE as int, total);
    assert(0 * ONE == 0) by (nonlinear_arith);
}

/// The shadow factor is bounded: it lies between 0 and `ONE`.
pub proof fn lemma_pcf_bounded(m: &DepthMap, x: int, y: int, radius: int, depth: int, bias: int)
    requires
        0 <= radius,
    ensures
        0 <= pcf_spec(m, x, y, radius, depth, bias) <= ONE,
{
    let k = (2 * radius + 1) as nat;
    lemma_lit_in_window(m, x - radius, y - radius, k, k, depth, bias);
    assert(k * k > 0) by (nonlinear_arith)
        requires
            k > 0,
    ;
    lemma_part(lit_in_window(m, x - radius, y - radius, k, k, depth, bias) as int, (k * k) as int);
}

/// Where every texel of a row lights the fragment, the count is the
/// length of the row; where none does, it is 0.
pub proof fn lemma_row_uniform(m: &DepthMap, y: int, x0: int, n: nat, depth: int, bias: int, all: bool)
    requires
        forall|x: int| x0 <= x < x0 + n ==> lit(#[trigger] m.fetch_spec(x, y) as int, depth, bias) == all,
    ensures
        lit_in_row(m, y, x0, n, depth, bias) == if all {
            n
        } else {
            0
        },
    decreases n,
{
    if n > 0 {
        lemma_row_uniform(m, y, x0, (n - 1) as nat, depth, bias, all);
        assert(lit(m.fetch_spec(x0 + n - 1, y) as int, depth, bias) == all);
    }
}

/// Where every texel of a window lights the fragment, the count is the
/// size of the window; where none does, it is 0.
pub proof fn lemma_window_uniform(
    m: &DepthMap,
    x0: int,
    y0: int,
    w: nat,
    h: nat,
    depth: int,
    bias: int,
    all: bool,
)
    requires
        forall|x: int, y: int|
            x0 <= x < x0 + w && y0 <= y < y0 + h ==> lit(
                #[trigger] m.fetch_spec(x, y) as int,
                depth,
                bias,
            ) == all,
    ensures
        lit_in_window(m, x0, y0, w, h, depth, bias) == if all {
            w * h
        } else {
            0
        },
    decreases h,
{
    if h > 0 {
        lemma_window_uniform(m, x0, y0, w, (h - 1) as nat, depth, bias, all);
        lemma_row_uniform(m, y0 + h - 1, x0, w, depth, bias, all);
        assert(w * (h - 1) + w == w * h) by (nonlinear_arith);
    } else {
        assert(w * h == 0) by (nonlinear_arith)
            requires
                h == 0,
        ;
    }
}

/// A map without occluders shadows nothing: with every texel at the far
/// plane, a fragment within the depth range has the factor `ONE`.
pub proof fn lemma_cleared_is_lit(m: &DepthMap, x: int, y: int, radius: int, depth: int, bias: int)
    requires
        m.wf(),
        m.cleared(),
        0 <= radius,
        depth <= ONE,
        0 <= bias,
    ensures
        pcf_spec(m, x, y, radius, depth, bias) == ONE,
{
    let k = (2 * radius + 1) as nat;
    assert forall|u: int, v: int|
        x - radius <= u < x - radius + k && y - radius <= v < y - radius + k implies lit(
        #[trigger] m.fetch_spec(u, v) as int,
        depth,
        bias,
    ) == true by {
        if m.inside(u, v) {
            crate::depth_map::lemma_texel_index(u, v, m.width as int, m.height as int);
        }
    }
    lemma_window_uniform(m, x - radius, y - radius, k, k, depth, bias, true);
    assert(k * k > 0) by (nonlinear_arith)
        requires
            k > 0,
    ;
    lemma_part((k * k) as int, (k * k) as int);
}

/// A fragment behind occluders on every texel of the window is in full
/// shadow: its factor is 0.
pub proof fn lemma_occluded_is_dark(m: &DepthMap, x: int, y: int, radius: int, depth: int, bias: int)
    requires
        0 <= radius,
        forall|u: int, v: int|
            x - radius <= u <= x + radius && y - radius <= v <= y + radius ==> (
            #[trigger] m.fetch_spec(u, v)) + bias < depth,
    ensures
        pcf_spec(m, x, y, radius, depth, bias) == 0,
{
    let k = (2 * radius + 1) as nat;
    assert forall|u: int, v: int|
        x - radius <= u < x - radius + k && y - radius <= v < y - radius + k implies lit(
        #[trigger] m.fetch_spec(u, v) as int,
        depth,
        bias,
    ) == false by {
        assert(m.fetch_spec(u, v) + bias < depth);
    }
    lemma_window_uniform(m, x - radius, y - radius, k, k, depth, bias, false);
    assert(k * k > 0) by (nonlinear_arith)
        requires
            k > 0,
    ;
    lemma_part(0, (k * k) as int);
}

/// Percentage-closer filtering: the part of the window of `radius` texels
/// around `(x, y)` that lights a fragment at `depth`. Texels of the window
/// that lie outside the map light it.
pub fn pcf(m: &DepthMap, x: usize, y: usize, radius: u8, depth: u64, bias: u64) -> (r: u64)
    requires
        m.wf(),
        m.inside(x as int, y as int),
    ensures
        r == pcf_spec(m, x as int, y as int, radius as int, depth as int, bias as int),
        r <= ONE,
{
    let k: u64 = 2 * (radius as u64) + 1;
    let x0: i64 = x as i64 - radius as i64;
    let y0: i64 = y as i64 - radius as i64;
    let mut count: u64 = 0;
    let mut j: u64 = 0;
    while j < k
        invariant
            j <= k,
            k == 2 * radius + 1,
            m.wf(),
            x0 == x - radius,
            y0 == y - radius,
            m.inside(x as int, y as int),
            count == lit_in_window(m, x0 as int, y0 as int, k as nat, j as nat, depth as int, bias as int),
            count <= k * j,
        decreases k - j,
    {
        let mut i: u64 = 0;
        let mut row: u64 = 0;
        while i < k
            invariant
                i <= k,
                j < k,
                k == 2 * radius + 1,
                m.wf(),
                x0 == x - radius,
                y0 == y - radius,
                m.inside(x as int, y as int),
                row == lit_in_row(m, y0 + j, x0 as int, i as nat, depth as int, bias as int),
                row <= i,
            decreases k - i,
        {
            let stored = m.fetch(x0 + i as i64, y0 + j as i64);
            if depth as u128 <= stored as u128 + bias as u128 {
                row = row + 1;
            }
            i = i + 1;
        }
        proof {
            assert(k * j + k == k * (j + 1)) by (nonlinear_arith);
            lemma_mul_le(k as int, (j + 1) as int, 511, 511);
        }
        count = count + row;
        j = j + 1;
    }
    proof {
        lemma_pcf_bounded(m, x as int, y as int, radius as int, depth as int, bias as int);
        lemma_mul_le(k as int, k as int, 511, 511);
        lemma_mul_le(count as int, ONE as int, 261121, ONE as int);
        assert(k * k > 0) by (nonlinear_arith)
            requires
                k > 0,
        ;
    }
    (count * ONE) / (k * k)
}

/// How a directional light's map is filtered.
#[derive(Clone, Copy, Debug, PartialEq, Eq, Structural)]
pub struct Filter {
    /// The window reaches this many texels to each side of the fragment's.
    /// The map is always filtered: a radius of 0 counts as 1.
    pub radius: u8,
    pub bias: BiasRange,
}

impl Filter {
    /// The radius of the window: at least 1, so that no shadow has a hard
    /// border.
    pub open spec fn reach(self) -> int {
        if self.radius == 0 {
            1
        } else {
            self.radius as int
        }
    }
}

/// The shadow factor of a fragment at `p` with the normal `n` under a
/// directional light. A fragment outside the world or outside the
/// projection box, and one whose normal is out of range, is unshadowed.
pub open spec fn sample_directional_spec(m: &DepthMap, t: OrthoView, p: V3, n: V3, f: Filter) -> int {
    if !p.within(COORD_MAX as int) || !n.within(DIR_MAX as int) || !t.contains(p) {
        ONE as int
    } else {
        pcf_spec(
            m,
            ortho_x(t, p, m.width as int),
            ortho_y(t, p, m.height as int),
            f.reach(),
            ortho_depth(t, p),
            slope_bias_spec(
                f.bias.min as int,
                f.bias.max as int,
                cosine_spec(n, t.forward.scaled(-1)),
            ),
        )
    }
}

/// The shadow factor of a fragment under a directional light.
pub fn sample_directional(
    m: &DepthMap,
    t: &OrthoTransform,
    position: &Vec3,
    normal: &Vec3,
    filter: Filter,
) -> (r: u64)
    requires
        m.wf(),
        t@.wf(),
    ensures
        r == sample_directional_spec(m, t@, position@, normal@, filter),
        r <= ONE,
{
    if !position.within(COORD_MAX) || !normal.within(DIR_MAX) {
        return ONE;
    }
    match ortho_texel(t, position, m.width, m.height) {
        None => ONE,
        Some(texel) => {
            let to_light = Vec3 { x: -t.forward.x, y: -t.forward.y, z: -t.forward.z };
            proof {
                assert(t.forward.x * (-1) == -t.forward.x) by (nonlinear_arith);
                assert(t.forward.y * (-1) == -t.forward.y) by (nonlinear_arith);
                assert(t.forward.z * (-1) == -t.forward.z) by (nonlinear_arith);
                assert(to_light@ == t@.forward.scaled(-1));
            }
            let cos = cosine(normal, &to_light);
            let bias = slope_bias(filter.bias, cos);
            let radius: u8 = if filter.radius == 0 {
                1
            } else {
                filter.radius
            };
            pcf(m, texel.x, texel.y, radius, texel.depth, bias)
        },
    }
}

/// A fragment that was itself written to the map is lit by its own texel,
/// whatever the bias: a surface does not shadow itself.
pub proof fn lemma_no_self_shadow(stored: int, depth: int, bias: int)
    requires
        stored == depth,
        0 <= bias,
    ensures
        lit(stored, depth, bias),
{
}

/// The directions in which a point light's map is sampled around the
/// direction to the fragment: towards the middles of the twelve edges and
/// the eight corners of a cube.
pub open spec fn disk_offset_spec(k: int) -> V3 {
    if k == 0 {
        V3 { x: 1, y: 1, z: 1 }
    } else if k == 1 {
        V3 { x: 1, y: -1, z: 1 }
    } else if k == 2 {
        V3 { x: -1, y: -1, z: 1 }
    } else if k == 3 {
        V3 { x: -1, y: 1, z: 1 }
    } else if k == 4 {
        V3 { x: 1, y: 1, z: -1 }
    } else if k == 5 {
        V3 { x: 1, y: -1, z: -1 }
    } else if k == 6 {
        V3 { x: -1, y: -1, z: -1 }
    } else if k == 7 {
        V3 { x: -1, y: 1, z: -1 }
    } else if k == 8 {
        V3 { x: 1, y: 1, z: 0 }
    } else if k == 9 {
        V3 { x: 1, y: -1, z: 0 }
    } else if k == 10 {
        V3 { x: -1, y: -1, z: 0 }
    } else if k == 11 {
        V3 { x: -1, y: 1, z: 0 }
    } else if k == 12 {
        V3 { x: 1, y: 0, z: 1 }
    } else if k == 13 {
        V3 { x: -1, y: 0, z: 1 }
    } else if k == 14 {
        V3 { x: 1, y: 0, z: -1 }
    } else if k == 15 {
        V3 { x: -1, y: 0, z: -1 }
    } else if k == 16 {
        V3 { x: 0, y: 1, z: 1 }
    } else if k == 17 {
        V3 { x: 0, y: -1, z: 1 }
    } else if k == 18 {
        V3 { x: 0, y: -1, z: -1 }
    } else {
        V3 { x: 0, y: 1, z: -1 }
    }
}

/// One of the directions of sampling.
pub fn disk_offset(k: usize) -> (r: Vec3)
    requires
        k < DISK_SAMPLES,
    ensures
        r@ == disk_offset_spec(k as int),
        r@.within(1),
{
    match k {
        0 => Vec3 { x: 1, y: 1, z: 1 },
        1 => Vec3 { x: 1, y: -1, z: 1 },
        2 => Vec3 { x: -1, y: -1, z: 1 },
        3 => Vec3 { x: -1, y: 1, z: 1 },
        4 => Vec3 { x: 1, y: 1, z: -1 },
        5 => Vec3 { x: 1, y: -1, z: -1 },
        6 => Vec3 { x: -1, y: -1, z: -1 },
        7 => Vec3 { x: -1, y: 1, z: -1 },
        8 => Vec3 { x: 1, y: 1, z: 0 },
        9 => Vec3 { x: 1, y: -1, z: 0 },
        10 => Vec3 { x: -1, y: -1, z: 0 },
        11 => Vec3 { x: -1, y: 1, z: 0 },
        12 => Vec3 { x: 1, y: 0, z: 1 },
        13 => Vec3 { x: -1, y: 0, z: 1 },
        14 => Vec3 { x: 1, y: 0, z: -1 },
        15 => Vec3 { x: -1, y: 0, z: -1 },
        16 => Vec3 { x: 0, y: 1, z: 1 },
        17 => Vec3 { x: 0, y: -1, z: 1 },
        18 => Vec3 { x: 0, y: -1, z: -1 },
        _ => Vec3 { x: 0, y: 1, z: -1 },
    }
}

/// The radius of sampling for a fragment seen from `view_distance` away:
/// a twenty-fifth of `unit`, the length of one unit of the world, and up to
/// twice as much as the fragment nears the far plane, so that shadows
/// seen from afar come out softer.
pub open spec fn disk_radius_spec(view_distance: int, far: int, unit: int) -> int {
    let d = if view_distance > far {
        far
    } else {
        view_distance
    };
    (unit + (unit * d) / far) / 25
}

/// The radius of sampling for a fragment seen from `view_distance` away.
pub fn disk_radius(view_distance: u64, far: i64, unit: u32) -> (r: u32)
    requires
        0 < far <= COORD_MAX,
    ensures
        r == disk_radius_spec(view_distance as int, far as int, unit as int),
        unit / 25 <= r <= (2 * unit) / 25,
{
    let d: u64 = if view_distance > far as u64 {
        far as u64
    } else {
        view_distance
    };
    proof {
        lemma_mul_le(unit as int, d as int, u32::MAX as int, COORD_MAX as int);
        lemma_mul_le(unit as int, d as int, unit as int, far as int);
        lemma_div_is_ordered(0, unit * d, far as int);
        lemma_div_is_ordered(unit * d, unit * far, far as int);
        lemma_div_by_multiple(unit as int, far as int);
    }
    let extra: u64 = ((unit as u64) * d) / (far as u64);
    ((unit as u64 + extra) / 25) as u32
}

/// The direction of the sample with index `k`: the direction `v` to the
/// fragment, moved `radius` along the offset.
pub open spec fn disk_direction(v: V3, radius: int, k: int) -> V3 {
    v.plus(disk_offset_spec(k).scaled(radius))
}

/// Whether the texel that the direction `dir` pierces lights a fragment at
/// the distance `dist`. The stored depth is turned back into a distance by
/// the far plane first. The zero vector pierces no texel and lights.
pub open spec fn point_lit(c: &DepthCube, dir: V3, dist: int, far: int, bias: int) -> bool {
    dir.is_zero() || lit(
        restored_distance(
            c.at(select_face_spec(dir), cube_x(dir, c.size as int), cube_y(dir, c.size as int)) as int,
            far,
        ),
        dist,
        bias,
    )
}

/// The number of samples that light the fragment among the first `n`.
pub open spec fn lit_in_disk(
    c: &DepthCube,
    v: V3,
    radius: int,
    dist: int,
    far: int,
    bias: int,
    n: nat,
) -> nat
    decreases n,
{
    if n == 0 {
        0
    } else {
        lit_in_disk(c, v, radius, dist, far, bias, (n - 1) as nat) + if point_lit(
            c,
            disk_direction(v, radius, n - 1),
            dist,
            far,
            bias,
        ) {
            1nat
        } else {
            0nat
        }
    }
}

/// No more samples light a fragment than there are.
pub proof fn lemma_lit_in_disk(
    c: &DepthCube,
    v: V3,
    radius: int,
    dist: int,
    far: int,
    bias: int,
    n: nat,
)
    ensures
        lit_in_disk(c, v, radius, dist, far, bias, n) <= n,
    decreases n,
{
    if n > 0 {
        lemma_lit_in_disk(c, v, radius, dist, far, bias, (n - 1) as nat);
    }
}

/// The shadow factor of a fragment at `p` under a point light. A fragment
/// outside the world, at the light itself or beyond the far plane is
/// unshadowed.
pub open spec fn sample_point_spec(c: &DepthCube, t: CubeTransform, p: V3, bias: int, radius: int) -> int {
    let v = p.minus(t.eye@);
    if !p.within(COORD_MAX as int) || v.is_zero() || distance_spec(v) > t.far {
        ONE as int
    } else {
        (lit_in_disk(c, v, radius, distance_spec(v), t.far as int, bias, DISK_SAMPLES as nat) * ONE)
            / (DISK_SAMPLES as int)
    }
}

/// The shadow factor of a fragment under a point light: the part of the
/// samples around the direction to the fragment that light it.
pub fn sample_point(
    c: &DepthCube,
    t: &CubeTransform,
    position: &Vec3,
    bias: u64,
    disk_radius: u32,
) -> (r: u64)
    requires
        c.wf(),
        t.wf(),
    ensures
        r == sample_point_spec(c, *t, position@, bias as int, disk_radius as int),
        r <= ONE,
{
    if !position.within(COORD_MAX) {
        return ONE;
    }
    let v = position.minus(&t.eye);
    if v.is_zero() {
        return ONE;
    }
    let dist = distance(&v);
    if dist > t.far as u64 {
        return ONE;
    }
    let mut count: u64 = 0;
    let mut k: usize = 0;
    while k < DISK_SAMPLES
        invariant
            k <= DISK_SAMPLES,
            c.wf(),
            t.wf(),
            v@ == position@.minus(t.eye@),
            v@.within(2 * COORD_MAX),
            dist == distance_spec(v@),
            dist <= t.far,
            count == lit_in_disk(
                c,
                v@,
                disk_radius as int,
                dist as int,
                t.far as int,
                bias as int,
                k as nat,
            ),
            count <= k,
        decreases DISK_SAMPLES - k,
    {
        let off = disk_offset(k);
        proof {
            crate::vector::lemma_mul_abs_le(off.x as int, disk_radius as int, 1, u32::MAX as int);
            crate::vector::lemma_mul_abs_le(off.y as int, disk_radius as int, 1, u32::MAX as int);
            crate::vector::lemma_mul_abs_le(off.z as int, disk_radius as int, 1, u32::MAX as int);
        }
        let dir = Vec3 {
            x: v.x + off.x * (disk_radius as i64),
            y: v.y + off.y * (disk_radius as i64),
            z: v.z + off.z * (disk_radius as i64),
        };
        assert(dir@ == disk_direction(v@, disk_radius as int, k as int));
        let lights = if dir.is_zero() {
            true
        } else {
            let (face, x, y) = cube_texel(&dir, c.size);
            let stored = c.get(face, x, y);
            let closest = restore_distance(stored, t.far);
            dist as u128 <= closest as u128 + bias as u128
        };
        if lights {
            count = count + 1;
        }
        k = k + 1;
    }
    proof {
        lemma_part(count as int, DISK_SAMPLES as int);
    }
    (count * ONE) / (DISK_SAMPLES as u64)
}

} // verus!
