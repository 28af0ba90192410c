//! Snapping a projection box to whole texels. A box whose planes lie on
//! multiples of the size of a texel moves in whole texels only, so that
//! the shadow of a still object does not shimmer while the camera moves.

use crate::transform::OrthoTransform;
use crate::transform::OrthoView;
use crate::transform::EXTENT_MAX;
use crate::depth_map::MAX_RESOLUTION;
use vstd::arithmetic::div_mod::lemma_fundamental_div_mod;
use vstd::arithmetic::div_mod::lemma_fundamental_div_mod_converse;
use vstd::prelude::*;

verus! {

/// The largest step that a box can be snapped to.
pub const SNAP_STEP_MAX: i64 = 0x4000_0000_0000_0000;

/// The largest multiple of `step` that is not above `x`.
pub open spec fn snap_down_spec(x: int, step: int) -> int {
    (x / step) * step
}

/// The smallest multiple of `step` that is not below `x`.
pub open spec fn snap_up_spec(x: int, step: int) -> int {
    -(((-x) / step) * step)
}

/// A snapped value is a multiple of the step and lies less than a step
/// from the value itself, below it or above it.
pub proof fn lemma_snap(x: int, step: int)
    requires
        0 < step,
    ensures
        snap_down_spec(x, step) <= x < snap_down_spec(x, step) + step,
        x <= snap_up_spec(x, step) < x + step,
        snap_down_spec(x, step) % step == 0,
        snap_up_spec(x, step) % step == 0,
{
    lemma_fundamental_div_mod(x, step);
    lemma_fundamental_div_mod(-x, step);
    assert(step * (x / step) == (x / step) * step) by (nonlinear_arith);
    assert(step * ((-x) / step) == ((-x) / step) * step) by (nonlinear_arith);
    lemma_fundamental_div_mod_converse(snap_down_spec(x, step), step, x / step, 0);
    assert(snap_up_spec(x, step) == (-((-x) / step)) * step) by (nonlinear_arith);
    lemma_fundamental_div_mod_converse(snap_up_spec(x, step), step, -((-x) / step), 0);
}

/// Snapping what is snapped changes nothing.
pub proof fn lemma_snap_idempotent(x: int, step: int)
    requires
        0 < step,
    ensures
        snap_down_spec(snap_down_spec(x, step), step) == snap_down_spec(x, step),
        snap_up_spec(snap_up_spec(x, step), step) == snap_up_spec(x, step),
{
    lemma_snap_multiple(x / step, step);
    lemma_snap_multiple(-((-x) / step), step);
    assert(snap_up_spec(x, step) == (-((-x) / step)) * step) by (nonlinear_arith);
}

/// A multiple of the step snaps to itself.
pub proof fn lemma_snap_multiple(k: int, step: int)
    requires
        0 < step,
    ensures
        snap_down_spec(k * step, step) == k * step,
        snap_up_spec(k * step, step) == k * step,
{
    lemma_fundamental_div_mod_converse(k * step, step, k, 0);
    assert(-(k * step) == (-k) * step) by (nonlinear_arith);
    lemma_fundamental_div_mod_converse(-(k * step), step, -k, 0);
    assert(-((-k) * step) == k * step) by (nonlinear_arith);
}

/// A value moved by whole steps snaps to the snapped value moved by as
/// many steps: the box follows the scene in whole texels.
pub proof fn lemma_snap_translation(x: int, step: int, k: int)
    requires
        0 < step,
    ensures
        snap_down_spec(x + k * step, step) == snap_down_spec(x, step) + k * step,
        snap_up_spec(x + k * step, step) == snap_up_spec(x, step) + k * step,
{
    lemma_fundamental_div_mod(x, step);
    lemma_fundamental_div_mod(-x, step);
    let q = x / step;
    let r = x % step;
    assert(x + k * step == (q + k) * step + r) by (nonlinear_arith)
        requires
            x == step * q + r,
    ;
    lemma_fundamental_div_mod_converse(x + k * step, step, q + k, r);
    assert((q + k) * step == q * step + k * step) by (nonlinear_arith);
    let q2 = (-x) / step;
    let r2 = (-x) % step;
    assert(-(x + k * step) == (q2 - k) * step + r2) by (nonlinear_arith)
        requires
            -x == step * q2 + r2,
    ;
    lemma_fundamental_div_mod_converse(-(x + k * step), step, q2 - k, r2);
    assert(-((q2 - k) * step) == -(q2 * step) + k * step) by (nonlinear_arith);
}

/// Two planes snapped to the same step lie a whole number of steps apart:
/// two boxes of the same size, snapped, differ by whole texels, however
/// the scene has moved between them.
pub proof fn lemma_snapped_apart(x: int, y: int, step: int)
    requires
        0 < step,
    ensures
        snap_down_spec(x, step) - snap_down_spec(y, step) == (x / step - y / step) * step,
        snap_up_spec(x, step) - snap_up_spec(y, step) == ((-y) / step - (-x) / step) * step,
        (snap_down_spec(x, step) - snap_down_spec(y, step)) % step == 0,
        (snap_up_spec(x, step) - snap_up_spec(y, step)) % step == 0,
{
    let a = x / step;
    let b = y / step;
    let c = (-x) / step;
    let e = (-y) / step;
    assert(a * step - b * step == (a - b) * step) by (nonlinear_arith);
    assert(-(c * step) - (-(e * step)) == (e - c) * step) by (nonlinear_arith);
    lemma_fundamental_div_mod_converse((a - b) * step, step, a - b, 0);
    lemma_fundamental_div_mod_converse((e - c) * step, step, e - c, 0);
}

/// The largest multiple of `step` that is not above `x`.
pub fn snap_down(x: i64, step: i64) -> (r: i64)
    requires
        0 < step <= SNAP_STEP_MAX,
        -EXTENT_MAX <= x <= EXTENT_MAX,
    ensures
        r == snap_down_spec(x as int, step as int),
        r <= x < r + step,
{
    proof {
        lemma_snap(x as int, step as int);
    }
    if x >= 0 {
        let q: i64 = x / step;
        proof {
            lemma_fundamental_div_mod(x as int, step as int);
            assert(step * q == q * step) by (nonlinear_arith);
        }
        q * step
    } else {
        let a: i64 = -x;
        let q: i64 = (a + (step - 1)) / step;
        proof {
            let m = (a + (step - 1)) % (step as int);
            lemma_fundamental_div_mod((a + (step - 1)) as int, step as int);
            assert(step * q == q * step) by (nonlinear_arith);
            assert(a + step - 1 == q * step + m);
            assert(x == (-q) * step + (step - 1 - m)) by (nonlinear_arith)
                requires
                    a + step - 1 == q * step + m,
                    x == -a,
            ;
            lemma_fundamental_div_mod_converse(x as int, step as int, -(q as int), step - 1 - m);
            assert((-q) * step == -(q * step)) by (nonlinear_arith);
            assert(0 <= q * step <= a + step - 1);
        }
        -(q * step)
    }
}

/// The smallest multiple of `step` that is not below `x`.
pub fn snap_up(x: i64, step: i64) -> (r: i64)
    requires
        0 < step <= SNAP_STEP_MAX,
        -EXTENT_MAX <= x <= EXTENT_MAX,
    ensures
        r == snap_up_spec(x as int, step as int),
        x <= r < x + step,
{
    proof {
        lemma_snap(x as int, step as int);
    }
    let d = snap_down(-x, step);
    -d
}

/// The size of a texel of a map `resolution` texels wide that spans a
/// box from `lo` to `hi`, rounded up, and at least 1.
pub open spec fn texel_step_spec(lo: int, hi: int, resolution: int) -> int {
    if hi - lo <= resolution {
        1
    } else {
        (hi - lo + resolution - 1) / resolution
    }
}

/// The size of a texel of a map that spans a box from `lo` to `hi`. For a
/// map of two texels or more it is a step that the box can be snapped to.
pub fn texel_step(lo: i64, hi: i64, resolution: usize) -> (r: i64)
    requires
        -EXTENT_MAX <= lo <= hi <= EXTENT_MAX,
        1 <= resolution <= MAX_RESOLUTION,
    ensures
        r == texel_step_spec(lo as int, hi as int, resolution as int),
        0 < r,
        2 <= resolution ==> r <= SNAP_STEP_MAX,
        hi - lo <= r * resolution,
{
    let span: i64 = hi - lo;
    let n: i64 = resolution as i64;
    if span <= n {
        proof {
            assert(1 * resolution == resolution) by (nonlinear_arith);
        }
        return 1;
    }
    let q: i64 = (span + (n - 1)) / n;
    proof {
        lemma_fundamental_div_mod((span + (n - 1)) as int, n as int);
        let m = (span + (n - 1)) % (n as int);
        assert(n * q == q * n) by (nonlinear_arith);
        assert(q * n >= span);
        assert(q >= 1 && q <= span && (n >= 2 ==> 2 * q <= span + 1)) by (nonlinear_arith)
            requires
                q * n + m == span + n - 1,
                0 <= m < n,
                span > n,
                n >= 1,
        ;
    }
    q
}

/// The box of `t` with its left and bottom planes snapped down and its
/// right and top planes snapped up, the near and far planes as they are.
pub open spec fn snapped_spec(t: OrthoView, step_x: int, step_y: int) -> OrthoView {
    OrthoView {
        left: snap_down_spec(t.left, step_x),
        right: snap_up_spec(t.right, step_x),
        bottom: snap_down_spec(t.bottom, step_y),
        top: snap_up_spec(t.top, step_y),
        ..t
    }
}

/// A snapped box holds whatever the box held.
pub proof fn lemma_snapped_contains(t: OrthoView, step_x: int, step_y: int, p: crate::vector::V3)
    requires
        0 < step_x,
        0 < step_y,
        t.contains(p),
    ensures
        snapped_spec(t, step_x, step_y).contains(p),
{
    lemma_snap(t.left, step_x);
    lemma_snap(t.right, step_x);
    lemma_snap(t.bottom, step_y);
    lemma_snap(t.top, step_y);
}

/// Snaps the planes of a projection box to multiples of the size of a
/// texel, outwards, so that the box still holds the scene.
pub fn snap_to_texels(t: &OrthoTransform, step_x: i64, step_y: i64) -> (r: OrthoTransform)
    requires
        t@.wf(),
        t@.bounded(),
        0 < step_x <= SNAP_STEP_MAX,
        0 < step_y <= SNAP_STEP_MAX,
    ensures
        r@ == snapped_spec(t@, step_x as int, step_y as int),
        r@.wf(),
        forall|p: crate::vector::V3| t@.contains(p) ==> #[trigger] r@.contains(p),
{
    let r = OrthoTransform {
        side: t.side,
        up: t.up,
        forward: t.forward,
        left: snap_down(t.left, step_x),
        right: snap_up(t.right, step_x),
        bottom: snap_down(t.bottom, step_y),
        top: snap_up(t.top, step_y),
        near: t.near,
        far: t.far,
    };
    proof {
        assert forall|p: crate::vector::V3| t@.contains(p) implies #[trigger] r@.contains(p) by {
            lemma_snapped_contains(t@, step_x as int, step_y as int, p);
        }
    }
    r
}

} // verus!
