//! Cutting a camera's depth range into cascades.
//!
//! A uniform scheme cuts the range into equal parts. A logarithmic scheme
//! cuts it so that each part is as many times longer than the one before:
//! the cut with index `i` of `n` lies at the `n`-th root of
//! `near^(n - i) * far^i`. A practical scheme mixes the two. All of them are
//! rounded down to whole units of depth.

use crate::bignat::BigNat;
use crate::error::ShadowError;
use crate::scalar::checked_pow;
use crate::scalar::clamp_unit;
use crate::scalar::floor_root;
use crate::scalar::is_floor_root;
use crate::scalar::lemma_floor_root_unique;
use crate::scalar::lemma_mix_between;
use crate::scalar::lemma_mix_monotone;
use crate::scalar::lemma_mul_le;
use crate::scalar::lemma_pow_base_monotone;
use crate::scalar::mix;
use crate::scalar::mix_spec;
use crate::scalar::ONE;
use vstd::arithmetic::div_mod::lemma_div_by_multiple;
use vstd::arithmetic::div_mod::lemma_div_is_ordered;
use vstd::arithmetic::power::lemma_pow0;
use vstd::arithmetic::power::lemma_pow_adds;
use vstd::arithmetic::power::pow;
use vstd::prelude::*;

verus! {

/// The range of view depth that one cascade covers.
#[derive(Clone, Copy, Debug, PartialEq, Eq, Structural)]
pub struct Split {
    pub near: u64,
    pub far: u64,
}

/// How the cuts between cascades are spread over the depth range.
#[derive(Clone, Copy, Debug, PartialEq, Eq, Structural)]
pub enum SplitScheme {
    /// Equal parts.
    Uniform,
    /// Parts in equal ratio.
    Logarithmic,
    /// A mix of the two: `blend` is the weight of the logarithmic cut, in
    /// fixed point, and is limited to `[0, ONE]`.
    Practical { blend: u64 },
}

impl SplitScheme {
    /// The weight of the logarithmic cut, in `[0, ONE]`.
    pub open spec fn weight(self) -> int {
        match self {
            SplitScheme::Uniform => 0,
            SplitScheme::Logarithmic => ONE as int,
            SplitScheme::Practical { blend } => clamp_unit(blend as int),
        }
    }

    /// The weight of the logarithmic cut, in `[0, ONE]`.
    pub fn log_weight(&self) -> (r: u64)
        ensures
            r == self.weight(),
            r <= ONE,
    {
        match self {
            SplitScheme::Uniform => 0,
            SplitScheme::Logarithmic => ONE,
            SplitScheme::Practical { blend } => if *blend > ONE {
                ONE
            } else {
                *blend
            },
        }
    }
}

/// The cut with index `i` of `n` equal parts.
pub open spec fn linear_split(near: int, far: int, n: int, i: int) -> int {
    near + ((far - near) * i) / n
}

/// The number whose `n`-th root is the logarithmic cut with index `i`.
pub open spec fn geometric_product(near: int, far: int, n: nat, i: nat) -> int {
    pow(near, (n - i) as nat) * pow(far, i)
}

/// The logarithmic cut with index `i` of `n`.
pub open spec fn log_split(near: int, far: int, n: nat, i: nat) -> int {
    choose|x: int| is_floor_root(geometric_product(near, far, n, i), n, x)
}

/// The cut with index `i` of `n` for a logarithmic weight of `w`.
pub open spec fn boundary(near: int, far: int, n: nat, w: int, i: nat) -> int {
    if w == 0 {
        linear_split(near, far, n as int, i as int)
    } else {
        mix_spec(linear_split(near, far, n as int, i as int), log_split(near, far, n, i), w)
    }
}

/// A range that cannot be cut: no cascade is asked for, or the near plane
/// is not in front of the far plane.
pub open spec fn degenerate(near: int, far: int, n: int) -> bool {
    n == 0 || near >= far
}

/// The powers of a natural number grow strictly with the base.
pub proof fn lemma_pow_base_strict(a: int, b: int, e: nat)
    requires
        0 <= a < b,
        1 <= e,
    ensures
        0 <= pow(a, e) < pow(b, e),
    decreases e,
{
    reveal(pow);
    lemma_pow0(a);
    lemma_pow0(b);
    if e == 1 {
        assert(pow(a, 1) == a * pow(a, 0));
        assert(pow(b, 1) == b * pow(b, 0));
    } else {
        lemma_pow_base_strict(a, b, (e - 1) as nat);
        let pa = pow(a, (e - 1) as nat);
        let pb = pow(b, (e - 1) as nat);
        assert(0 <= a * pa < b * pb) by (nonlinear_arith)
            requires
                0 <= a < b,
                0 <= pa < pb,
        ;
    }
}

/// The number under the root lies between the `n`-th powers of the two
/// planes, and grows with the index of the cut.
pub proof fn lemma_geometric_product(near: int, far: int, n: nat, i: nat)
    requires
        0 <= near <= far,
        i <= n,
    ensures
        pow(near, n) <= geometric_product(near, far, n, i) <= pow(far, n),
        i < n ==> geometric_product(near, far, n, i) <= geometric_product(
            near,
            far,
            n,
            (i + 1) as nat,
        ),
        geometric_product(near, far, n, 0) == pow(near, n),
        geometric_product(near, far, n, n) == pow(far, n),
{
    let k = (n - i) as nat;
    lemma_pow_adds(near, k, i);
    lemma_pow_adds(far, k, i);
    lemma_pow_base_monotone(near, far, i);
    lemma_pow_base_monotone(near, far, k);
    lemma_pow_base_monotone(0, near, k);
    lemma_pow_base_monotone(0, near, i);
    lemma_pow_base_monotone(0, 0, k);
    lemma_pow_base_monotone(0, 0, i);
    lemma_mul_le(pow(near, k), pow(near, i), pow(near, k), pow(far, i));
    lemma_mul_le(pow(near, k), pow(far, i), pow(far, k), pow(far, i));
    lemma_pow0(near);
    lemma_pow0(far);
    assert(pow(near, n) * 1 == pow(near, n)) by (nonlinear_arith);
    assert(1 * pow(far, n) == pow(far, n)) by (nonlinear_arith);
    if i < n {
        let k1 = (n - i - 1) as nat;
        reveal(pow);
        let a = pow(near, k1);
        let b = pow(far, i);
        lemma_pow_base_monotone(0, near, k1);
        lemma_pow_base_monotone(0, 0, k1);
        assert(pow(near, k) == near * a);
        assert(pow(far, (i + 1) as nat) == far * b);
        assert((near * a) * b <= a * (far * b)) by (nonlinear_arith)
            requires
                0 <= near <= far,
                0 <= a,
                0 <= b,
        ;
    }
}

/// A larger number has no smaller root.
pub proof fn lemma_floor_root_monotone(a1: int, a2: int, n: nat, r1: int, r2: int)
    requires
        a1 <= a2,
        is_floor_root(a1, n, r1),
        is_floor_root(a2, n, r2),
    ensures
        r1 <= r2,
{
    if r2 < r1 {
        lemma_pow_base_monotone(r2 + 1, r1, n);
    }
}

/// A number found to be the root is the logarithmic cut.
pub proof fn lemma_log_split_is(near: int, far: int, n: nat, i: nat, x: int)
    requires
        is_floor_root(geometric_product(near, far, n, i), n, x),
    ensures
        log_split(near, far, n, i) == x,
{
    lemma_floor_root_unique(geometric_product(near, far, n, i), n, log_split(near, far, n, i), x);
}

/// The logarithmic cuts start at the near plane and end at the far plane.
pub proof fn lemma_log_split_ends(near: int, far: int, n: nat)
    requires
        0 <= near <= far,
        1 <= n,
    ensures
        log_split(near, far, n, 0) == near,
        log_split(near, far, n, n) == far,
{
    lemma_geometric_product(near, far, n, 0);
    lemma_geometric_product(near, far, n, n);
    lemma_pow_base_strict(near, near + 1, n);
    lemma_pow_base_strict(far, far + 1, n);
    lemma_log_split_is(near, far, n, 0, near);
    lemma_log_split_is(near, far, n, n, far);
}

/// The uniform cuts start at the near plane, end at the far plane, stay
/// between the two, and do not go back.
pub proof fn lemma_linear_split(near: int, far: int, n: int, i: int)
    requires
        0 <= near <= far,
        0 <= i <= n,
        1 <= n,
    ensures
        near <= linear_split(near, far, n, i) <= far,
        i < n ==> linear_split(near, far, n, i) <= linear_split(near, far, n, i + 1),
        linear_split(near, far, n, 0) == near,
        linear_split(near, far, n, n) == far,
{
    let w = far - near;
    lemma_mul_le(w, i, w, n);
    lemma_div_is_ordered(0, w * i, n);
    lemma_div_is_ordered(w * i, w * n, n);
    lemma_div_by_multiple(w, n);
    assert(w * 0 == 0) by (nonlinear_arith);
    if i < n {
        lemma_mul_le(w, i, w, i + 1);
        lemma_div_is_ordered(w * i, w * (i + 1), n);
    }
}

/// Where the range is at least as long as there are cascades, every
/// uniform cut lies beyond the one before: no cascade is empty.
pub proof fn lemma_uniform_strict(near: int, far: int, n: int, i: int)
    requires
        0 <= near <= far,
        0 <= i < n,
        n <= far - near,
    ensures
        linear_split(near, far, n, i) < linear_split(near, far, n, i + 1),
{
    let w = far - near;
    assert(w * (i + 1) == w * i + w) by (nonlinear_arith);
    lemma_div_is_ordered(w * i + n, w * i + w, n);
    vstd::arithmetic::div_mod::lemma_hoist_over_denominator(w * i, 1, n as nat);
    assert(1 * n == n) by (nonlinear_arith);
}

/// A mix of two pairs of which the second lies beyond the first in both
/// end points lies beyond the mix of the first.
pub proof fn lemma_mix_strict(a1: int, b1: int, a2: int, b2: int, t: int)
    requires
        0 <= t <= ONE,
        a1 < a2,
        b1 < b2,
    ensures
        mix_spec(a1, b1, t) < mix_spec(a2, b2, t),
{
    let n1 = a1 * (ONE - t) + b1 * t;
    let n2 = a2 * (ONE - t) + b2 * t;
    assert(n1 + ONE <= n2) by (nonlinear_arith)
        requires
            0 <= t <= ONE,
            a1 + 1 <= a2,
            b1 + 1 <= b2,
            n1 == a1 * (ONE - t) + b1 * t,
            n2 == a2 * (ONE - t) + b2 * t,
    ;
    vstd::arithmetic::div_mod::lemma_hoist_over_denominator(n1, 1, ONE as nat);
    assert(1 * ONE == ONE) by (nonlinear_arith);
    lemma_div_is_ordered(n1 + ONE, n2, ONE as int);
}

/// Whether the planes lie far enough apart for `n` logarithmic cascades
/// none of which is empty: the far plane is at least as many times the
/// near plane as the `n`-th power of the step from the near plane to the
/// next depth.
pub open spec fn log_apart(near: int, far: int, n: nat) -> bool {
    1 <= near && 1 <= n && pow(near + 1, n) <= far * pow(near, (n - 1) as nat)
}

/// Where the planes lie far enough apart, every logarithmic cut lies
/// beyond the one before.
pub proof fn lemma_log_strict(near: int, far: int, n: nat, i: nat)
    requires
        near < far,
        i < n,
        log_apart(near, far, n),
    ensures
        log_split(near, far, n, i) < log_split(near, far, n, (i + 1) as nat),
{
    let x = log_split(near, far, n, i);
    let y = log_split(near, far, n, (i + 1) as nat);
    let a = geometric_product(near, far, n, i);
    let b = geometric_product(near, far, n, (i + 1) as nat);
    lemma_log_split_range(near, far, n, i);
    lemma_log_split_range(near, far, n, (i + 1) as nat);
    let xn = pow(x, n);
    let x1n = pow(x + 1, n);
    let m = pow(near, (n - 1) as nat);
    // The two numbers under the root: near * b == far * a.
    let k = pow(near, (n - i - 1) as nat);
    let f = pow(far, i);
    assert(pow(near, (n - i) as nat) == near * k && pow(far, (i + 1) as nat) == far * f) by {
        reveal(pow);
    }
    assert(near * (k * (far * f)) == far * ((near * k) * f)) by (nonlinear_arith);
    // near * (x + 1)^n <= far * x^n.
    assert((x + 1) * near <= (near + 1) * x) by (nonlinear_arith)
        requires
            near <= x,
    ;
    assert(0 <= (x + 1) * near) by (nonlinear_arith)
        requires
            0 <= x,
            0 <= near,
    ;
    lemma_pow_base_monotone((x + 1) * near, (near + 1) * x, n);
    vstd::arithmetic::power::lemma_pow_distributes(x + 1, near, n);
    vstd::arithmetic::power::lemma_pow_distributes(near + 1, x, n);
    lemma_pow_base_monotone(0, x, n);
    lemma_pow_base_monotone(0, 0, n);
    lemma_pow_base_monotone(1, near, (n - 1) as nat);
    vstd::arithmetic::power::lemma1_pow((n - 1) as nat);
    assert(pow(near, n) == near * m) by {
        reveal(pow);
    }
    let h = pow(near + 1, n);
    assert(x1n * (near * m) <= (far * m) * xn) by (nonlinear_arith)
        requires
            x1n * (near * m) <= h * xn,
            h <= far * m,
            0 <= xn,
    ;
    assert(near * x1n <= far * xn) by (nonlinear_arith)
        requires
            x1n * (near * m) <= (far * m) * xn,
            1 <= m,
    ;
    // So (x + 1)^n <= b, and the root of b is at least x + 1.
    assert(x1n <= b) by (nonlinear_arith)
        requires
            near * b == far * a,
            xn <= a,
            near * x1n <= far * xn,
            1 <= near,
            0 <= far,
    ;
    if y < x + 1 {
        lemma_pow_base_monotone(y + 1, x + 1, n);
    }
}

/// Where the range is at least as long as there are cascades and, for a
/// scheme with a logarithmic part, the planes lie far enough apart, every
/// cut lies beyond the one before: no cascade is empty. On a lattice a
/// shorter range cannot be cut so.
pub proof fn lemma_cuts_strict(near: int, far: int, n: nat, w: int, i: nat)
    requires
        0 <= near < far,
        i < n,
        0 <= w <= ONE,
        w < ONE ==> n <= far - near,
        w > 0 ==> log_apart(near, far, n),
    ensures
        boundary(near, far, n, w, i) < boundary(near, far, n, w, (i + 1) as nat),
{
    let lin1 = linear_split(near, far, n as int, i as int);
    let lin2 = linear_split(near, far, n as int, (i + 1) as int);
    let log1 = log_split(near, far, n, i);
    let log2 = log_split(near, far, n, (i + 1) as nat);
    if w == 0 {
        lemma_uniform_strict(near, far, n as int, i as int);
    } else if w == ONE {
        lemma_log_strict(near, far, n, i);
        lemma_mix_between(lin1, log1, w);
        lemma_mix_between(lin2, log2, w);
    } else {
        lemma_uniform_strict(near, far, n as int, i as int);
        lemma_log_strict(near, far, n, i);
        lemma_mix_strict(lin1, log1, lin2, log2, w);
    }
}

/// Whatever the scheme, the cuts start at the near plane, end at the far
/// plane, stay between the two, and do not go back.
pub proof fn lemma_boundary(near: int, far: int, n: nat, w: int, i: nat)
    requires
        0 <= near <= far,
        i <= n,
        1 <= n,
        0 <= w <= ONE,
    ensures
        near <= boundary(near, far, n, w, i) <= far,
        i < n ==> boundary(near, far, n, w, i) <= boundary(near, far, n, w, (i + 1) as nat),
        boundary(near, far, n, w, 0) == near,
        boundary(near, far, n, w, n) == far,
{
    lemma_linear_split(near, far, n as int, i as int);
    lemma_log_split_ends(near, far, n);
    lemma_log_split_range(near, far, n, i);
    let lin = linear_split(near, far, n as int, i as int);
    let log = log_split(near, far, n, i);
    lemma_mix_between(lin, log, w);
    lemma_mix_between(near, near, w);
    lemma_mix_between(far, far, w);
    if i < n {
        let j = (i + 1) as nat;
        lemma_log_split_range(near, far, n, j);
        lemma_geometric_product(near, far, n, i);
        lemma_floor_root_monotone(
            geometric_product(near, far, n, i),
            geometric_product(near, far, n, j),
            n,
            log,
            log_split(near, far, n, j),
        );
        lemma_mix_monotone(
            lin,
            log,
            linear_split(near, far, n as int, j as int),
            log_split(near, far, n, j),
            w,
        );
    }
}

/// A practical cut lies between the uniform and the logarithmic cut of
/// the same index, whatever the weight.
pub proof fn lemma_practical_between(near: int, far: int, n: nat, w: int, i: nat)
    requires
        0 <= w <= ONE,
    ensures
        ({
            let lin = linear_split(near, far, n as int, i as int);
            let log = log_split(near, far, n, i);
            let cut = boundary(near, far, n, w, i);
            &&& lin <= log ==> lin <= cut <= log
            &&& log <= lin ==> log <= cut <= lin
        }),
{
    lemma_mix_between(
        linear_split(near, far, n as int, i as int),
        log_split(near, far, n, i),
        w,
    );
}

/// A logarithmic cut lies between the two planes.
pub proof fn lemma_log_split_range(near: int, far: int, n: nat, i: nat)
    requires
        0 <= near <= far,
        i <= n,
        1 <= n,
    ensures
        near <= log_split(near, far, n, i) <= far,
        is_floor_root(geometric_product(near, far, n, i), n, log_split(near, far, n, i)),
{
    let g = geometric_product(near, far, n, i);
    let x = log_split(near, far, n, i);
    lemma_root_exists(near, far, n, i);
    lemma_geometric_product(near, far, n, i);
    lemma_pow_base_strict(near, near + 1, n);
    lemma_pow_base_strict(far, far + 1, n);
    assert(is_floor_root(pow(near, n), n, near));
    assert(is_floor_root(pow(far, n), n, far));
    lemma_floor_root_monotone(pow(near, n), g, n, near, x);
    lemma_floor_root_monotone(g, pow(far, n), n, x, far);
}

/// The uniform cut with index `i` of `n`.
pub fn linear_cut(near: u64, far: u64, n: usize, i: usize) -> (r: u64)
    requires
        near <= far,
        i <= n,
        1 <= n,
    ensures
        r == linear_split(near as int, far as int, n as int, i as int),
        near <= r <= far,
{
    proof {
        lemma_linear_split(near as int, far as int, n as int, i as int);
        lemma_mul_le((far - near) as int, i as int, u64::MAX as int, u64::MAX as int);
    }
    let w: u128 = (far - near) as u128;
    let q: u128 = (w * (i as u128)) / (n as u128);
    near + (q as u64)
}

/// `x` to the power `n`, whatever its size.
fn big_power(x: u64, n: usize) -> (r: BigNat)
    ensures
        r@ == pow(x as int, n as nat),
{
    let mut acc = BigNat::from_u64(1);
    let mut j: usize = 0;
    proof {
        lemma_pow0(x as int);
    }
    while j < n
        invariant
            j <= n,
            acc@ == pow(x as int, j as nat),
        decreases n - j,
    {
        proof {
            reveal(pow);
            assert(pow(x as int, (j + 1) as nat) == x * pow(x as int, j as nat));
            assert(x * pow(x as int, j as nat) == pow(x as int, j as nat) * x) by (nonlinear_arith);
        }
        acc = acc.mul_small(x);
        j = j + 1;
    }
    acc
}

/// The number whose `n`-th root is the logarithmic cut with index `i`,
/// whatever its size.
fn big_product(near: u64, far: u64, n: usize, i: usize) -> (r: BigNat)
    requires
        i <= n,
    ensures
        r@ == geometric_product(near as int, far as int, n as nat, i as nat),
{
    let mut acc = big_power(near, n - i);
    let mut j: usize = 0;
    proof {
        lemma_pow0(far as int);
        assert(acc@ * 1 == acc@) by (nonlinear_arith);
    }
    while j < i
        invariant
            j <= i,
            i <= n,
            acc@ == pow(near as int, (n - i) as nat) * pow(far as int, j as nat),
        decreases i - j,
    {
        proof {
            reveal(pow);
            let a = pow(near as int, (n - i) as nat);
            let b = pow(far as int, j as nat);
            assert(pow(far as int, (j + 1) as nat) == far * b);
            assert((a * b) * far == a * (far * b)) by (nonlinear_arith);
        }
        acc = acc.mul_small(far);
        j = j + 1;
    }
    acc
}

/// The logarithmic cut with index `i` of `n`, found with numbers of any
/// size.
fn log_cut_big(near: u64, far: u64, n: usize, i: usize) -> (r: u64)
    requires
        near <= far,
        i <= n,
        1 <= n,
    ensures
        is_floor_root(geometric_product(near as int, far as int, n as nat, i as nat), n as nat, r as int),
        near <= r <= far,
{
    let g = big_product(near, far, n, i);
    let mut low: u64 = near;
    let mut high: u64 = far;
    proof {
        lemma_geometric_product(near as int, far as int, n as nat, i as nat);
    }
    while low < high
        invariant
            1 <= n,
            near <= low <= high <= far,
            g@ == geometric_product(near as int, far as int, n as nat, i as nat),
            pow(low as int, n as nat) <= g@ <= pow(far as int, n as nat),
            high < far ==> g@ < pow(high + 1, n as nat),
        decreases high - low,
    {
        let mid: u64 = low + (high - low) / 2 + 1;
        let p = big_power(mid, n);
        if p.le(&g) {
            low = mid;
        } else {
            high = mid - 1;
        }
    }
    proof {
        lemma_pow_base_strict(far as int, far + 1, n as nat);
        lemma_pow_base_monotone(0, low as int, n as nat);
    }
    low
}

/// The logarithmic cut with index `i` of `n`. Where the `n`-th power of
/// the far plane fits in 128 bits the root is found in machine words, and
/// else with numbers of any size; the cut is the same.
pub fn log_cut(near: u64, far: u64, n: usize, i: usize) -> (r: u64)
    requires
        near <= far,
        i <= n,
        1 <= n,
    ensures
        r == log_split(near as int, far as int, n as nat, i as nat),
        is_floor_root(geometric_product(near as int, far as int, n as nat, i as nat), n as nat, r as int),
        near <= r <= far,
{
    if checked_pow(far, n).is_some() {
        log_cut_small(near, far, n, i)
    } else {
        let r = log_cut_big(near, far, n, i);
        proof {
            lemma_log_split_is(near as int, far as int, n as nat, i as nat, r as int);
        }
        r
    }
}

/// The logarithmic cut with index `i` of `n`, found in machine words.
fn log_cut_small(near: u64, far: u64, n: usize, i: usize) -> (r: u64)
    requires
        near <= far,
        i <= n,
        1 <= n,
        pow(far as int, n as nat) <= u128::MAX,
    ensures
        r == log_split(near as int, far as int, n as nat, i as nat),
        is_floor_root(geometric_product(near as int, far as int, n as nat, i as nat), n as nat, r as int),
        near <= r <= far,
{
    proof {
        lemma_geometric_product(near as int, far as int, n as nat, i as nat);
        lemma_pow_base_monotone(near as int, far as int, (n - i) as nat);
        lemma_pow_base_monotone(0, far as int, (n - i) as nat);
        lemma_pow_base_monotone(0, far as int, i as nat);
        lemma_pow_base_monotone(0, 0, (n - i) as nat);
        lemma_pow_base_monotone(0, 0, i as nat);
        lemma_pow_adds(far as int, (n - i) as nat, i as nat);
    }
    if far == 0 {
        proof {
            lemma_log_split_range(near as int, far as int, n as nat, i as nat);
        }
        return 0;
    }
    proof {
        vstd::arithmetic::power::lemma_pow_positive(far as int, (n - i) as nat);
        vstd::arithmetic::power::lemma_pow_positive(far as int, i as nat);
        lemma_mul_le(
            pow(far as int, (n - i) as nat),
            1,
            pow(far as int, (n - i) as nat),
            pow(far as int, i as nat),
        );
        lemma_mul_le(
            1,
            pow(far as int, i as nat),
            pow(far as int, (n - i) as nat),
            pow(far as int, i as nat),
        );
        assert(pow(far as int, (n - i) as nat) * 1 == pow(far as int, (n - i) as nat))
            by (nonlinear_arith);
        assert(1 * pow(far as int, i as nat) == pow(far as int, i as nat)) by (nonlinear_arith);
    }
    let a = checked_pow(near, n - i).unwrap();
    let b = checked_pow(far, i).unwrap();
    let g: u128 = a * b;
    let r = floor_root(g, n, near, far);
    proof {
        lemma_pow_base_strict(far as int, far + 1, n as nat);
        assert(is_floor_root(g as int, n as nat, r as int));
        lemma_log_split_is(near as int, far as int, n as nat, i as nat, r as int);
    }
    r
}

/// The cut with index `i` of `n` under a scheme.
pub fn cut(near: u64, far: u64, n: usize, scheme: SplitScheme, i: usize) -> (r: u64)
    requires
        near <= far,
        i <= n,
        1 <= n,
    ensures
        r == boundary(near as int, far as int, n as nat, scheme.weight(), i as nat),
        near <= r <= far,
{
    let w = scheme.log_weight();
    let lin = linear_cut(near, far, n, i);
    if w == 0 {
        lin
    } else {
        let log = log_cut(near, far, n, i);
        mix(lin, log, w)
    }
}

/// The cascades that `cuts` delimit: each ends where the next begins.
pub open spec fn contiguous(s: Seq<Split>, near: int, far: int) -> bool {
    &&& s.len() >= 1
    &&& s[0].near == near
    &&& s[s.len() - 1].far == far
    &&& forall|i: int| 0 <= i < s.len() ==> (#[trigger] s[i]).near <= s[i].far
    &&& forall|i: int| 0 <= i < s.len() - 1 ==> (#[trigger] s[i]).far == s[i + 1].near
}

/// Cuts the depth range from `near` to `far` into `n` cascades.
///
/// The range is rejected as degenerate where `n` is 0 or `near` is not less
/// than `far`, and there alone: every other range is cut, whatever the
/// scheme.
pub fn split_depths(near: u64, far: u64, n: usize, scheme: SplitScheme) -> (r: Result<
    Vec<Split>,
    ShadowError,
>)
    ensures
        degenerate(near as int, far as int, n as int) <==> r == Err::<Vec<Split>, ShadowError>(
            ShadowError::DegenerateFrustum,
        ),
        r is Ok <==> !degenerate(near as int, far as int, n as int),
        r is Ok ==> {
            let s = r->Ok_0@;
            &&& s.len() == n
            &&& forall|i: int|
                0 <= i < n ==> (#[trigger] s[i]).near == boundary(
                    near as int,
                    far as int,
                    n as nat,
                    scheme.weight(),
                    i as nat,
                ) && s[i].far == boundary(
                    near as int,
                    far as int,
                    n as nat,
                    scheme.weight(),
                    (i + 1) as nat,
                )
            &&& contiguous(s, near as int, far as int)
        },
{
    if n == 0 || near >= far {
        return Err(ShadowError::DegenerateFrustum);
    }
    let mut splits: Vec<Split> = Vec::new();
    let mut lo: u64 = cut(near, far, n, scheme, 0);
    let mut i: usize = 0;
    proof {
        lemma_cuts(near, far, n, scheme, 0);
    }
    while i < n
        invariant
            i <= n,
            1 <= n,
            near < far,
            splits.len() == i,
            lo == boundary(near as int, far as int, n as nat, scheme.weight(), i as nat),
            forall|j: int|
                0 <= j < i ==> (#[trigger] splits[j]).near == boundary(
                    near as int,
                    far as int,
                    n as nat,
                    scheme.weight(),
                    j as nat,
                ) && splits[j].far == boundary(
                    near as int,
                    far as int,
                    n as nat,
                    scheme.weight(),
                    (j + 1) as nat,
                ) && splits[j].near <= splits[j].far,
        decreases n - i,
    {
        let hi = cut(near, far, n, scheme, i + 1);
        proof {
            lemma_cuts(near, far, n, scheme, i);
        }
        splits.push(Split { near: lo, far: hi });
        lo = hi;
        i = i + 1;
    }
    proof {
        lemma_cuts(near, far, n, scheme, 0);
        lemma_cuts(near, far, n, scheme, n);
    }
    Ok(splits)
}

/// The cuts of a range that can be cut never go back, and they start and
/// end at the two planes.
pub proof fn lemma_cuts(near: u64, far: u64, n: usize, scheme: SplitScheme, i: usize)
    requires
        near <= far,
        i <= n,
        1 <= n,
    ensures
        near <= boundary(near as int, far as int, n as nat, scheme.weight(), i as nat) <= far,
        i < n ==> boundary(near as int, far as int, n as nat, scheme.weight(), i as nat)
            <= boundary(near as int, far as int, n as nat, scheme.weight(), (i + 1) as nat),
        boundary(near as int, far as int, n as nat, scheme.weight(), 0) == near,
        boundary(near as int, far as int, n as nat, scheme.weight(), n as nat) == far,
{
    let w = scheme.weight();
    lemma_linear_split(near as int, far as int, n as int, i as int);
    lemma_linear_split(near as int, far as int, n as int, 0);
    lemma_linear_split(near as int, far as int, n as int, n as int);
    if w != 0 {
        lemma_boundary(near as int, far as int, n as nat, w, i as nat);
    }
}

/// Every number under the root has a root between the two planes.
pub proof fn lemma_root_exists(near: int, far: int, n: nat, i: nat)
    requires
        0 <= near <= far,
        i <= n,
        1 <= n,
    ensures
        exists|x: int| is_floor_root(geometric_product(near, far, n, i), n, x),
{
    let g = geometric_product(near, far, n, i);
    lemma_geometric_product(near, far, n, i);
    lemma_pow_base_strict(far, far + 1, n);
    let x = lemma_root_search(g, n, near, far + 1);
    assert(is_floor_root(g, n, x));
}

/// Between a number whose power is at most `a` and one whose power is more
/// lies the root of `a`.
proof fn lemma_root_search(a: int, n: nat, lo: int, hi: int) -> (x: int)
    requires
        0 <= lo < hi,
        pow(lo, n) <= a < pow(hi, n),
    ensures
        lo <= x < hi,
        pow(x, n) <= a < pow(x + 1, n),
    decreases hi - lo,
{
    if a < pow(lo + 1, n) {
        lo
    } else {
        lemma_pow_base_monotone(lo + 1, hi, n);
        lemma_root_search(a, n, lo + 1, hi)
    }
}

} // verus!
