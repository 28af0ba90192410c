//! Fixed-point scalars: weights, cosines and shadow factors are integers in
//! units of `1 / ONE`. Integer square roots and roots of higher order are
//! computed exactly, rounded down.

use vstd::arithmetic::power::pow;
use vstd::arithmetic::power::lemma_pow0;
use vstd::arithmetic::power::lemma_pow_positive;
use vstd::prelude::*;

verus! {

/// The fixed-point representation of 1.
pub const ONE: u64 = 1_000_000;

/// The weight `t`, limited to `[0, ONE]`.
pub open spec fn clamp_unit(t: int) -> int {
    if t < 0 {
        0
    } else if t > ONE {
        ONE as int
    } else {
        t
    }
}

/// Linear interpolation from `a` (at weight 0) to `b` (at weight `ONE`),
/// rounded down.
pub open spec fn mix_spec(a: int, b: int, t: int) -> int {
    (a * (ONE - t) + b * t) / (ONE as int)
}

/// The product of two bounded naturals is bounded by the product of the bounds.
pub proof fn lemma_mul_le(a: int, b: int, c: int, d: int)
    by (nonlinear_arith)
    requires
        0 <= a <= c,
        0 <= b <= d,
    ensures
        0 <= a * b <= c * d,
{
}

/// A mix with a weight in `[0, ONE]` lies between its two end points.
pub proof fn lemma_mix_between(a: int, b: int, t: int)
    requires
        0 <= t <= ONE,
    ensures
        a <= b ==> a <= mix_spec(a, b, t) <= b,
        b <= a ==> b <= mix_spec(a, b, t) <= a,
        t == 0 ==> mix_spec(a, b, t) == a,
        t == ONE ==> mix_spec(a, b, t) == b,
{
    let n = a * (ONE - t) + b * t;
    assert(a <= b ==> a * ONE <= n <= b * ONE) by (nonlinear_arith)
        requires
            0 <= t <= ONE,
            n == a * (ONE - t) + b * t,
    ;
    assert(b <= a ==> b * ONE <= n <= a * ONE) by (nonlinear_arith)
        requires
            0 <= t <= ONE,
            n == a * (ONE - t) + b * t,
    ;
    assert(t == 0 ==> n == a * ONE) by (nonlinear_arith)
        requires
            n == a * (ONE - t) + b * t,
    ;
    assert(t == ONE ==> n == b * ONE) by (nonlinear_arith)
        requires
            n == a * (ONE - t) + b * t,
    ;
}

/// A mix grows with each of its end points.
pub proof fn lemma_mix_monotone(a1: int, b1: int, a2: int, b2: int, t: int)
    requires
        0 <= t <= ONE,
        a1 <= a2,
        b1 <= b2,
    ensures
        mix_spec(a1, b1, t) <= mix_spec(a2, b2, t),
{
    let n1 = a1 * (ONE - t) + b1 * t;
    let n2 = a2 * (ONE - t) + b2 * t;
    assert(n1 <= n2) by (nonlinear_arith)
        requires
            0 <= t <= ONE,
            a1 <= a2,
            b1 <= b2,
            n1 == a1 * (ONE - t) + b1 * t,
            n2 == a2 * (ONE - t) + b2 * t,
    ;
}

/// Interpolates between `a` and `b` with a weight limited to `[0, ONE]`.
pub fn mix(a: u64, b: u64, t: u64) -> (r: u64)
    ensures
        r == mix_spec(a as int, b as int, clamp_unit(t as int)),
        a <= b ==> a <= r <= b,
        b <= a ==> b <= r <= a,
{
    let w: u64 = if t > ONE { ONE } else { t };
    proof {
        lemma_mul_le(a as int, (ONE - w) as int, u64::MAX as int, ONE as int);
        lemma_mul_le(b as int, w as int, u64::MAX as int, ONE as int);
        lemma_mix_between(a as int, b as int, w as int);
    }
    let lo: u128 = (a as u128) * ((ONE - w) as u128);
    let hi: u128 = (b as u128) * (w as u128);
    let r: u128 = (lo + hi) / (ONE as u128);
    r as u64
}

/// `r` is the square root of `n`, rounded down.
pub open spec fn is_floor_sqrt(n: int, r: int) -> bool {
    0 <= r && r * r <= n < (r + 1) * (r + 1)
}

/// At most one number is the rounded-down square root of `n`.
pub proof fn lemma_floor_sqrt_unique(n: int, r1: int, r2: int)
    by (nonlinear_arith)
    requires
        is_floor_sqrt(n, r1),
        is_floor_sqrt(n, r2),
    ensures
        r1 == r2,
{
}

/// The square root of `n`, rounded down.
pub open spec fn floor_sqrt(n: int) -> int {
    choose|r: int| is_floor_sqrt(n, r)
}

/// A number found to be the rounded-down square root is the square root.
pub proof fn lemma_floor_sqrt_is(n: int, r: int)
    requires
        is_floor_sqrt(n, r),
    ensures
        floor_sqrt(n) == r,
{
    lemma_floor_sqrt_unique(n, floor_sqrt(n), r);
}

/// Every natural number has a rounded-down square root.
pub proof fn lemma_floor_sqrt(n: int)
    requires
        0 <= n,
    ensures
        is_floor_sqrt(n, floor_sqrt(n)),
{
    assert(n < (n + 1) * (n + 1)) by (nonlinear_arith)
        requires
            0 <= n,
    ;
    let r = lemma_sqrt_search(n, 0, n + 1);
    assert(is_floor_sqrt(n, r));
}

proof fn lemma_sqrt_search(n: int, lo: int, hi: int) -> (r: int)
    requires
        0 <= lo < hi,
        lo * lo <= n < hi * hi,
    ensures
        lo <= r < hi,
        r * r <= n < (r + 1) * (r + 1),
    decreases hi - lo,
{
    if n < (lo + 1) * (lo + 1) {
        lo
    } else {
        assert(lo + 1 < hi) by (nonlinear_arith)
            requires
                (lo + 1) * (lo + 1) <= n,
                n < hi * hi,
                0 <= lo < hi,
        ;
        lemma_sqrt_search(n, lo + 1, hi)
    }
}

/// The square root of `n`, rounded down.
pub fn isqrt(n: u64) -> (r: u64)
    ensures
        r == floor_sqrt(n as int),
        is_floor_sqrt(n as int, r as int),
        r < 0x1_0000_0000,
{
    let mut lo: u64 = 0;
    let mut hi: u64 = 0x1_0000_0000;
    while hi - lo > 1
        invariant
            lo < hi <= 0x1_0000_0000,
            lo * lo <= n,
            n < hi * hi,
        decreases hi - lo,
    {
        let mid: u64 = lo + (hi - lo) / 2;
        proof {
            lemma_mul_le(mid as int, mid as int, 0xffff_ffff, 0xffff_ffff);
        }
        if mid * mid <= n {
            lo = mid;
        } else {
            hi = mid;
        }
    }
    proof {
        lemma_floor_sqrt_is(n as int, lo as int);
    }
    lo
}

/// A number whose square is at most `n` is at most the square root of `n`.
pub proof fn lemma_floor_sqrt_least(n: int, r: int)
    requires
        0 <= r,
        r * r <= n,
    ensures
        r <= floor_sqrt(n),
{
    assert(r * r >= 0) by (nonlinear_arith);
    lemma_floor_sqrt(n);
    let s = floor_sqrt(n);
    if s < r {
        assert((s + 1) * (s + 1) <= r * r) by (nonlinear_arith)
            requires
                0 <= s,
                s + 1 <= r,
        ;
    }
}

/// The square root of `n`, rounded down, or `limit` where the root is
/// larger.
pub fn isqrt_limited(n: u128, limit: u64) -> (r: u64)
    requires
        limit <= 0xffff_ffff,
    ensures
        r == if floor_sqrt(n as int) <= limit {
            floor_sqrt(n as int)
        } else {
            limit as int
        },
        r <= limit,
{
    let mut lo: u64 = 0;
    let mut hi: u64 = limit;
    while lo < hi
        invariant
            lo <= hi <= limit,
            limit <= 0xffff_ffff,
            lo * lo <= n,
            hi < limit ==> n < (hi + 1) * (hi + 1),
        decreases hi - lo,
    {
        let mid: u64 = lo + (hi - lo) / 2 + 1;
        proof {
            lemma_mul_le(mid as int, mid as int, 0xffff_ffff, 0xffff_ffff);
        }
        if ((mid * mid) as u128) <= n {
            lo = mid;
        } else {
            hi = mid - 1;
        }
    }
    proof {
        if lo < limit {
            lemma_floor_sqrt_is(n as int, lo as int);
        } else {
            lemma_floor_sqrt_least(n as int, lo as int);
        }
    }
    lo
}

/// The powers of a natural number grow with the base.
pub proof fn lemma_pow_base_monotone(a: int, b: int, e: nat)
    requires
        0 <= a <= b,
    ensures
        0 <= pow(a, e) <= pow(b, e),
    decreases e,
{
    reveal(pow);
    if e > 0 {
        lemma_pow_base_monotone(a, b, (e - 1) as nat);
        lemma_mul_le(a, pow(a, (e - 1) as nat), b, pow(b, (e - 1) as nat));
    }
}

/// The powers of a positive number grow with the exponent.
pub proof fn lemma_pow_exp_monotone(b: int, e1: nat, e2: nat)
    requires
        1 <= b,
        e1 <= e2,
    ensures
        1 <= pow(b, e1) <= pow(b, e2),
    decreases e2,
{
    reveal(pow);
    if e1 == 0 {
        lemma_pow_positive(b, e2);
    } else {
        lemma_pow_exp_monotone(b, (e1 - 1) as nat, (e2 - 1) as nat);
        lemma_mul_le(b, pow(b, (e1 - 1) as nat), b, pow(b, (e2 - 1) as nat));
        assert(1 <= b * pow(b, (e1 - 1) as nat)) by (nonlinear_arith)
            requires
                1 <= b,
                1 <= pow(b, (e1 - 1) as nat),
        ;
    }
}

/// `base` to the power `exp`, where that fits in 128 bits.
pub fn checked_pow(base: u64, exp: usize) -> (r: Option<u128>)
    ensures
        r is Some <==> pow(base as int, exp as nat) <= u128::MAX,
        r is Some ==> r->0 == pow(base as int, exp as nat),
{
    proof {
        lemma_pow0(base as int);
    }
    if exp == 0 {
        return Some(1);
    }
    if base <= 1 {
        proof {
            if base == 0 {
                vstd::arithmetic::power::lemma0_pow(exp as nat);
            } else {
                vstd::arithmetic::power::lemma1_pow(exp as nat);
            }
        }
        return Some(base as u128);
    }
    let mut acc: u128 = 1;
    let mut i: usize = 0;
    while i < exp
        invariant
            i <= exp,
            2 <= base,
            acc == pow(base as int, i as nat),
        decreases exp - i,
    {
        proof {
            reveal(pow);
            assert(pow(base as int, (i + 1) as nat) == base * pow(base as int, i as nat));
        }
        match acc.checked_mul(base as u128) {
            Some(next) => {
                proof {
                    assert(acc * base == base * acc) by (nonlinear_arith);
                }
                acc = next;
            },
            None => {
                proof {
                    assert(acc * base == base * acc) by (nonlinear_arith);
                    lemma_pow_exp_monotone(base as int, (i + 1) as nat, exp as nat);
                }
                return None;
            },
        }
        i = i + 1;
    }
    Some(acc)
}

/// `r` is the `n`-th root of `a`, rounded down.
pub open spec fn is_floor_root(a: int, n: nat, r: int) -> bool {
    0 <= r && pow(r, n) <= a < pow(r + 1, n)
}

/// At most one number is the rounded-down `n`-th root of `a`.
pub proof fn lemma_floor_root_unique(a: int, n: nat, r1: int, r2: int)
    requires
        is_floor_root(a, n, r1),
        is_floor_root(a, n, r2),
    ensures
        r1 == r2,
{
    if r1 < r2 {
        lemma_pow_base_monotone(r1 + 1, r2, n);
    } else if r2 < r1 {
        lemma_pow_base_monotone(r2 + 1, r1, n);
    }
}

/// The `n`-th root of `a`, rounded down, searched between `lo` and `hi`.
pub fn floor_root(a: u128, n: usize, lo: u64, hi: u64) -> (r: u64)
    requires
        1 <= n,
        lo <= hi,
        pow(lo as int, n as nat) <= a <= pow(hi as int, n as nat) <= u128::MAX,
    ensures
        lo <= r <= hi,
        pow(r as int, n as nat) <= a,
        r < hi ==> a < pow(r + 1, n as nat),
        r == hi ==> a == pow(hi as int, n as nat),
{
    let mut low: u64 = lo;
    let mut high: u64 = hi;
    while low < high
        invariant
            1 <= n,
            lo <= low <= high <= hi,
            pow(low as int, n as nat) <= a,
            a <= pow(hi as int, n as nat) <= u128::MAX,
            high < hi ==> a < pow(high + 1, n as nat),
        decreases high - low,
    {
        let mid: u64 = low + (high - low) / 2 + 1;
        proof {
            lemma_pow_base_monotone(mid as int, hi as int, n as nat);
        }
        let p = checked_pow(mid, n);
        let v: u128 = p.unwrap();
        if v <= a {
            low = mid;
        } else {
            high = mid - 1;
        }
    }
    low
}

} // verus!
