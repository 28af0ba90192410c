//! Natural numbers of any size, as far as the exact roots of long
//! products need them: products by a machine word, and comparison.
//!
//! A number is a sequence of 64-bit limbs, the lowest first. Limbs of zero
//! at the high end are allowed.

use vstd::arithmetic::power::lemma_pow0;
use vstd::arithmetic::power::lemma_pow_positive;
use vstd::arithmetic::power::pow;
use vstd::prelude::*;

verus! {

/// The weight of one limb over the limb before it.
pub open spec fn base() -> int {
    0x1_0000_0000_0000_0000
}

/// The number that the limbs `s` stand for.
pub open spec fn limbs_value(s: Seq<u64>) -> int
    decreases s.len(),
{
    if s.len() == 0 {
        0
    } else {
        limbs_value(s.drop_last()) + s.last() * pow(base(), (s.len() - 1) as nat)
    }
}

/// The limbs `s`, filled up with zeros to the length `len`.
pub open spec fn padded(s: Seq<u64>, len: nat) -> Seq<u64> {
    Seq::new(
        len,
        |j: int|
            if j < s.len() {
                s[j]
            } else {
                0u64
            },
    )
}

/// A natural number of any size.
#[derive(Debug)]
pub struct BigNat {
    pub limbs: Vec<u64>,
}

impl View for BigNat {
    type V = int;

    open spec fn view(&self) -> int {
        limbs_value(self.limbs@)
    }
}

/// The weight of a limb is the base times the weight of the limb before.
pub proof fn lemma_weight(k: nat)
    ensures
        pow(base(), k + 1) == base() * pow(base(), k),
        pow(base(), k) >= 1,
{
    reveal(pow);
    lemma_pow_positive(base(), k);
}

/// A number of `n` limbs is less than the weight of the limb after them.
pub proof fn lemma_value_bound(s: Seq<u64>)
    ensures
        0 <= limbs_value(s) < pow(base(), s.len()),
    decreases s.len(),
{
    if s.len() == 0 {
        lemma_pow0(base());
    } else {
        let k = (s.len() - 1) as nat;
        lemma_value_bound(s.drop_last());
        lemma_weight(k);
        let p = pow(base(), k);
        let x = s.last() as int;
        assert(0 <= x * p && x * p + p <= base() * p) by (nonlinear_arith)
            requires
                0 <= x <= base() - 1,
                p >= 1,
        ;
    }
}

/// Zeros at the high end do not change a number.
pub proof fn lemma_padded(s: Seq<u64>, len: nat)
    requires
        s.len() <= len,
    ensures
        limbs_value(padded(s, len)) == limbs_value(s),
    decreases len,
{
    if len == s.len() {
        assert(padded(s, len) =~= s);
    } else {
        let p = padded(s, len);
        assert(p.drop_last() =~= padded(s, (len - 1) as nat));
        lemma_padded(s, (len - 1) as nat);
        assert(p.last() == 0);
        assert(0 * pow(base(), (len - 1) as nat) == 0) by (nonlinear_arith);
    }
}

/// Of two numbers of the same length that agree in every limb above one
/// in which they differ, the one with the smaller limb there is smaller.
pub proof fn lemma_limbs_differ(a: Seq<u64>, b: Seq<u64>, k: int)
    requires
        a.len() == b.len(),
        0 <= k < a.len(),
        forall|j: int| k < j < a.len() ==> a[j] == b[j],
        a[k] < b[k],
    ensures
        limbs_value(a) < limbs_value(b),
    decreases a.len(),
{
    let top = (a.len() - 1) as nat;
    let p = pow(base(), top);
    lemma_weight(top);
    if k == top {
        lemma_value_bound(a.drop_last());
        lemma_value_bound(b.drop_last());
        let x = a.last() as int;
        let y = b.last() as int;
        assert(x * p + p <= y * p) by (nonlinear_arith)
            requires
                x + 1 <= y,
                p >= 1,
        ;
    } else {
        assert(a.last() == b.last());
        assert forall|j: int| k < j < a.drop_last().len() implies a.drop_last()[j] == b.drop_last()[j] by {
            assert(a[j] == b[j]);
        }
        lemma_limbs_differ(a.drop_last(), b.drop_last(), k);
    }
}

impl BigNat {
    /// The number `x`.
    pub fn from_u64(x: u64) -> (r: BigNat)
        ensures
            r@ == x,
    {
        let mut limbs: Vec<u64> = Vec::new();
        limbs.push(x);
        proof {
            lemma_pow0(base());
            assert(limbs@.len() == 1 && limbs@.last() == x);
            assert(limbs@.drop_last() =~= Seq::<u64>::empty());
            assert(limbs_value(limbs@.drop_last()) == 0);
            assert(limbs_value(limbs@) == limbs_value(limbs@.drop_last()) + limbs@.last() * pow(
                base(),
                0,
            ));
            assert(x * 1 == x) by (nonlinear_arith);
        }
        BigNat { limbs }
    }

    /// The product of the number and `m`.
    pub fn mul_small(&self, m: u64) -> (r: BigNat)
        ensures
            r@ == self@ * m,
    {
        let mut out: Vec<u64> = Vec::new();
        let mut carry: u64 = 0;
        let mut i: usize = 0;
        proof {
            lemma_pow0(base());
            assert(m * 0 == 0) by (nonlinear_arith);
            assert(0 * pow(base(), 0) == 0) by (nonlinear_arith);
        }
        while i < self.limbs.len()
            invariant
                i <= self.limbs.len(),
                out.len() == i,
                limbs_value(out@) + carry * pow(base(), i as nat) == m * limbs_value(
                    self.limbs@.take(i as int),
                ),
            decreases self.limbs.len() - i,
        {
            let x: u64 = self.limbs[i];
            proof {
                assert(x * m <= 0xffff_ffff_ffff_ffff * 0xffff_ffff_ffff_ffff) by (nonlinear_arith)
                    requires
                        0 <= x <= 0xffff_ffff_ffff_ffff,
                        0 <= m <= 0xffff_ffff_ffff_ffff,
                ;
            }
            let t: u128 = (x as u128) * (m as u128) + (carry as u128);
            let lo: u64 = (t % 0x1_0000_0000_0000_0000u128) as u64;
            let hi: u64 = (t / 0x1_0000_0000_0000_0000u128) as u64;
            proof {
                let p = pow(base(), i as nat);
                let before = limbs_value(out@);
                let done = limbs_value(self.limbs@.take(i as int));
                let next = self.limbs@.take(i + 1);
                lemma_weight(i as nat);
                assert(next.drop_last() =~= self.limbs@.take(i as int));
                assert(next.last() == x);
                assert(out@.push(lo).drop_last() =~= out@);
                assert(t == lo + hi * base());
                assert(before + lo * p + hi * (base() * p) == m * (done + x * p)) by (nonlinear_arith)
                    requires
                        before + carry * p == m * done,
                        x * m + carry == lo + hi * base(),
                ;
            }
            out.push(lo);
            carry = hi;
            i = i + 1;
        }
        proof {
            assert(self.limbs@.take(i as int) =~= self.limbs@);
            assert(out@.push(carry).drop_last() =~= out@);
            assert(m * limbs_value(self.limbs@) == limbs_value(self.limbs@) * m) by (nonlinear_arith);
        }
        out.push(carry);
        BigNat { limbs: out }
    }

    /// Whether the number is at most `other`.
    pub fn le(&self, other: &BigNat) -> (r: bool)
        ensures
            r == (self@ <= other@),
    {
        let len: usize = if self.limbs.len() >= other.limbs.len() {
            self.limbs.len()
        } else {
            other.limbs.len()
        };
        let ghost a = padded(self.limbs@, len as nat);
        let ghost b = padded(other.limbs@, len as nat);
        proof {
            lemma_padded(self.limbs@, len as nat);
            lemma_padded(other.limbs@, len as nat);
        }
        let mut k: usize = len;
        while k > 0
            invariant
                k <= len,
                len >= self.limbs.len(),
                len >= other.limbs.len(),
                a == padded(self.limbs@, len as nat),
                b == padded(other.limbs@, len as nat),
                limbs_value(a) == self@,
                limbs_value(b) == other@,
                forall|j: int| k <= j < len ==> a[j] == b[j],
            decreases k,
        {
            k = k - 1;
            let x: u64 = if k < self.limbs.len() {
                self.limbs[k]
            } else {
                0
            };
            let y: u64 = if k < other.limbs.len() {
                other.limbs[k]
            } else {
                0
            };
            assert(x == a[k as int] && y == b[k as int]);
            if x < y {
                proof {
                    lemma_limbs_differ(a, b, k as int);
                }
                return true;
            }
            if x > y {
                proof {
                    lemma_limbs_differ(b, a, k as int);
                }
                return false;
            }
        }
        proof {
            assert(a =~= b);
        }
        true
    }
}

} // verus!
