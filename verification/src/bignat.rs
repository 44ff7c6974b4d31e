//! Natural numbers of any size, held as little-endian 32-bit limbs.
//!
//! Decimal text and binary values are converted into each other through these,
//! so that no digit is lost on the way.

use vstd::prelude::*;
use vstd::arithmetic::power2::{lemma2_to64, lemma_pow2_adds, pow2};

verus! {

/// One more than the largest limb.
pub const LIMB: u64 = 0x1_0000_0000;

/// The number that a little-endian sequence of limbs stands for.
pub open spec fn nat_of(limbs: Seq<u32>) -> nat
    decreases limbs.len(),
{
    if limbs.len() == 0 {
        0
    } else {
        limbs[0] as nat + LIMB as nat * nat_of(limbs.drop_first())
    }
}

/// A natural number.
pub struct BigNat {
    pub limbs: Vec<u32>,
}

impl View for BigNat {
    type V = nat;

    open spec fn view(&self) -> nat {
        nat_of(self.limbs@)
    }
}

pub proof fn lemma_pow2_limbs(k: nat)
    ensures
        pow2(0) == 1,
        pow2(32 * (k + 1)) == LIMB * pow2(32 * k),
{
    lemma2_to64();
    lemma_pow2_adds(32, 32 * k);
    assert(32 + 32 * k == 32 * (k + 1));
}

pub proof fn lemma_nat_of_push(s: Seq<u32>, x: u32)
    ensures
        nat_of(s.push(x)) == nat_of(s) + x as nat * pow2(32 * s.len()),
    decreases s.len(),
{
    lemma2_to64();
    if s.len() == 0 {
        assert(s.push(x).drop_first() =~= Seq::<u32>::empty());
        assert(nat_of(s.push(x).drop_first()) == 0);
        assert(pow2(32 * s.len()) == 1);
        assert(x as nat * pow2(32 * s.len()) == x as nat) by (nonlinear_arith)
            requires
                pow2(32 * s.len()) == 1,
        ;
    } else {
        lemma_nat_of_push(s.drop_first(), x);
        assert(s.push(x).drop_first() =~= s.drop_first().push(x));
        let n: nat = (s.len() - 1) as nat;
        lemma_pow2_limbs(n);
        let rest = nat_of(s.drop_first());
        let p = pow2(32 * n);
        assert(LIMB as nat * (rest + x as nat * p) == LIMB as nat * rest + x as nat * (LIMB as nat
            * p)) by (nonlinear_arith);
    }
}

pub proof fn lemma_nat_of_concat(s: Seq<u32>, t: Seq<u32>)
    ensures
        nat_of(s + t) == nat_of(s) + pow2(32 * s.len()) * nat_of(t),
    decreases s.len(),
{
    lemma2_to64();
    if s.len() == 0 {
        assert(s + t =~= t);
        assert(pow2(32 * s.len()) == 1);
        assert(pow2(32 * s.len()) * nat_of(t) == nat_of(t)) by (nonlinear_arith)
            requires
                pow2(32 * s.len()) == 1,
        ;
    } else {
        lemma_nat_of_concat(s.drop_first(), t);
        assert((s + t).drop_first() =~= s.drop_first() + t);
        let n: nat = (s.len() - 1) as nat;
        lemma_pow2_limbs(n);
        let rest = nat_of(s.drop_first());
        let p = pow2(32 * n);
        let q = nat_of(t);
        assert(LIMB as nat * (rest + p * q) == LIMB as nat * rest + (LIMB as nat * p) * q)
            by (nonlinear_arith);
    }
}

pub proof fn lemma_nat_of_bound(s: Seq<u32>)
    ensures
        nat_of(s) < pow2(32 * s.len()),
    decreases s.len(),
{
    lemma2_to64();
    if s.len() > 0 {
        lemma_nat_of_bound(s.drop_first());
        let n: nat = (s.len() - 1) as nat;
        lemma_pow2_limbs(n);
        let rest = nat_of(s.drop_first());
        let p = pow2(32 * n);
        assert(LIMB as nat * rest + LIMB as nat <= LIMB as nat * p) by (nonlinear_arith)
            requires
                rest + 1 <= p,
        ;
    }
}

pub proof fn lemma_nat_of_zeros(s: Seq<u32>)
    requires
        forall|i: int| 0 <= i < s.len() ==> s[i] == 0,
    ensures
        nat_of(s) == 0,
    decreases s.len(),
{
    if s.len() > 0 {
        lemma_nat_of_zeros(s.drop_first());
    }
}

/// A number with a nonzero limb is not zero.
pub proof fn lemma_nat_of_positive(s: Seq<u32>, i: int)
    requires
        0 <= i < s.len(),
        s[i] != 0,
    ensures
        nat_of(s) > 0,
    decreases s.len(),
{
    if i > 0 {
        lemma_nat_of_positive(s.drop_first(), i - 1);
    }
}

proof fn lemma_nat_of_skip(s: Seq<u32>, i: int)
    requires
        0 <= i < s.len(),
    ensures
        nat_of(s.skip(i)) == s[i] as nat + LIMB as nat * nat_of(s.skip(i + 1)),
{
    assert(s.skip(i).drop_first() =~= s.skip(i + 1));
}

impl BigNat {
    /// The number zero.
    pub fn zero() -> (r: BigNat)
        ensures
            r@ == 0,
            r.limbs@.len() == 0,
    {
        BigNat { limbs: Vec::new() }
    }

    /// The number `n`.
    pub fn from_u128(n: u128) -> (r: BigNat)
        ensures
            r@ == n,
    {
        let b: u128 = 0x1_0000_0000;
        let high: u128 = n / b;
        let higher: u128 = high / b;
        let mut limbs: Vec<u32> = Vec::new();
        limbs.push((n % b) as u32);
        limbs.push((high % b) as u32);
        limbs.push((higher % b) as u32);
        limbs.push((higher / b) as u32);
        proof {
            let s = limbs@;
            let s1 = s.drop_first();
            let s2 = s1.drop_first();
            let s3 = s2.drop_first();
            assert(s3.drop_first() =~= Seq::<u32>::empty());
            assert(nat_of(s3.drop_first()) == 0);
            assert(nat_of(s3) == s[3] as nat);
            assert(nat_of(s2) == s[2] as nat + LIMB as nat * nat_of(s3));
            assert(nat_of(s1) == s[1] as nat + LIMB as nat * nat_of(s2));
            assert(nat_of(s) == s[0] as nat + LIMB as nat * nat_of(s1));
        }
        BigNat { limbs }
    }

    /// Replaces the number by itself times `m`, plus `a`.
    pub fn mul_add(&mut self, m: u32, a: u32)
        ensures
            final(self)@ == old(self)@ * m + a,
            final(self).limbs@.len() <= old(self).limbs@.len() + 1,
    {
        let mut out: Vec<u32> = Vec::new();
        let mut carry: u64 = a as u64;
        let ghost before = self.limbs@;
        proof {
            lemma2_to64();
            assert(before.take(0) =~= Seq::<u32>::empty());
            assert(pow2(32 * 0) == 1);
            assert(nat_of(before.take(0)) == 0);
            assert(carry * 1 == 0 * m + a);
        }
        for i in 0..self.limbs.len()
            invariant
                before == self.limbs@,
                out@.len() == i,
                carry < LIMB,
                nat_of(out@) + carry * pow2(32 * i as nat) == nat_of(before.take(i as int)) * m + a,
        {
            let limb: u32 = self.limbs[i];
            assert(limb as int * m as int <= 0xffff_ffff * 0xffff_ffff) by (nonlinear_arith)
                requires
                    0 <= limb <= 0xffff_ffffu32,
                    0 <= m <= 0xffff_ffffu32,
            ;
            let t: u64 = limb as u64 * m as u64 + carry;
            let low: u32 = (t % LIMB) as u32;
            proof {
                let p = pow2(32 * i as nat);
                lemma_pow2_limbs(i as nat);
                lemma_nat_of_push(out@, low);
                lemma_nat_of_push(before.take(i as int), limb);
                assert(before.take(i + 1) =~= before.take(i as int).push(limb));
                let high: int = (t / LIMB) as int;
                let done: int = nat_of(out@) as int;
                let taken: int = nat_of(before.take(i as int)) as int;
                assert(t == low + LIMB * high);
                assert(done + low * p + high * (LIMB * p) == done + t * p) by (nonlinear_arith)
                    requires
                        t == low + LIMB * high,
                ;
                assert((taken + limb * p) * m == taken * m + (limb * m) * p) by (nonlinear_arith);
                assert((limb * m + carry) * p == (limb * m) * p + carry * p) by (nonlinear_arith);
            }
            out.push(low);
            carry = t / LIMB;
        }
        proof {
            assert(before.take(before.len() as int) =~= before);
            lemma_nat_of_push(out@, carry as u32);
        }
        if carry > 0 {
            out.push(carry as u32);
        } else {
            assert(carry * pow2(32 * before.len()) == 0) by (nonlinear_arith)
                requires
                    carry == 0,
            ;
        }
        self.limbs = out;
    }

    /// Multiplies the number by a power of two.
    pub fn shl(&mut self, bits: usize)
        ensures
            final(self)@ == old(self)@ * pow2(bits as nat),
    {
        let part: usize = bits % 32;
        let whole: usize = bits / 32;
        let mut factor: u32 = 1;
        proof {
            lemma2_to64();
        }
        for i in 0..part
            invariant
                part < 32,
                factor == pow2(i as nat),
        {
            proof {
                lemma2_to64();
                lemma_pow2_adds(1, i as nat);
                assert(pow2(i as nat) <= 0x4000_0000) by {
                    if i < 30 {
                        vstd::arithmetic::power2::lemma_pow2_strictly_increases(i as nat, 30);
                    }
                }
            }
            factor = factor * 2;
        }
        self.mul_add(factor, 0);
        let mut out: Vec<u32> = Vec::new();
        for i in 0..whole
            invariant
                out@.len() == i,
                forall|j: int| 0 <= j < i ==> out@[j] == 0,
        {
            out.push(0u32);
        }
        let ghost zeros = out@;
        let ghost scaled = self.limbs@;
        for i in 0..self.limbs.len()
            invariant
                scaled == self.limbs@,
                out@ =~= zeros + scaled.take(i as int),
        {
            out.push(self.limbs[i]);
        }
        proof {
            assert(scaled.take(scaled.len() as int) =~= scaled);
            lemma_nat_of_zeros(zeros);
            lemma_nat_of_concat(zeros, scaled);
            lemma_pow2_adds(32 * whole as nat, part as nat);
            let base = nat_of(old(self).limbs@);
            let p = pow2(32 * whole as nat);
            assert(p * (base * factor) == base * (p * factor)) by (nonlinear_arith);
        }
        self.limbs = out;
    }

    /// Replaces the number by its quotient by `d`, and returns the remainder.
    pub fn div_rem(&mut self, d: u64) -> (rem: u64)
        requires
            d > 0,
        ensures
            rem < d,
            old(self)@ == final(self)@ * d + rem,
            final(self).limbs@.len() == old(self).limbs@.len(),
    {
        let ghost before = self.limbs@;
        let mut rem: u64 = 0;
        let mut i: usize = self.limbs.len();
        assert(before.skip(i as int) =~= Seq::<u32>::empty());
        assert(0 * d as int == 0);
        while i > 0
            invariant
                0 <= i <= before.len(),
                self.limbs@.len() == before.len(),
                forall|j: int| 0 <= j < i ==> self.limbs@[j] == before[j],
                0 <= rem < d,
                nat_of(before.skip(i as int)) == nat_of(self.limbs@.skip(i as int)) * d + rem,
            decreases i,
        {
            let ghost held = self.limbs@;
            let ghost quot = nat_of(held.skip(i as int));
            let ghost rem0 = rem;
            i = i - 1;
            let limb: u32 = self.limbs[i];
            let cur: u128 = rem as u128 * LIMB as u128 + limb as u128;
            let q: u128 = cur / d as u128;
            proof {
                vstd::arithmetic::div_mod::lemma_fundamental_div_mod(cur as int, d as int);
                assert(cur < d * LIMB) by (nonlinear_arith)
                    requires
                        cur == rem0 * LIMB + limb,
                        rem0 + 1 <= d,
                        limb < LIMB,
                ;
                assert(q < LIMB) by (nonlinear_arith)
                    requires
                        d * q <= cur,
                        cur < d * LIMB,
                        d > 0,
                ;
            }
            self.limbs.set(i, q as u32);
            rem = (cur % d as u128) as u64;
            proof {
                lemma_nat_of_skip(before, i as int);
                lemma_nat_of_skip(self.limbs@, i as int);
                let after = self.limbs@;
                assert(after.skip(i + 1) =~= held.skip(i + 1));
                assert(nat_of(after.skip(i + 1)) == quot);
                assert(limb + LIMB * (quot * d + rem0) == (q + LIMB * quot) * d + rem) by (nonlinear_arith)
                    requires
                        rem0 * LIMB + limb == d * q + rem,
                ;
            }
        }
        assert(before.skip(0) =~= before);
        assert(self.limbs@.skip(0) =~= self.limbs@);
        rem
    }

    /// Whether the number is zero.
    pub fn is_zero(&self) -> (r: bool)
        ensures
            r == (self@ == 0),
    {
        for i in 0..self.limbs.len()
            invariant
                forall|j: int| 0 <= j < i ==> self.limbs@[j] == 0,
        {
            if self.limbs[i] != 0 {
                proof {
                    lemma_nat_of_positive(self.limbs@, i as int);
                }
                return false;
            }
        }
        proof {
            lemma_nat_of_zeros(self.limbs@);
        }
        true
    }
}

} // verus!
