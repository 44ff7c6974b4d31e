//! Rounding an exact quantity to the nearest double.

use vstd::prelude::*;
use vstd::arithmetic::power2::{lemma2_to64, lemma_pow2_adds, lemma_pow2_pos, lemma_pow2_strictly_increases, pow2};

use crate::bignat::{
    lemma_nat_of_bound, lemma_nat_of_concat, lemma_nat_of_positive, lemma_nat_of_zeros, nat_of,
    BigNat, LIMB,
};
use crate::double::{lemma_units, lemma_units_increase, units, EXPONENT, INFINITY};

verus! {

/// `m` is the magnitude nearest to `num / den` units of 2^-1074: the quantity lies
/// between the midpoints to both neighbours, and on a midpoint only where `m` is
/// even. Infinity stands where the next power of two after the largest finite
/// number would.
#[verifier::opaque]
pub open spec fn nearest(num: nat, den: nat, m: u64) -> bool {
    &&& m <= INFINITY
    &&& m == 0 || {
        let low = (units(m - 1) + units(m as int)) * den;
        low < 2 * num || (low == 2 * num && m % 2 == 0)
    }
    &&& m == INFINITY || {
        let high = (units(m as int) + units(m + 1)) * den;
        2 * num < high || (high == 2 * num && m % 2 == 0)
    }
}

/// The midpoints against which `n` half units, and a little more where `sticky`,
/// are held.
pub open spec fn nearest_half(n: nat, sticky: bool, m: u64) -> bool {
    &&& m <= INFINITY
    &&& m == 0 || {
        let low = units(m - 1) + units(m as int);
        low < n || (low == n && (sticky || m % 2 == 0))
    }
    &&& m == INFINITY || {
        let high = units(m as int) + units(m + 1);
        n < high || (n == high && !sticky && m % 2 == 0)
    }
}

/// What rounds the whole part of a quotient, told whether anything was left over,
/// rounds the quotient.
pub proof fn lemma_nearest_quotient(num: nat, den: nat, n: nat, rest: nat, sticky: bool, m: u64)
    requires
        den > 0,
        2 * num == n * den + rest,
        rest < den,
        sticky == (rest > 0),
        nearest_half(n, sticky, m),
    ensures
        nearest(num, den, m),
{
    reveal(nearest);
    if m > 0 {
        let low: int = units(m - 1) + units(m as int);
        if low < n {
            assert(low * den < n * den) by (nonlinear_arith)
                requires
                    low < n,
                    den > 0,
            ;
        }
    }
    if m < INFINITY {
        let high: int = units(m as int) + units(m + 1);
        if n < high {
            assert(n * den + den <= high * den) by (nonlinear_arith)
                requires
                    n + 1 <= high,
                    den > 0,
            ;
        }
    }
}

/// No quantity has two nearest magnitudes.
pub proof fn lemma_nearest_unique(num: nat, den: nat, a: u64, b: u64)
    requires
        den > 0,
        nearest(num, den, a),
        nearest(num, den, b),
    ensures
        a == b,
{
    if a < b {
        lemma_nearest_apart(num, den, a, b);
    } else if b < a {
        lemma_nearest_apart(num, den, b, a);
    }
}

proof fn lemma_nearest_apart(num: nat, den: nat, a: u64, b: u64)
    requires
        den > 0,
        a < b,
        nearest(num, den, a),
    ensures
        !nearest(num, den, b),
{
    reveal(nearest);
    let high: int = units(a as int) + units(a + 1);
    let low: int = units(b - 1) + units(b as int);
    if a + 1 < b {
        lemma_units_increase(a as int, b - 1);
        lemma_units_increase(a + 1, b as int);
        assert(high * den < low * den) by (nonlinear_arith)
            requires
                high < low,
                den > 0,
        ;
    }
}

/// The quantity lies above the midpoint below `m`, or on it where `m` is even.
spec fn above_midpoint(num: nat, den: nat, m: u64) -> bool {
    let low = (units(m - 1) + units(m as int)) * den;
    low < 2 * num || (low == 2 * num && m % 2 == 0)
}

proof fn lemma_nearest_from(num: nat, den: nat, m: u64) -> (r: u64)
    requires
        den > 0,
        m <= INFINITY,
        m == 0 || above_midpoint(num, den, m),
    ensures
        nearest(num, den, r),
    decreases INFINITY - m,
{
    reveal(nearest);
    if m == INFINITY {
        m
    } else if above_midpoint(num, den, (m + 1) as u64) {
        lemma_nearest_from(num, den, (m + 1) as u64)
    } else {
        m
    }
}

/// Every quantity has a nearest magnitude.
pub proof fn lemma_nearest_exists(num: nat, den: nat) -> (r: u64)
    requires
        den > 0,
    ensures
        nearest(num, den, r),
{
    lemma_nearest_from(num, den, 0)
}

/// A magnitude is the nearest one to itself.
pub proof fn lemma_nearest_exact(m: u64, den: nat)
    requires
        den > 0,
        m < INFINITY,
    ensures
        nearest((units(m as int) * den) as nat, den, m),
{
    reveal(nearest);
    let u: int = units(m as int);
    assert(u >= 0) by {
        lemma_units_zero();
        if m > 0 {
            lemma_units_increase(0, m as int);
        }
    }
    assert(u * den >= 0) by (nonlinear_arith)
        requires
            u >= 0,
            den > 0,
    ;
    lemma_units_increase(m as int, m + 1);
    let high: int = u + units(m + 1);
    assert(2 * (u * den) < high * den) by (nonlinear_arith)
        requires
            2 * u < high,
            den > 0,
    ;
    if m > 0 {
        lemma_units_increase(m - 1, m as int);
        let low: int = units(m - 1) + u;
        assert(low * den < 2 * (u * den)) by (nonlinear_arith)
            requires
                low < 2 * u,
                den > 0,
        ;
    }
}

pub proof fn lemma_units_zero()
    ensures
        units(0) == 0,
{
    lemma2_to64();
    lemma_units(0, 0);
}

/// A greater quantity does not round to a lesser magnitude.
pub proof fn lemma_nearest_ordered(a: nat, b: nat, den: nat, m: u64, n: u64)
    requires
        den > 0,
        a <= b,
        nearest(a, den, m),
        nearest(b, den, n),
    ensures
        m <= n,
{
    reveal(nearest);
    if n < m {
        let high: int = units(n as int) + units(n + 1);
        let low: int = units(m - 1) + units(m as int);
        if n + 1 < m {
            lemma_units_increase(n as int, m - 1);
            lemma_units_increase(n + 1, m as int);
            assert(high * den < low * den) by (nonlinear_arith)
                requires
                    high < low,
                    den > 0,
            ;
        }
    }
}

/// The value of the limbs from `from` on, as far as three of them.
fn leading(limbs: &Vec<u32>, from: usize, to: usize) -> (r: u128)
    requires
        from <= to <= limbs@.len(),
        to <= from + 3,
    ensures
        r == nat_of(limbs@.subrange(from as int, to as int)),
        r < 0x1_0000_0000_0000_0000_0000_0000,
{
    let mut r: u128 = 0;
    let mut i: usize = to;
    let ghost all = limbs@;
    assert(all.subrange(to as int, to as int) =~= Seq::<u32>::empty());
    while i > from
        invariant
            from <= i <= to <= limbs@.len(),
            to <= from + 3,
            all == limbs@,
            r == nat_of(all.subrange(i as int, to as int)),
            to - i <= 0 ==> r < 1,
            to - i <= 1 ==> r < 0x1_0000_0000,
            to - i <= 2 ==> r < 0x1_0000_0000_0000_0000,
            r < 0x1_0000_0000_0000_0000_0000_0000,
        decreases i,
    {
        i = i - 1;
        assert(r < 0x1_0000_0000_0000_0000);
        r = r * 0x1_0000_0000 + limbs[i] as u128;
        assert(all.subrange(i as int, to as int).drop_first() =~= all.subrange(i + 1, to as int));
    }
    r
}

/// The magnitude nearest to `n` half units of 2^-1074; `sticky` says that the
/// quantity lies a little above that.
pub fn round_half_units(n: &BigNat, sticky: bool) -> (m: u64)
    ensures
        nearest_half(n@, sticky, m),
{
    let ghost all = n.limbs@;
    let mut len: usize = n.limbs.len();
    while len > 0 && n.limbs[len - 1] == 0
        invariant
            len <= n.limbs@.len(),
            forall|i: int| len <= i < n.limbs@.len() ==> n.limbs@[i] == 0,
        decreases len,
    {
        len = len - 1;
    }
    let from: usize = if len > 3 { len - 3 } else { 0 };
    if from >= 100 {
        proof {
            lemma_far(all, len as int);
        }
        return INFINITY;
    }
    let mut rest: bool = sticky;
    for i in 0..from
        invariant
            from <= n.limbs@.len(),
            rest == (sticky || exists|j: int| 0 <= j < i && n.limbs@[j] != 0),
    {
        if n.limbs[i] != 0 {
            rest = true;
        }
    }
    let mut top: u128 = leading(&n.limbs, from, len);
    let mut s: u64 = 32 * from as u64;
    let ghost mut low: nat = nat_of(all.take(from as int));
    proof {
        lemma_split(all, from as int, len as int);
        lemma_nat_of_bound(all.take(from as int));
        if exists|j: int| 0 <= j < from && all[j] != 0 {
            let j = choose|j: int| 0 <= j < from && all[j] != 0;
            lemma_nat_of_positive(all.take(from as int), j);
        } else {
            lemma_nat_of_zeros(all.take(from as int));
        }
        if from > 0 {
            lemma_leading_large(all.subrange(from as int, len as int));
        }
    }
    while top >= 0x40_0000_0000_0000
        invariant
            n@ == top * pow2(s as nat) + low,
            low < pow2(s as nat),
            rest == (sticky || low > 0),
            s > 0 ==> top >= 0x20_0000_0000_0000,
            s <= 3200,
        decreases top,
    {
        if s >= 2046 {
            proof {
                lemma_overflow(n@, top as int, s as nat);
            }
            return INFINITY;
        }
        proof {
            lemma2_to64();
            lemma_pow2_adds(1, s as nat);
            let p: int = pow2(s as nat) as int;
            let h: int = (top / 2) as int;
            let o: int = (top % 2) as int;
            assert(top * p + low == h * (2 * p) + (o * p + low)) by (nonlinear_arith)
                requires
                    top == 2 * h + o,
            ;
            assert(o * p == 0 || o * p == p) by (nonlinear_arith)
                requires
                    o == 0 || o == 1,
            ;
            assert(o == 0 ==> o * p == 0);
            assert(o == 1 ==> o * p == p);
            lemma_pow2_pos(s as nat);
            low = (o * p + low) as nat;
        }
        if top % 2 == 1 {
            rest = true;
        }
        top = top / 2;
        s = s + 1;
    }
    let v: u64 = (top / 2) as u64;
    if s >= 2046 {
        proof {
            lemma_overflow(n@, top as int, s as nat);
        }
        return INFINITY;
    }
    let m: u64 = s * EXPONENT + v;
    proof {
        lemma_rounded(n@, sticky, rest, s as nat, top as int, low);
    }
    if top % 2 == 1 && (rest || v % 2 == 1) {
        m + 1
    } else {
        m
    }
}

proof fn lemma_split(all: Seq<u32>, from: int, len: int)
    requires
        0 <= from <= len <= all.len(),
        forall|i: int| len <= i < all.len() ==> all[i] == 0,
    ensures
        nat_of(all) == nat_of(all.subrange(from, len)) * pow2(32 * from as nat) + nat_of(
            all.take(from),
        ),
{
    let low = all.take(from);
    let mid = all.subrange(from, len);
    let high = all.skip(len);
    assert(all =~= low + (mid + high));
    lemma_nat_of_concat(low, mid + high);
    lemma_nat_of_concat(mid, high);
    lemma_nat_of_zeros(high);
    assert(nat_of(mid + high) == nat_of(mid));
    assert(pow2(32 * from as nat) * nat_of(mid) == nat_of(mid) * pow2(32 * from as nat))
        by (nonlinear_arith);
}

proof fn lemma_leading_large(s: Seq<u32>)
    requires
        s.len() == 3,
        s[2] != 0,
    ensures
        nat_of(s) >= 0x1_0000_0000_0000_0000,
{
    let t = s.drop_first();
    let u = t.drop_first();
    assert(u.drop_first() =~= Seq::<u32>::empty());
    assert(nat_of(u.drop_first()) == 0);
    assert(nat_of(u) == u[0] as nat);
    assert(u[0] == s[2]);
    assert(nat_of(t) == t[0] as nat + LIMB as nat * nat_of(u));
    assert(nat_of(s) == s[0] as nat + LIMB as nat * nat_of(t));
}

proof fn lemma_far(all: Seq<u32>, len: int)
    requires
        103 <= len <= all.len(),
        all[len - 1] != 0,
        forall|i: int| len <= i < all.len() ==> all[i] == 0,
    ensures
        nearest_half(nat_of(all), false, INFINITY),
        nearest_half(nat_of(all), true, INFINITY),
{
    lemma_split(all, len - 1, len);
    let one = all.subrange(len - 1, len);
    assert(one.drop_first() =~= Seq::<u32>::empty());
    assert(nat_of(one.drop_first()) == 0);
    assert(nat_of(one) == one[0] as nat);
    let p = pow2(32 * (len - 1) as nat);
    let top: int = nat_of(one) as int;
    assert(top * p >= p) by (nonlinear_arith)
        requires
            top >= 1,
            p >= 0,
    ;
    lemma_infinite(nat_of(all), 32 * (len - 1) as nat);
}

proof fn lemma_infinite(n: nat, e: nat)
    requires
        e >= 2099,
        n >= pow2(e),
    ensures
        nearest_half(n, false, INFINITY),
        nearest_half(n, true, INFINITY),
{
    lemma2_to64();
    if e > 2099 {
        lemma_pow2_strictly_increases(2099, e);
    }
    lemma_pow2_adds(53, 2046);
    lemma_pow2_adds(1, 52);
    vstd::arithmetic::power2::lemma2_to64_rest();
    assert(pow2(53) == 2 * EXPONENT);
    lemma_units(2046, EXPONENT as int);
    assert(2046 * EXPONENT + EXPONENT == INFINITY);
    assert((2 * EXPONENT) * pow2(2046) == 2 * (EXPONENT * pow2(2046))) by (nonlinear_arith);
}

proof fn lemma_overflow(n: nat, top: int, s: nat)
    requires
        s >= 2046,
        top >= 0x20_0000_0000_0000,
        n >= top * pow2(s),
    ensures
        nearest_half(n, false, INFINITY),
        nearest_half(n, true, INFINITY),
{
    vstd::arithmetic::power2::lemma2_to64_rest();
    lemma_pow2_adds(53, s);
    lemma_pow2_pos(s);
    assert(pow2(53) == 0x20_0000_0000_0000);
    assert(top * pow2(s) >= 0x20_0000_0000_0000 * pow2(s)) by (nonlinear_arith)
        requires
            top >= 0x20_0000_0000_0000,
            pow2(s) > 0,
    ;
    lemma_infinite(n, 53 + s);
}

proof fn lemma_rounded(n: nat, sticky: bool, rest: bool, s: nat, top: int, low: nat)
    requires
        n == top * pow2(s) + low,
        low < pow2(s),
        rest == (sticky || low > 0),
        0 <= top < 0x40_0000_0000_0000,
        s > 0 ==> top >= 0x20_0000_0000_0000,
        s < 2046,
    ensures
        ({
            let v = top / 2;
            let m = (s * EXPONENT + v) as u64;
            if top % 2 == 1 && (rest || v % 2 == 1) {
                nearest_half(n, sticky, (m + 1) as u64)
            } else {
                nearest_half(n, sticky, m)
            }
        }),
{
    let v: int = top / 2;
    let half: int = top % 2;
    let p: int = pow2(s) as int;
    let m: int = s * EXPONENT + v;
    lemma_pow2_pos(s);
    lemma_units(s, v);
    assert(m % 2 == v % 2) by {
        assert(m == 2 * (s * 0x8_0000_0000_0000) + v);
    }
    assert(n == 2 * (v * p) + half * p + low) by (nonlinear_arith)
        requires
            n == top * p + low,
            top == 2 * v + half,
    ;
    assert((v + 1) * p == v * p + p) by (nonlinear_arith);
    assert(half == 0 ==> half * p == 0);
    assert(half == 1 ==> half * p == p);
    assert(units(m) == v * p);
    assert(units(m + 1) == v * p + p);
    lemma_units_increase(m + 1, m + 2);
    assert(m + 1 <= INFINITY);
    if half == 1 && (rest || v % 2 == 1) {
        assert(n < 2 * units(m + 1));
    } else {
        if m > 0 {
            assert(units(m - 1) < units(m));
        }
        if s == 0 {
            lemma2_to64();
        }
    }
}

} // verus!
