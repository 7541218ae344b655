//! Verified wide arithmetic: just enough multi-limb machinery to take the
//! exact integer base-2 logarithm of a small base raised to a large power,
//! which the entropy display needs.

use vstd::prelude::*;
use vstd::arithmetic::logarithm::{log, lemma_log0, lemma_log_s};
use vstd::arithmetic::power::{
    pow, lemma_pow0, lemma_pow1, lemma_pow_adds, lemma_pow_positive,
};
use vstd::arithmetic::power2::{
    pow2, lemma2_to64, lemma_pow2_adds, lemma_pow2_pos, lemma_pow2_strictly_increases,
};

verus! {

/// The value of a little-endian vector of base-2^32 limbs.
pub open spec fn limbs_value(s: Seq<u32>) -> int
    decreases s.len(),
{
    if s.len() == 0 {
        0
    } else {
        s[0] + pow2(32) * limbs_value(s.drop_first())
    }
}

proof fn lemma_limbs_value_nonneg(s: Seq<u32>)
    ensures
        limbs_value(s) >= 0,
    decreases s.len(),
{
    if s.len() > 0 {
        lemma_limbs_value_nonneg(s.drop_first());
        assert(pow2(32) * limbs_value(s.drop_first()) >= 0) by (nonlinear_arith)
            requires
                limbs_value(s.drop_first()) >= 0,
                pow2(32) >= 0,
        ;
    }
}

/// Appending a limb adds its value at the next power of the base.
proof fn lemma_limbs_value_push(s: Seq<u32>, x: u32)
    ensures
        limbs_value(s.push(x)) == limbs_value(s) + x * pow2(32 * s.len()),
    decreases s.len(),
{
    if s.len() == 0 {
        assert(s.push(x).drop_first() =~= Seq::<u32>::empty());
        assert(s.push(x)[0] == x);
        assert(limbs_value(Seq::<u32>::empty()) == 0);
        lemma2_to64();
    } else {
        assert(s.push(x).drop_first() =~= s.drop_first().push(x));
        assert(s.push(x)[0] == s[0]);
        lemma_limbs_value_push(s.drop_first(), x);
        lemma_pow2_adds(32, 32 * (s.len() - 1) as nat);
        assert(limbs_value(s.push(x)) == s[0] + pow2(32) * limbs_value(s.drop_first().push(x)));
        assert(pow2(32) * (limbs_value(s.drop_first()) + x * pow2(
            (32 * (s.len() - 1)) as nat,
        )) == pow2(32) * limbs_value(s.drop_first()) + x * (pow2(32) * pow2(
            (32 * (s.len() - 1)) as nat,
        ))) by (nonlinear_arith);
    }
}

/// A number of `n` limbs is below `2^(32n)`.
proof fn lemma_limbs_value_bound(s: Seq<u32>)
    ensures
        0 <= limbs_value(s) < pow2(32 * s.len()),
    decreases s.len(),
{
    if s.len() == 0 {
        lemma2_to64();
    } else {
        lemma_limbs_value_bound(s.drop_first());
        lemma_pow2_adds(32, 32 * (s.len() - 1) as nat);
        lemma2_to64();
        assert(s[0] + pow2(32) * limbs_value(s.drop_first()) < pow2(32) * pow2(
            (32 * (s.len() - 1)) as nat,
        )) by (nonlinear_arith)
            requires
                0 <= s[0] < pow2(32),
                pow2(32) >= 1,
                0 <= limbs_value(s.drop_first()) < pow2((32 * (s.len() - 1)) as nat),
        ;
        assert(s[0] + pow2(32) * limbs_value(s.drop_first()) >= 0) by (nonlinear_arith)
            requires
                s[0] >= 0,
                pow2(32) >= 0,
                limbs_value(s.drop_first()) >= 0,
        ;
    }
}

/// The top limb carries the value at the highest power of the base.
proof fn lemma_limbs_value_last(s: Seq<u32>)
    requires
        s.len() >= 1,
    ensures
        limbs_value(s) == limbs_value(s.drop_last()) + s.last() * pow2(32 * (s.len() - 1) as nat),
{
    assert(s =~= s.drop_last().push(s.last()));
    lemma_limbs_value_push(s.drop_last(), s.last());
}

/// The integer base-2 logarithm is pinned down by the two enclosing powers
/// of two.
proof fn lemma_log2_unique(n: int, d: nat)
    requires
        pow(2, d) <= n < pow(2, d + 1),
    ensures
        log(2, n) == d,
    decreases d,
{
    lemma_pow_positive(2, d);
    if d == 0 {
        assert(pow(2, 0) == 1 && pow(2, 1) == 2) by {
            reveal(pow);
        }
        lemma_log0(2, n);
    } else {
        assert(pow(2, d) == 2 * pow(2, (d - 1) as nat)) by {
            reveal(pow);
        }
        assert(pow(2, d + 1) == 2 * pow(2, d)) by {
            reveal(pow);
        }
        lemma_log_s(2, n);
        lemma_log2_unique(n / 2, (d - 1) as nat);
    }
}

/// Multiply the number by a small factor, carrying across limbs. The top
/// limb stays non-zero, so the limb count always reflects the magnitude.
fn limbs_mul_small(limbs: &mut Vec<u32>, factor: u32)
    requires
        1 <= factor <= 0xff,
        old(limbs)@.len() >= 1,
        old(limbs)@.last() != 0,
    ensures
        limbs_value(final(limbs)@) == factor * limbs_value(old(limbs)@),
        final(limbs)@.len() >= old(limbs)@.len(),
        final(limbs)@.last() != 0,
{
    let ghost s0 = limbs@;
    let n = limbs.len();
    let mut out: Vec<u32> = Vec::new();
    let mut carry: u32 = 0;
    let mut i: usize = 0;
    proof {
        lemma2_to64();
        assert(s0.skip(0) =~= s0);
        assert(limbs_value(Seq::<u32>::empty()) == 0);
        assert(pow2((32 * 0) as nat) * (0 + factor * limbs_value(s0)) == factor * limbs_value(
            s0,
        )) by (nonlinear_arith)
            requires
                pow2((32 * 0) as nat) == 1,
        ;
    }
    while i < n
        invariant
            1 <= factor <= 0xff,
            n == s0.len(),
            limbs@ == s0,
            0 <= i <= n,
            out@.len() == i,
            carry <= 0xff,
            limbs_value(out@) + pow2((32 * i) as nat) * (carry + factor * limbs_value(
                s0.skip(i as int),
            )) == factor * limbs_value(s0),
        decreases n - i,
    {
        proof {
            assert((s0[i as int] as int) * (factor as int) + carry < 0x10000000000)
                by (nonlinear_arith)
                requires
                    0 <= s0[i as int] <= 0xffffffff,
                    0 <= factor <= 0xff,
                    0 <= carry <= 0xff,
            ;
        }
        let prod: u64 = (limbs[i] as u64) * (factor as u64) + (carry as u64);
        let low: u32 = (prod % 0x100000000) as u32;
        let new_carry: u32 = (prod / 0x100000000) as u32;
        proof {
            lemma2_to64();
            let p = pow2((32 * i) as nat) as int;
            let v1 = limbs_value(s0.skip(i as int + 1));
            assert(s0.skip(i as int).drop_first() =~= s0.skip(i as int + 1));
            assert(s0.skip(i as int)[0] == s0[i as int]);
            assert(limbs_value(s0.skip(i as int)) == s0[i as int] + pow2(32) * v1);
            lemma_limbs_value_push(out@, low);
            lemma_pow2_adds((32 * i) as nat, 32);
            assert(pow2((32 * (i + 1)) as nat) == p * 0x100000000);
            assert(low + 0x100000000 * new_carry == carry + factor * s0[i as int]);
            assert(low * p + (p * 0x100000000) * (new_carry + factor * v1) == p * (carry + factor
                * (s0[i as int] + 0x100000000 * v1))) by (nonlinear_arith)
                requires
                    low + 0x100000000 * new_carry == carry + factor * s0[i as int],
            ;
            assert(limbs_value(out@.push(low)) + pow2((32 * (i + 1)) as nat) * (new_carry + factor
                * v1) == factor * limbs_value(s0));
        }
        out.push(low);
        carry = new_carry;
        i += 1;
    }
    proof {
        assert(s0.skip(n as int) =~= Seq::<u32>::empty());
        assert(limbs_value(Seq::<u32>::empty()) == 0);
        assert(pow2((32 * n) as nat) * ((carry as int) + factor * limbs_value(
            s0.skip(n as int),
        )) == pow2((32 * n) as nat) * (carry as int)) by (nonlinear_arith)
            requires
                limbs_value(s0.skip(n as int)) == 0,
        ;
    }
    if carry > 0 {
        proof {
            lemma_limbs_value_push(out@, carry);
        }
        out.push(carry);
    } else {
        proof {
            assert(pow2((32 * n) as nat) * (carry as int) == 0) by (nonlinear_arith)
                requires
                    carry == 0,
            ;
            if out@.last() == 0 {
                lemma_limbs_value_last(out@);
                lemma_limbs_value_bound(out@.drop_last());
                lemma_limbs_value_last(s0);
                lemma_limbs_value_nonneg(s0.drop_last());
                let p = pow2((32 * (n - 1)) as nat) as int;
                assert(out@.last() * p == 0) by (nonlinear_arith)
                    requires
                        out@.last() == 0,
                ;
                assert(limbs_value(s0) >= p) by (nonlinear_arith)
                    requires
                        limbs_value(s0) == limbs_value(s0.drop_last()) + s0.last() * p,
                        limbs_value(s0.drop_last()) >= 0,
                        s0.last() >= 1,
                        p >= 0,
                ;
                assert(factor * limbs_value(s0) >= limbs_value(s0)) by (nonlinear_arith)
                    requires
                        factor >= 1,
                        limbs_value(s0) >= 0,
                ;
                assert(false);
            }
        }
    }
    *limbs = out;
}

/// The integer base-2 logarithm of `base^exp` — the exact integer part of
/// `exp * log2(base)` — computed by accumulating the power limb by limb
/// and reading off its bit position.
pub fn log2_pow(base: u32, exp: u128) -> (r: u128)
    requires
        2 <= base <= 0xff,
    ensures
        r == log(2, pow(base as int, exp as nat)),
        r < 0x100000000000000000000,
{
    let mut limbs: Vec<u32> = Vec::new();
    limbs.push(1);
    proof {
        lemma_pow0(base as int);
        lemma2_to64();
        lemma_limbs_value_push(Seq::<u32>::empty(), 1);
        assert(limbs_value(Seq::<u32>::empty()) == 0);
        assert(limbs@ =~= Seq::<u32>::empty().push(1u32));
    }
    let mut i: u128 = 0;
    while i < exp
        invariant
            2 <= base <= 0xff,
            0 <= i <= exp,
            limbs@.len() >= 1,
            limbs@.last() != 0,
            limbs_value(limbs@) == pow(base as int, i as nat),
        decreases exp - i,
    {
        limbs_mul_small(&mut limbs, base);
        proof {
            lemma_pow_adds(base as int, i as nat, 1);
            lemma_pow1(base as int);
        }
        i += 1;
    }
    let n = limbs.len();
    let top: u32 = limbs[n - 1];
    let mut b: u32 = 0;
    let mut t: u64 = 1;
    proof {
        lemma2_to64();
    }
    while t * 2 <= top as u64
        invariant
            t == pow2(b as nat),
            1 <= t <= top as u64,
            1 <= top,
            b <= 32,
        decreases top as u64 - t,
    {
        proof {
            lemma_pow2_adds(b as nat, 1);
            lemma2_to64();
            if b + 1 > 32 {
                lemma_pow2_strictly_increases(32, (b + 1) as nat);
                assert(false);
            }
        }
        t = t * 2;
        b = b + 1;
    }
    let r: u128 = 32u128 * ((n - 1) as u128) + (b as u128);
    proof {
        let value = limbs_value(limbs@);
        let p = pow2((32 * (n - 1)) as nat) as int;
        lemma_limbs_value_last(limbs@);
        lemma_limbs_value_bound(limbs@.drop_last());
        lemma_limbs_value_nonneg(limbs@.drop_last());
        lemma_pow2_adds(b as nat, (32 * (n - 1)) as nat);
        lemma_pow2_adds((b + 1) as nat, (32 * (n - 1)) as nat);
        lemma_pow2_pos((32 * (n - 1)) as nat);
        assert(value >= pow2(b as nat) * p) by (nonlinear_arith)
            requires
                value == limbs_value(limbs@.drop_last()) + top * p,
                limbs_value(limbs@.drop_last()) >= 0,
                top >= pow2(b as nat),
                p >= 0,
        ;
        assert(value < pow2((b + 1) as nat) * p) by (nonlinear_arith)
            requires
                value == limbs_value(limbs@.drop_last()) + top * p,
                limbs_value(limbs@.drop_last()) < p,
                top + 1 <= pow2((b + 1) as nat),
                p >= 1,
        ;
        lemma_pow_positive(2, (b + 32 * (n - 1)) as nat);
        lemma_pow_positive(2, (b + 1 + 32 * (n - 1)) as nat);
        lemma_log2_unique(value, (b + 32 * (n - 1)) as nat);
    }
    r
}

} // verus!
