//! The mathematical meaning of a limb sequence.
//!
//! A multi-precision value is a little-endian sequence of 32-bit limbs; this
//! module defines the natural number such a sequence denotes and proves the
//! facts about that denotation which the arithmetic engine and the codec
//! build on: how the value grows limb by limb, how large it can get, and
//! that a value determines its limbs once the length is fixed.

use vstd::arithmetic::mul::{
    lemma_mul_inequality, lemma_mul_is_associative, lemma_mul_is_distributive_add_other_way,
    lemma_mul_is_distributive_sub_other_way,
};
use vstd::arithmetic::power2::{lemma2_to64, lemma_pow2_adds, pow2};
use vstd::prelude::*;

verus! {

/// The natural number represented by a little-endian sequence of 32-bit
/// limbs: `s[0] + s[1]*2^32 + s[2]*2^64 + ...`.
pub open spec fn limbs_to_nat(s: Seq<u32>) -> nat
    decreases s.len(),
{
    if s.len() == 0 {
        0
    } else {
        s[0] as nat + limbs_to_nat(s.skip(1)) * 0x1_0000_0000
    }
}

/// The weight of the limb at position i.
pub open spec fn limb_weight(i: nat) -> nat {
    pow2(32 * i)
}

/// The weight of position i + 1 is the weight of position i times the radix.
pub proof fn lemma_limb_weight_succ(i: nat)
    ensures
        limb_weight(i + 1) == limb_weight(i) * 0x1_0000_0000,
{
    lemma_pow2_adds(32 * i, 32);
    lemma2_to64();
}

/// Appending a limb adds its value at the weight of the old length.
pub proof fn lemma_limbs_to_nat_push(s: Seq<u32>, v: u32)
    ensures
        limbs_to_nat(s.push(v)) == limbs_to_nat(s) + v * limb_weight(s.len()),
    decreases s.len(),
{
    if s.len() == 0 {
        assert(s.push(v).skip(1) =~= Seq::<u32>::empty());
        assert(limb_weight(0) == 1) by {
            lemma2_to64();
        }
        assert(s.push(v)[0] == v);
        assert(limbs_to_nat(s.push(v).skip(1)) == 0);
        assert(limbs_to_nat(s.push(v)) == s.push(v)[0] as nat + limbs_to_nat(s.push(v).skip(1))
            * 0x1_0000_0000);
    } else {
        assert(s.push(v).skip(1) =~= s.skip(1).push(v));
        lemma_limbs_to_nat_push(s.skip(1), v);
        let t = limbs_to_nat(s.skip(1));
        let w = limb_weight(s.skip(1).len());
        assert(limbs_to_nat(s.push(v)) == s[0] as nat + (t + v * w) * 0x1_0000_0000);
        assert((t + v * w) * 0x1_0000_0000 == t * 0x1_0000_0000 + (v * w) * 0x1_0000_0000) by {
            lemma_mul_is_distributive_add_other_way(0x1_0000_0000, t as int, (v * w) as int);
        }
        assert((v * w) * 0x1_0000_0000 == v * (w * 0x1_0000_0000)) by {
            lemma_mul_is_associative(v as int, w as int, 0x1_0000_0000);
        }
        lemma_limb_weight_succ(s.skip(1).len());
        assert(s.skip(1).len() + 1 == s.len());
        assert(limb_weight(s.len()) == w * 0x1_0000_0000);
        assert(limbs_to_nat(s) == s[0] as nat + t * 0x1_0000_0000);
    }
}

/// Weights multiply when positions add.
pub proof fn lemma_limb_weight_adds(i: nat, j: nat)
    ensures
        limb_weight(i + j) == limb_weight(i) * limb_weight(j),
{
    lemma_pow2_adds(32 * i, 32 * j);
}

/// Extending a prefix by one limb adds that limb at its weight.
pub proof fn lemma_limbs_to_nat_take_succ(s: Seq<u32>, i: int)
    requires
        0 <= i < s.len(),
    ensures
        limbs_to_nat(s.take(i + 1)) == limbs_to_nat(s.take(i)) + s[i] * limb_weight(i as nat),
{
    assert(s.take(i + 1) =~= s.take(i).push(s[i]));
    lemma_limbs_to_nat_push(s.take(i), s[i]);
}

/// A limb sequence denotes a value below the weight of its length.
pub proof fn lemma_limbs_to_nat_bound(s: Seq<u32>)
    ensures
        limbs_to_nat(s) < limb_weight(s.len()),
    decreases s.len(),
{
    if s.len() == 0 {
        assert(limb_weight(0) == 1) by {
            lemma2_to64();
        }
    } else {
        lemma_limbs_to_nat_bound(s.skip(1));
        let t = limbs_to_nat(s.skip(1));
        let w = limb_weight(s.skip(1).len());
        assert(t * 0x1_0000_0000 <= (w - 1) * 0x1_0000_0000) by {
            lemma_mul_inequality(t as int, w - 1, 0x1_0000_0000);
        }
        assert((w - 1) * 0x1_0000_0000 == w * 0x1_0000_0000 - 0x1_0000_0000) by {
            lemma_mul_is_distributive_sub_other_way(0x1_0000_0000, w as int, 1);
        }
        lemma_limb_weight_succ(s.skip(1).len());
        assert(s.skip(1).len() + 1 == s.len());
    }
}

/// Two limb sequences of the same length denoting the same value are equal:
/// a fixed-length radix representation is unique.
pub proof fn lemma_limbs_to_nat_injective(x: Seq<u32>, y: Seq<u32>)
    requires
        x.len() == y.len(),
        limbs_to_nat(x) == limbs_to_nat(y),
    ensures
        x == y,
    decreases x.len(),
{
    if x.len() == 0 {
        assert(x =~= y);
    } else {
        let tx = limbs_to_nat(x.skip(1));
        let ty = limbs_to_nat(y.skip(1));
        assert(x[0] as nat + tx * 0x1_0000_0000 == y[0] as nat + ty * 0x1_0000_0000);
        if tx < ty {
            assert((tx + 1) * 0x1_0000_0000 <= ty * 0x1_0000_0000) by {
                lemma_mul_inequality(tx as int + 1, ty as int, 0x1_0000_0000);
            }
            assert((tx + 1) * 0x1_0000_0000 == tx * 0x1_0000_0000 + 0x1_0000_0000) by {
                lemma_mul_is_distributive_add_other_way(0x1_0000_0000, tx as int, 1);
            }
            assert(false);
        }
        if ty < tx {
            assert((ty + 1) * 0x1_0000_0000 <= tx * 0x1_0000_0000) by {
                lemma_mul_inequality(ty as int + 1, tx as int, 0x1_0000_0000);
            }
            assert((ty + 1) * 0x1_0000_0000 == ty * 0x1_0000_0000 + 0x1_0000_0000) by {
                lemma_mul_is_distributive_add_other_way(0x1_0000_0000, ty as int, 1);
            }
            assert(false);
        }
        assert(x[0] == y[0]);
        lemma_limbs_to_nat_injective(x.skip(1), y.skip(1));
        assert forall|i: int| 0 <= i < x.len() implies x[i] == y[i] by {
            if i >= 1 {
                assert(x[i] == x.skip(1)[i - 1]);
                assert(y[i] == y.skip(1)[i - 1]);
            }
        }
        assert(x =~= y);
    }
}

/// A sequence of zero limbs denotes zero.
pub proof fn lemma_limbs_to_nat_zero(s: Seq<u32>)
    requires
        forall|i: int| 0 <= i < s.len() ==> s[i] == 0,
    ensures
        limbs_to_nat(s) == 0,
    decreases s.len(),
{
    if s.len() > 0 {
        lemma_limbs_to_nat_zero(s.skip(1));
    }
}

/// A sequence denoting zero holds only zero limbs.
pub proof fn lemma_limbs_to_nat_zero_inverse(s: Seq<u32>)
    requires
        limbs_to_nat(s) == 0,
    ensures
        forall|i: int| 0 <= i < s.len() ==> s[i] == 0,
    decreases s.len(),
{
    if s.len() > 0 {
        let t = limbs_to_nat(s.skip(1));
        assert(t == 0) by {
            if t >= 1 {
                lemma_mul_inequality(1, t as int, 0x1_0000_0000);
            }
        }
        lemma_limbs_to_nat_zero_inverse(s.skip(1));
        assert forall|i: int| 0 <= i < s.len() implies s[i] == 0 by {
            if i >= 1 {
                assert(s[i] == s.skip(1)[i - 1]);
            }
        }
    }
}

/// Appending zero limbs does not change the value.
pub proof fn lemma_limbs_to_nat_append_zeros(s: Seq<u32>, k: nat)
    ensures
        limbs_to_nat(s + Seq::new(k, |i: int| 0u32)) == limbs_to_nat(s),
    decreases k,
{
    if k == 0 {
        assert(s + Seq::new(0, |i: int| 0u32) =~= s);
    } else {
        lemma_limbs_to_nat_append_zeros(s, (k - 1) as nat);
        let t = s + Seq::new((k - 1) as nat, |i: int| 0u32);
        assert(s + Seq::new(k, |i: int| 0u32) =~= t.push(0u32));
        lemma_limbs_to_nat_push(t, 0u32);
    }
}

/// Replacing the limb at position k moves the value by the difference at
/// that position's weight (stated without subtraction, over naturals).
pub proof fn lemma_limbs_to_nat_update(s: Seq<u32>, k: int, v: u32)
    requires
        0 <= k < s.len(),
    ensures
        limbs_to_nat(s.update(k, v)) + s[k] * limb_weight(k as nat) == limbs_to_nat(s) + v
            * limb_weight(k as nat),
    decreases k,
{
    if k == 0 {
        assert(s.update(0, v).skip(1) =~= s.skip(1));
        assert(limb_weight(0) == 1) by {
            lemma2_to64();
        }
    } else {
        assert(s.update(k, v).skip(1) =~= s.skip(1).update(k - 1, v));
        lemma_limbs_to_nat_update(s.skip(1), k - 1, v);
        let a = limbs_to_nat(s.skip(1).update(k - 1, v));
        let b = limbs_to_nat(s.skip(1));
        let w = limb_weight((k - 1) as nat);
        // a + s[k] * w == b + v * w; multiply both sides by the radix.
        assert((a + s[k] * w) * 0x1_0000_0000 == (b + v * w) * 0x1_0000_0000);
        assert((a + s[k] * w) * 0x1_0000_0000 == a * 0x1_0000_0000 + (s[k] * w) * 0x1_0000_0000)
            by {
            lemma_mul_is_distributive_add_other_way(0x1_0000_0000, a as int, (s[k] * w) as int);
        }
        assert((b + v * w) * 0x1_0000_0000 == b * 0x1_0000_0000 + (v * w) * 0x1_0000_0000) by {
            lemma_mul_is_distributive_add_other_way(0x1_0000_0000, b as int, (v * w) as int);
        }
        assert((s[k] * w) * 0x1_0000_0000 == s[k] * (w * 0x1_0000_0000)) by {
            lemma_mul_is_associative(s[k] as int, w as int, 0x1_0000_0000);
        }
        assert((v * w) * 0x1_0000_0000 == v * (w * 0x1_0000_0000)) by {
            lemma_mul_is_associative(v as int, w as int, 0x1_0000_0000);
        }
        lemma_limb_weight_succ((k - 1) as nat);
    }
}

} // verus!
