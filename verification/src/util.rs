//! Constant-time primitives on the unsigned limb types u16, u32 and u64.
//!
//! Instead of booleans, 0 and 1 are used for false and true, so that results
//! can be turned into bit masks without branching. Every operation here is
//! built from bitwise operations, shifts and full-width arithmetic: no code
//! path and no memory access depends on the operand values.

use vstd::prelude::*;

verus! {

/// The limb-level constant-time operations, implemented for u16, u32 and u64.
///
/// `to_nat` gives the numeric value of a limb and `limb_base` the first value
/// that no longer fits in one limb (2^16, 2^32 or 2^64), so that the
/// contracts below can be stated once for every width.
pub trait CTimeOperations<T>: Sized {
    /// The numeric value of a limb.
    spec fn to_nat(x: T) -> nat;

    /// One more than the largest value a limb can hold.
    spec fn limb_base() -> nat;

    /// Every limb value lies below the base, and the base is a real radix.
    proof fn lemma_limb_bounds(x: T)
        ensures
            Self::to_nat(x) < Self::limb_base(),
            Self::limb_base() >= 2,
    ;

    /// Return 1 if a == b, 0 otherwise.
    fn equal(a: &T, b: &T) -> (r: T)
        ensures
            Self::to_nat(r) == if Self::to_nat(*a) == Self::to_nat(*b) {
                1nat
            } else {
                0nat
            },
    ;

    /// Return 1 if a >= b, 0 otherwise.
    fn gte(a: &T, b: &T) -> (r: T)
        ensures
            Self::to_nat(r) == if Self::to_nat(*a) >= Self::to_nat(*b) {
                1nat
            } else {
                0nat
            },
    ;

    /// Return (a + b, carry) if c == 1, and (a, 0) if c == 0.
    /// The condition must be exactly 0 or 1.
    fn cadd(a: &T, b: &T, c: &T) -> (r: (T, T))
        requires
            Self::to_nat(*c) == 0 || Self::to_nat(*c) == 1,
        ensures
            Self::to_nat(*c) == 1 ==> Self::to_nat(r.0) + Self::to_nat(r.1) * Self::limb_base()
                == Self::to_nat(*a) + Self::to_nat(*b),
            Self::to_nat(*c) == 1 ==> Self::to_nat(r.1) <= 1,
            Self::to_nat(*c) == 0 ==> r.0 == *a && Self::to_nat(r.1) == 0,
    ;

    /// Return (a + b mod base, carry), where the carry is 0 or 1.
    fn add_with_carry(a: &T, b: &T) -> (r: (T, T))
        ensures
            Self::to_nat(r.0) + Self::to_nat(r.1) * Self::limb_base() == Self::to_nat(*a)
                + Self::to_nat(*b),
            Self::to_nat(r.1) <= 1,
    ;

    /// Return the two halves of the full product if c == 1, and (a, 0) if
    /// c == 0. The condition must be exactly 0 or 1.
    fn cmul(a: &T, b: &T, c: &T) -> (r: (T, T))
        requires
            Self::to_nat(*c) == 0 || Self::to_nat(*c) == 1,
        ensures
            Self::to_nat(*c) == 1 ==> Self::to_nat(r.0) + Self::to_nat(r.1) * Self::limb_base()
                == Self::to_nat(*a) * Self::to_nat(*b),
            Self::to_nat(*c) == 0 ==> r.0 == *a && Self::to_nat(r.1) == 0,
    ;

    /// Return (a * b lower half, a * b higher half) of the full double-width
    /// product.
    fn mul_with_carry(a: &T, b: &T) -> (r: (T, T))
        ensures
            Self::to_nat(r.0) + Self::to_nat(r.1) * Self::limb_base() == Self::to_nat(*a)
                * Self::to_nat(*b),
    ;

    /// Return (b, a) if c == 1, and (a, b) if c == 0.
    /// The condition must be exactly 0 or 1.
    fn cswap(a: &T, b: &T, c: &T) -> (r: (T, T))
        requires
            Self::to_nat(*c) == 0 || Self::to_nat(*c) == 1,
        ensures
            Self::to_nat(*c) == 1 ==> r.0 == *b && r.1 == *a,
            Self::to_nat(*c) == 0 ==> r.0 == *a && r.1 == *b,
    ;
}

/// A conditional add whose condition is 1 returns exactly what the plain
/// add-with-carry returns: a sum-and-carry pair below the base is
/// determined by the value it stands for, so the two contracts pin the
/// same result.
pub proof fn lemma_cadd_one_matches_add_with_carry<T, U: CTimeOperations<T>>(
    a: T,
    b: T,
    r1: (T, T),
    r2: (T, T),
)
    requires
        U::to_nat(r1.0) + U::to_nat(r1.1) * U::limb_base() == U::to_nat(a) + U::to_nat(b),
        U::to_nat(r1.1) <= 1,
        U::to_nat(r2.0) + U::to_nat(r2.1) * U::limb_base() == U::to_nat(a) + U::to_nat(b),
        U::to_nat(r2.1) <= 1,
    ensures
        U::to_nat(r1.0) == U::to_nat(r2.0),
        U::to_nat(r1.1) == U::to_nat(r2.1),
{
    U::lemma_limb_bounds(r1.0);
    U::lemma_limb_bounds(r2.0);
    let base = U::limb_base();
    assert(U::to_nat(r1.1) * base == (if U::to_nat(r1.1) == 0 {
        0nat
    } else {
        base
    }));
    assert(U::to_nat(r2.1) * base == (if U::to_nat(r2.1) == 0 {
        0nat
    } else {
        base
    }));
}

/// A u32 splits into the unsigned 16-bit halves given by shifting and
/// truncating.
proof fn lemma_u32_halves(s: u32)
    by (bit_vector)
    ensures
        s == (s >> 16) * 0x1_0000 + (s as u16),
        s >> 16 <= 0xFFFFu32,
{
}

/// A u64 splits into the unsigned 32-bit halves given by shifting and
/// truncating.
proof fn lemma_u64_halves(s: u64)
    by (bit_vector)
    ensures
        s == (s >> 32) * 0x1_0000_0000 + (s as u32),
        s >> 32 <= 0xFFFF_FFFFu64,
{
}

/// A u128 splits into the unsigned 64-bit halves given by shifting and
/// truncating.
proof fn lemma_u128_halves(s: u128)
    by (bit_vector)
    ensures
        s == (s >> 64) * 0x1_0000_0000_0000_0000 + (s as u64),
        s >> 64 <= 0xFFFF_FFFF_FFFF_FFFFu128,
{
}

impl CTimeOperations<u32> for u32 {
    open spec fn to_nat(x: u32) -> nat {
        x as nat
    }

    open spec fn limb_base() -> nat {
        0x1_0000_0000
    }

    proof fn lemma_limb_bounds(x: u32) {
    }

    #[inline]
    fn equal(a: &u32, b: &u32) -> (r: u32) {
        let mut x = !(*a ^ *b);
        x = x & (x << 16);
        x = x & (x << 8);
        x = x & (x << 4);
        x = x & (x << 2);
        x = x & (x << 1);
        let r = x >> 31;
        proof {
            let a0 = *a;
            let b0 = *b;
            assert({
                let y0 = !(a0 ^ b0);
                let y1 = y0 & (y0 << 16);
                let y2 = y1 & (y1 << 8);
                let y3 = y2 & (y2 << 4);
                let y4 = y3 & (y3 << 2);
                let y5 = y4 & (y4 << 1);
                y5 >> 31 == if a0 == b0 {
                    1u32
                } else {
                    0u32
                }
            }) by (bit_vector);
        }
        r
    }

    #[inline]
    fn gte(a: &u32, b: &u32) -> (r: u32) {
        let d = (*a as u64).wrapping_sub(*b as u64);
        let r = ((d >> 63) as u32) ^ 1;
        proof {
            assert(((d >> 63) as u32) ^ 1 == (if d < 0x1_0000_0000u64 {
                1u32
            } else {
                0u32
            })) by (bit_vector)
                requires
                    d < 0x1_0000_0000u64 || d >= 0xFFFF_FFFF_0000_0001u64,
            ;
        }
        r
    }

    #[inline]
    fn cadd(a: &u32, b: &u32, c: &u32) -> (r: (u32, u32)) {
        let mask = (!*c).wrapping_add(1);
        let masked = *b & mask;
        proof {
            assert((*c == 0u32 ==> (*b & mask) == 0u32) && (*c == 1u32 ==> (*b & mask) == *b))
                by (bit_vector)
                requires
                    mask == (!*c).wrapping_add(1u32),
                    *c == 0u32 || *c == 1u32,
            ;
        }
        let s = (*a as u64) + (masked as u64);
        let lo = s as u32;
        let hi = (s >> 32) as u32;
        proof {
            lemma_u64_halves(s);
        }
        (lo, hi)
    }

    #[inline]
    fn add_with_carry(a: &u32, b: &u32) -> (r: (u32, u32)) {
        let s = (*a as u64) + (*b as u64);
        let lo = s as u32;
        let hi = (s >> 32) as u32;
        proof {
            lemma_u64_halves(s);
        }
        (lo, hi)
    }

    #[inline]
    fn cmul(a: &u32, b: &u32, c: &u32) -> (r: (u32, u32)) {
        let mask = (!(*c as u64)).wrapping_add(1);
        proof {
            vstd::arithmetic::mul::lemma_mul_upper_bound(
                *a as int,
                0xFFFF_FFFF,
                *b as int,
                0xFFFF_FFFF,
            );
        }
        let p = (*a as u64) * (*b as u64);
        let sel = (p & mask) & mask;
        let sel = sel ^ ((*a as u64) & !mask);
        proof {
            let av = *a as u64;
            assert((*c == 0u32 ==> ((p & mask) & mask) ^ (av & !mask) == av) && (*c == 1u32 ==> ((p
                & mask) & mask) ^ (av & !mask) == p)) by (bit_vector)
                requires
                    mask == (!(*c as u64)).wrapping_add(1u64),
                    *c == 0u32 || *c == 1u32,
                    av == *a as u64,
            ;
            lemma_u64_halves(sel);
        }
        (sel as u32, (sel >> 32) as u32)
    }

    #[inline]
    fn mul_with_carry(a: &u32, b: &u32) -> (r: (u32, u32)) {
        proof {
            vstd::arithmetic::mul::lemma_mul_upper_bound(
                *a as int,
                0xFFFF_FFFF,
                *b as int,
                0xFFFF_FFFF,
            );
        }
        let p = (*a as u64) * (*b as u64);
        proof {
            lemma_u64_halves(p);
        }
        (p as u32, (p >> 32) as u32)
    }

    #[inline]
    fn cswap(a: &u32, b: &u32, c: &u32) -> (r: (u32, u32)) {
        let mask = (!*c).wrapping_add(1);
        let m = (*a ^ *b) & mask;
        proof {
            assert((*c == 0u32 ==> (*a ^ ((*a ^ *b) & mask)) == *a && (*b ^ ((*a ^ *b) & mask))
                == *b) && (*c == 1u32 ==> (*a ^ ((*a ^ *b) & mask)) == *b && (*b ^ ((*a ^ *b)
                & mask)) == *a)) by (bit_vector)
                requires
                    mask == (!*c).wrapping_add(1u32),
                    *c == 0u32 || *c == 1u32,
            ;
        }
        (*a ^ m, *b ^ m)
    }
}

impl CTimeOperations<u64> for u64 {
    open spec fn to_nat(x: u64) -> nat {
        x as nat
    }

    open spec fn limb_base() -> nat {
        0x1_0000_0000_0000_0000
    }

    proof fn lemma_limb_bounds(x: u64) {
    }

    #[inline]
    fn equal(a: &u64, b: &u64) -> (r: u64) {
        let mut x = !(*a ^ *b);
        x = x & (x << 32);
        x = x & (x << 16);
        x = x & (x << 8);
        x = x & (x << 4);
        x = x & (x << 2);
        x = x & (x << 1);
        let r = x >> 63;
        proof {
            let a0 = *a;
            let b0 = *b;
            assert({
                let y0 = !(a0 ^ b0);
                let y1 = y0 & (y0 << 32);
                let y2 = y1 & (y1 << 16);
                let y3 = y2 & (y2 << 8);
                let y4 = y3 & (y3 << 4);
                let y5 = y4 & (y4 << 2);
                let y6 = y5 & (y5 << 1);
                y6 >> 63 == if a0 == b0 {
                    1u64
                } else {
                    0u64
                }
            }) by (bit_vector);
        }
        r
    }

    #[inline]
    fn gte(a: &u64, b: &u64) -> (r: u64) {
        let d = (*a as u128).wrapping_sub(*b as u128);
        let r = ((d >> 127) as u64) ^ 1;
        proof {
            assert(((d >> 127) as u64) ^ 1 == (if d < 0x1_0000_0000_0000_0000u128 {
                1u64
            } else {
                0u64
            })) by (bit_vector)
                requires
                    d < 0x1_0000_0000_0000_0000u128
                        || d >= 0xFFFF_FFFF_FFFF_FFFF_0000_0000_0000_0001u128,
            ;
        }
        r
    }

    #[inline]
    fn cadd(a: &u64, b: &u64, c: &u64) -> (r: (u64, u64)) {
        let mask = (!*c).wrapping_add(1);
        let masked = *b & mask;
        proof {
            assert((*c == 0u64 ==> (*b & mask) == 0u64) && (*c == 1u64 ==> (*b & mask) == *b))
                by (bit_vector)
                requires
                    mask == (!*c).wrapping_add(1u64),
                    *c == 0u64 || *c == 1u64,
            ;
        }
        let s = (*a as u128) + (masked as u128);
        let lo = s as u64;
        let hi = (s >> 64) as u64;
        proof {
            lemma_u128_halves(s);
        }
        (lo, hi)
    }

    #[inline]
    fn add_with_carry(a: &u64, b: &u64) -> (r: (u64, u64)) {
        let s = (*a as u128) + (*b as u128);
        let lo = s as u64;
        let hi = (s >> 64) as u64;
        proof {
            lemma_u128_halves(s);
        }
        (lo, hi)
    }

    #[inline]
    fn cmul(a: &u64, b: &u64, c: &u64) -> (r: (u64, u64)) {
        let mask = (!(*c as u128)).wrapping_add(1);
        proof {
            vstd::arithmetic::mul::lemma_mul_upper_bound(
                *a as int,
                0xFFFF_FFFF_FFFF_FFFF,
                *b as int,
                0xFFFF_FFFF_FFFF_FFFF,
            );
        }
        let p = (*a as u128) * (*b as u128);
        let sel = (p & mask) & mask;
        let sel = sel ^ ((*a as u128) & !mask);
        proof {
            let av = *a as u128;
            assert((*c == 0u64 ==> ((p & mask) & mask) ^ (av & !mask) == av) && (*c == 1u64 ==> ((p
                & mask) & mask) ^ (av & !mask) == p)) by (bit_vector)
                requires
                    mask == (!(*c as u128)).wrapping_add(1u128),
                    *c == 0u64 || *c == 1u64,
                    av == *a as u128,
            ;
            lemma_u128_halves(sel);
        }
        (sel as u64, (sel >> 64) as u64)
    }

    #[inline]
    fn mul_with_carry(a: &u64, b: &u64) -> (r: (u64, u64)) {
        proof {
            vstd::arithmetic::mul::lemma_mul_upper_bound(
                *a as int,
                0xFFFF_FFFF_FFFF_FFFF,
                *b as int,
                0xFFFF_FFFF_FFFF_FFFF,
            );
        }
        let p = (*a as u128) * (*b as u128);
        proof {
            lemma_u128_halves(p);
        }
        (p as u64, (p >> 64) as u64)
    }

    #[inline]
    fn cswap(a: &u64, b: &u64, c: &u64) -> (r: (u64, u64)) {
        let mask = (!*c).wrapping_add(1);
        let m = (*a ^ *b) & mask;
        proof {
            assert((*c == 0u64 ==> (*a ^ ((*a ^ *b) & mask)) == *a && (*b ^ ((*a ^ *b) & mask))
                == *b) && (*c == 1u64 ==> (*a ^ ((*a ^ *b) & mask)) == *b && (*b ^ ((*a ^ *b)
                & mask)) == *a)) by (bit_vector)
                requires
                    mask == (!*c).wrapping_add(1u64),
                    *c == 0u64 || *c == 1u64,
            ;
        }
        (*a ^ m, *b ^ m)
    }
}

impl CTimeOperations<u16> for u16 {
    open spec fn to_nat(x: u16) -> nat {
        x as nat
    }

    open spec fn limb_base() -> nat {
        0x1_0000
    }

    proof fn lemma_limb_bounds(x: u16) {
    }

    #[inline]
    fn equal(a: &u16, b: &u16) -> (r: u16) {
        let mut x = !(*a ^ *b);
        x = x & (x << 8);
        x = x & (x << 4);
        x = x & (x << 2);
        x = x & (x << 1);
        let r = x >> 15;
        proof {
            let a0 = *a;
            let b0 = *b;
            assert({
                let y0 = !(a0 ^ b0);
                let y1 = y0 & (y0 << 8);
                let y2 = y1 & (y1 << 4);
                let y3 = y2 & (y2 << 2);
                let y4 = y3 & (y3 << 1);
                y4 >> 15 == if a0 == b0 {
                    1u16
                } else {
                    0u16
                }
            }) by (bit_vector);
        }
        r
    }

    #[inline]
    fn gte(a: &u16, b: &u16) -> (r: u16) {
        let d = (*a as u32).wrapping_sub(*b as u32);
        let r = ((d >> 31) as u16) ^ 1;
        proof {
            assert(((d >> 31) as u16) ^ 1 == (if d < 0x1_0000u32 {
                1u16
            } else {
                0u16
            })) by (bit_vector)
                requires
                    d < 0x1_0000u32 || d >= 0xFFFF_0001u32,
            ;
        }
        r
    }

    #[inline]
    fn cadd(a: &u16, b: &u16, c: &u16) -> (r: (u16, u16)) {
        let mask = (!*c).wrapping_add(1);
        let masked = *b & mask;
        proof {
            assert((*c == 0u16 ==> (*b & mask) == 0u16) && (*c == 1u16 ==> (*b & mask) == *b))
                by (bit_vector)
                requires
                    mask == (!*c).wrapping_add(1u16),
                    *c == 0u16 || *c == 1u16,
            ;
        }
        let s = (*a as u32) + (masked as u32);
        let lo = s as u16;
        let hi = (s >> 16) as u16;
        proof {
            lemma_u32_halves(s);
        }
        (lo, hi)
    }

    #[inline]
    fn add_with_carry(a: &u16, b: &u16) -> (r: (u16, u16)) {
        let s = (*a as u32) + (*b as u32);
        let lo = s as u16;
        let hi = (s >> 16) as u16;
        proof {
            lemma_u32_halves(s);
        }
        (lo, hi)
    }

    #[inline]
    fn cmul(a: &u16, b: &u16, c: &u16) -> (r: (u16, u16)) {
        let mask = (!(*c as u32)).wrapping_add(1);
        proof {
            vstd::arithmetic::mul::lemma_mul_upper_bound(*a as int, 0xFFFF, *b as int, 0xFFFF);
        }
        let p = (*a as u32) * (*b as u32);
        let sel = (p & mask) & mask;
        let sel = sel ^ ((*a as u32) & !mask);
        proof {
            let av = *a as u32;
            assert((*c == 0u16 ==> ((p & mask) & mask) ^ (av & !mask) == av) && (*c == 1u16 ==> ((p
                & mask) & mask) ^ (av & !mask) == p)) by (bit_vector)
                requires
                    mask == (!(*c as u32)).wrapping_add(1u32),
                    *c == 0u16 || *c == 1u16,
                    av == *a as u32,
            ;
            lemma_u32_halves(sel);
        }
        (sel as u16, (sel >> 16) as u16)
    }

    #[inline]
    fn mul_with_carry(a: &u16, b: &u16) -> (r: (u16, u16)) {
        proof {
            vstd::arithmetic::mul::lemma_mul_upper_bound(*a as int, 0xFFFF, *b as int, 0xFFFF);
        }
        let p = (*a as u32) * (*b as u32);
        proof {
            lemma_u32_halves(p);
        }
        (p as u16, (p >> 16) as u16)
    }

    #[inline]
    fn cswap(a: &u16, b: &u16, c: &u16) -> (r: (u16, u16)) {
        let mask = (!*c).wrapping_add(1);
        let m = (*a ^ *b) & mask;
        proof {
            assert((*c == 0u16 ==> (*a ^ ((*a ^ *b) & mask)) == *a && (*b ^ ((*a ^ *b) & mask))
                == *b) && (*c == 1u16 ==> (*a ^ ((*a ^ *b) & mask)) == *b && (*b ^ ((*a ^ *b)
                & mask)) == *a)) by (bit_vector)
                requires
                    mask == (!*c).wrapping_add(1u16),
                    *c == 0u16 || *c == 1u16,
            ;
        }
        (*a ^ m, *b ^ m)
    }
}

} // verus!
