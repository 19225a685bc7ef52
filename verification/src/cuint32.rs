//! A constant-time unsigned integer built on 32-bit limbs.
//!
//! Values are stored in little-endian limb order, so `0x123456789abcdef` is
//! stored as `[0x89abcdef, 0x1234567]`. The arithmetic walks the limbs with
//! the constant-time primitives of the `util` module; trailing zero limbs
//! are not trimmed, so the length of a result depends only on the lengths of
//! the operands.

use crate::base::{Uint, UintError, UintTrait};
use crate::hex::{
    all_lower_hex_digits, hex_char_str, hex_value, is_lower_hex_digit, lemma_hex_char_is_digit,
    lemma_parse_limbs_value, lemma_render_limbs_zero, lemma_trim_zeros_skip, parse_hex,
    parse_limbs, render_hex, render_hex_str, skip_zero_chars, valid_hex_str,
};
use crate::limbs::{
    lemma_limb_weight_adds, lemma_limb_weight_succ, lemma_limbs_to_nat_push,
    lemma_limbs_to_nat_take_succ, lemma_limbs_to_nat_update, lemma_limbs_to_nat_zero, limb_weight,
    limbs_to_nat,
};
use crate::util::CTimeOperations;
use rand::Rng;
use vstd::prelude::*;

verus! {

/// The struct holding the u32 vector representing the unsigned integer.
#[derive(Debug, PartialEq, Eq, Clone)]
pub struct CUint32 {
    digits: Vec<u32>,
}

/// Errors specific to CUint32 operations: a string that is not a hex
/// literal of the form `0xdeadbeef` cannot be encoded.
#[derive(Debug, Clone, Copy, PartialEq, Eq, Structural)]
pub enum CUintError {
    StringParsingError,
}

impl View for CUint32 {
    type V = Seq<u32>;

    closed spec fn view(&self) -> Seq<u32> {
        self.digits@
    }
}

impl Default for CUint32 {
    /// The default CUint32 is the empty limb sequence, i.e. zero.
    fn default() -> (r: Self)
        ensures
            r@ == Seq::<u32>::empty(),
    {
        CUint32 { digits: Vec::new() }
    }
}

impl core::str::FromStr for CUint32 {
    type Err = CUintError;

    fn from_str(s: &str) -> Result<CUint32, CUintError> {
        let mut r = CUint32::new();
        match r.encode(s) {
            Ok(_) => Ok(r),
            Err(err) => Err(err),
        }
    }
}

impl CUint32 {
    /// Get a CUint32 as a hex string of the form `0xdeadbeef`; the zero
    /// value renders as `0x` with no digits.
    pub fn to_str(&self) -> (r: String)
        ensures
            r@ == render_hex_str(self@),
    {
        match self.decode() {
            Ok(s) => s,
            Err(_) => String::new(),
        }
    }

    /// Read a hex string into a CUint32.
    /// The string MUST be of the form "0xdeadbeef"; on any other input the
    /// value is left unchanged and a parsing error is returned.
    pub fn encode(&mut self, s: &str) -> (r: Result<(), CUintError>)
        ensures
            valid_hex_str(s@) ==> r is Ok && final(self)@ == parse_limbs(s@.skip(2))
                && limbs_to_nat(final(self)@) == hex_value(s@.skip(2)),
            !valid_hex_str(s@) ==> r == Err::<(), CUintError>(CUintError::StringParsingError)
                && final(self)@ == old(self)@,
    {
        match parse_hex(s) {
            Some(v) => {
                proof {
                    lemma_parse_limbs_value(s@.skip(2));
                }
                self.digits = v;
                Ok(())
            },
            None => Err(CUintError::StringParsingError),
        }
    }

    /// Get a CUint32 as a hex string of the form `0xdeadbeef`; the zero
    /// value renders as `0x` with no digits. Decoding never fails.
    pub fn decode(&self) -> (r: Result<String, CUintError>)
        ensures
            r is Ok,
            r matches Ok(t) ==> t@ == render_hex_str(self@),
    {
        Ok(render_hex(self.digits.as_slice()))
    }

    /// Get a new, empty CUint32 == 0.
    pub fn new() -> (r: Self)
        ensures
            r@ == Seq::<u32>::empty(),
            limbs_to_nat(r@) == 0,
    {
        Default::default()
    }

    /// Clear a CUint32, i.e. this CUint32 == 0 after this operation.
    pub fn clear(&mut self)
        ensures
            final(self)@ == Seq::<u32>::empty(),
            limbs_to_nat(final(self)@) == 0,
    {
        self.digits.clear();
    }

    /// Add two CUint32.
    /// This uses a generic, slow addition algorithm at this time.
    pub fn add_cuint32(&self, other: &CUint32) -> (r: CUint32)
        ensures
            limbs_to_nat(r@) == limbs_to_nat(self@) + limbs_to_nat(other@),
            r@.len() == (if self@.len() >= other@.len() {
                self@.len()
            } else {
                other@.len()
            }) + 1,
    {
        let res = add_generic(self.digits.as_slice(), other.digits.as_slice());
        Self { digits: res }
    }

    /// Multiply two CUint32.
    /// This uses a generic, slow multiplication algorithm at this time.
    pub fn mul_cuint32(&self, other: &CUint32) -> (r: CUint32)
        requires
            self@.len() + other@.len() <= usize::MAX,
        ensures
            limbs_to_nat(r@) == limbs_to_nat(self@) * limbs_to_nat(other@),
            r@.len() == self@.len() + other@.len(),
    {
        let res = mul_generic(self.digits.as_slice(), other.digits.as_slice());
        Self { digits: res }
    }
}

impl core::str::FromStr for Uint<u32> {
    type Err = UintError;

    fn from_str(s: &str) -> Result<Uint<u32>, UintError> {
        let mut r = Uint::<u32>::default();
        match r.encode(s) {
            Ok(_) => Ok(r),
            Err(err) => Err(err),
        }
    }
}

impl UintTrait for Uint<u32> {
    closed spec fn limbs(&self) -> Seq<u32> {
        self.digits@
    }

    /// Clear a Uint<u32>, i.e. this Uint<u32> == 0 after this operation.
    fn clear(&mut self) {
        self.digits.clear();
    }

    /// Read a hex string into a Uint<u32>.
    /// The string MUST be of the form "0xdeadbeef".
    fn encode(&mut self, s: &str) -> (r: Result<(), UintError>) {
        match parse_hex(s) {
            Some(v) => {
                self.digits = v;
                Ok(())
            },
            None => Err(UintError::StringParsingError),
        }
    }

    /// Get a Uint<u32> as a hex string of the form `0xdeadbeef`.
    fn decode(&self) -> (r: Result<String, UintError>) {
        Ok(render_hex(self.digits.as_slice()))
    }

    /// Add two Uint<u32>.
    /// This uses a generic, slow addition algorithm at this time.
    fn add_uint(&self, other: &Self) -> (r: Self) {
        let res = add_generic(self.digits.as_slice(), other.digits.as_slice());
        Self { digits: res }
    }

    /// Multiply two Uint<u32>.
    /// This uses a generic, slow multiplication algorithm at this time.
    fn mul_uint(&self, other: &Self) -> (r: Self) {
        let res = mul_generic(self.digits.as_slice(), other.digits.as_slice());
        Self { digits: res }
    }

    /// Modular exponentiation is not implemented yet.
    fn mod_pow(&self, exp: &Self, modulus: &Self) -> (r: Result<Self, UintError>) {
        Err(UintError::NotImplemented)
    }

    /// Modular multiplication is not implemented yet.
    fn mod_mul(&self, other: &Self, modulus: &Self) -> (r: Result<Self, UintError>) {
        Err(UintError::NotImplemented)
    }
}

/// A very generic way of summing up two vectors of u32.
///
/// The result always carries one extra limb holding the final carry, even
/// when that carry is zero, so its length is `max(a.len(), b.len()) + 1`.
pub(crate) fn add_generic(a: &[u32], b: &[u32]) -> (res: Vec<u32>)
    ensures
        limbs_to_nat(res@) == limbs_to_nat(a@) + limbs_to_nat(b@),
        res@.len() == (if a@.len() >= b@.len() {
            a@.len()
        } else {
            b@.len()
        }) + 1,
{
    let mut res = Vec::<u32>::new();
    let mut carry = 0u32;
    let min_len = if a.len() < b.len() {
        a.len()
    } else {
        b.len()
    };

    // Walk the positions both operands share, adding limb pairs and the
    // running carry.
    let mut i: usize = 0;
    while i < min_len
        invariant
            i <= min_len,
            min_len == if a@.len() < b@.len() {
                a@.len()
            } else {
                b@.len()
            },
            res@.len() == i,
            carry <= 1,
            limbs_to_nat(res@) + carry as nat * limb_weight(i as nat) == limbs_to_nat(
                a@.take(i as int),
            ) + limbs_to_nat(b@.take(i as int)),
        decreases min_len - i,
    {
        let tmp = u32::add_with_carry(&a[i], &b[i]);
        let c = u32::add_with_carry(&tmp.0, &carry);
        proof {
            let w = limb_weight(i as nat);
            let w1 = limb_weight((i + 1) as nat);
            let vres = limbs_to_nat(res@);
            lemma_limbs_to_nat_take_succ(a@, i as int);
            lemma_limbs_to_nat_take_succ(b@, i as int);
            lemma_limbs_to_nat_push(res@, c.0);
            lemma_limb_weight_succ(i as nat);
            assert(vres + c.0 as nat * w + (tmp.1 + c.1) as nat * (w * 0x1_0000_0000)
                == limbs_to_nat(a@.take(i + 1)) + limbs_to_nat(b@.take(i + 1)))
                by (nonlinear_arith)
                requires
                    c.0 as nat + (tmp.1 + c.1) as nat * 0x1_0000_0000 == a@[i as int] as nat
                        + b@[i as int] as nat + carry as nat,
                    vres + carry as nat * w == limbs_to_nat(a@.take(i as int)) + limbs_to_nat(
                        b@.take(i as int),
                    ),
                    limbs_to_nat(a@.take(i + 1)) == limbs_to_nat(a@.take(i as int)) + a@[i as int]
                        as nat * w,
                    limbs_to_nat(b@.take(i + 1)) == limbs_to_nat(b@.take(i as int)) + b@[i as int]
                        as nat * w,
            ;
            assert(w1 == w * 0x1_0000_0000);
        }
        carry = tmp.1 + c.1;
        res.push(c.0);
        i = i + 1;
    }

    // Sum up the carry and remaining values from the longer number.
    // This is ok, the lengths are no sensitive information here.
    let longer: &[u32] = if a.len() > b.len() {
        a
    } else {
        b
    };
    proof {
        assert(a@.take(a@.len() as int) =~= a@);
        assert(b@.take(b@.len() as int) =~= b@);
    }
    let ghost shorter_val: nat = if a@.len() > b@.len() {
        limbs_to_nat(b@)
    } else {
        limbs_to_nat(a@)
    };
    while i < longer.len()
        invariant
            min_len <= i <= longer@.len(),
            longer@ == if a@.len() > b@.len() {
                a@
            } else {
                b@
            },
            shorter_val == if a@.len() > b@.len() {
                limbs_to_nat(b@)
            } else {
                limbs_to_nat(a@)
            },
            res@.len() == i,
            carry <= 1,
            limbs_to_nat(res@) + carry as nat * limb_weight(i as nat) == limbs_to_nat(
                longer@.take(i as int),
            ) + shorter_val,
        decreases longer@.len() - i,
    {
        let c = u32::add_with_carry(&longer[i], &carry);
        proof {
            let w = limb_weight(i as nat);
            let vres = limbs_to_nat(res@);
            lemma_limbs_to_nat_take_succ(longer@, i as int);
            lemma_limbs_to_nat_push(res@, c.0);
            lemma_limb_weight_succ(i as nat);
            assert(vres + c.0 as nat * w + c.1 as nat * (w * 0x1_0000_0000) == limbs_to_nat(
                longer@.take(i + 1),
            ) + shorter_val) by (nonlinear_arith)
                requires
                    c.0 as nat + c.1 as nat * 0x1_0000_0000 == longer@[i as int] as nat
                        + carry as nat,
                    vres + carry as nat * w == limbs_to_nat(longer@.take(i as int)) + shorter_val,
                    limbs_to_nat(longer@.take(i + 1)) == limbs_to_nat(longer@.take(i as int))
                        + longer@[i as int] as nat * w,
            ;
        }
        carry = c.1;
        res.push(c.0);
        i = i + 1;
    }
    proof {
        assert(longer@.take(longer@.len() as int) =~= longer@);
        lemma_limbs_to_nat_push(res@, carry);
    }
    res.push(carry);
    res
}

/// A vector of n zero limbs, denoting zero.
fn zero_vec(n: usize) -> (res: Vec<u32>)
    ensures
        res@.len() == n,
        forall|k: int| 0 <= k < n ==> res@[k] == 0,
        limbs_to_nat(res@) == 0,
{
    let mut res = Vec::<u32>::new();
    let mut i: usize = 0;
    while i < n
        invariant
            i <= n,
            res@.len() == i,
            forall|k: int| 0 <= k < i ==> res@[k] == 0,
        decreases n - i,
    {
        res.push(0);
        i = i + 1;
    }
    proof {
        lemma_limbs_to_nat_zero(res@);
    }
    res
}

/// One pass of the schoolbook multiplication: for every outer index i in
/// [outer_start, outer_end) and inner index j in [0, inner_end), the
/// double-width product a[i]*b[j] is added into the accumulator at position
/// i+j, and the running inner carry lands at position i+outer_end after each
/// row. Positions at and above outer_start+inner_end must still be zero, so
/// that each row's final carry write overwrites nothing.
#[verifier::rlimit(20)]
#[verifier::spinoff_prover]
fn looping(
    outer_start: usize,
    outer_end: usize,
    inner_end: usize,
    a: &[u32],
    b: &[u32],
    res: &mut Vec<u32>,
)
    requires
        outer_start <= outer_end <= a@.len(),
        inner_end == b@.len(),
        old(res)@.len() >= outer_end + inner_end,
        limbs_to_nat(old(res)@) == limbs_to_nat(a@.take(outer_start as int)) * limbs_to_nat(b@),
        forall|k: int| outer_start + inner_end <= k < old(res)@.len() ==> old(res)@[k] == 0,
    ensures
        final(res)@.len() == old(res)@.len(),
        limbs_to_nat(final(res)@) == limbs_to_nat(a@.take(outer_end as int)) * limbs_to_nat(b@),
        forall|k: int| outer_end + inner_end <= k < final(res)@.len() ==> final(res)@[k] == 0,
{
    let total = res.len();
    let mut i = outer_start;
    while i < outer_end
        invariant
            outer_start <= i <= outer_end <= a@.len(),
            inner_end == b@.len(),
            res@.len() == old(res)@.len(),
            res@.len() == total,
            res@.len() >= outer_end + inner_end,
            limbs_to_nat(res@) == limbs_to_nat(a@.take(i as int)) * limbs_to_nat(b@),
            forall|k: int| i + inner_end <= k < res@.len() ==> res@[k] == 0,
        decreases outer_end - i,
    {
        let mut inner_carry = 0u32;
        let ghost base_val = limbs_to_nat(res@);
        let ghost res_len = res@.len();
        proof {
            assert(b@.take(0) =~= Seq::<u32>::empty());
            assert(a@[i as int] as nat * limbs_to_nat(b@.take(0)) * limb_weight(i as nat) == 0)
                by (nonlinear_arith)
                requires
                    limbs_to_nat(b@.take(0)) == 0,
            ;
        }
        let mut j: usize = 0;
        while j < inner_end
            invariant
                j <= inner_end,
                outer_start <= i < outer_end <= a@.len(),
                inner_end == b@.len(),
                res@.len() == res_len,
                res@.len() == total,
                res_len >= outer_end + inner_end,
                base_val == limbs_to_nat(a@.take(i as int)) * limbs_to_nat(b@),
                limbs_to_nat(res@) + inner_carry as nat * limb_weight((i + j) as nat) == base_val
                    + a@[i as int] as nat * limbs_to_nat(b@.take(j as int)) * limb_weight(i as nat),
                forall|k: int| i + inner_end <= k < res@.len() ==> res@[k] == 0,
            decreases inner_end - j,
        {
            let (r_lower, r_higher) = u32::mul_with_carry(&a[i], &b[j]);
            let (tmp_lower, tmp_carry_higher) = u32::add_with_carry(&inner_carry, &res[i + j]);
            let (r_lower, add_carry_higher) = u32::add_with_carry(&r_lower, &tmp_lower);
            proof {
                vstd::arithmetic::mul::lemma_mul_upper_bound(
                    a@[i as int] as int,
                    0xFFFF_FFFF,
                    b@[j as int] as int,
                    0xFFFF_FFFF,
                );
                assert(r_higher as nat + tmp_carry_higher as nat + add_carry_higher as nat
                    <= 0xFFFF_FFFF) by (nonlinear_arith)
                    requires
                        r_lower as nat + (r_higher as nat + tmp_carry_higher as nat
                            + add_carry_higher as nat) * 0x1_0000_0000 == a@[i as int] as nat
                            * b@[j as int] as nat + inner_carry as nat + res@[i + j] as nat,
                        a@[i as int] as nat * b@[j as int] as nat <= 0xFFFF_FFFE_0000_0001,
                        inner_carry as nat <= 0xFFFF_FFFF,
                        res@[i + j] as nat <= 0xFFFF_FFFF,
                ;
            }
            let r_higher = r_higher + tmp_carry_higher + add_carry_higher;
            proof {
                let w_i = limb_weight(i as nat);
                let w_j = limb_weight(j as nat);
                let w_ij = limb_weight((i + j) as nat);
                let ai = a@[i as int] as nat;
                let bj = b@[j as int] as nat;
                let p_ij = ai * bj;
                let old_ij = res@[i + j] as nat;
                let vres = limbs_to_nat(res@);
                let vnew = limbs_to_nat(res@.update(i + j, r_lower));
                lemma_limb_weight_adds(i as nat, j as nat);
                lemma_limb_weight_succ((i + j) as nat);
                lemma_limbs_to_nat_take_succ(b@, j as int);
                lemma_limbs_to_nat_update(res@, i + j, r_lower);
                assert(ai * limbs_to_nat(b@.take(j + 1)) * w_i == ai * limbs_to_nat(
                    b@.take(j as int),
                ) * w_i + p_ij * w_ij) by (nonlinear_arith)
                    requires
                        limbs_to_nat(b@.take(j + 1)) == limbs_to_nat(b@.take(j as int)) + bj * w_j,
                        w_ij == w_i * w_j,
                        p_ij == ai * bj,
                ;
                assert(vnew + r_higher as nat * limb_weight((i + j + 1) as nat) == vres
                    + inner_carry as nat * w_ij + p_ij * w_ij) by (nonlinear_arith)
                    requires
                        vnew + old_ij * w_ij == vres + r_lower as nat * w_ij,
                        r_lower as nat + r_higher as nat * 0x1_0000_0000 == p_ij
                            + inner_carry as nat + old_ij,
                        limb_weight((i + j + 1) as nat) == w_ij * 0x1_0000_0000,
                ;
                assert(vnew + r_higher as nat * limb_weight((i + j + 1) as nat) == base_val + ai
                    * limbs_to_nat(b@.take(j + 1)) * w_i);
            }
            res[i + j] = r_lower;
            inner_carry = r_higher;
            j = j + 1;
        }
        proof {
            assert(b@.take(inner_end as int) =~= b@);
            lemma_limbs_to_nat_update(res@, i + inner_end, inner_carry);
        }
        res[i + inner_end] = inner_carry;
        proof {
            let w_i = limb_weight(i as nat);
            let va = limbs_to_nat(a@.take(i as int));
            let vb = limbs_to_nat(b@);
            lemma_limbs_to_nat_take_succ(a@, i as int);
            assert(limbs_to_nat(res@) == limbs_to_nat(a@.take(i + 1)) * vb) by (nonlinear_arith)
                requires
                    limbs_to_nat(res@) == va * vb + a@[i as int] as nat * vb * w_i,
                    limbs_to_nat(a@.take(i + 1)) == va + a@[i as int] as nat * w_i,
            ;
        }
        i = i + 1;
    }
}

/// A very generic way of multiplying two vectors of u32.
///
/// The result sequence always has length `a.len() + b.len()`, with no
/// trimming of leading zero limbs; that length always accommodates the full
/// product, so overflow is structurally impossible.
#[verifier::rlimit(20)]
#[verifier::spinoff_prover]
pub(crate) fn mul_generic(a: &[u32], b: &[u32]) -> (res: Vec<u32>)
    requires
        a@.len() + b@.len() <= usize::MAX,
    ensures
        limbs_to_nat(res@) == limbs_to_nat(a@) * limbs_to_nat(b@),
        res@.len() == a@.len() + b@.len(),
{
    let mut res = zero_vec(a.len() + b.len());
    let (longer, shorter): (&[u32], &[u32]) = if a.len() > b.len() {
        (a, b)
    } else {
        (b, a)
    };
    let shorter_len = if a.len() < b.len() {
        a.len()
    } else {
        b.len()
    };

    proof {
        assert(longer@.take(0) =~= Seq::<u32>::empty());
        assert(limbs_to_nat(longer@.take(0)) * limbs_to_nat(shorter@) == 0) by (nonlinear_arith)
            requires
                limbs_to_nat(longer@.take(0)) == 0,
        ;
    }
    // Walk the index pairs shared by both operands.
    looping(0, shorter_len, shorter_len, longer, shorter, &mut res);

    // Multiply the remaining limbs of the longer number with the shorter one.
    looping(shorter_len, longer.len(), shorter_len, longer, shorter, &mut res);

    proof {
        assert(longer@.take(longer@.len() as int) =~= longer@);
        vstd::arithmetic::mul::lemma_mul_is_commutative(
            limbs_to_nat(a@) as int,
            limbs_to_nat(b@) as int,
        );
    }
    res
}

/// Relies on rand::thread_rng and rand::Rng::gen_range: a uniformly random
/// usize drawn from [0, n). gen_range panics only on an empty range, which
/// n > 0 rules out.
#[verifier::external_body]
fn random_below(n: usize) -> (r: usize)
    requires
        n > 0,
    ensures
        r < n,
{
    rand::thread_rng().gen_range(0..n)
}

/// A random canonical hex literal: the 0x prefix, then up to len random
/// lower-case hex digits with leading zeros removed.
pub fn random_hex_string(len: usize) -> (r: String)
    ensures
        r@.len() >= 2,
        r@[0] == '0',
        r@[1] == 'x',
        r@.len() <= len + 2,
        all_lower_hex_digits(r@.skip(2)),
        r@.len() > 2 ==> r@[2] != '0',
{
    let mut res = String::new();
    let mut i: usize = 0;
    while i < len
        invariant
            i <= len,
            res@.len() == i,
            all_lower_hex_digits(res@),
        decreases len - i,
    {
        let d = random_below(16);
        let piece = hex_char_str(d as u32);
        proof {
            lemma_hex_char_is_digit(d as nat);
            assert(forall|k: int|
                0 <= k < res@.len() ==> #[trigger] (res@ + piece@)[k] == res@[k]);
            assert((res@ + piece@)[res@.len() as int] == piece@[0]);
        }
        res.append(piece);
        i = i + 1;
    }
    proof {
        assert forall|k: int| 0 <= k < res@.len() implies '\0' <= #[trigger] res@[k] && res@[k]
            <= '\u{7f}' by {
            assert(is_lower_hex_digit(res@[k]));
        }
        assert(vstd::utf8::is_ascii_chars(res@));
    }
    let rs = res.as_str();
    let n = rs.unicode_len();
    let t = skip_zero_chars(rs, n);
    let trimmed = rs.substring_ascii(t, n);
    let mut start = "0x".to_owned();
    proof {
        reveal_strlit("0x");
        assert(start@ =~= seq!['0', 'x']);
    }
    start.append(trimmed);
    proof {
        assert(start@.skip(2) =~= rs@.subrange(t as int, n as int));
        assert(forall|k: int|
            0 <= k < n - t ==> #[trigger] rs@.subrange(t as int, n as int)[k] == rs@[k + t]);
        assert(start@[0] == '0' && start@[1] == 'x');
    }
    start
}

/// Adding a zero value of no greater length appends exactly one zero carry
/// limb: the sum's limbs are the first operand's limbs with a zero pushed.
pub proof fn lemma_add_zero_identity(x: Seq<u32>, z: Seq<u32>, r: Seq<u32>)
    requires
        forall|i: int| 0 <= i < z.len() ==> z[i] == 0,
        z.len() <= x.len(),
        limbs_to_nat(r) == limbs_to_nat(x) + limbs_to_nat(z),
        r.len() == x.len() + 1,
    ensures
        r == x.push(0u32),
{
    lemma_limbs_to_nat_zero(z);
    lemma_limbs_to_nat_push(x, 0u32);
    crate::limbs::lemma_limbs_to_nat_injective(r, x.push(0u32));
}

/// Addition is commutative limb by limb: the results of adding in either
/// order are the same limb sequence, not merely the same value.
pub proof fn lemma_add_commutative(a: Seq<u32>, b: Seq<u32>, r1: Seq<u32>, r2: Seq<u32>)
    requires
        limbs_to_nat(r1) == limbs_to_nat(a) + limbs_to_nat(b),
        r1.len() == (if a.len() >= b.len() {
            a.len()
        } else {
            b.len()
        }) + 1,
        limbs_to_nat(r2) == limbs_to_nat(b) + limbs_to_nat(a),
        r2.len() == (if b.len() >= a.len() {
            b.len()
        } else {
            a.len()
        }) + 1,
    ensures
        r1 == r2,
{
    crate::limbs::lemma_limbs_to_nat_injective(r1, r2);
}

/// Multiplying by a one value returns the first operand's limbs, padded
/// with as many trailing zero limbs as the one value has limbs.
pub proof fn lemma_mul_one_identity(x: Seq<u32>, one: Seq<u32>, r: Seq<u32>)
    requires
        one.len() >= 1,
        one[0] == 1,
        forall|i: int| 1 <= i < one.len() ==> one[i] == 0,
        limbs_to_nat(r) == limbs_to_nat(x) * limbs_to_nat(one),
        r.len() == x.len() + one.len(),
    ensures
        r == x + Seq::new(one.len(), |i: int| 0u32),
{
    assert(limbs_to_nat(one) == 1) by {
        assert(forall|i: int| 0 <= i < one.skip(1).len() ==> #[trigger] one.skip(1)[i] == 0);
        lemma_limbs_to_nat_zero(one.skip(1));
    }
    crate::limbs::lemma_limbs_to_nat_append_zeros(x, one.len());
    crate::limbs::lemma_limbs_to_nat_injective(r, x + Seq::new(one.len(), |i: int| 0u32));
}

/// A value denoting zero decodes to exactly "0x": all its limbs are zero,
/// so every rendered digit is a zero character and trimming removes all of
/// them. The empty limb sequence is the degenerate case.
pub proof fn lemma_zero_value_decodes_empty(s: Seq<u32>)
    requires
        limbs_to_nat(s) == 0,
    ensures
        render_hex_str(s) == seq!['0', 'x'],
{
    crate::limbs::lemma_limbs_to_nat_zero_inverse(s);
    lemma_render_limbs_zero(s);
    let z = crate::hex::zero_chars(8 * s.len());
    lemma_trim_zeros_skip(z, z.len() as int);
    assert(z.skip(z.len() as int) =~= Seq::<char>::empty());
    assert(seq!['0', 'x'] + Seq::<char>::empty() =~= seq!['0', 'x']);
}

} // verus!
