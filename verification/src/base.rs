//! The generic multi-precision value and the trait of its public
//! operations.
//!
//! `Uint<T>` owns a little-endian vector of limbs of type T. `UintTrait`
//! states what every operation returns over the limb sequence; the one
//! implementation, for 32-bit limbs, lives with the arithmetic engine.

use crate::hex::{parse_limbs, render_hex_str, valid_hex_str};
use crate::limbs::limbs_to_nat;
use vstd::prelude::*;

verus! {

/// Uint errors.
/// * StringParsingError when a string can't be parsed into a Uint.
/// * NotImplemented when the operation has no algorithm in this library;
///   modular arithmetic reports this instead of terminating the program.
#[derive(Debug, Clone, Copy, PartialEq, Eq, Structural)]
pub enum UintError {
    StringParsingError,
    NotImplemented,
}

/// The struct holding the limb vector representing the unsigned integer,
/// least significant limb first.
#[derive(Debug, PartialEq, Eq, Clone)]
pub struct Uint<T> {
    pub(crate) digits: Vec<T>,
}

impl<T> View for Uint<T> {
    type V = Seq<T>;

    closed spec fn view(&self) -> Seq<T> {
        self.digits@
    }
}

impl<T> Default for Uint<T> {
    /// The default Uint is the empty limb sequence, i.e. zero.
    fn default() -> (r: Self)
        ensures
            r@ == Seq::<T>::empty(),
    {
        Uint { digits: Vec::new() }
    }
}

/// Trait defining all public functions on Uints.
///
/// The contracts speak of `limbs`, the little-endian 32-bit limb sequence
/// of the value, and of the natural number it denotes.
pub trait UintTrait: Sized {
    /// The limbs of the value, least significant first.
    spec fn limbs(&self) -> Seq<u32>;

    /// Clear the value, i.e. self == 0 after this operation.
    fn clear(&mut self)
        ensures
            final(self).limbs() == Seq::<u32>::empty(),
    ;

    /// Read a hex string of the form "0xdeadbeef" into the value. On any
    /// other input the value is left unchanged and a parsing error is
    /// returned.
    fn encode(&mut self, s: &str) -> (r: Result<(), UintError>)
        ensures
            valid_hex_str(s@) ==> r is Ok && final(self).limbs() == parse_limbs(s@.skip(2)),
            !valid_hex_str(s@) ==> r == Err::<(), UintError>(UintError::StringParsingError)
                && final(self).limbs() == old(self).limbs(),
    ;

    /// Get the value as a hex string of the form `0xdeadbeef`; the zero
    /// value renders as `0x` with no digits. Decoding never fails.
    fn decode(&self) -> (r: Result<String, UintError>)
        ensures
            r is Ok,
            r matches Ok(t) ==> t@ == render_hex_str(self.limbs()),
    ;

    /// Add two values. The result always carries one extra trailing limb
    /// holding the final carry, even when that carry is zero.
    fn add_uint(&self, other: &Self) -> (r: Self)
        ensures
            limbs_to_nat(r.limbs()) == limbs_to_nat(self.limbs()) + limbs_to_nat(other.limbs()),
            r.limbs().len() == (if self.limbs().len() >= other.limbs().len() {
                self.limbs().len()
            } else {
                other.limbs().len()
            }) + 1,
    ;

    /// Multiply two values. The result has exactly the combined length of
    /// the operands, with no trimming of leading zero limbs.
    fn mul_uint(&self, other: &Self) -> (r: Self)
        requires
            self.limbs().len() + other.limbs().len() <= usize::MAX,
        ensures
            limbs_to_nat(r.limbs()) == limbs_to_nat(self.limbs()) * limbs_to_nat(other.limbs()),
            r.limbs().len() == self.limbs().len() + other.limbs().len(),
    ;

    /// Modular exponentiation has no algorithm in this library yet: the
    /// call always reports that it is unsupported.
    fn mod_pow(&self, exp: &Self, modulus: &Self) -> (r: Result<Self, UintError>)
        ensures
            r == Err::<Self, UintError>(UintError::NotImplemented),
    ;

    /// Modular multiplication has no algorithm in this library yet: the
    /// call always reports that it is unsupported.
    fn mod_mul(&self, other: &Self, modulus: &Self) -> (r: Result<Self, UintError>)
        ensures
            r == Err::<Self, UintError>(UintError::NotImplemented),
    ;

    /// Best-effort decode: the hex string, or the empty string if decoding
    /// were ever to fail.
    fn to_str(&self) -> (r: String)
        ensures
            r@ == render_hex_str(self.limbs()),
    {
        match self.decode() {
            Ok(s) => s,
            Err(_) => String::new(),
        }
    }
}

} // verus!
