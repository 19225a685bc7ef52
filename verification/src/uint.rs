//! A minimal big number sketch over 64-bit limbs.
//!
//! BigNum predates the constant-time engine and only adds single limbs; it
//! stays as the small entry point its tests exercise.

use vstd::prelude::*;

verus! {

/// A big number as a vector of 64-bit limbs, least significant first.
#[derive(Debug, PartialEq, Eq, Clone)]
pub struct BigNum {
    digits: Vec<u64>,
}

impl View for BigNum {
    type V = Seq<u64>;

    closed spec fn view(&self) -> Seq<u64> {
        self.digits@
    }
}

/// Size queries on a number's limb storage.
pub trait Digits {
    fn capacity(&self) -> usize;

    fn len(&self) -> usize;

    fn is_empty(&self) -> bool;
}

/// Relies on Vec::capacity: a vector can hold at least its current length
/// without reallocating.
#[verifier::external_body]
fn vec_capacity(v: &Vec<u64>) -> (r: usize)
    ensures
        r >= v@.len(),
{
    v.capacity()
}

impl Digits for BigNum {
    /// How many limbs the storage can hold; at least the current length.
    fn capacity(&self) -> (r: usize)
        ensures
            r >= self@.len(),
    {
        vec_capacity(&self.digits)
    }

    /// How many limbs the number holds.
    fn len(&self) -> (r: usize)
        ensures
            r == self@.len(),
    {
        self.digits.len()
    }

    /// Whether the number holds no limbs at all.
    fn is_empty(&self) -> (r: bool)
        ensures
            r == (self@.len() == 0),
    {
        self.digits.len() == 0
    }
}

impl BigNum {
    /// A big number holding the given value in its one limb.
    pub fn new(num: u64) -> (r: BigNum)
        ensures
            r@ == seq![num],
    {
        let mut digits = Vec::new();
        digits.push(num);
        proof {
            assert(digits@ =~= seq![num]);
        }
        BigNum { digits }
    }

    /// Add the first limbs of two numbers. Both numbers must hold at least
    /// one limb and the sum must fit in one limb.
    pub fn add(&self, other: &BigNum) -> (r: BigNum)
        requires
            self@.len() > 0,
            other@.len() > 0,
            self@[0] + other@[0] <= u64::MAX,
        ensures
            r@ == seq![(self@[0] + other@[0]) as u64],
    {
        BigNum::new(self.digits[0] + other.digits[0])
    }
}

} // verus!
