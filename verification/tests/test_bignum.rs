//! The BigNum sketch: single-limb addition and size queries.

use cuint::uint::{BigNum, Digits};

#[test]
fn test_bignum_test_add() {
    let a = BigNum::new(1);
    let b = BigNum::new(2);
    println!("{:?}", a.add(&b));
    assert_eq!(a.add(&b), BigNum::new(3));
}

#[test]
fn bignum_size_queries() {
    let a = BigNum::new(5);
    assert_eq!(a.len(), 1);
    assert!(!a.is_empty());
    assert!(a.capacity() >= 1);
}
