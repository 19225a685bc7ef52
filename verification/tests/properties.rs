//! Scenario tests: the codec round trip, the zero value, the arithmetic
//! identities, the pinned carry-propagation literals, and the error cases.

use cuint::base::{Uint, UintError, UintTrait};
use cuint::cuint32::{random_hex_string, CUint32, CUintError};
use std::str::FromStr;

#[test]
fn zero_value_decodes_to_bare_prefix() {
    // The empty-limb value renders as exactly "0x", not an error.
    let zero = CUint32::new();
    assert_eq!(zero.decode().unwrap(), "0x");
    assert_eq!(zero.to_str(), "0x");
}

#[test]
fn clear_resets_to_zero() {
    let mut x = CUint32::from_str("0xdeadbeef").unwrap();
    x.clear();
    assert_eq!(x.to_str(), "0x");

    let mut y = Uint::<u32>::from_str("0xdeadbeef").unwrap();
    y.clear();
    assert_eq!(y.to_str(), "0x");
}

#[test]
fn round_trip_normalizes_leading_zeros() {
    // Encoding then decoding strips leading zero digits.
    let x = CUint32::from_str("0x00ff").unwrap();
    assert_eq!(x.to_str(), "0xff");
}

#[test]
fn round_trip_lowers_case() {
    // Upper-case digits are accepted and rendered lower case.
    let x = CUint32::from_str("0xDEADBEEF").unwrap();
    assert_eq!(x.to_str(), "0xdeadbeef");
    let y = CUint32::from_str("0xdeadbeef").unwrap();
    assert_eq!(y.to_str(), "0xdeadbeef");
}

#[test]
fn encode_rejects_bad_input() {
    let mut x = CUint32::new();
    assert!(matches!(
        x.encode("not-hex"),
        Err(CUintError::StringParsingError)
    ));
    assert!(matches!(x.encode(""), Err(CUintError::StringParsingError)));
    assert!(matches!(x.encode("0"), Err(CUintError::StringParsingError)));
    assert!(matches!(
        x.encode("0xg1"),
        Err(CUintError::StringParsingError)
    ));
    assert!(matches!(
        x.encode("12ff"),
        Err(CUintError::StringParsingError)
    ));
    // The bare prefix is the well-formed spelling of zero.
    assert!(x.encode("0x").is_ok());
    assert_eq!(x.to_str(), "0x");

    let mut y = Uint::<u32>::default();
    assert!(matches!(
        y.encode("not-hex"),
        Err(UintError::StringParsingError)
    ));
}

#[test]
fn add_zero_keeps_value_with_trailing_limb() {
    // add(x, 0) == x, with the documented extra trailing zero limb.
    let x = CUint32::from_str("0x123456789abcdef").unwrap();
    let zero = CUint32::new();
    let sum = x.add_cuint32(&zero);
    assert_eq!(sum.to_str(), "0x123456789abcdef");
}

#[test]
fn add_is_commutative_structurally() {
    let a = CUint32::from_str("0xffffffffffffffff").unwrap();
    let b = CUint32::from_str("0x1ffffffff").unwrap();
    assert_eq!(a.add_cuint32(&b), b.add_cuint32(&a));
    let c = CUint32::from_str("0x123").unwrap();
    let d = CUint32::from_str("0x456789abcdef0123456789").unwrap();
    assert_eq!(c.add_cuint32(&d), d.add_cuint32(&c));
}

#[test]
fn multiply_identities() {
    let x = CUint32::from_str("0x123456789abcdef").unwrap();
    let one = CUint32::from_str("0x1").unwrap();
    let zero = CUint32::new();
    // multiply(x, 1) == x up to trailing zero limbs.
    assert_eq!(x.mul_cuint32(&one).to_str(), "0x123456789abcdef");
    // multiply(x, 0) decodes to "0x".
    assert_eq!(x.mul_cuint32(&zero).to_str(), "0x");
}

#[test]
fn pinned_carry_literals() {
    let a = CUint32::from_str("0xffffffff").unwrap();
    assert_eq!(a.add_cuint32(&a).to_str(), "0x1fffffffe");
    assert_eq!(a.mul_cuint32(&a).to_str(), "0xfffffffe00000001");

    // Carry propagation across limb boundaries.
    let b = CUint32::from_str("0xffffffffffffffff").unwrap();
    let c = CUint32::from_str("0x1ffffffff").unwrap();
    assert_eq!(b.add_cuint32(&c).to_str(), "0x100000001fffffffe");
}

#[test]
fn modular_operations_report_unsupported() {
    let x = Uint::<u32>::from_str("0x123").unwrap();
    let e = Uint::<u32>::from_str("0x2").unwrap();
    let m = Uint::<u32>::from_str("0x5").unwrap();
    assert!(matches!(x.mod_pow(&e, &m), Err(UintError::NotImplemented)));
    assert!(matches!(x.mod_mul(&e, &m), Err(UintError::NotImplemented)));
}

#[test]
fn random_hex_strings_are_canonical_literals() {
    for len in [0usize, 1, 7, 8, 9, 40] {
        let s = random_hex_string(len);
        assert!(s.starts_with("0x"));
        assert!(s.len() <= len + 2);
        let digits = &s[2..];
        assert!(!digits.starts_with('0'));
        for c in digits.chars() {
            assert!(c.is_ascii_hexdigit() && !c.is_ascii_uppercase());
        }
        // A canonical literal round-trips exactly.
        let x = CUint32::from_str(&s).unwrap();
        assert_eq!(x.to_str(), s);
    }
}

#[test]
fn random_hex_strings_vary() {
    // Two long draws agreeing would mean the randomness source is broken.
    let a = random_hex_string(200);
    let b = random_hex_string(200);
    assert_ne!(a, b);
}

#[test]
fn uint_add_and_mul_match_cuint32() {
    let a = Uint::<u32>::from_str("0xffffffffffffffff").unwrap();
    let b = Uint::<u32>::from_str("0x1ffffffff").unwrap();
    assert_eq!(a.add_uint(&b).to_str(), "0x100000001fffffffe");
    assert_eq!(
        a.mul_uint(&b).to_str(),
        "0x1fffffffefffffffe00000001"
    );
}
