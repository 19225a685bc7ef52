//! Tests of the CUint32 codec and arithmetic, with num-bigint as the
//! independent reference for expected sums and products.

use cuint::cuint32::{random_hex_string, CUint32};
use num_bigint::BigUint;
use std::str::FromStr;

/// Compute the expected result of op on two hex literals with an
/// independent arbitrary-precision library, rendered the way the codec
/// renders values: "0x" plus lower-case digits, no leading zeros, and no
/// digits at all for zero.
fn get_expected(op: &'static str, a: &String, b: &String) -> String {
    fn parse(s: &String) -> BigUint {
        let digits = &s.as_str()[2..];
        if digits.is_empty() {
            BigUint::from(0u32)
        } else {
            BigUint::parse_bytes(digits.as_bytes(), 16).expect("reference parse failed")
        }
    }
    let x = parse(a);
    let y = parse(b);
    let r = match op {
        "add" => x + y,
        _ => x * y,
    };
    if r == BigUint::from(0u32) {
        "0x".to_string()
    } else {
        let mut out = "0x".to_string();
        out.push_str(&r.to_str_radix(16));
        out
    }
}

#[test]
fn cuint32_test_encode_decode() {
    fn enc_dec(s: &str) {
        let x = CUint32::from_str(s).unwrap();
        let s_dec = x.to_str();
        println!("{:?} := {:x?} => {:?}", s, x, s_dec);
        assert_eq!(s, s_dec);
    }
    let s = "0x123456789abcdef";
    enc_dec(s);
    for i in 0..100 {
        enc_dec(&random_hex_string(128 + 3 * i));
    }
}

#[test]
fn cuint32_test_add() {
    fn test_add_core(a: &String, b: &String) {
        let x = CUint32::from_str(a).unwrap();
        let y = CUint32::from_str(b).unwrap();
        let c = x.add_cuint32(&y);
        let expected = get_expected("add", a, b);
        println!("{:?} + {:?} = {:?}", a, b, expected);
        println!("my result: {:?}", c.to_str());
        assert_eq!(expected, c.to_str());
    }

    // Full limb
    let a = "0xffffffff".to_string();
    let b = "0xffffffff".to_string();
    test_add_core(&a, &b);

    // Two full limbs
    let a = "0xffffffffffffffff".to_string();
    let b = "0xffffffffffffffff".to_string();
    test_add_core(&a, &b);

    // Two different limbs
    let a = "0xffffffffffffffff".to_string();
    let b = "0x1ffffffff".to_string();
    test_add_core(&a, &b);

    // Single limb
    let a = random_hex_string(8);
    let b = random_hex_string(8);
    test_add_core(&a, &b);

    // Two  limbs
    let a = random_hex_string(16);
    let b = random_hex_string(16);
    test_add_core(&a, &b);

    // Different lengths
    let a = random_hex_string(8);
    let b = random_hex_string(16);
    test_add_core(&a, &b);
    let a = random_hex_string(16);
    let b = random_hex_string(8);
    test_add_core(&a, &b);

    // Longer
    for i in 5..50 {
        let a = random_hex_string(i);
        let b = random_hex_string(i);
        test_add_core(&a, &b);
    }
}

#[test]
fn cuint32_test_mul() {
    fn test_mul_core(a: &String, b: &String) {
        let x = CUint32::from_str(a).unwrap();
        let y = CUint32::from_str(b).unwrap();
        let c = x.mul_cuint32(&y);
        let expected = get_expected("mul", a, b);
        println!("{:?} * {:?} = {:?}", a, b, expected);
        println!("my result: {:?}", c.to_str());
        assert_eq!(expected, c.to_str());
    }

    // Full limb
    let a = "0xffffffff".to_string();
    let b = "0xffffffff".to_string();
    test_mul_core(&a, &b);

    // Two full limbs
    let a = "0xffffffffffffffff".to_string();
    let b = "0xffffffffffffffff".to_string();
    test_mul_core(&a, &b);

    // Two different length limbs
    let a = "0xffffffffffffffff".to_string();
    let b = "0x1ffffffff".to_string();
    test_mul_core(&a, &b);

    // Special test
    let a = "0x7ab8264d38136f083a486008a7a5f8b1".to_string();
    let b = "0xf22fb9d176c381f93aa9e84938bb29dff".to_string();
    test_mul_core(&a, &b);

    // Single limb
    let a = random_hex_string(8);
    let b = random_hex_string(8);
    test_mul_core(&a, &b);

    // Two  limbs
    let a = random_hex_string(16);
    let b = random_hex_string(16);
    test_mul_core(&a, &b);

    // Different lengths
    let a = random_hex_string(8);
    let b = random_hex_string(16);
    test_mul_core(&a, &b);
    let a = random_hex_string(16);
    let b = random_hex_string(8);
    test_mul_core(&a, &b);

    // Longer
    for i in 5..50 {
        let a = random_hex_string(i);
        let b = random_hex_string(i);
        test_mul_core(&a, &b);
    }
}
