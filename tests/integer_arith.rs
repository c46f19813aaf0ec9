use num_bigint::BigInt;
use zk_circuit::integer::Integer;

fn big(x: &Integer) -> BigInt {
    BigInt::from_signed_bytes_le(&x.to_signed_bytes_le())
}

#[test]
fn from_i64_keeps_value() {
    assert_eq!(big(&Integer::from_i64(0)), BigInt::from(0));
    assert_eq!(big(&Integer::from_i64(300)), BigInt::from(300));
    assert_eq!(big(&Integer::from_i64(-129)), BigInt::from(-129));
    assert_eq!(big(&Integer::from_i64(i64::MIN)), BigInt::from(i64::MIN));
}

#[test]
fn zero_is_zero() {
    assert_eq!(big(&Integer::zero()), BigInt::from(0));
    assert!(Integer::zero().equals(&Integer::from_i64(0)));
}

#[test]
fn add_is_exact_beyond_64_bits() {
    let a = Integer::from_i64(i64::MAX);
    let s = a.add(&a);
    assert_eq!(big(&s), BigInt::from(i64::MAX) * 2);
    assert_eq!(big(&Integer::from_i64(-5).add(&Integer::from_i64(3))), BigInt::from(-2));
}

#[test]
fn mul_is_exact_beyond_64_bits() {
    let a = Integer::from_i64(i64::MIN);
    let p = a.mul(&a);
    assert_eq!(big(&p), BigInt::from(i64::MIN) * BigInt::from(i64::MIN));
    assert_eq!(big(&Integer::from_i64(-6).mul(&Integer::from_i64(7))), BigInt::from(-42));
}

#[test]
fn equals_compares_values_not_bytes() {
    let padded = Integer::from_signed_bytes_le(vec![5, 0, 0]);
    assert!(padded.equals(&Integer::from_i64(5)));
    assert!(!padded.equals(&Integer::from_i64(6)));
    let minus_one = Integer::from_signed_bytes_le(vec![0xff, 0xff]);
    assert!(minus_one.equals(&Integer::from_i64(-1)));
}

#[test]
fn empty_bytes_are_zero() {
    assert!(Integer::from_signed_bytes_le(vec![]).equals(&Integer::from_i64(0)));
}

#[test]
fn clone_keeps_value() {
    let a = Integer::from_i64(-77);
    assert!(a.clone().equals(&a));
}
