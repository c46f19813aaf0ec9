//! Arbitrary-precision signed integers, held as two's-complement bytes.
//!
//! Arithmetic and comparison are carried out by `num_bigint`.
use vstd::prelude::*;
use vstd::arithmetic::power::pow;

verus! {

/// The value of little-endian base-256 digits, read without a sign.
pub open spec fn unsigned_le_value(s: Seq<u8>) -> nat
    decreases s.len(),
{
    if s.len() == 0 {
        0
    } else {
        s[0] as nat + 256 * unsigned_le_value(s.drop_first())
    }
}

/// The value of little-endian base-256 digits in two's complement: the top bit
/// of the last byte is the sign, and no bytes at all stand for zero.
pub open spec fn signed_le_value(s: Seq<u8>) -> int {
    if s.len() > 0 && s.last() >= 128 {
        unsigned_le_value(s) - pow(256, s.len())
    } else {
        unsigned_le_value(s) as int
    }
}

/// An integer of any size. Its value is `signed_le_value` of its bytes; one
/// value may be held by several byte sequences.
#[derive(Debug)]
pub struct Integer {
    bytes: Vec<u8>,
}

impl View for Integer {
    type V = int;

    closed spec fn view(&self) -> int {
        signed_le_value(self.bytes@)
    }
}

impl Clone for Integer {
    fn clone(&self) -> (r: Self)
        ensures
            r@ == self@,
    {
        let bytes = self.bytes.clone();
        assert(bytes@ =~= self.bytes@);
        Integer { bytes }
    }
}

/// Relies on `From<i64>` for `num_bigint::BigInt` (the same value) and on
/// `BigInt::to_signed_bytes_le` (its two's-complement little-endian bytes).
#[verifier::external_body]
fn big_from_i64(v: i64) -> (r: Integer)
    ensures
        r@ == v as int,
{
    Integer { bytes: num_bigint::BigInt::from(v).to_signed_bytes_le() }
}

/// Relies on `Add` for `&num_bigint::BigInt`: the exact sum. The operands are
/// read with `BigInt::from_signed_bytes_le` and the sum written back with
/// `BigInt::to_signed_bytes_le`, both two's-complement little-endian.
#[verifier::external_body]
fn big_add(a: &Integer, b: &Integer) -> (r: Integer)
    ensures
        r@ == a@ + b@,
{
    let x = num_bigint::BigInt::from_signed_bytes_le(&a.bytes);
    let y = num_bigint::BigInt::from_signed_bytes_le(&b.bytes);
    Integer { bytes: (&x + &y).to_signed_bytes_le() }
}

/// Relies on `Mul` for `&num_bigint::BigInt`: the exact product. The operands
/// are read with `BigInt::from_signed_bytes_le` and the product written back
/// with `BigInt::to_signed_bytes_le`, both two's-complement little-endian.
#[verifier::external_body]
fn big_mul(a: &Integer, b: &Integer) -> (r: Integer)
    ensures
        r@ == a@ * b@,
{
    let x = num_bigint::BigInt::from_signed_bytes_le(&a.bytes);
    let y = num_bigint::BigInt::from_signed_bytes_le(&b.bytes);
    Integer { bytes: (&x * &y).to_signed_bytes_le() }
}

/// Relies on `PartialEq` for `num_bigint::BigInt`: equal exactly when the values
/// are. The operands are read with `BigInt::from_signed_bytes_le`.
#[verifier::external_body]
fn big_eq(a: &Integer, b: &Integer) -> (r: bool)
    ensures
        r == (a@ == b@),
{
    let x = num_bigint::BigInt::from_signed_bytes_le(&a.bytes);
    let y = num_bigint::BigInt::from_signed_bytes_le(&b.bytes);
    x == y
}

impl Integer {
    /// Zero, held as no bytes.
    pub fn zero() -> (r: Integer)
        ensures
            r@ == 0,
    {
        let r = Integer { bytes: Vec::new() };
        assert(r.bytes@.len() == 0);
        r
    }

    /// The integer with the value of `v`.
    pub fn from_i64(v: i64) -> (r: Integer)
        ensures
            r@ == v as int,
    {
        big_from_i64(v)
    }

    /// The integer whose two's-complement little-endian bytes are `bytes`.
    pub fn from_signed_bytes_le(bytes: Vec<u8>) -> (r: Integer)
        ensures
            r@ == signed_le_value(bytes@),
    {
        Integer { bytes }
    }

    /// Two's-complement little-endian bytes of this integer.
    pub fn to_signed_bytes_le(&self) -> (r: Vec<u8>)
        ensures
            signed_le_value(r@) == self@,
    {
        let r = self.bytes.clone();
        assert(r@ =~= self.bytes@);
        r
    }

    /// `self + other`.
    pub fn add(&self, other: &Integer) -> (r: Integer)
        ensures
            r@ == self@ + other@,
    {
        big_add(self, other)
    }

    /// `self * other`.
    pub fn mul(&self, other: &Integer) -> (r: Integer)
        ensures
            r@ == self@ * other@,
    {
        big_mul(self, other)
    }

    /// Whether the two integers have the same value.
    pub fn equals(&self, other: &Integer) -> (r: bool)
        ensures
            r == (self@ == other@),
    {
        big_eq(self, other)
    }
}

} // verus!
