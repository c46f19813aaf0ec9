//! The two-argument hashing capability that hash gates and Merkle trees use.
use vstd::prelude::*;
use crate::integer::Integer;

verus! {

/// A deterministic, total hash of two integers. `hash_spec` is its
/// mathematical meaning; `hash` computes it.
pub trait HashFunction {
    spec fn hash_spec(&self, a: int, b: int) -> int;

    fn hash(&self, a: &Integer, b: &Integer) -> (r: Integer)
        ensures
            r@ == self.hash_spec(a@, b@),
    ;
}

/// The additive hash `hash(a, b) = a + b`, for exercising circuits and trees.
pub struct SimpleAddHash;

impl HashFunction for SimpleAddHash {
    open spec fn hash_spec(&self, a: int, b: int) -> int {
        a + b
    }

    fn hash(&self, a: &Integer, b: &Integer) -> (r: Integer) {
        a.add(b)
    }
}

} // verus!
