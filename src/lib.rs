//! A small arithmetic-circuit compiler: gates are lowered into a rank-1
//! constraint system whose satisfiability is checked, and a Merkle tree
//! commits to a sequence of values with per-leaf authentication paths.
use vstd::prelude::*;

pub mod integer;
pub mod hash;
pub mod r1cs;
pub mod circuit;
pub mod merkle;

verus! {

} // verus!
