//! Credentials with zero-knowledge proofs, over the Poseidon hash and Groth16.
//!
//! Circuits are built gate by gate, and each of them comes with what it states of
//! the values of its variables. On top of them stand three suites: [`w3c`] with
//! selective disclosure of attributes and an age, [`biometric`] with predicates in
//! slots and windows of time, and [`policy`] with a policy, further predicates and
//! a list of revoked credentials.
use vstd::prelude::*;

pub mod account;
pub mod base64url;
pub mod bijection;
pub mod biometric;
mod clock;
pub mod comparison;
pub mod decoding;
pub mod digest;
pub mod disclosure;
mod entropy;
pub mod field;
pub mod gadgets;
pub mod gates;
pub mod groth16;
pub mod hashing;
pub mod integrity;
pub mod membership;
pub mod modulus;
pub mod opening;
pub mod order;
pub mod permutation;
pub mod policy;
pub mod poseidon;
pub mod primes;
pub mod range;
pub mod rules;
pub mod soundness;
pub mod text;
pub mod w3c;
pub mod walkthrough;

verus! {

} // verus!
