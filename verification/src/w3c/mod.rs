//! Verifiable credentials with zero-knowledge proofs, in the suite
//! `poseidon-groth16-2026`.

pub mod agreement;
pub mod credential;
pub mod cryptosuite;
pub mod error;
pub mod primitives;
