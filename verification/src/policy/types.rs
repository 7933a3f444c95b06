//! What the policy suite is about: predicates, policies and proof bundles.
use crate::field::Fr;
use vstd::prelude::*;

verus! {

/// The number of bits of compared values.
pub const MAX_BIT_WIDTH: usize = 32;

/// The number of diplomas that a circuit can allow.
pub const MAX_INSET: usize = 6;

/// The version of the circuit.
pub const CIRCUIT_VERSION: u32 = 1;

/// A condition on one of the attributes eight to thirteen, in this order.
#[derive(Clone, Debug)]
pub enum Predicate {
    /// The attribute is at least the threshold.
    Gte(u64),
    /// The attribute is the field element.
    Eq(Fr),
    /// The attribute is a member of the set.
    InSet(Vec<Fr>),
    /// The attribute lies between the two bounds, both included.
    Range(u64, u64),
    /// The attribute is below the threshold.
    Lt(u64),
    /// The attribute is not the field element.
    Neq(Fr),
}

/// What a credential has to meet.
#[derive(Clone, Debug)]
pub struct CredentialPolicy {
    pub version: u32,
    pub age_threshold: u64,
    pub citizenship: Fr,
    pub face_threshold: u64,
    pub liveness_threshold: u64,
    pub allowed_diplomas: Vec<Fr>,
    pub expiry_timestamp: Option<u64>,
    pub required_nonce: Option<Fr>,
}

/// A proof with its public values and what it was made for.
#[derive(Clone, Debug)]
pub struct ProofBundle {
    pub proof: Vec<u8>,
    pub public_inputs: Vec<Fr>,
    pub policy: CredentialPolicy,
    pub timestamp: u64,
    pub version: u32,
}

} // verus!
