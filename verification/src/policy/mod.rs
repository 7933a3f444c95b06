//! Credentials under a policy, with a list of revoked ones.
pub mod bundle;
pub mod circuit;
pub mod hash;
pub mod meaning;
pub mod merkle;
pub mod predicates;
pub mod revocation;
pub mod types;
