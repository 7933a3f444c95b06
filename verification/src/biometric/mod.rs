//! Credentials with predicates over their attributes and a window of time.
pub mod cache;
pub mod crypto;
pub mod error;
pub mod export;
pub mod matrix;
pub mod reading;
pub mod registry;
pub mod slots;
pub mod suite;
pub mod truth;
pub mod types;
