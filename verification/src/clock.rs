//! The time.
use std::time::{SystemTime, UNIX_EPOCH};
use vstd::prelude::*;

verus! {

/// `SystemTime::now`, in whole seconds since the beginning of 1970, and zero for
/// a clock before that. Nothing is known of it.
#[verifier::external_body]
pub(crate) fn seconds_now() -> u64 {
    SystemTime::now().duration_since(UNIX_EPOCH).unwrap_or_default().as_secs()
}

} // verus!
