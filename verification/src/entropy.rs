//! Random bytes.
use rand::RngCore;
use vstd::prelude::*;

verus! {

/// `rand::RngCore::fill_bytes` of the thread's generator: as many bytes as were
/// asked for. Which bytes they are is left to chance.
#[verifier::external_body]
fn fill_bytes(count: usize) -> (r: Vec<u8>)
    ensures
        r@.len() == count,
{
    let mut bytes = vec![0u8; count];
    rand::thread_rng().fill_bytes(&mut bytes);
    bytes
}

/// Random bytes, as many as asked for.
pub(crate) fn random_bytes(count: usize) -> (r: Vec<u8>)
    ensures
        r@.len() == count,
{
    fill_bytes(count)
}

/// The first 32 bytes of a sequence as an array.
pub(crate) fn array_of(bytes: &Vec<u8>) -> (r: [u8; 32])
    requires
        bytes@.len() == 32,
    ensures
        r@ == bytes@,
{
    let mut out = [0u8; 32];
    for i in 0..32usize
        invariant
            bytes@.len() == 32,
            forall|j: int| 0 <= j < i ==> out@[j] == bytes@[j],
    {
        out[i] = bytes[i];
    }
    assert(out@ =~= bytes@);
    out
}

/// A secret of 32 random bytes, each of which may have any value.
pub(crate) fn random_secret() -> [u8; 32] {
    array_of(&random_bytes(32))
}

} // verus!
