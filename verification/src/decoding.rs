//! What decoding bytes can come to.
use vstd::prelude::*;

verus! {

/// A decoding succeeded with the given bytes.
pub open spec fn gives(decoded: Result<Seq<u8>, Seq<char>>, bytes: Seq<u8>) -> bool {
    decoded is Ok && decoded->Ok_0 == bytes
}

/// A decoding failed with the given words.
pub open spec fn fails(decoded: Result<Seq<u8>, Seq<char>>, text: Seq<char>) -> bool {
    decoded is Err && decoded->Err_0 == text
}

} // verus!
