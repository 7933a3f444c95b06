//! SHA-256 and field elements derived from it.
use crate::field;
use crate::field::Fr;
use sha2::{Digest, Sha256};
use vstd::prelude::*;

verus! {

/// The SHA-256 digest of a message.
pub uninterp spec fn sha256(message: Seq<u8>) -> Seq<u8>;

/// `sha2::Sha256` over a whole message: its digest, which has 32 bytes.
#[verifier::external_body]
fn sha256_bytes(message: &[u8]) -> (r: Vec<u8>)
    ensures
        r@ == sha256(message@),
        r@.len() == 32,
{
    let mut hasher = Sha256::new();
    hasher.update(message);
    hasher.finalize().to_vec()
}

/// The digest of a message as a big-endian integer modulo the field's order.
pub open spec fn digest_value(message: Seq<u8>) -> nat {
    field::be_value(sha256(message)) % field::modulus()
}

/// The digest of a message as 32 bytes.
pub fn digest_bytes(message: &[u8]) -> (r: Vec<u8>)
    ensures
        r@ == sha256(message@),
        r@.len() == 32,
{
    sha256_bytes(message)
}

/// The digest of a message as a field element.
pub fn digest_to_field(message: &[u8]) -> (r: Fr)
    ensures
        r@ == digest_value(message@),
{
    let bytes = sha256_bytes(message);
    Fr::from_be_bytes_mod_order(bytes.as_slice())
}

/// Puts bytes behind a message.
pub(crate) fn append(message: &mut Vec<u8>, bytes: &[u8])
    ensures
        final(message)@ == old(message)@ + bytes@,
{
    for i in 0..bytes.len()
        invariant
            message@ == old(message)@ + bytes@.take(i as int),
    {
        message.push(bytes[i]);
        assert(bytes@.take(i + 1) =~= bytes@.take(i as int).push(bytes@[i as int]));
    }
    assert(bytes@.take(bytes@.len() as int) =~= bytes@);
}

/// Two byte strings one behind the other.
pub(crate) fn concat(first: &[u8], second: &[u8]) -> (r: Vec<u8>)
    ensures
        r@ == first@ + second@,
{
    let mut message: Vec<u8> = Vec::new();
    append(&mut message, first);
    append(&mut message, second);
    assert(message@ =~= first@ + second@);
    message
}

/// The eight bytes of a number in little-endian order.
pub open spec fn le_bytes(n: nat) -> Seq<u8> {
    seq![
        (n % 256) as u8,
        (n / 0x100 % 256) as u8,
        (n / 0x1_0000 % 256) as u8,
        (n / 0x100_0000 % 256) as u8,
        (n / 0x1_0000_0000 % 256) as u8,
        (n / 0x100_0000_0000 % 256) as u8,
        (n / 0x1_0000_0000_0000 % 256) as u8,
        (n / 0x100_0000_0000_0000 % 256) as u8,
    ]
}

/// A number as eight bytes in little-endian order.
pub(crate) fn le_bytes_of(n: u64) -> (r: Vec<u8>)
    ensures
        r@ == le_bytes(n as nat),
{
    let r = vec![
        (n % 256) as u8,
        (n / 0x100 % 256) as u8,
        (n / 0x1_0000 % 256) as u8,
        (n / 0x100_0000 % 256) as u8,
        (n / 0x1_0000_0000 % 256) as u8,
        (n / 0x100_0000_0000 % 256) as u8,
        (n / 0x1_0000_0000_0000 % 256) as u8,
        (n / 0x100_0000_0000_0000 % 256) as u8,
    ];
    assert(r@ =~= le_bytes(n as nat));
    r
}

/// The bytes of a number of 64 bits are its digits in base 256, the lowest first.
pub proof fn lemma_le_bytes(n: nat)
    requires
        n <= u64::MAX,
    ensures
        le_bytes(n).len() == 8,
        n == le_bytes(n)[0] + 0x100 * le_bytes(n)[1] + 0x1_0000 * le_bytes(n)[2] + 0x100_0000
            * le_bytes(n)[3] + 0x1_0000_0000 * le_bytes(n)[4] + 0x100_0000_0000 * le_bytes(n)[5]
            + 0x1_0000_0000_0000 * le_bytes(n)[6] + 0x100_0000_0000_0000 * le_bytes(n)[7],
{
    let n1 = n / 256;
    let n2 = n1 / 256;
    let n3 = n2 / 256;
    let n4 = n3 / 256;
    let n5 = n4 / 256;
    let n6 = n5 / 256;
    let n7 = n6 / 256;
    assert(n / 0x100 == n1);
    assert(n / 0x1_0000 == n2);
    assert(n / 0x100_0000 == n2 / 256);
    assert(n / 0x1_0000_0000 == n3 / 256);
    assert(n / 0x100_0000_0000 == n4 / 256);
    assert(n / 0x1_0000_0000_0000 == n5 / 256);
    assert(n / 0x100_0000_0000_0000 == n6 / 256);
    assert(n7 < 256);
    assert(le_bytes(n)[7] == n7);
    assert(le_bytes(n)[6] == n6 % 256);
    assert(le_bytes(n)[5] == n5 % 256);
    assert(le_bytes(n)[4] == n4 % 256);
    assert(le_bytes(n)[3] == n3 % 256);
    assert(le_bytes(n)[2] == n2 % 256);
    assert(le_bytes(n)[1] == n1 % 256);
    assert(le_bytes(n)[0] == n % 256);
}

} // verus!
