//! Hashes with domain separation, shared by the suites.
use crate::digest;
use crate::field;
use crate::field::Fr;
use crate::permutation;
use crate::permutation::PoseidonParams;
use vstd::prelude::*;
use vstd::utf8::*;

verus! {

/// The tag of commitments.
pub const COMMITMENT_DOMAIN: &'static str = "Commitment";

/// The tag of attribute hashes.
pub const ATTRIBUTE_HASH_DOMAIN: &'static str = "AttributeHash";

/// The tag of blinding factors.
pub const BLINDING_DERIVATION: &'static str = "BlindingDerivation";

/// The field element of a tag under a separator.
pub open spec fn tag_value(separator: Seq<char>, tag: Seq<u8>) -> nat {
    digest::digest_value(encode_utf8(separator) + tag)
}

/// The field element of a text under a separator and a tag.
pub open spec fn tagged_text_value(
    separator: Seq<char>,
    tag: Seq<char>,
    text: Seq<char>,
) -> nat {
    digest::digest_value(encode_utf8(separator) + encode_utf8(tag) + encode_utf8(text))
}

/// The field element of a secret and further data under a separator and the tag
/// of blinding factors.
pub open spec fn blinding_value(separator: Seq<char>, secret: Seq<u8>, data: Seq<u8>) -> nat {
    digest::digest_value(
        encode_utf8(separator) + encode_utf8(BLINDING_DERIVATION@) + secret + data,
    )
}

/// The hash of field elements under a domain element.
pub open spec fn domain_hash(p: permutation::Schedule, domain: nat, inputs: Seq<nat>) -> nat {
    permutation::sponge(p, seq![domain] + inputs)
}

pub(crate) fn tag_element(separator: &str, tag: &[u8]) -> (r: Fr)
    ensures
        r@ == tag_value(separator@, tag@),
{
    digest::digest_to_field(digest::concat(separator.as_bytes(), tag).as_slice())
}

pub(crate) fn tagged_text_element(separator: &str, tag: &str, text: &str) -> (r: Fr)
    ensures
        r@ == tagged_text_value(separator@, tag@, text@),
{
    let mut message = digest::concat(separator.as_bytes(), tag.as_bytes());
    digest::append(&mut message, text.as_bytes());
    digest::digest_to_field(message.as_slice())
}

pub(crate) fn blinding_element(separator: &str, secret: &[u8; 32], data: &[u8]) -> (r: Fr)
    ensures
        r@ == blinding_value(separator@, secret@, data@),
{
    let mut message = digest::concat(separator.as_bytes(), BLINDING_DERIVATION.as_bytes());
    digest::append(&mut message, secret.as_slice());
    digest::append(&mut message, data);
    digest::digest_to_field(message.as_slice())
}

/// A domain element followed by further elements.
pub(crate) fn prepend(first: Fr, inputs: &[Fr]) -> (r: Vec<Fr>)
    ensures
        field::values(r@) == seq![first@] + field::values(inputs@),
        r@.len() == inputs@.len() + 1,
{
    let mut all: Vec<Fr> = Vec::new();
    all.push(first);
    for i in 0..inputs.len()
        invariant
            all@ == seq![first] + inputs@.take(i as int),
    {
        all.push(inputs[i]);
        assert(inputs@.take(i + 1) =~= inputs@.take(i as int).push(inputs@[i as int]));
        assert(all@ =~= seq![first] + inputs@.take(i + 1));
    }
    assert(inputs@.take(inputs@.len() as int) =~= inputs@);
    assert(field::values(all@) =~= seq![first@] + field::values(inputs@));
    all
}

/// The hash of field elements under a domain element.
pub(crate) fn domain_hash_element(params: &PoseidonParams, domain: Fr, inputs: &[Fr]) -> (r: Fr)
    requires
        permutation::well_formed(params@),
    ensures
        r@ == domain_hash(params@, domain@, field::values(inputs@)),
{
    let all = prepend(domain, inputs);
    params.sponge_hash(all.as_slice())
}

/// Attributes followed by a blinding factor.
pub(crate) fn with_blinding(attrs: &[Fr], blinding: &Fr) -> (r: Vec<Fr>)
    ensures
        field::values(r@) == field::values(attrs@).push(blinding@),
{
    let mut all: Vec<Fr> = Vec::new();
    for i in 0..attrs.len()
        invariant
            all@ == attrs@.take(i as int),
    {
        all.push(attrs[i]);
        assert(attrs@.take(i + 1) =~= attrs@.take(i as int).push(attrs@[i as int]));
    }
    all.push(*blinding);
    assert(attrs@.take(attrs@.len() as int) =~= attrs@);
    assert(field::values(all@) =~= field::values(attrs@).push(blinding@));
    all
}

/// The bytes of a text behind another are those of the two.
pub(crate) proof fn lemma_bytes_of_both(a: Seq<char>, b: Seq<char>)
    ensures
        encode_utf8(a + b) == encode_utf8(a) + encode_utf8(b),
    decreases a.len(),
{
    if a.len() == 0 {
        assert(a + b =~= b);
        assert(encode_utf8(a) + encode_utf8(b) =~= encode_utf8(b));
    } else {
        let rest = a.drop_first();
        lemma_bytes_of_both(rest, b);
        assert((a + b).drop_first() =~= rest + b);
        assert(encode_utf8(a + b) =~= encode_utf8(a) + encode_utf8(b));
    }
}

} // verus!
