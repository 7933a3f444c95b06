//! The data integrity suite `poseidon-groth16-2026`: blinding factors for single
//! attributes, and the age credential as JSON text.
//!
//! Hashes, commitments and the circuit are those of [`crate::w3c::primitives`]
//! and [`crate::disclosure`].
use crate::base64url;
use crate::digest;
use crate::entropy;
use crate::field;
use crate::field::Fr;
use crate::groth16::Proof;
use crate::hashing;
use crate::poseidon;
use crate::text;
use vstd::prelude::*;
use vstd::utf8::*;

verus! {

/// The blinding factor of an attribute of a credential. The attribute's index is
/// written in eight bytes.
pub open spec fn attribute_blinding(
    secret: Seq<u8>,
    credential_id: Seq<char>,
    attribute_index: nat,
) -> nat {
    hashing::blinding_value(
        poseidon::DOMAIN_SEP@,
        secret,
        encode_utf8(credential_id) + digest::le_bytes(attribute_index),
    )
}

/// Derives the blinding factor of an attribute of a credential from a secret.
pub fn derive_blinding(
    master_secret: &[u8; 32],
    credential_id: &str,
    attribute_index: usize,
) -> (r: Fr)
    ensures
        r@ == attribute_blinding(master_secret@, credential_id@, attribute_index as nat),
{
    poseidon::derive_blinding(master_secret, credential_id, attribute_index)
}

/// The field element of 32 bytes, the lowest first.
pub fn element_of(bytes: &[u8; 32]) -> (r: Fr)
    ensures
        r@ == field::le_value(bytes@) % field::modulus(),
{
    Fr::from_le_bytes_mod_order(bytes.as_slice())
}

/// The field element of 32 random bytes, the lowest first; every element may come.
pub fn random_fr() -> Fr {
    element_of(&entropy::random_secret())
}

pub const HEAD: &'static str = "{\n  \"@context\": [\n    \"https://www.w3.org/ns/credentials/v2\",\n    \"https://w3id.org/security/data-integrity/v2\"\n  ],\n  \"id\": \"";

pub const SUBJECT: &'static str = "\",\n  \"type\": [\"VerifiableCredential\", \"AgeCredential\"],\n  \"issuer\": \"did:example:government\",\n  \"issuanceDate\": \"2026-05-21T00:00:00Z\",\n  \"credentialSubject\": {\n    \"id\": \"did:example:alice\",\n    \"commitment\": \"";

pub const PROOF: &'static str = "\",\n    \"revealedAttributes\": [\"isOver18\"]\n  },\n  \"proof\": {\n    \"type\": \"DataIntegrityProof\",\n    \"cryptosuite\": \"poseidon-groth16-2026\",\n    \"created\": \"2026-05-21T00:00:00Z\",\n    \"verificationMethod\": \"did:example:government#poseidon-groth16-key-1\",\n    \"proofPurpose\": \"assertionMethod\",\n    \"proofValue\": \"";

pub const TAIL: &'static str = "\",\n    \"domain\": \"https://verifier.example\"\n  }\n}";

/// An age credential as JSON text: its name, the commitment in decimal, and the
/// proof in base64url without what stands for trailing zero bits. The name is
/// written as it is, without escapes.
pub open spec fn credential_json(
    credential_id: Seq<char>,
    proof: Seq<u8>,
    commitment: nat,
) -> Seq<char> {
    HEAD@ + credential_id + SUBJECT@ + field::field_text(commitment) + PROOF@
        + base64url::trimmed(base64url::encoded(proof)) + TAIL@
}

/// An age credential as JSON text.
pub fn w3c_credential(credential_id: &str, proof: &Proof, commitment: &Fr) -> (r: String)
    ensures
        r@ == credential_json(credential_id@, proof@, commitment@),
{
    let bytes = proof.to_bytes();
    let mut out = HEAD.to_string();
    out.push_str(credential_id);
    out.push_str(SUBJECT);
    out.push_str(commitment.to_text().as_str());
    out.push_str(PROOF);
    out.push_str(base64url::encode(bytes.as_slice()).as_str());
    out.push_str(TAIL);
    out
}

/// The text says what the credential is named, what it commits to and what proves it,
/// each under its own key.
pub proof fn lemma_json_says(credential_id: Seq<char>, proof: Seq<u8>, commitment: nat)
    ensures
        ({
            let s = credential_json(credential_id, proof, commitment);
            let value = base64url::trimmed(base64url::encoded(proof));
            &&& text::holds(s, "\"id\": \""@ + credential_id + "\""@)
            &&& text::holds(s, "\"commitment\": \""@ + field::field_text(commitment) + "\""@)
            &&& text::holds(s, "\"proofValue\": \""@ + value + "\""@)
        }),
{
    reveal_strlit(
        "{\n  \"@context\": [\n    \"https://www.w3.org/ns/credentials/v2\",\n    \"https://w3id.org/security/data-integrity/v2\"\n  ],\n  \"id\": \"",
    );
    reveal_strlit(
        "\",\n  \"type\": [\"VerifiableCredential\", \"AgeCredential\"],\n  \"issuer\": \"did:example:government\",\n  \"issuanceDate\": \"2026-05-21T00:00:00Z\",\n  \"credentialSubject\": {\n    \"id\": \"did:example:alice\",\n    \"commitment\": \"",
    );
    reveal_strlit(
        "\",\n    \"revealedAttributes\": [\"isOver18\"]\n  },\n  \"proof\": {\n    \"type\": \"DataIntegrityProof\",\n    \"cryptosuite\": \"poseidon-groth16-2026\",\n    \"created\": \"2026-05-21T00:00:00Z\",\n    \"verificationMethod\": \"did:example:government#poseidon-groth16-key-1\",\n    \"proofPurpose\": \"assertionMethod\",\n    \"proofValue\": \"",
    );
    reveal_strlit("\",\n    \"domain\": \"https://verifier.example\"\n  }\n}");
    reveal_strlit("\"id\": \"");
    reveal_strlit("\"commitment\": \"");
    reveal_strlit("\"proofValue\": \"");
    reveal_strlit("\"");
    let s = credential_json(credential_id, proof, commitment);
    let value = base64url::trimmed(base64url::encoded(proof));
    let number = field::field_text(commitment);
    let q = "\""@;
    let (a, b, c) = ("\"id\": \""@, "\"commitment\": \""@, "\"proofValue\": \""@);
    let h = HEAD@.take(HEAD@.len() - a.len());
    let m = SUBJECT@.take(SUBJECT@.len() - b.len());
    let p = PROOF@.take(PROOF@.len() - c.len());
    assert(HEAD@ =~= h + a);
    assert(SUBJECT@ =~= m + b);
    assert(PROOF@ =~= p + c);
    assert(SUBJECT@ =~= q + SUBJECT@.skip(1));
    assert(PROOF@ =~= q + PROOF@.skip(1));
    assert(TAIL@ =~= q + TAIL@.skip(1));
    let end = PROOF@ + value + TAIL@;
    text::lemma_holds(
        s,
        h,
        a + credential_id + q,
        SUBJECT@.skip(1) + number + end,
    );
    text::lemma_holds(
        s,
        HEAD@ + credential_id + m,
        b + number + q,
        PROOF@.skip(1) + value + TAIL@,
    );
    text::lemma_holds(
        s,
        HEAD@ + credential_id + SUBJECT@ + number + p,
        c + value + q,
        TAIL@.skip(1),
    );
}

/// Two credentials with the same text have the same name, the same commitment and, with
/// proofs of one length, the same proof, where the names have no quotes.
pub proof fn lemma_json_determines(
    a: Seq<char>,
    proof_a: Seq<u8>,
    commitment_a: nat,
    b: Seq<char>,
    proof_b: Seq<u8>,
    commitment_b: nat,
)
    requires
        credential_json(a, proof_a, commitment_a) == credential_json(b, proof_b, commitment_b),
        forall|i: int| 0 <= i < a.len() ==> #[trigger] a[i] != '"',
        forall|i: int| 0 <= i < b.len() ==> #[trigger] b[i] != '"',
        proof_a.len() == proof_b.len(),
    ensures
        a == b,
        proof_a == proof_b,
        commitment_a == commitment_b,
{
    reveal_strlit(
        "{\n  \"@context\": [\n    \"https://www.w3.org/ns/credentials/v2\",\n    \"https://w3id.org/security/data-integrity/v2\"\n  ],\n  \"id\": \"",
    );
    reveal_strlit(
        "\",\n  \"type\": [\"VerifiableCredential\", \"AgeCredential\"],\n  \"issuer\": \"did:example:government\",\n  \"issuanceDate\": \"2026-05-21T00:00:00Z\",\n  \"credentialSubject\": {\n    \"id\": \"did:example:alice\",\n    \"commitment\": \"",
    );
    reveal_strlit(
        "\",\n    \"revealedAttributes\": [\"isOver18\"]\n  },\n  \"proof\": {\n    \"type\": \"DataIntegrityProof\",\n    \"cryptosuite\": \"poseidon-groth16-2026\",\n    \"created\": \"2026-05-21T00:00:00Z\",\n    \"verificationMethod\": \"did:example:government#poseidon-groth16-key-1\",\n    \"proofPurpose\": \"assertionMethod\",\n    \"proofValue\": \"",
    );
    let plain = |c: char| c != '"';
    let (va, vb) = (
        base64url::trimmed(base64url::encoded(proof_a)),
        base64url::trimmed(base64url::encoded(proof_b)),
    );
    let (na, nb) = (field::field_text(commitment_a), field::field_text(commitment_b));
    let (sa, sb) = (HEAD@ + a + SUBJECT@, HEAD@ + b + SUBJECT@);
    let (pa, pb) = (sa + na + PROOF@, sb + nb + PROOF@);
    lemma_value_plain(proof_a);
    lemma_value_plain(proof_b);
    lemma_number_plain(commitment_a);
    lemma_number_plain(commitment_b);
    assert(credential_json(a, proof_a, commitment_a) == pa + va + TAIL@);
    assert(credential_json(b, proof_b, commitment_b) == pb + vb + TAIL@);
    text::lemma_same_end(pa + va, pb + vb, TAIL@);
    assert(pa.last() == '"' && pb.last() == '"');
    text::lemma_same_run(pa, va, pb, vb, plain);
    text::lemma_same_end(sa + na, sb + nb, PROOF@);
    assert(sa.last() == '"' && sb.last() == '"');
    text::lemma_same_run(sa, na, sb, nb, plain);
    text::lemma_same_end(HEAD@ + a, HEAD@ + b, SUBJECT@);
    assert(HEAD@.last() == '"');
    text::lemma_same_run(HEAD@, a, HEAD@, b, plain);
    lemma_same_value(proof_a, proof_b);
    text::lemma_decimal(commitment_a);
    text::lemma_decimal(commitment_b);
}

/// The text of a proof is in the alphabet, so that no quote is in it.
proof fn lemma_value_plain(proof: Seq<u8>)
    ensures
        forall|i: int|
            0 <= i < base64url::trimmed(base64url::encoded(proof)).len()
                ==> #[trigger] base64url::trimmed(base64url::encoded(proof))[i] != '"',
{
    let s = base64url::encoded(proof);
    let t = base64url::trimmed(s);
    base64url::lemma_in_alphabet(proof);
    base64url::lemma_trimmed(s);
    assert forall|i: int| 0 <= i < t.len() implies #[trigger] t[i] != '"' by {
        assert(t[i] == s[i]);
    }
}

proof fn lemma_number_plain(n: nat)
    ensures
        forall|i: int|
            0 <= i < field::field_text(n).len() ==> #[trigger] field::field_text(n)[i] != '"',
{
    text::lemma_decimal(n);
    assert forall|i: int| 0 <= i < field::field_text(n).len() implies #[trigger] field::field_text(
        n,
    )[i] != '"' by {
        assert(text::is_digit(text::decimal(n)[i]));
    }
}

/// What the trimmed encodings of two proofs of one length have in common, the proofs
/// have.
proof fn lemma_same_value(a: Seq<u8>, b: Seq<u8>)
    requires
        a.len() == b.len(),
        base64url::trimmed(base64url::encoded(a)) == base64url::trimmed(base64url::encoded(b)),
    ensures
        a == b,
{
    let (s, t) = (base64url::encoded(a), base64url::encoded(b));
    base64url::lemma_length(a);
    base64url::lemma_length(b);
    base64url::lemma_trimmed(s);
    base64url::lemma_trimmed(t);
    let n = base64url::trimmed(s).len() as int;
    assert(s =~= t) by {
        assert forall|i: int| 0 <= i < s.len() implies s[i] == t[i] by {
            if i < n {
                assert(s.take(n)[i] == t.take(n)[i]);
            }
        }
    }
    base64url::lemma_round_trip(a);
    base64url::lemma_round_trip(b);
}

/// What a blinding factor is the digest of: the suite's name, a tag, the secret, the
/// credential's name and the attribute's index in eight bytes.
pub proof fn lemma_blinding(secret: Seq<u8>, credential_id: Seq<char>, attribute_index: nat)
    ensures
        attribute_blinding(secret, credential_id, attribute_index) == field::be_value(
            digest::sha256(
                encode_utf8("DataIntegrityGroth16Proof2026::v1.0::BlindingDerivation"@) + secret
                    + (encode_utf8(credential_id) + digest::le_bytes(attribute_index)),
            ),
        ) % field::modulus(),
{
    poseidon::lemma_recipes(
        Seq::empty(),
        secret,
        encode_utf8(credential_id) + digest::le_bytes(attribute_index),
        Seq::empty(),
        0,
    );
}

} // verus!
