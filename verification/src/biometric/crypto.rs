//! The commitment scheme, and proofs of the predicate circuit.
use crate::biometric::error::CredentialError;
use crate::biometric::matrix;
use crate::biometric::matrix::MatrixCircuit;
use crate::biometric::slots;
use crate::biometric::types::{PredicateSlot, MAX_PREDICATES};
use crate::decoding;
use crate::digest;
use crate::disclosure;
use crate::disclosure::NUM_ATTRIBUTES;
use crate::entropy;
use crate::field;
use crate::field::Fr;
use crate::gates;
use crate::gates::{Builder, Matrices, SynthesisError};
use crate::groth16;
use crate::groth16::{KeyPair, Proof};
use crate::hashing;
use crate::opening;
use crate::permutation;
use crate::permutation::PoseidonParams;
use vstd::prelude::*;
use vstd::utf8::*;

verus! {

/// The number of public values: the attributes, the commitment and the window.
pub const PUBLIC_INPUT_SIZE: usize = 19;

pub const FULL_ROUNDS: usize = 8;

pub const PARTIAL_ROUNDS: usize = 56;

pub const TOTAL_ROUNDS: usize = 64;

pub const STATE_WIDTH: usize = 3;

pub const RATE: usize = 2;

/// The longest window of time that is meant to be used.
pub const MAX_WINDOW_SECONDS: u64 = 300;

const DOMAIN_SEP: &'static str = "DataIntegrityGroth16Proof2026::";

const NONCE_TAG: &'static str = "CredentialNonce";

/// The text that every digest of this suite begins with.
pub closed spec fn separator() -> Seq<char> {
    DOMAIN_SEP@
}

/// The parameters of the hash.
pub fn get_poseidon_params() -> (r: PoseidonParams)
    ensures
        r@ == permutation::standard(),
        permutation::well_formed(r@),
{
    PoseidonParams::standard()
}

/// The sponge over any number of inputs.
pub fn poseidon_sponge_hash(inputs: &[Fr]) -> (r: Fr)
    ensures
        r@ == permutation::sponge(permutation::standard(), field::values(inputs@)),
{
    get_poseidon_params().sponge_hash(inputs)
}

/// The hash of field elements under a tag.
pub open spec fn hash_value(inputs: Seq<nat>, tag: Seq<u8>) -> nat {
    hashing::domain_hash(permutation::standard(), hashing::tag_value(separator(), tag), inputs)
}

/// Hashes field elements under a tag.
pub fn poseidon_hash(inputs: &[Fr], domain_tag: &[u8]) -> (r: Fr)
    ensures
        r@ == hash_value(field::values(inputs@), domain_tag@),
{
    let all = hashing::prepend(hashing::tag_element(DOMAIN_SEP, domain_tag), inputs);
    poseidon_sponge_hash(all.as_slice())
}

/// The field element of an attribute's text.
pub open spec fn attribute_value(value: Seq<char>) -> nat {
    hashing::tagged_text_value(separator(), hashing::ATTRIBUTE_HASH_DOMAIN@, value)
}

/// Hashes the text of an attribute.
pub fn hash_attribute(value: &str) -> (r: Fr)
    ensures
        r@ == attribute_value(value@),
{
    hashing::tagged_text_element(DOMAIN_SEP, hashing::ATTRIBUTE_HASH_DOMAIN, value)
}

/// The domain element of commitments.
pub open spec fn commitment_domain() -> nat {
    hashing::tag_value(separator(), encode_utf8(hashing::COMMITMENT_DOMAIN@))
}

/// The domain element of commitments.
pub fn get_commitment_domain() -> (r: Fr)
    ensures
        r@ == commitment_domain(),
{
    hashing::tag_element(DOMAIN_SEP, hashing::COMMITMENT_DOMAIN.as_bytes())
}

/// The commitment to attributes under a blinding factor.
pub open spec fn commitment_value(attrs: Seq<nat>, blinding: nat) -> nat {
    permutation::sponge(
        permutation::standard(),
        disclosure::opening(commitment_domain(), attrs, blinding),
    )
}

/// Commits to attributes.
pub fn create_commitment(attrs: &[Fr; NUM_ATTRIBUTES], blinding: &Fr) -> (r: Fr)
    ensures
        r@ == commitment_value(field::values(attrs@), blinding@),
{
    let inputs = hashing::with_blinding(attrs.as_slice(), blinding);
    assert(seq![commitment_domain()] + field::values(inputs@) =~= disclosure::opening(
        commitment_domain(),
        field::values(attrs@),
        blinding@,
    ));
    poseidon_hash(inputs.as_slice(), hashing::COMMITMENT_DOMAIN.as_bytes())
}

/// The blinding factor of a holder's credential.
pub open spec fn holder_blinding(secret: Seq<u8>, nonce: Seq<u8>) -> nat {
    hashing::blinding_value(separator(), secret, nonce)
}

/// Derives the blinding factor of a credential.
pub fn derive_blinding(holder_secret: &[u8; 32], credential_nonce: &[u8; 32]) -> (r: Fr)
    ensures
        r@ == holder_blinding(holder_secret@, credential_nonce@),
{
    hashing::blinding_element(DOMAIN_SEP, holder_secret, credential_nonce.as_slice())
}

/// A random secret of a holder: 32 bytes, each of which may have any value.
pub fn generate_holder_secret() -> [u8; 32] {
    entropy::random_secret()
}

/// A random nonce of a credential: 32 bytes, each of which may have any value.
pub fn generate_credential_nonce() -> [u8; 32] {
    entropy::random_secret()
}

/// The nonce of a holder's credential.
pub open spec fn nonce_value(credential_id: Seq<char>, secret: Seq<u8>) -> Seq<u8> {
    digest::sha256(encode_utf8("CredentialNonce"@) + encode_utf8(credential_id) + secret)
}

/// Derives the nonce of a credential from its name and the holder's secret.
pub fn derive_nonce(credential_id: &str, holder_secret: &[u8; 32]) -> (r: [u8; 32])
    ensures
        r@ == nonce_value(credential_id@, holder_secret@),
{
    let mut message = digest::concat(NONCE_TAG.as_bytes(), credential_id.as_bytes());
    digest::append(&mut message, holder_secret.as_slice());
    entropy::array_of(&digest::digest_bytes(message.as_slice()))
}

/// The record of the circuit for a mask and slots.
pub open spec fn circuit(mask: Seq<bool>, slots: Seq<PredicateSlot>) -> Seq<gates::Gate> {
    matrix::draw_matrix(
        permutation::standard(),
        Seq::empty(),
        mask,
        slots,
        commitment_domain(),
    )
}

/// Slots that ask for a first attribute of zero, eight times.
pub open spec fn blank_slots(slots: Seq<PredicateSlot>) -> bool {
    &&& slots.len() == 8
    &&& forall|i: int|
        0 <= i < 8 ==> {
            &&& (#[trigger] slots[i]).active
            &&& slots[i].pred_type == 5
            &&& slots[i].attr_index == 0
            &&& slots[i].val1@ == 0
        }
}

/// The circuit that keys are set up for: nothing is shown, and every slot is
/// blank.
pub open spec fn blank_circuit(gates: Seq<gates::Gate>) -> bool {
    forall|mask: Seq<bool>, slots: Seq<PredicateSlot>|
        mask == Seq::new(16, |i: int| false) && blank_slots(slots) ==> gates == #[trigger] circuit(
            mask,
            slots,
        )
}

proof fn lemma_blank_slots(
    g: Seq<gates::Gate>,
    n: nat,
    mask: Seq<bool>,
    a: Seq<PredicateSlot>,
    b: Seq<PredicateSlot>,
    j: nat,
)
    requires
        blank_slots(a),
        blank_slots(b),
        j <= 8,
    ensures
        matrix::draw_slots(g, n, mask, a, j) == matrix::draw_slots(g, n, mask, b, j),
    decreases j,
{
    if j > 0 {
        lemma_blank_slots(g, n, mask, a, b, (j - 1) as nat);
        assert(a[j - 1].active && b[j - 1].active);
    }
}

/// The keys for making and checking proofs.
pub struct TrustedSetup {
    pub keys: KeyPair,
}

impl TrustedSetup {
    /// Whether the keys were set up for the circuit of a mask and slots.
    pub open spec fn is_for(self, mask: Seq<bool>, slots: Seq<PredicateSlot>) -> bool {
        self.keys.set_up_for(circuit(mask, slots))
    }

    /// The constraint system that keys are set up for.
    pub fn circuit_matrices() -> (r: Result<Matrices, CredentialError>)
        ensures
            r matches Ok(m) && exists|blank: Seq<gates::Gate>|
                blank_circuit(blank) && m@ == #[trigger] gates::constraint_matrices(blank),
    {
        let zero = Fr::zero();
        let slot = PredicateSlot {
            active: true,
            pred_type: 5,
            attr_index: 0,
            val1: zero,
            val2: zero,
            inset_values: [zero, zero, zero, zero, zero, zero],
            inset_count: 0,
        };
        let attrs = [zero; NUM_ATTRIBUTES];
        let commitment = create_commitment(&attrs, &zero);
        let blank = MatrixCircuit {
            attributes: [Some(zero); NUM_ATTRIBUTES],
            mask: [false; NUM_ATTRIBUTES],
            blinding: Some(zero),
            expected_commitment: Some(commitment),
            predicates: [slot, slot, slot, slot, slot, slot, slot, slot],
            window_start: Some(0),
            window_expires: Some(1),
            domain_element: get_commitment_domain(),
        };
        let ghost mask = blank.mask@;
        let ghost slots = blank.predicates@;
        match blank.generate_constraints(Builder::for_setup()) {
            Ok(b) => {
                let ghost gates = gates::recorded(b);
                proof {
                    assert(mask =~= Seq::new(16, |i: int| false));
                    assert forall|m: Seq<bool>, s: Seq<PredicateSlot>|
                        m == Seq::new(16, |i: int| false) && blank_slots(s) implies gates
                        == #[trigger] circuit(m, s) by {
                        lemma_blank_slots(
                            matrix::draw_window(
                                opening::draw_opening(
                                    permutation::standard(),
                                    Seq::empty(),
                                    17,
                                    m,
                                    commitment_domain(),
                                ),
                            ),
                            0,
                            m,
                            slots,
                            s,
                            8,
                        );
                    }
                    assert(blank_circuit(gates));
                }
                Ok(b.into_matrices())
            },
            Err(e) => Err(CredentialError::SetupFailed(e.message())),
        }
    }

    /// Takes keys from their compressed encodings.
    pub fn load(proving_key: &[u8], verifying_key: &[u8]) -> (r: Result<
        TrustedSetup,
        CredentialError,
    >)
        ensures
            r is Ok <==> groth16::decoded_proving_key(proving_key@) is Ok
                && groth16::decoded_verifying_key(verifying_key@) is Ok,
            r matches Ok(setup) ==> {
                &&& decoding::gives(
                    groth16::decoded_proving_key(proving_key@),
                    setup.keys.proving_key(),
                )
                &&& decoding::gives(
                    groth16::decoded_verifying_key(verifying_key@),
                    setup.keys.verifying_key(),
                )
            },
            r matches Err(e) ==> {
                let text = match groth16::decoded_proving_key(proving_key@) {
                    Err(text) => text,
                    Ok(_) => groth16::decoded_verifying_key(verifying_key@)->Err_0,
                };
                e matches CredentialError::SerializationError(m) && m@ == text
            },
    {
        match KeyPair::from_bytes(proving_key, verifying_key) {
            Ok(keys) => Ok(TrustedSetup { keys }),
            Err(e) => Err(CredentialError::SerializationError(e)),
        }
    }

    /// The compressed encodings of the proving and the verifying key, from which
    /// the same keys are taken again.
    pub fn save(&self) -> (r: (Vec<u8>, Vec<u8>))
        ensures
            r.0@ == self.keys.proving_key(),
            r.1@ == self.keys.verifying_key(),
            decoding::gives(groth16::decoded_proving_key(r.0@), self.keys.proving_key()),
            decoding::gives(groth16::decoded_verifying_key(r.1@), self.keys.verifying_key()),
    {
        (self.keys.proving_key_bytes(), self.keys.verifying_key_bytes())
    }
}

/// Whether attributes can be proved to open a commitment and to meet slots
/// within a window.
pub open spec fn can_prove(
    attrs: Seq<nat>,
    blinding: nat,
    commitment: nat,
    slots: Seq<PredicateSlot>,
    start: nat,
    end: nat,
) -> bool {
    matrix::provable(
        permutation::standard(),
        attrs,
        slots,
        commitment,
        blinding,
        start,
        end,
        commitment_domain(),
    )
}

/// A proof was made and, with keys for the circuit, it verifies with the public
/// statement.
pub open spec fn proved(
    setup: TrustedSetup,
    attrs: Seq<nat>,
    commitment: nat,
    slots: Seq<PredicateSlot>,
    mask: Seq<bool>,
    start: nat,
    end: nat,
    proof: Seq<u8>,
) -> bool {
    &&& groth16::prover_refusal(setup.keys.proving_key(), circuit(mask, slots)) is None
    &&& decoding::gives(groth16::decoded_proof(proof), proof)
    &&& proof.len() == 128
    &&& setup.is_for(mask, slots) ==> groth16::accepts(
        setup.keys.verifying_key(),
        matrix::public_statement(attrs, mask, commitment, start, end),
        proof,
    )
}

/// Why a proof is refused: the statement cannot be proved, or the keys are of no
/// use for the circuit.
pub open spec fn proof_refused(
    setup: TrustedSetup,
    attrs: Seq<nat>,
    blinding: nat,
    commitment: nat,
    slots: Seq<PredicateSlot>,
    mask: Seq<bool>,
    start: nat,
    end: nat,
    e: CredentialError,
) -> bool {
    let refusal = groth16::prover_refusal(setup.keys.proving_key(), circuit(mask, slots));
    e matches CredentialError::ProofGenerationFailed(m) && if !can_prove(
        attrs,
        blinding,
        commitment,
        slots,
        start,
        end,
    ) {
        m@ == SynthesisError::Unsatisfiable.text()
    } else {
        !setup.is_for(mask, slots) && refusal is Some && m@ == refusal->0.text()
    }
}

/// Proves that attributes open a commitment and meet slots within a window,
/// showing the attributes of the mask. What cannot be proved is refused.
pub fn generate_proof(
    setup: &TrustedSetup,
    attributes: &[Fr; NUM_ATTRIBUTES],
    blinding: Fr,
    commitment: Fr,
    predicates: &[PredicateSlot; MAX_PREDICATES],
    mask: &[bool; NUM_ATTRIBUTES],
    window_start: u32,
    window_expires: u32,
) -> (r: Result<Vec<u8>, CredentialError>)
    requires
        matrix::slots_placed(predicates@),
    ensures
        r matches Err(e) ==> proof_refused(
            *setup,
            field::values(attributes@),
            blinding@,
            commitment@,
            predicates@,
            mask@,
            window_start as nat,
            window_expires as nat,
            e,
        ),
        r is Ok ==> can_prove(
            field::values(attributes@),
            blinding@,
            commitment@,
            predicates@,
            window_start as nat,
            window_expires as nat,
        ),
        r matches Ok(bytes) ==> proved(
            *setup,
            field::values(attributes@),
            commitment@,
            predicates@,
            mask@,
            window_start as nat,
            window_expires as nat,
            bytes@,
        ),
{
    broadcast use field::lemma_fr_bound;

    let ghost attrs = field::values(attributes@);
    let mut known: [Option<Fr>; NUM_ATTRIBUTES] = [None; NUM_ATTRIBUTES];
    for i in 0..NUM_ATTRIBUTES
        invariant
            forall|j: int| 0 <= j < i ==> #[trigger] known@[j] == Some(attributes@[j]),
    {
        known[i] = Some(attributes[i]);
    }
    let circuit = MatrixCircuit {
        attributes: known,
        mask: *mask,
        blinding: Some(blinding),
        expected_commitment: Some(commitment),
        predicates: *predicates,
        window_start: Some(window_start),
        window_expires: Some(window_expires),
        domain_element: get_commitment_domain(),
    };
    assert(circuit.attribute_values() =~= attrs);
    let ghost values = circuit.values();
    let ghost public = matrix::public_statement(
        attrs,
        mask@,
        commitment@,
        window_start as nat,
        window_expires as nat,
    );
    let b = match circuit.generate_constraints(Builder::for_proving()) {
        Ok(b) => b,
        Err(e) => {
            return Err(CredentialError::ProofGenerationFailed(e.message()));
        },
    };
    proof {
        let empty = Seq::<nat>::empty();
        assert(empty + values =~= values);
        assert(empty + public =~= public);
        assert(gates::holds(Seq::<gates::Gate>::empty(), values));
        matrix::lemma_assignment(
            permutation::standard(),
            Seq::empty(),
            empty,
            attrs,
            mask@,
            predicates@,
            commitment@,
            blinding@,
            window_start as nat,
            window_expires as nat,
            commitment_domain(),
        );
    }
    match setup.keys.prove(b) {
        Ok(proof) => {
            Ok(proof.to_bytes())
        },
        Err(e) => Err(CredentialError::ProofGenerationFailed(e.message())),
    }
}

/// Checks a proof against public values.
pub fn verify_proof(
    setup: &TrustedSetup,
    proof_bytes: &[u8],
    public_inputs: &[Fr; PUBLIC_INPUT_SIZE],
) -> (r: Result<bool, CredentialError>)
    ensures
        match groth16::decoded_proof(proof_bytes@) {
            Err(text) => r matches Err(CredentialError::SerializationError(m)) && m@ == text,
            Ok(proof) => match groth16::verdict(
                setup.keys.verifying_key(),
                field::values(public_inputs@),
                proof,
            ) {
                Ok(valid) => r matches Ok(v) && v == valid,
                Err(e) => r matches Err(CredentialError::VerificationFailed(m)) && m@ == e.text(),
            },
        },
{
    let proof = match Proof::from_bytes(proof_bytes) {
        Ok(proof) => proof,
        Err(e) => {
            return Err(CredentialError::SerializationError(e));
        },
    };
    match setup.keys.verify(public_inputs.as_slice(), &proof) {
        Ok(valid) => Ok(valid),
        Err(e) => Err(CredentialError::VerificationFailed(e.message())),
    }
}

/// What the hashes of this suite are digests of: an attribute of its text behind
/// the suite's name and a tag, a blinding factor of the holder's secret and the
/// nonce, and a nonce of the credential's name and the secret. A commitment is the
/// sponge of the tag's element, the attributes in their order and the blinding.
pub proof fn lemma_recipes(
    value: Seq<char>,
    secret: Seq<u8>,
    nonce: Seq<u8>,
    credential_id: Seq<char>,
    attrs: Seq<nat>,
    blinding: nat,
)
    ensures
        attribute_value(value) == field::be_value(
            digest::sha256(encode_utf8("DataIntegrityGroth16Proof2026::AttributeHash"@ + value)),
        ) % field::modulus(),
        holder_blinding(secret, nonce) == field::be_value(
            digest::sha256(
                encode_utf8("DataIntegrityGroth16Proof2026::BlindingDerivation"@) + secret + nonce,
            ),
        ) % field::modulus(),
        nonce_value(credential_id, secret) == digest::sha256(
            encode_utf8("CredentialNonce"@ + credential_id) + secret,
        ),
        commitment_value(attrs, blinding) == permutation::sponge(
            permutation::standard(),
            seq![
                field::be_value(
                    digest::sha256(encode_utf8("DataIntegrityGroth16Proof2026::Commitment"@)),
                ) % field::modulus(),
            ] + attrs + seq![blinding],
        ),
{
    reveal_strlit("DataIntegrityGroth16Proof2026::");
    reveal_strlit("AttributeHash");
    reveal_strlit("BlindingDerivation");
    reveal_strlit("Commitment");
    reveal_strlit("DataIntegrityGroth16Proof2026::AttributeHash");
    reveal_strlit("DataIntegrityGroth16Proof2026::BlindingDerivation");
    reveal_strlit("DataIntegrityGroth16Proof2026::Commitment");
    let name = "DataIntegrityGroth16Proof2026::"@;
    let attribute = "AttributeHash"@;
    assert("DataIntegrityGroth16Proof2026::AttributeHash"@ =~= name + attribute);
    assert("DataIntegrityGroth16Proof2026::BlindingDerivation"@ =~= name + "BlindingDerivation"@);
    assert("DataIntegrityGroth16Proof2026::Commitment"@ =~= name + "Commitment"@);
    hashing::lemma_bytes_of_both(name, attribute);
    hashing::lemma_bytes_of_both(name + attribute, value);
    hashing::lemma_bytes_of_both(name, "BlindingDerivation"@);
    hashing::lemma_bytes_of_both(name, "Commitment"@);
    hashing::lemma_bytes_of_both("CredentialNonce"@, credential_id);
    assert(disclosure::opening(commitment_domain(), attrs, blinding) =~= seq![commitment_domain()]
        + attrs + seq![blinding]);
}

} // verus!
