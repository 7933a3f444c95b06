//! The commitment scheme, the disclosure circuit and its proofs.
use crate::decoding;
use crate::digest;
use crate::disclosure;
use crate::entropy;
use crate::field;
use crate::field::Fr;
use crate::gates;
use crate::gates::{Builder, Matrices, SynthesisError};
use crate::groth16;
use crate::groth16::{KeyPair, Proof};
use crate::hashing;
use crate::permutation;
use crate::text;
use crate::w3c::error::CredentialError;
use vstd::arithmetic::div_mod::*;
use vstd::prelude::*;
use vstd::utf8::*;

pub use crate::disclosure::{SelectiveDisclosureCircuit, NUM_ATTRIBUTES};
pub use crate::permutation::PoseidonParams;

verus! {

pub const FULL_ROUNDS: usize = 8;

pub const PARTIAL_ROUNDS: usize = 56;

pub const TOTAL_ROUNDS: usize = 64;

pub const STATE_WIDTH: usize = 3;

pub const RATE: usize = 2;

const DOMAIN_SEP: &'static str = "DataIntegrityGroth16Proof2026::v1.0::";

/// The text that every digest of this suite begins with.
pub closed spec fn separator() -> Seq<char> {
    DOMAIN_SEP@
}

/// The parameters of the hash.
pub fn get_poseidon_params() -> (r: PoseidonParams)
    ensures
        r@ == permutation::standard(),
        permutation::well_formed(r@),
{
    PoseidonParams::standard()
}

/// The hash of field elements under a tag.
pub open spec fn hash_value(inputs: Seq<nat>, tag: Seq<u8>) -> nat {
    hashing::domain_hash(permutation::standard(), hashing::tag_value(separator(), tag), inputs)
}

/// Hashes field elements under a tag.
pub fn poseidon_hash(inputs: &[Fr], domain_tag: &[u8]) -> (r: Fr)
    ensures
        r@ == hash_value(field::values(inputs@), domain_tag@),
{
    let domain = hashing::tag_element(DOMAIN_SEP, domain_tag);
    hashing::domain_hash_element(&get_poseidon_params(), domain, inputs)
}

/// The field element of an attribute's text.
pub open spec fn attribute_value(value: Seq<char>) -> nat {
    hashing::tagged_text_value(separator(), hashing::ATTRIBUTE_HASH_DOMAIN@, value)
}

/// Hashes the text of an attribute.
pub fn hash_attribute(value: &str) -> (r: Fr)
    ensures
        r@ == attribute_value(value@),
{
    hashing::tagged_text_element(DOMAIN_SEP, hashing::ATTRIBUTE_HASH_DOMAIN, value)
}

/// The domain element of commitments.
pub open spec fn commitment_domain() -> nat {
    hashing::tag_value(separator(), encode_utf8(hashing::COMMITMENT_DOMAIN@))
}

/// The domain element of commitments.
pub fn get_commitment_domain() -> (r: Fr)
    ensures
        r@ == commitment_domain(),
{
    hashing::tag_element(DOMAIN_SEP, hashing::COMMITMENT_DOMAIN.as_bytes())
}

/// The commitment to attributes under a blinding factor.
pub open spec fn commitment_value(attrs: Seq<nat>, blinding: nat) -> nat {
    permutation::sponge(
        permutation::standard(),
        disclosure::opening(commitment_domain(), attrs, blinding),
    )
}

/// Commits to attributes.
pub fn create_commitment(attrs: &[Fr; NUM_ATTRIBUTES], blinding: &Fr) -> (r: Fr)
    ensures
        r@ == commitment_value(field::values(attrs@), blinding@),
{
    let inputs = hashing::with_blinding(attrs.as_slice(), blinding);
    assert(seq![commitment_domain()] + field::values(inputs@) =~= disclosure::opening(
        commitment_domain(),
        field::values(attrs@),
        blinding@,
    ));
    poseidon_hash(inputs.as_slice(), hashing::COMMITMENT_DOMAIN.as_bytes())
}

/// The blinding factor of a credential.
pub open spec fn credential_blinding(secret: Seq<u8>, credential_id: Seq<char>) -> nat {
    hashing::blinding_value(separator(), secret, encode_utf8(credential_id))
}

/// Derives the blinding factor of a credential from a secret.
pub fn derive_blinding(master_secret: &[u8; 32], credential_id: &str) -> (r: Fr)
    ensures
        r@ == credential_blinding(master_secret@, credential_id@),
{
    hashing::blinding_element(DOMAIN_SEP, master_secret, credential_id.as_bytes())
}

/// A random master secret: 32 bytes, each of which may have any value.
pub fn generate_master_secret() -> [u8; 32] {
    entropy::random_secret()
}

/// What to show of the attributes, and which of them is an age that must reach
/// a threshold.
#[derive(Clone, Copy)]
pub struct DisclosureConfig {
    pub mask: [bool; NUM_ATTRIBUTES],
    pub age_index: Option<usize>,
    pub age_threshold: Option<u64>,
}

impl Default for DisclosureConfig {
    fn default() -> (r: DisclosureConfig)
        ensures
            forall|i: int| 0 <= i < 16 ==> r.mask@[i] == false,
            r.age_index is None,
            r.age_threshold is None,
    {
        DisclosureConfig { mask: [false; NUM_ATTRIBUTES], age_index: None, age_threshold: None }
    }
}

impl DisclosureConfig {
    /// The place of the age; the first attribute when none is named.
    pub open spec fn index(self) -> nat {
        match self.age_index {
            Some(i) => i as nat,
            None => 0,
        }
    }

    fn index_or_first(&self) -> (r: usize)
        ensures
            r == self.index(),
    {
        match self.age_index {
            Some(i) => i,
            None => 0,
        }
    }

    /// The record of the circuit.
    pub open spec fn circuit(self) -> Seq<gates::Gate> {
        disclosure::draw_disclosure(
            permutation::standard(),
            Seq::empty(),
            self.mask@,
            self.index(),
            commitment_domain(),
        )
    }
}

/// The error of keys that do not decode: that of the proving key, or else that
/// of the verifying key.
pub open spec fn undecoded(
    proving_key: Seq<u8>,
    verifying_key: Seq<u8>,
    e: CredentialError,
) -> bool {
    let text = match groth16::decoded_proving_key(proving_key) {
        Err(text) => text,
        Ok(_) => groth16::decoded_verifying_key(verifying_key)->Err_0,
    };
    e matches CredentialError::SerializationError(m) && m@ == text
}

/// The keys for making and checking proofs.
pub struct TrustedSetup {
    pub keys: KeyPair,
}

impl TrustedSetup {
    /// The constraint system that keys for a configuration are set up for.
    pub fn circuit_matrices(config: &DisclosureConfig) -> (r: Result<Matrices, CredentialError>)
        ensures
            r matches Ok(m) && m@ == gates::constraint_matrices(config.circuit()),
    {
        let blank = SelectiveDisclosureCircuit {
            attributes: [None; NUM_ATTRIBUTES],
            mask: config.mask,
            blinding: None,
            expected_commitment: None,
            age_threshold: None,
            age_index: config.index_or_first(),
            domain_element: get_commitment_domain(),
        };
        match blank.generate_constraints(Builder::for_setup()) {
            Ok(b) => Ok(b.into_matrices()),
            Err(e) => Err(CredentialError::SetupFailed(e.message())),
        }
    }

    /// Takes keys from their compressed encodings.
    pub fn load(proving_key: &[u8], verifying_key: &[u8]) -> (r: Result<
        TrustedSetup,
        CredentialError,
    >)
        ensures
            r is Ok <==> groth16::decoded_proving_key(proving_key@) is Ok
                && groth16::decoded_verifying_key(verifying_key@) is Ok,
            r matches Ok(setup) ==> {
                &&& decoding::gives(
                    groth16::decoded_proving_key(proving_key@),
                    setup.keys.proving_key(),
                )
                &&& decoding::gives(
                    groth16::decoded_verifying_key(verifying_key@),
                    setup.keys.verifying_key(),
                )
            },
            r matches Err(e) ==> undecoded(proving_key@, verifying_key@, e),
    {
        match KeyPair::from_bytes(proving_key, verifying_key) {
            Ok(keys) => Ok(TrustedSetup { keys }),
            Err(e) => Err(CredentialError::SerializationError(e)),
        }
    }

    /// The compressed encodings of the proving and the verifying key, from which
    /// the same keys are taken again.
    pub fn save(&self) -> (r: (Vec<u8>, Vec<u8>))
        ensures
            r.0@ == self.keys.proving_key(),
            r.1@ == self.keys.verifying_key(),
            decoding::gives(groth16::decoded_proving_key(r.0@), self.keys.proving_key()),
            decoding::gives(groth16::decoded_verifying_key(r.1@), self.keys.verifying_key()),
    {
        (self.keys.proving_key_bytes(), self.keys.verifying_key_bytes())
    }

    /// Whether the keys were set up for a configuration.
    pub open spec fn is_for(self, config: DisclosureConfig) -> bool {
        self.keys.set_up_for(config.circuit())
    }
}

/// Whether a configuration names an age among the attributes that is below its
/// threshold.
pub open spec fn underage(config: DisclosureConfig, attrs: Seq<nat>) -> bool {
    match (config.age_index, config.age_threshold) {
        (Some(i), Some(t)) => i < 16 && attrs[i as int] < t,
        _ => false,
    }
}

/// Whether attributes can be proved to open a commitment and to reach the
/// threshold of a configuration.
pub open spec fn can_prove(
    config: DisclosureConfig,
    attrs: Seq<nat>,
    blinding: nat,
    commitment: nat,
) -> bool {
    config.age_threshold matches Some(t) && disclosure::provable(
        permutation::standard(),
        attrs,
        blinding,
        commitment,
        t as nat,
        config.index(),
        commitment_domain(),
    )
}

/// What an unmet constraint is reported as.
pub const UNMET: &'static str = "Constraint not satisfied (this usually means age < threshold)";

/// Why a proof is refused: an age below the threshold comes first, then a
/// configuration without a threshold, then a commitment that does not open or an
/// age too far above the threshold, and last keys that are of no use for the
/// circuit. A proving key without queries is refused as an unmet constraint is.
pub open spec fn refused_with(
    setup: TrustedSetup,
    config: DisclosureConfig,
    attrs: Seq<nat>,
    blinding: nat,
    commitment: nat,
    e: CredentialError,
) -> bool {
    if underage(config, attrs) {
        &&& e matches CredentialError::ConstraintUnsatisfied(m)
        &&& m@ == "Age "@ + field::field_text(attrs[config.index() as int])
            + " is less than threshold "@ + text::decimal(config.age_threshold->0 as nat)
    } else if config.age_threshold is None {
        &&& e matches CredentialError::ProofGenerationFailed(m)
        &&& m@ == SynthesisError::AssignmentMissing.text()
    } else if !can_prove(config, attrs, blinding, commitment) {
        &&& e matches CredentialError::ConstraintUnsatisfied(m)
        &&& m@ == UNMET@
    } else {
        let refusal = groth16::prover_refusal(setup.keys.proving_key(), config.circuit());
        &&& !setup.is_for(config)
        &&& refusal is Some
        &&& if refusal->0 == SynthesisError::MalformedVerifyingKey {
            &&& e matches CredentialError::ConstraintUnsatisfied(m)
            &&& m@ == UNMET@
        } else {
            &&& e matches CredentialError::ProofGenerationFailed(m)
            &&& m@ == refusal->0.text()
        }
    }
}

/// Whether a proof is accepted with the public statement of the attributes.
pub open spec fn statement_accepted(
    setup: TrustedSetup,
    config: DisclosureConfig,
    attrs: Seq<nat>,
    commitment: nat,
    proof: Seq<u8>,
) -> bool {
    groth16::accepts(
        setup.keys.verifying_key(),
        disclosure::public_statement(
            attrs,
            config.mask@,
            commitment,
            config.age_threshold->0 as nat,
        ),
        proof,
    )
}

/// Proves that attributes open a commitment and that the age reaches the
/// threshold, showing the attributes of the mask. With keys that were set up for
/// the configuration the proof verifies.
pub fn generate_proof(
    setup: &TrustedSetup,
    attributes: &[Fr; NUM_ATTRIBUTES],
    blinding: Fr,
    commitment: Fr,
    config: &DisclosureConfig,
) -> (r: Result<Proof, CredentialError>)
    ensures
        r matches Err(e) ==> refused_with(
            *setup,
            *config,
            field::values(attributes@),
            blinding@,
            commitment@,
            e,
        ),
        r matches Ok(proof) ==> {
            &&& can_prove(*config, field::values(attributes@), blinding@, commitment@)
            &&& groth16::prover_refusal(setup.keys.proving_key(), config.circuit()) is None
            &&& proof@.len() == 128
            &&& setup.is_for(*config) ==> statement_accepted(
                *setup,
                *config,
                field::values(attributes@),
                commitment@,
                proof@,
            )
        },
{
    broadcast use field::lemma_fr_bound;

    let ghost attrs = field::values(attributes@);
    if let (Some(age_idx), Some(threshold)) = (config.age_index, config.age_threshold) {
        if age_idx < NUM_ATTRIBUTES {
            let age = attributes[age_idx];
            if age.less_than(&Fr::from_u64(threshold)) {
                let mut message = "Age ".to_string();
                message.push_str(age.to_text().as_str());
                message.push_str(" is less than threshold ");
                message.push_str(text::decimal_text(threshold).as_str());
                return Err(CredentialError::ConstraintUnsatisfied(message));
            }
        }
    }
    let age_threshold = match config.age_threshold {
        Some(t) => Some(Fr::from_u64(t)),
        None => None,
    };
    let mut known: [Option<Fr>; NUM_ATTRIBUTES] = [None; NUM_ATTRIBUTES];
    for i in 0..NUM_ATTRIBUTES
        invariant
            forall|j: int| 0 <= j < i ==> #[trigger] known@[j] == Some(attributes@[j]),
    {
        known[i] = Some(attributes[i]);
    }
    let circuit = SelectiveDisclosureCircuit {
        attributes: known,
        mask: config.mask,
        blinding: Some(blinding),
        expected_commitment: Some(commitment),
        age_threshold,
        age_index: config.index_or_first(),
        domain_element: get_commitment_domain(),
    };
    assert(circuit.attribute_values() =~= attrs);
    let ghost empty = Seq::<nat>::empty();
    let b = match circuit.generate_constraints(Builder::for_proving()) {
        Ok(b) => b,
        Err(e) => {
            return Err(CredentialError::ProofGenerationFailed(e.message()));
        },
    };
    proof {
        disclosure::lemma_assignment(
            permutation::standard(),
            Seq::empty(),
            empty,
            attrs,
            config.mask@,
            commitment@,
            config.age_threshold->0 as nat,
            blinding@,
            config.index(),
            commitment_domain(),
        );
        assert(empty + circuit.values() =~= circuit.values());
        assert(gates::holds(Seq::<gates::Gate>::empty(), circuit.values()));
        assert(Seq::<nat>::empty() + disclosure::public_statement(
            attrs,
            config.mask@,
            commitment@,
            config.age_threshold->0 as nat,
        ) =~= disclosure::public_statement(
            attrs,
            config.mask@,
            commitment@,
            config.age_threshold->0 as nat,
        ));
    }
    if b.is_satisfied() != Some(true) {
        return Err(CredentialError::ConstraintUnsatisfied(UNMET.to_string()));
    }
    match setup.keys.prove(b) {
        Ok(proof) => Ok(proof),
        Err(SynthesisError::MalformedVerifyingKey) => Err(
            CredentialError::ConstraintUnsatisfied(UNMET.to_string()),
        ),
        Err(e) => Err(CredentialError::ProofGenerationFailed(e.message())),
    }
}

/// The public values that a verifier checks a proof against: what it takes the
/// attributes to be, the commitment and the threshold, with zero for none.
pub open spec fn verifier_inputs(
    shown: Seq<nat>,
    commitment: nat,
    age_threshold: Option<u64>,
) -> Seq<nat> {
    shown.push(commitment).push(
        match age_threshold {
            Some(t) => t as nat,
            None => 0,
        },
    )
}

/// Attributes that are known or not, with zero for those that are not.
pub open spec fn known_values(revealed: Seq<Option<Fr>>) -> Seq<nat> {
    Seq::new(revealed.len(), |i: int| disclosure::value_or_zero(revealed[i]))
}

/// Checks a proof.
pub fn verify_proof(
    setup: &TrustedSetup,
    proof: &Proof,
    revealed_attributes: &[Option<Fr>; NUM_ATTRIBUTES],
    commitment: Fr,
    age_threshold: Option<u64>,
) -> (r: Result<bool, CredentialError>)
    ensures
        match groth16::verdict(
            setup.keys.verifying_key(),
            verifier_inputs(known_values(revealed_attributes@), commitment@, age_threshold),
            proof@,
        ) {
            Ok(valid) => r matches Ok(v) && v == valid,
            Err(e) => r matches Err(CredentialError::VerificationFailed(m)) && m@ == e.text(),
        },
{
    let mut public_inputs: Vec<Fr> = Vec::new();
    for i in 0..NUM_ATTRIBUTES
        invariant
            field::values(public_inputs@) == Seq::new(
                i as nat,
                |j: int| disclosure::value_or_zero(revealed_attributes@[j]),
            ),
    {
        let ghost before = public_inputs@;
        match revealed_attributes[i] {
            Some(v) => public_inputs.push(v),
            None => public_inputs.push(Fr::zero()),
        }
        proof {
            let v = disclosure::value_or_zero(revealed_attributes@[i as int]);
            assert(field::values(public_inputs@) =~= field::values(before).push(v));
            assert(Seq::new(
                (i + 1) as nat,
                |j: int| disclosure::value_or_zero(revealed_attributes@[j]),
            ) =~= Seq::new(
                i as nat,
                |j: int| disclosure::value_or_zero(revealed_attributes@[j]),
            ).push(v));
        }
    }
    public_inputs.push(commitment);
    match age_threshold {
        Some(t) => public_inputs.push(Fr::from_u64(t)),
        None => public_inputs.push(Fr::zero()),
    }
    assert(field::values(public_inputs@) =~= verifier_inputs(
        known_values(revealed_attributes@),
        commitment@,
        age_threshold,
    ));
    match setup.keys.verify(public_inputs.as_slice(), proof) {
        Ok(valid) => Ok(valid),
        Err(e) => Err(CredentialError::VerificationFailed(e.message())),
    }
}

/// A verifier that takes the shown attributes for what they are, and the hidden
/// ones for zero, accepts exactly what the prover's public statement is accepted
/// with.
pub proof fn lemma_verifier_agrees(
    setup: TrustedSetup,
    config: DisclosureConfig,
    attrs: Seq<nat>,
    commitment: nat,
    proof: Seq<u8>,
)
    requires
        attrs.len() == 16,
        config.age_threshold is Some,
    ensures
        statement_accepted(setup, config, attrs, commitment, proof) == groth16::accepts(
            setup.keys.verifying_key(),
            verifier_inputs(
                disclosure::shown_values(attrs, config.mask@, 16),
                commitment,
                config.age_threshold,
            ),
            proof,
        ),
{
}

/// What an accepted statement means: values for the hidden variables that meet
/// the circuit with these public values hold attributes that open the
/// commitment, show what the mask shows, and of which the age is at least the
/// threshold.
pub proof fn lemma_statement_sound(config: DisclosureConfig, values: Seq<nat>)
    requires
        values.len() == disclosure::variable_count(config.mask@, config.index()),
        disclosure::all_reduced(values),
        gates::holds(config.circuit(), values),
    ensures
        ({
            let attrs = Seq::new(
                16,
                |i: int| disclosure::attribute_at(config.mask@, values, 0, i as nat),
            );
            let public = gates::public_values(config.circuit(), values);
            let blinding = values[(18 + disclosure::hidden_before(config.mask@, 16)) as int];
            &&& public.len() == 18
            &&& commitment_value(attrs, blinding) == public[16]
            &&& forall|i: int| 0 <= i < 16 && config.mask@[i] ==> #[trigger] attrs[i] == public[i]
            &&& config.index() < 16 ==> field::fsub(attrs[config.index() as int], public[17])
                < crate::range::width_bound()
        }),
{
    let none = Seq::<gates::Gate>::empty();
    disclosure::lemma_disclosure(
        permutation::standard(),
        none,
        config.mask@,
        config.index(),
        commitment_domain(),
        values,
    );
    let attrs = Seq::new(
        16,
        |i: int| disclosure::attribute_at(config.mask@, values, 0, i as nat),
    );
    let public = gates::public_values(config.circuit(), values);
    assert(public =~= values.subrange(0, 18));
    let blinding = values[(18 + disclosure::hidden_before(config.mask@, 16)) as int];
    assert(disclosure::opening_at(config.mask@, commitment_domain(), values, 0)
        =~= disclosure::opening(commitment_domain(), attrs, blinding));
    if config.index() < 16 {
        let delta = values[(19 + disclosure::hidden_before(config.mask@, 16)) as int];
        let t = public[17];
        let p = field::modulus() as int;
        lemma_sub_mod_noop((t + delta) as int, t as int, p);
        lemma_sub_mod_noop((t + delta) as int % p, t as int, p);
        lemma_mod_twice((t + delta) as int, p);
        lemma_small_mod(delta, field::modulus());
    }
}

/// The compressed encoding of a proof, in 128 bytes. It decodes to the same proof.
pub fn proof_to_bytes(proof: &Proof) -> (r: Result<Vec<u8>, CredentialError>)
    ensures
        r matches Ok(bytes) && bytes@ == proof@ && bytes@.len() == 128 && decoding::gives(
            groth16::decoded_proof(bytes@),
            proof@,
        ),
{
    Ok(proof.to_bytes())
}

/// Decodes a compressed proof.
pub fn proof_from_bytes(bytes: &[u8]) -> (r: Result<Proof, CredentialError>)
    ensures
        match groth16::decoded_proof(bytes@) {
            Ok(encoded) => r matches Ok(proof) && proof@ == encoded && encoded.len() == 128,
            Err(text) => r matches Err(CredentialError::SerializationError(m)) && m@ == text,
        },
{
    match Proof::from_bytes(bytes) {
        Ok(proof) => Ok(proof),
        Err(e) => Err(CredentialError::SerializationError(e)),
    }
}

/// The decimal text of a field element.
pub fn fr_to_string(value: &Fr) -> (r: String)
    ensures
        r@ == field::field_text(value@),
{
    value.to_text()
}

/// Reads a field element from decimal text.
pub fn fr_from_string(s: &str) -> (r: Result<Fr, CredentialError>)
    ensures
        match field::field_of_text(s@) {
            Some(v) => r matches Ok(x) && x@ == v,
            None => r matches Err(CredentialError::SerializationError(m)) && m@
                == "Invalid Fr string"@,
        },
{
    match Fr::from_text(s) {
        Some(x) => Ok(x),
        None => Err(CredentialError::SerializationError("Invalid Fr string".to_string())),
    }
}

/// What the hashes of this suite are digests of: an attribute of its text behind
/// the suite's name and a tag, and a blinding factor of the secret and the
/// credential's name. A commitment is the sponge of the tag's element, the
/// attributes in their order and the blinding.
pub proof fn lemma_recipes(
    value: Seq<char>,
    secret: Seq<u8>,
    credential_id: Seq<char>,
    attrs: Seq<nat>,
    blinding: nat,
    inputs: Seq<nat>,
    tag: Seq<u8>,
)
    ensures
        attribute_value(value) == field::be_value(
            digest::sha256(encode_utf8("DataIntegrityGroth16Proof2026::v1.0::AttributeHash"@ + value)),
        ) % field::modulus(),
        credential_blinding(secret, credential_id) == field::be_value(
            digest::sha256(
                encode_utf8("DataIntegrityGroth16Proof2026::v1.0::BlindingDerivation"@) + secret
                    + encode_utf8(credential_id),
            ),
        ) % field::modulus(),
        commitment_value(attrs, blinding) == permutation::sponge(
            permutation::standard(),
            seq![
                field::be_value(digest::sha256(encode_utf8("DataIntegrityGroth16Proof2026::v1.0::Commitment"@)))
                    % field::modulus(),
            ] + attrs + seq![blinding],
        ),
        hash_value(inputs, tag) == permutation::sponge(
            permutation::standard(),
            seq![
                field::be_value(digest::sha256(encode_utf8("DataIntegrityGroth16Proof2026::v1.0::"@) + tag))
                    % field::modulus(),
            ] + inputs,
        ),
{
    reveal_strlit("DataIntegrityGroth16Proof2026::v1.0::");
    reveal_strlit("AttributeHash");
    reveal_strlit("BlindingDerivation");
    reveal_strlit("Commitment");
    reveal_strlit("DataIntegrityGroth16Proof2026::v1.0::AttributeHash");
    reveal_strlit("DataIntegrityGroth16Proof2026::v1.0::BlindingDerivation");
    reveal_strlit("DataIntegrityGroth16Proof2026::v1.0::Commitment");
    let name = "DataIntegrityGroth16Proof2026::v1.0::"@;
    let attribute = "AttributeHash"@;
    assert("DataIntegrityGroth16Proof2026::v1.0::AttributeHash"@ =~= name + attribute);
    assert("DataIntegrityGroth16Proof2026::v1.0::BlindingDerivation"@ =~= name + "BlindingDerivation"@);
    assert("DataIntegrityGroth16Proof2026::v1.0::Commitment"@ =~= name + "Commitment"@);
    hashing::lemma_bytes_of_both(name, attribute);
    hashing::lemma_bytes_of_both(name + attribute, value);
    hashing::lemma_bytes_of_both(name, "BlindingDerivation"@);
    hashing::lemma_bytes_of_both(name, "Commitment"@);
    assert(disclosure::opening(commitment_domain(), attrs, blinding) =~= seq![commitment_domain()] + attrs
        + seq![blinding]);
}

} // verus!
