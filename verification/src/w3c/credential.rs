//! Building and verifying credentials.
use crate::base64url;
use crate::decoding;
use crate::disclosure;
use crate::entropy;
use crate::field;
use crate::field::Fr;
use crate::groth16;
use crate::permutation;
use crate::text;
use crate::w3c::error::CredentialError;
use crate::w3c::primitives;
use crate::w3c::primitives::{DisclosureConfig, TrustedSetup, NUM_ATTRIBUTES};
use vstd::prelude::*;
use vstd::utf8::*;

verus! {

/// The subject of a credential.
#[derive(Debug, Clone)]
pub struct CredentialSubject {
    pub id: String,
    pub commitment: String,
    pub revealed_attributes: Vec<String>,
}

/// The proof of a credential.
#[derive(Debug, Clone)]
pub struct CredentialProof {
    pub proof_type: String,
    pub cryptosuite: String,
    pub created: String,
    pub verification_method: String,
    pub proof_purpose: String,
    pub proof_value: String,
    pub domain: String,
}

/// A credential.
#[derive(Debug, Clone)]
pub struct W3CCredential {
    pub context: Vec<String>,
    pub id: String,
    pub credential_type: Vec<String>,
    pub issuer: String,
    pub issuance_date: String,
    pub credential_subject: CredentialSubject,
    pub proof: CredentialProof,
}

/// An attribute that was added to a credential.
#[derive(Debug, Clone)]
pub struct AttributeInfo {
    pub index: usize,
    pub name: String,
    pub value: String,
    pub is_age: bool,
}

/// An attribute in a draft.
pub struct Info {
    pub index: nat,
    pub name: Seq<char>,
    pub value: Seq<char>,
    pub is_age: bool,
}

/// What a builder has been told.
pub struct Draft {
    pub id: Seq<char>,
    pub subject: Seq<char>,
    pub issuer: Seq<char>,
    pub domain: Seq<char>,
    pub attributes: Seq<Option<Seq<char>>>,
    pub infos: Seq<Info>,
    pub revealed: Seq<Seq<char>>,
    pub config: DisclosureConfig,
    pub secret: Option<Seq<u8>>,
}

/// Builds a credential step by step.
pub struct CredentialBuilder {
    credential_id: String,
    subject_id: String,
    issuer: String,
    domain: String,
    attributes: [Option<String>; NUM_ATTRIBUTES],
    attribute_infos: Vec<AttributeInfo>,
    revealed: Vec<String>,
    config: DisclosureConfig,
    master_secret: Option<[u8; 32]>,
}

pub open spec fn info_view(info: AttributeInfo) -> Info {
    Info { index: info.index as nat, name: info.name@, value: info.value@, is_age: info.is_age }
}

pub open spec fn info_views(infos: Seq<AttributeInfo>) -> Seq<Info> {
    Seq::new(infos.len(), |i: int| info_view(infos[i]))
}

pub open spec fn text_options(v: Seq<Option<String>>) -> Seq<Option<Seq<char>>> {
    Seq::new(
        v.len(),
        |i: int|
            match v[i] {
                Some(s) => Some(s@),
                None => None,
            },
    )
}

impl View for CredentialBuilder {
    type V = Draft;

    closed spec fn view(&self) -> Draft {
        Draft {
            id: self.credential_id@,
            subject: self.subject_id@,
            issuer: self.issuer@,
            domain: self.domain@,
            attributes: text_options(self.attributes@),
            infos: info_views(self.attribute_infos@),
            revealed: text::texts(self.revealed@),
            config: self.config,
            secret: match self.master_secret {
                Some(s) => Some(s@),
                None => None,
            },
        }
    }
}

/// The characters of a random identifier: its bytes in hexadecimal, in groups.
pub open spec fn uuid_text(bytes: Seq<u8>) -> Seq<char> {
    text::hex(bytes.subrange(0, 4)) + "-"@ + text::hex(bytes.subrange(4, 6)) + "-"@ + text::hex(
        bytes.subrange(6, 8),
    ) + "-"@ + text::hex(bytes.subrange(8, 10)) + "-"@ + text::hex(bytes.subrange(10, 16))
}

/// Writes an identifier of sixteen bytes.
pub fn uuid_of(bytes: &Vec<u8>) -> (r: String)
    requires
        bytes@.len() == 16,
    ensures
        r@ == uuid_text(bytes@),
{
    let mut out = text::hex_text(vstd::slice::slice_subrange(bytes.as_slice(), 0, 4));
    out.push_str("-");
    out.push_str(text::hex_text(vstd::slice::slice_subrange(bytes.as_slice(), 4, 6)).as_str());
    out.push_str("-");
    out.push_str(text::hex_text(vstd::slice::slice_subrange(bytes.as_slice(), 6, 8)).as_str());
    out.push_str("-");
    out.push_str(text::hex_text(vstd::slice::slice_subrange(bytes.as_slice(), 8, 10)).as_str());
    out.push_str("-");
    out.push_str(text::hex_text(vstd::slice::slice_subrange(bytes.as_slice(), 10, 16)).as_str());
    out
}

/// A random identifier.
pub fn uuid_simple() -> (r: String)
    ensures
        exists|bytes: Seq<u8>| bytes.len() == 16 && r@ == #[trigger] uuid_text(bytes),
{
    let bytes = entropy::random_bytes(16);
    uuid_of(&bytes)
}

/// The time that credentials are dated.
pub fn current_timestamp() -> (r: String)
    ensures
        r@ == "2026-05-21T00:00:00Z"@,
{
    "2026-05-21T00:00:00Z".to_string()
}

/// The draft of a new builder with an identifier.
pub open spec fn new_draft(d: Draft, id: Seq<char>) -> bool {
    &&& d.id == id
    &&& d.subject == ""@
    &&& d.issuer == "did:example:government"@
    &&& d.domain == "https://verifier.example"@
    &&& d.attributes == Seq::new(16, |i: int| None::<Seq<char>>)
    &&& d.infos == Seq::<Info>::empty()
    &&& d.revealed == Seq::<Seq<char>>::empty()
    &&& forall|i: int| 0 <= i < 16 ==> d.config.mask@[i] == false
    &&& d.config.age_index is None
    &&& d.config.age_threshold is None
    &&& d.secret is None
}

impl CredentialBuilder {
    #[verifier::type_invariant]
    spec fn in_range(self) -> bool {
        forall|i: int|
            0 <= i < self.attribute_infos@.len() ==> (#[trigger] self.attribute_infos@[i]).index
                < 16
    }

    /// A builder with a random identifier.
    pub fn new() -> (r: CredentialBuilder)
        ensures
            exists|bytes: Seq<u8>|
                bytes.len() == 16 && new_draft(r@, "urn:uuid:"@ + #[trigger] uuid_text(bytes)),
            r@.subject.len() == 0,
            r@.issuer == "did:example:government"@,
            r@.domain == "https://verifier.example"@,
            r@.attributes.len() == 16,
            forall|i: int| 0 <= i < 16 ==> (#[trigger] r@.attributes[i]) is None,
            r@.infos.len() == 0,
            r@.revealed.len() == 0,
            forall|i: int| 0 <= i < 16 ==> !#[trigger] r@.config.mask@[i],
            r@.config.age_index is None,
            r@.config.age_threshold is None,
            r@.secret is None,
    {
        proof {
            reveal_strlit("");
        }
        let mut id = "urn:uuid:".to_string();
        let uuid = uuid_simple();
        id.push_str(uuid.as_str());
        let r = CredentialBuilder {
            credential_id: id,
            subject_id: "".to_string(),
            issuer: "did:example:government".to_string(),
            domain: "https://verifier.example".to_string(),
            attributes: [
                None,
                None,
                None,
                None,
                None,
                None,
                None,
                None,
                None,
                None,
                None,
                None,
                None,
                None,
                None,
                None,
            ],
            attribute_infos: Vec::new(),
            revealed: Vec::new(),
            config: DisclosureConfig::default(),
            master_secret: None,
        };
        proof {
            let bytes = choose|bytes: Seq<u8>|
                bytes.len() == 16 && uuid@ == #[trigger] uuid_text(bytes);
            assert(r@.attributes =~= Seq::new(16, |i: int| None::<Seq<char>>));
            assert(r@.infos =~= Seq::<Info>::empty());
            assert(r@.revealed =~= Seq::<Seq<char>>::empty());
            assert(new_draft(r@, "urn:uuid:"@ + uuid_text(bytes)));
        }
        r
    }

    /// Sets the identifier.
    pub fn id(self, id: &str) -> (r: CredentialBuilder)
        ensures
            r@ == (Draft { id: id@, ..self@ }),
    {
        proof {
            use_type_invariant(&self);
        }
        CredentialBuilder { credential_id: id.to_string(), ..self }
    }

    /// Sets the subject.
    pub fn subject(self, id: &str) -> (r: CredentialBuilder)
        ensures
            r@ == (Draft { subject: id@, ..self@ }),
    {
        proof {
            use_type_invariant(&self);
        }
        CredentialBuilder { subject_id: id.to_string(), ..self }
    }

    /// Sets the issuer.
    pub fn issuer(self, issuer: &str) -> (r: CredentialBuilder)
        ensures
            r@ == (Draft { issuer: issuer@, ..self@ }),
    {
        proof {
            use_type_invariant(&self);
        }
        CredentialBuilder { issuer: issuer.to_string(), ..self }
    }

    /// Sets the domain.
    pub fn domain(self, domain: &str) -> (r: CredentialBuilder)
        ensures
            r@ == (Draft { domain: domain@, ..self@ }),
    {
        proof {
            use_type_invariant(&self);
        }
        CredentialBuilder { domain: domain.to_string(), ..self }
    }
}

impl CredentialBuilder {
    /// Adds an attribute at a place; places beyond the last are ignored.
    pub fn add_attribute(self, index: usize, name: &str, value: &str) -> (r: CredentialBuilder)
        ensures
            r@ == if index < 16 {
                Draft {
                    attributes: self@.attributes.update(index as int, Some(value@)),
                    infos: self@.infos.push(
                        Info { index: index as nat, name: name@, value: value@, is_age: false },
                    ),
                    ..self@
                }
            } else {
                self@
            },
    {
        proof {
            use_type_invariant(&self);
        }
        if index >= NUM_ATTRIBUTES {
            return self;
        }
        let mut attributes = self.attributes;
        let mut infos = self.attribute_infos;
        let ghost old_infos = infos@;
        let ghost old_attributes = attributes@;
        attributes[index] = Some(value.to_string());
        infos.push(
            AttributeInfo {
                index,
                name: name.to_string(),
                value: value.to_string(),
                is_age: false,
            },
        );
        proof {
            assert(text_options(attributes@) =~= text_options(old_attributes).update(
                index as int,
                Some(value@),
            ));
            assert(info_views(infos@) =~= info_views(old_infos).push(
                Info { index: index as nat, name: name@, value: value@, is_age: false },
            ));
        }
        CredentialBuilder { attributes, attribute_infos: infos, ..self }
    }

    /// Adds an age at a place; places beyond the last are ignored.
    pub fn add_age(self, index: usize, age: u64) -> (r: CredentialBuilder)
        ensures
            r@ == if index < 16 {
                Draft {
                    attributes: self@.attributes.update(
                        index as int,
                        Some(text::decimal(age as nat)),
                    ),
                    infos: self@.infos.push(
                        Info {
                            index: index as nat,
                            name: "age"@,
                            value: text::decimal(age as nat),
                            is_age: true,
                        },
                    ),
                    config: DisclosureConfig { age_index: Some(index), ..self@.config },
                    ..self@
                }
            } else {
                self@
            },
    {
        proof {
            use_type_invariant(&self);
        }
        if index >= NUM_ATTRIBUTES {
            return self;
        }
        let mut attributes = self.attributes;
        let mut infos = self.attribute_infos;
        let ghost old_infos = infos@;
        let ghost old_attributes = attributes@;
        attributes[index] = Some(text::decimal_text(age));
        infos.push(
            AttributeInfo {
                index,
                name: "age".to_string(),
                value: text::decimal_text(age),
                is_age: true,
            },
        );
        proof {
            assert(text_options(attributes@) =~= text_options(old_attributes).update(
                index as int,
                Some(text::decimal(age as nat)),
            ));
            assert(info_views(infos@) =~= info_views(old_infos).push(
                Info {
                    index: index as nat,
                    name: "age"@,
                    value: text::decimal(age as nat),
                    is_age: true,
                },
            ));
        }
        let config = DisclosureConfig {
            mask: self.config.mask,
            age_index: Some(index),
            age_threshold: self.config.age_threshold,
        };
        CredentialBuilder { attributes, attribute_infos: infos, config, ..self }
    }

    /// Requires the age to reach a threshold.
    pub fn require_min_age(self, threshold: u64) -> (r: CredentialBuilder)
        ensures
            r@ == (Draft {
                config: DisclosureConfig { age_threshold: Some(threshold), ..self@.config },
                ..self@
            }),
    {
        proof {
            use_type_invariant(&self);
        }
        let config = DisclosureConfig {
            mask: self.config.mask,
            age_index: self.config.age_index,
            age_threshold: Some(threshold),
        };
        CredentialBuilder { config, ..self }
    }

    /// Shows the attribute at a place; places beyond the last are ignored.
    pub fn reveal_attribute(self, index: usize) -> (r: CredentialBuilder)
        ensures
            index >= 16 ==> r@ == self@,
            index < 16 ==> {
                &&& r@.config.mask@ == self@.config.mask@.update(index as int, true)
                &&& r@.config.age_index == self@.config.age_index
                &&& r@.config.age_threshold == self@.config.age_threshold
                &&& r@.revealed == match self@.attributes[index as int] {
                    Some(value) => self@.revealed.push(value),
                    None => self@.revealed,
                }
                &&& r@ == (Draft { config: r@.config, revealed: r@.revealed, ..self@ })
            },
    {
        proof {
            use_type_invariant(&self);
        }
        if index >= NUM_ATTRIBUTES {
            return self;
        }
        let mut mask = self.config.mask;
        mask[index] = true;
        let config = DisclosureConfig {
            mask,
            age_index: self.config.age_index,
            age_threshold: self.config.age_threshold,
        };
        let mut revealed = self.revealed;
        let ghost before = revealed@;
        if let Some(attr) = &self.attributes[index] {
            revealed.push(attr.clone());
            assert(text::texts(revealed@) =~= text::texts(before).push(attr@));
        }
        CredentialBuilder { config, revealed, ..self }
    }

    /// Sets the secret that the blinding factor is derived from.
    pub fn master_secret(self, secret: [u8; 32]) -> (r: CredentialBuilder)
        ensures
            r@ == (Draft { secret: Some(secret@), ..self@ }),
    {
        proof {
            use_type_invariant(&self);
        }
        CredentialBuilder { master_secret: Some(secret), ..self }
    }
}

/// The field element of an attribute: an age stands for itself, any other text
/// for its hash.
pub open spec fn info_value(info: Info) -> Option<nat> {
    if info.is_age {
        text::parsed_u64(info.value)
    } else {
        Some(primitives::attribute_value(info.value))
    }
}

/// The attributes that a draft commits to: zero where nothing was added, and
/// what was added last where something was.
pub open spec fn committed_attributes(infos: Seq<Info>) -> Seq<nat>
    decreases infos.len(),
{
    if infos.len() == 0 {
        Seq::new(16, |i: int| 0nat)
    } else {
        let before = committed_attributes(infos.drop_last());
        match info_value(infos.last()) {
            Some(v) if infos.last().index < 16 => before.update(infos.last().index as int, v),
            _ => before,
        }
    }
}

/// The commitment of a draft under a secret.
pub open spec fn draft_commitment(d: Draft, secret: Seq<u8>) -> nat {
    primitives::commitment_value(
        committed_attributes(d.infos),
        primitives::credential_blinding(secret, d.id),
    )
}

/// The proof that a credential carries.
pub open spec fn carried_proof(c: W3CCredential) -> Option<Seq<u8>> {
    base64url::decoded(c.proof.proof_value@)
}

/// A credential says what its draft says.
pub open spec fn drafted(d: Draft, secret: Seq<u8>, c: W3CCredential) -> bool {
    &&& text::texts(c.context@) == seq![
        "https://www.w3.org/ns/credentials/v2"@,
        "https://w3id.org/security/data-integrity/v2"@,
    ]
    &&& c.id@ == d.id
    &&& text::texts(c.credential_type@) == seq!["VerifiableCredential"@, "AgeCredential"@]
    &&& c.issuer@ == d.issuer
    &&& c.issuance_date@ == "2026-05-21T00:00:00Z"@
    &&& c.credential_subject.id@ == d.subject
    &&& c.credential_subject.commitment@ == field::field_text(draft_commitment(d, secret))
    &&& text::texts(c.credential_subject.revealed_attributes@) == d.revealed
    &&& c.proof.proof_type@ == "DataIntegrityProof"@
    &&& c.proof.cryptosuite@ == "poseidon-groth16-2026"@
    &&& c.proof.created@ == "2026-05-21T00:00:00Z"@
    &&& c.proof.verification_method@ == d.issuer + "#poseidon-groth16-key-1"@
    &&& c.proof.proof_purpose@ == "assertionMethod"@
    &&& c.proof.domain@ == d.domain
}

/// What building a draft with a secret gives. A draft without a subject is
/// refused; then the proof is made as for any commitment. A credential carries a
/// proof that decodes, and with keys for the configuration one that verifies.
pub open spec fn built(
    d: Draft,
    secret: Seq<u8>,
    setup: TrustedSetup,
    r: Result<W3CCredential, CredentialError>,
) -> bool {
    let attrs = committed_attributes(d.infos);
    let blinding = primitives::credential_blinding(secret, d.id);
    let commitment = draft_commitment(d, secret);
    if d.subject.len() == 0 {
        r matches Err(CredentialError::InvalidCredential(m)) && m@ == "Subject ID is required"@
    } else {
        match r {
            Err(e) => primitives::refused_with(setup, d.config, attrs, blinding, commitment, e),
            Ok(c) => {
                &&& primitives::can_prove(d.config, attrs, blinding, commitment)
                &&& drafted(d, secret, c)
                &&& is_ascii_chars(c.proof.proof_value@)
                &&& carried_proof(c) is Some
                &&& carried_proof(c)->0.len() == 128
                &&& decoding::gives(
                    groth16::decoded_proof(carried_proof(c)->0),
                    carried_proof(c)->0,
                )
                &&& setup.is_for(d.config) ==> primitives::statement_accepted(
                    setup,
                    d.config,
                    attrs,
                    commitment,
                    carried_proof(c)->0,
                )
            },
        }
    }
}

impl CredentialBuilder {
    /// The attributes as field elements.
    fn attribute_elements(&self) -> (r: [Fr; NUM_ATTRIBUTES])
        ensures
            field::values(r@) == committed_attributes(self@.infos),
    {
        proof {
            use_type_invariant(self);
        }
        let mut attrs = [Fr::zero(); NUM_ATTRIBUTES];
        let ghost infos = self@.infos;
        assert(field::values(attrs@) =~= committed_attributes(infos.take(0)));
        for i in 0..self.attribute_infos.len()
            invariant
                infos == info_views(self.attribute_infos@),
                field::values(attrs@) == committed_attributes(infos.take(i as int)),
                forall|j: int|
                    0 <= j < self.attribute_infos@.len() ==> (
                    #[trigger] self.attribute_infos@[j]).index < 16,
        {
            let info = &self.attribute_infos[i];
            let ghost before = attrs@;
            proof {
                assert(infos.take(i + 1).drop_last() =~= infos.take(i as int));
                assert(infos.take(i + 1).last() == info_view(*info));
            }
            if info.is_age {
                if let Some(age) = text::parse_u64(info.value.as_str()) {
                    attrs[info.index] = Fr::from_u64(age);
                    assert(field::values(attrs@) =~= field::values(before).update(
                        info.index as int,
                        age as nat,
                    ));
                }
            } else {
                attrs[info.index] = primitives::hash_attribute(info.value.as_str());
                assert(field::values(attrs@) =~= field::values(before).update(
                    info.index as int,
                    primitives::attribute_value(info.value@),
                ));
            }
        }
        assert(infos.take(infos.len() as int) =~= infos);
        attrs
    }

    /// Builds the credential with a given secret.
    pub fn build_with(self, setup: &TrustedSetup, master_secret: [u8; 32]) -> (r: Result<
        W3CCredential,
        CredentialError,
    >)
        ensures
            built(self@, master_secret@, *setup, r),
    {
        let ghost d = self@;
        let ghost secret = master_secret@;
        if self.subject_id.as_str().is_empty() {
            return Err(CredentialError::InvalidCredential("Subject ID is required".to_string()));
        }
        let blinding = primitives::derive_blinding(&master_secret, self.credential_id.as_str());
        let attrs = self.attribute_elements();
        let commitment = primitives::create_commitment(&attrs, &blinding);
        let proof = match primitives::generate_proof(
            setup,
            &attrs,
            blinding,
            commitment,
            &self.config,
        ) {
            Ok(proof) => proof,
            Err(e) => {
                return Err(e);
            },
        };
        let proof_bytes = match primitives::proof_to_bytes(&proof) {
            Ok(bytes) => bytes,
            Err(e) => {
                return Err(e);
            },
        };
        let proof_value = base64url::base64url_encode(proof_bytes.as_slice());
        proof {
            base64url::lemma_round_trip(proof_bytes@);
        }
        let mut verification_method = self.issuer.clone();
        verification_method.push_str("#poseidon-groth16-key-1");
        let context = vec![
            "https://www.w3.org/ns/credentials/v2".to_string(),
            "https://w3id.org/security/data-integrity/v2".to_string(),
        ];
        let credential_type = vec![
            "VerifiableCredential".to_string(),
            "AgeCredential".to_string(),
        ];
        let credential = W3CCredential {
            context,
            id: self.credential_id,
            credential_type,
            issuer: self.issuer,
            issuance_date: current_timestamp(),
            credential_subject: CredentialSubject {
                id: self.subject_id,
                commitment: commitment.to_text(),
                revealed_attributes: self.revealed,
            },
            proof: CredentialProof {
                proof_type: "DataIntegrityProof".to_string(),
                cryptosuite: "poseidon-groth16-2026".to_string(),
                created: current_timestamp(),
                verification_method,
                proof_purpose: "assertionMethod".to_string(),
                proof_value,
                domain: self.domain,
            },
        };
        proof {
            assert(text::texts(credential.context@) =~= seq![
                "https://www.w3.org/ns/credentials/v2"@,
                "https://w3id.org/security/data-integrity/v2"@,
            ]);
            assert(text::texts(credential.credential_type@) =~= seq![
                "VerifiableCredential"@,
                "AgeCredential"@,
            ]);
            assert(drafted(d, secret, credential));
        }
        Ok(credential)
    }

    /// Builds the credential, with a random secret when none was set.
    pub fn build(self, setup: &TrustedSetup) -> (r: Result<W3CCredential, CredentialError>)
        ensures
            match self@.secret {
                Some(secret) => built(self@, secret, *setup, r),
                None => exists|secret: Seq<u8>|
                    secret.len() == 32 && #[trigger] built(self@, secret, *setup, r),
            },
    {
        let secret = match self.master_secret {
            Some(s) => s,
            None => primitives::generate_master_secret(),
        };
        assert(secret@.len() == 32);
        self.build_with(setup, secret)
    }
}

impl Default for CredentialBuilder {
    fn default() -> (r: CredentialBuilder)
        ensures
            exists|bytes: Seq<u8>|
                bytes.len() == 16 && new_draft(r@, "urn:uuid:"@ + #[trigger] uuid_text(bytes)),
    {
        CredentialBuilder::new()
    }
}

/// The result of checking a credential.
#[derive(Debug, Clone)]
pub struct VerificationResult {
    pub valid: bool,
    pub reason: Option<String>,
    pub revealed_attributes: Vec<String>,
}

/// A result as it reads.
pub struct Outcome {
    pub valid: bool,
    pub reason: Option<Seq<char>>,
    pub revealed: Seq<Seq<char>>,
}

impl View for VerificationResult {
    type V = Outcome;

    open spec fn view(&self) -> Outcome {
        Outcome {
            valid: self.valid,
            reason: match self.reason {
                Some(s) => Some(s@),
                None => None,
            },
            revealed: text::texts(self.revealed_attributes@),
        }
    }
}

/// A refusal with a reason.
pub open spec fn refusal(reason: Seq<char>) -> Outcome {
    Outcome { valid: false, reason: Some(reason), revealed: Seq::empty() }
}

/// Refuses with a reason.
pub(crate) fn refuse(reason: String) -> (r: VerificationResult)
    ensures
        r@ == refusal(reason@),
{
    let r = VerificationResult { valid: false, reason: Some(reason), revealed_attributes: vec![] };
    assert(r@.revealed =~= Seq::<Seq<char>>::empty());
    r
}

/// The field element that a verifier takes an attribute's text for: a number
/// stands for itself, any other text for its hash.
pub open spec fn claimed_value(value: Seq<char>) -> nat {
    match text::parsed_u64(value) {
        Some(n) => n,
        None => primitives::attribute_value(value),
    }
}

/// What a verifier takes the attributes for: what the mapping says last of each
/// place, and zero where it says nothing.
pub open spec fn claimed_attributes(mapping: Seq<(usize, &str)>) -> Seq<nat>
    decreases mapping.len(),
{
    if mapping.len() == 0 {
        Seq::new(16, |i: int| 0nat)
    } else {
        let before = claimed_attributes(mapping.drop_last());
        if mapping.last().0 < 16 {
            before.update(mapping.last().0 as int, claimed_value(mapping.last().1@))
        } else {
            before
        }
    }
}

/// Whether a credential is for the expected domain, if one is expected.
pub open spec fn in_domain(c: W3CCredential, expected_domain: Option<&str>) -> bool {
    match expected_domain {
        Some(d) => c.proof.domain@ == d@,
        None => true,
    }
}

/// What checking a credential gives: the domain is compared first, then the
/// commitment and the proof are read, and then the proof is checked against
/// what the verifier takes the attributes for.
pub open spec fn verification(
    c: W3CCredential,
    setup: TrustedSetup,
    expected_domain: Option<&str>,
    shown: Seq<nat>,
    age_threshold: Option<u64>,
) -> Outcome {
    let commitment = field::field_of_text(c.credential_subject.commitment@);
    if !in_domain(c, expected_domain) {
        refusal(
            "Domain mismatch: expected '"@ + expected_domain->0@ + "', got '"@ + c.proof.domain@
                + "'"@,
        )
    } else if commitment is None {
        refusal("Invalid commitment format"@)
    } else if carried_proof(c) is None {
        refusal("Invalid proof encoding"@)
    } else {
        match groth16::decoded_proof(carried_proof(c)->0) {
            Err(_) => refusal("Invalid proof format"@),
            Ok(proof) => match groth16::verdict(
                setup.keys.verifying_key(),
                primitives::verifier_inputs(shown, commitment->0, age_threshold),
                proof,
            ) {
                Ok(valid) => Outcome {
                    valid,
                    reason: if valid {
                        None
                    } else {
                        Some("Proof verification failed"@)
                    },
                    revealed: text::texts(c.credential_subject.revealed_attributes@),
                },
                Err(e) => refusal("Verification error: Verification failed: "@ + e.text()),
            },
        }
    }
}

/// What a mapping says of the attributes.
fn claimed_elements(mapping: &[(usize, &str)]) -> (r: [Option<Fr>; NUM_ATTRIBUTES])
    ensures
        primitives::known_values(r@) == claimed_attributes(mapping@),
{
    let mut revealed: [Option<Fr>; NUM_ATTRIBUTES] = [None; NUM_ATTRIBUTES];
    assert(primitives::known_values(revealed@) =~= claimed_attributes(mapping@.take(0)));
    for i in 0..mapping.len()
        invariant
            primitives::known_values(revealed@) == claimed_attributes(mapping@.take(i as int)),
    {
        let (index, value) = mapping[i];
        let ghost before = revealed@;
        proof {
            assert(mapping@.take(i + 1).drop_last() =~= mapping@.take(i as int));
            assert(mapping@.take(i + 1).last() == mapping@[i as int]);
        }
        if index < NUM_ATTRIBUTES {
            let element = match text::parse_u64(value) {
                Some(n) => Fr::from_u64(n),
                None => primitives::hash_attribute(value),
            };
            revealed[index] = Some(element);
            assert(primitives::known_values(revealed@) =~= primitives::known_values(before).update(
                index as int,
                claimed_value(value@),
            ));
        }
    }
    assert(mapping@.take(mapping@.len() as int) =~= mapping@);
    revealed
}

/// Checks a credential against what the verifier takes its attributes for.
pub fn verify_credential(
    credential: &W3CCredential,
    setup: &TrustedSetup,
    expected_domain: Option<&str>,
    attribute_mapping: &[(usize, &str)],
    age_threshold: Option<u64>,
) -> (r: Result<VerificationResult, CredentialError>)
    requires
        in_domain(*credential, expected_domain) && field::field_of_text(
            credential.credential_subject.commitment@,
        ) is Some ==> base64url::reads_ascii(credential.proof.proof_value@),
    ensures
        r matches Ok(v) && v@ == verification(
            *credential,
            *setup,
            expected_domain,
            claimed_attributes(attribute_mapping@),
            age_threshold,
        ),
{
    if let Some(domain) = expected_domain {
        if credential.proof.domain != domain.to_string() {
            let mut reason = "Domain mismatch: expected '".to_string();
            reason.push_str(domain);
            reason.push_str("', got '");
            reason.push_str(credential.proof.domain.as_str());
            reason.push_str("'");
            return Ok(refuse(reason));
        }
    }
    let commitment = match primitives::fr_from_string(
        credential.credential_subject.commitment.as_str(),
    ) {
        Ok(c) => c,
        Err(_) => {
            return Ok(refuse("Invalid commitment format".to_string()));
        },
    };
    let proof_bytes = match base64url::base64url_decode(credential.proof.proof_value.as_str()) {
        Some(b) => b,
        None => {
            return Ok(refuse("Invalid proof encoding".to_string()));
        },
    };
    let proof = match primitives::proof_from_bytes(proof_bytes.as_slice()) {
        Ok(p) => p,
        Err(_) => {
            return Ok(refuse("Invalid proof format".to_string()));
        },
    };
    let revealed = claimed_elements(attribute_mapping);
    match primitives::verify_proof(setup, &proof, &revealed, commitment, age_threshold) {
        Ok(valid) => Ok(
            VerificationResult {
                valid,
                reason: if valid {
                    None
                } else {
                    Some("Proof verification failed".to_string())
                },
                revealed_attributes: text::copied(&credential.credential_subject.revealed_attributes),
            },
        ),
        Err(e) => {
            let mut reason = "Verification error: ".to_string();
            reason.push_str(e.message().as_str());
            proof {
                reveal_strlit("Verification error: ");
                reveal_strlit("Verification failed: ");
                reveal_strlit("Verification error: Verification failed: ");
                assert("Verification error: "@ + "Verification failed: "@
                    =~= "Verification error: Verification failed: "@);
                let detail = e->VerificationFailed_0@;
                assert("Verification error: "@ + ("Verification failed: "@ + detail)
                    =~= "Verification error: Verification failed: "@ + detail);
            }
            Ok(refuse(reason))
        },
    }
}

/// A credential that was built with keys for its configuration is valid to a
/// verifier that takes the shown attributes for what they are, asks for the same
/// threshold and expects the credential's domain or none. A commitment of zero
/// is left out, as its text does not read back.
pub proof fn lemma_built_verifies(
    d: Draft,
    secret: Seq<u8>,
    setup: TrustedSetup,
    c: W3CCredential,
    expected_domain: Option<&str>,
    shown: Seq<nat>,
)
    requires
        built(d, secret, setup, Ok(c)),
        setup.is_for(d.config),
        draft_commitment(d, secret) != 0,
        expected_domain matches Some(e) ==> e@ == d.domain,
        shown == disclosure::shown_values(committed_attributes(d.infos), d.config.mask@, 16),
    ensures
        verification(c, setup, expected_domain, shown, d.config.age_threshold) == (Outcome {
            valid: true,
            reason: None,
            revealed: d.revealed,
        }),
{
    let commitment = draft_commitment(d, secret);
    permutation::lemma_sponge_reduced(
        permutation::standard(),
        disclosure::opening(
            primitives::commitment_domain(),
            committed_attributes(d.infos),
            primitives::credential_blinding(secret, d.id),
        ),
    );
    field::lemma_text_round_trip(commitment);
    lemma_committed_length(d.infos);
    primitives::lemma_verifier_agrees(
        setup,
        d.config,
        committed_attributes(d.infos),
        commitment,
        carried_proof(c)->0,
    );
}

proof fn lemma_committed_length(infos: Seq<Info>)
    ensures
        committed_attributes(infos).len() == 16,
    decreases infos.len(),
{
    if infos.len() > 0 {
        lemma_committed_length(infos.drop_last());
    }
}

/// Whatever else a credential says, it is not valid for another domain than its
/// own.
pub proof fn lemma_domain_bound(
    c: W3CCredential,
    setup: TrustedSetup,
    expected_domain: &str,
    shown: Seq<nat>,
    age_threshold: Option<u64>,
)
    requires
        c.proof.domain@ != expected_domain@,
    ensures
        !verification(c, setup, Some(expected_domain), shown, age_threshold).valid,
{
}

/// No credential is built for an age below its threshold.
pub proof fn lemma_underage_refused(
    d: Draft,
    secret: Seq<u8>,
    setup: TrustedSetup,
    r: Result<W3CCredential, CredentialError>,
)
    requires
        built(d, secret, setup, r),
        primitives::underage(d.config, committed_attributes(d.infos)),
    ensures
        r is Err,
{
}

/// A draft with a subject and an age that reaches its threshold, by less than two
/// to the power of 32, is built with keys for its configuration.
pub proof fn lemma_eligible_built(
    d: Draft,
    secret: Seq<u8>,
    setup: TrustedSetup,
    r: Result<W3CCredential, CredentialError>,
)
    requires
        built(d, secret, setup, r),
        d.subject.len() > 0,
        setup.is_for(d.config),
        d.config.age_threshold is Some,
        d.config.index() < 16 ==> {
            let age = committed_attributes(d.infos)[d.config.index() as int];
            0 <= age - d.config.age_threshold->0 < 0x1_0000_0000
        },
    ensures
        r is Ok,
{
}

/// A random identifier has 36 characters: hyphens after eight, thirteen, eighteen and
/// twenty-three, and otherwise two hexadecimal digits for each of sixteen bytes.
pub proof fn lemma_uuid(bytes: Seq<u8>, i: int)
    requires
        bytes.len() == 16,
        0 <= i < 16,
    ensures
        ({
            let s = uuid_text(bytes);
            let at = 2 * i + if i < 4 {
                0int
            } else if i < 6 {
                1
            } else if i < 8 {
                2
            } else if i < 10 {
                3
            } else {
                4
            };
            &&& s.len() == 36
            &&& s[8] == '-' && s[13] == '-' && s[18] == '-' && s[23] == '-'
            &&& s[at] == "0123456789abcdef"@[bytes[i] as int / 16]
            &&& s[at + 1] == "0123456789abcdef"@[bytes[i] as int % 16]
        }),
{
    reveal_strlit("-");
    let a = bytes.subrange(0, 4);
    let b = bytes.subrange(4, 6);
    let c = bytes.subrange(6, 8);
    let d = bytes.subrange(8, 10);
    let e = bytes.subrange(10, 16);
    text::lemma_hex(
        a,
        if i < 4 {
            i
        } else {
            0
        },
    );
    text::lemma_hex(
        b,
        if 4 <= i < 6 {
            i - 4
        } else {
            0
        },
    );
    text::lemma_hex(
        c,
        if 6 <= i < 8 {
            i - 6
        } else {
            0
        },
    );
    text::lemma_hex(
        d,
        if 8 <= i < 10 {
            i - 8
        } else {
            0
        },
    );
    text::lemma_hex(
        e,
        if 10 <= i {
            i - 10
        } else {
            0
        },
    );
}

} // verus!
