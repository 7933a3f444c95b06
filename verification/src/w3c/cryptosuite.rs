//! The `poseidon-groth16-2026` suite: issuing and verifying credentials.
use crate::base64url;
use crate::decoding;
use crate::disclosure;
use crate::field;
use crate::groth16;
use crate::text;
use crate::w3c::credential;
use crate::w3c::credential::{CredentialBuilder, VerificationResult, W3CCredential};
use crate::w3c::error::CredentialError;
use crate::w3c::primitives;
use crate::w3c::primitives::{DisclosureConfig, TrustedSetup};
use vstd::prelude::*;

verus! {

pub const CRYPTOSUITE_ID: &'static str = "poseidon-groth16-2026";

pub const CRYPTOSUITE_VERSION: &'static str = "1.0";

pub const PROOF_TYPE: &'static str = "DataIntegrityProof";

/// How a proof is to be made.
#[derive(Debug, Clone)]
pub struct ProofOptions {
    pub verification_method: String,
    pub proof_purpose: String,
    pub domain: Option<String>,
    pub challenge: Option<String>,
    pub created: Option<String>,
}

impl Default for ProofOptions {
    fn default() -> (r: ProofOptions)
        ensures
            r.verification_method@ == "did:example:government#poseidon-groth16-key-1"@,
            r.proof_purpose@ == "assertionMethod"@,
            r.domain is None,
            r.challenge is None,
            r.created is None,
    {
        ProofOptions {
            verification_method: "did:example:government#poseidon-groth16-key-1".to_string(),
            proof_purpose: "assertionMethod".to_string(),
            domain: None,
            challenge: None,
            created: None,
        }
    }
}

/// A proof with its configuration.
#[derive(Debug, Clone)]
pub struct SelectiveDisclosureProof {
    pub cryptosuite: String,
    pub config: ProofConfig,
    pub proof_value: String,
}

/// What a proof shows and of which commitment.
#[derive(Debug, Clone)]
pub struct ProofConfig {
    pub num_attributes: usize,
    pub revealed_indices: Vec<usize>,
    pub age_verification: Option<AgeVerification>,
    pub commitment: String,
}

/// Which attribute is an age, and what it must reach.
#[derive(Debug, Clone)]
pub struct AgeVerification {
    pub age_index: usize,
    pub threshold: u64,
}

/// Keys with the configuration that they are for.
pub struct Cryptosuite {
    setup: TrustedSetup,
    config: DisclosureConfig,
}

/// What checking a credential of the suite gives: the suite and the proof's type
/// are compared first.
pub open spec fn suite_verification(
    c: W3CCredential,
    setup: TrustedSetup,
    expected_domain: Option<&str>,
    shown: Seq<nat>,
    age_threshold: Option<u64>,
) -> credential::Outcome {
    if c.proof.cryptosuite@ != CRYPTOSUITE_ID@ {
        credential::refusal("Unsupported cryptosuite: "@ + c.proof.cryptosuite@)
    } else if c.proof.proof_type@ != PROOF_TYPE@ {
        credential::refusal("Invalid proof type"@)
    } else {
        credential::verification(c, setup, expected_domain, shown, age_threshold)
    }
}

/// Where the proof of a credential is looked at, decoding it comes only to ASCII
/// characters.
pub open spec fn readable(c: W3CCredential, expected_domain: Option<&str>) -> bool {
    credential::in_domain(c, expected_domain) && field::field_of_text(
        c.credential_subject.commitment@,
    ) is Some ==> base64url::reads_ascii(c.proof.proof_value@)
}

impl Cryptosuite {
    /// The keys.
    pub closed spec fn setup(self) -> TrustedSetup {
        self.setup
    }

    /// The configuration.
    pub closed spec fn config(self) -> DisclosureConfig {
        self.config
    }

    /// A suite with keys and the configuration that they are for.
    pub fn new(setup: TrustedSetup, config: DisclosureConfig) -> (r: Cryptosuite)
        ensures
            r.setup() == setup,
            r.config() == config,
    {
        Cryptosuite { setup, config }
    }

    /// A suite with keys from their compressed encodings.
    pub fn load(proving_key: &[u8], verifying_key: &[u8], config: DisclosureConfig) -> (r: Result<
        Cryptosuite,
        CredentialError,
    >)
        ensures
            r is Ok <==> groth16::decoded_proving_key(proving_key@) is Ok
                && groth16::decoded_verifying_key(verifying_key@) is Ok,
            r matches Ok(suite) ==> {
                &&& decoding::gives(
                    groth16::decoded_proving_key(proving_key@),
                    suite.setup().keys.proving_key(),
                )
                &&& decoding::gives(
                    groth16::decoded_verifying_key(verifying_key@),
                    suite.setup().keys.verifying_key(),
                )
                &&& suite.config() == config
            },
            r matches Err(e) ==> primitives::undecoded(proving_key@, verifying_key@, e),
    {
        match TrustedSetup::load(proving_key, verifying_key) {
            Ok(setup) => Ok(Cryptosuite { setup, config }),
            Err(e) => Err(e),
        }
    }

    /// The compressed encodings of the keys.
    pub fn save_keys(&self) -> (r: (Vec<u8>, Vec<u8>))
        ensures
            r.0@ == self.setup().keys.proving_key(),
            r.1@ == self.setup().keys.verifying_key(),
            decoding::gives(
                groth16::decoded_proving_key(r.0@),
                self.setup().keys.proving_key(),
            ),
            decoding::gives(
                groth16::decoded_verifying_key(r.1@),
                self.setup().keys.verifying_key(),
            ),
    {
        self.setup.save()
    }

    /// Checks a credential of the suite. The challenge is not looked at.
    pub fn verify(
        &self,
        credential: &W3CCredential,
        expected_domain: Option<&str>,
        _expected_challenge: Option<&str>,
        attribute_mapping: &[(usize, &str)],
        age_threshold: Option<u64>,
    ) -> (r: Result<VerificationResult, CredentialError>)
        requires
            credential.proof.cryptosuite@ == CRYPTOSUITE_ID@ && credential.proof.proof_type@
                == PROOF_TYPE@ ==> readable(*credential, expected_domain),
        ensures
            r matches Ok(v) && v@ == suite_verification(
                *credential,
                self.setup(),
                expected_domain,
                credential::claimed_attributes(attribute_mapping@),
                age_threshold,
            ),
    {
        if credential.proof.cryptosuite != CRYPTOSUITE_ID.to_string() {
            let mut reason = "Unsupported cryptosuite: ".to_string();
            reason.push_str(credential.proof.cryptosuite.as_str());
            return Ok(credential::refuse(reason));
        }
        if credential.proof.proof_type != PROOF_TYPE.to_string() {
            return Ok(credential::refuse("Invalid proof type".to_string()));
        }
        credential::verify_credential(
            credential,
            &self.setup,
            expected_domain,
            attribute_mapping,
            age_threshold,
        )
    }
}

/// Issues credentials under one secret.
pub struct Issuer {
    cryptosuite: Cryptosuite,
    issuer_did: String,
    master_secret: [u8; 32],
}

/// Whether a name is among names.
pub open spec fn named(names: Seq<&str>, name: Seq<char>) -> bool {
    exists|i: int| 0 <= i < names.len() && (#[trigger] names[i])@ == name
}

fn is_named(names: &[&str], name: &str) -> (r: bool)
    ensures
        r == named(names@, name@),
{
    for i in 0..names.len()
        invariant
            forall|j: int| 0 <= j < i ==> (#[trigger] names@[j])@ != name@,
    {
        if names[i].to_string() == name.to_string() {
            assert(names@[i as int]@ == name@);
            return true;
        }
    }
    false
}

/// The attributes that an issuer adds: each at its place, as far as there are
/// places.
pub open spec fn listed(attributes: Seq<(&str, &str)>) -> Seq<credential::Info>
    decreases attributes.len(),
{
    if attributes.len() == 0 {
        Seq::empty()
    } else {
        let before = listed(attributes.drop_last());
        let place = (attributes.len() - 1) as nat;
        if place < 16 {
            before.push(
                credential::Info {
                    index: place,
                    name: attributes.last().0@,
                    value: attributes.last().1@,
                    is_age: false,
                },
            )
        } else {
            before
        }
    }
}

/// The attributes that an issuer shows: the values of those that are named, as
/// far as there are places.
pub open spec fn shown_texts(attributes: Seq<(&str, &str)>, names: Seq<&str>) -> Seq<Seq<char>>
    decreases attributes.len(),
{
    if attributes.len() == 0 {
        Seq::empty()
    } else {
        let before = shown_texts(attributes.drop_last(), names);
        if attributes.len() <= 16 && named(names, attributes.last().0@) {
            before.push(attributes.last().1@)
        } else {
            before
        }
    }
}

/// The draft of an issued credential: the attributes in order, the age after
/// them with a threshold of eighteen, and the named attributes shown.
pub open spec fn issued_draft(
    d: credential::Draft,
    issuer: Seq<char>,
    secret: Seq<u8>,
    subject: Seq<char>,
    attributes: Seq<(&str, &str)>,
    age: Option<u64>,
    names: Seq<&str>,
) -> bool {
    &&& exists|bytes: Seq<u8>|
        bytes.len() == 16 && d.id == "urn:uuid:"@ + #[trigger] credential::uuid_text(bytes)
    &&& d.subject == subject
    &&& d.issuer == issuer
    &&& d.domain == "https://verifier.example"@
    &&& d.secret == Some(secret)
    &&& d.infos == match age {
        Some(a) if attributes.len() < 16 => listed(attributes).push(
            credential::Info {
                index: attributes.len(),
                name: "age"@,
                value: text::decimal(a as nat),
                is_age: true,
            },
        ),
        _ => listed(attributes),
    }
    &&& d.revealed == shown_texts(attributes, names)
    &&& forall|i: int|
        0 <= i < 16 ==> #[trigger] d.config.mask@[i] == (i < attributes.len() && named(
            names,
            attributes[i].0@,
        ))
    &&& d.config.age_index == if age is Some && attributes.len() < 16 {
        Some(attributes.len() as usize)
    } else {
        None
    }
    &&& d.config.age_threshold == if age is Some {
        Some(18u64)
    } else {
        None
    }
}

impl Issuer {
    /// The suite that credentials are issued with.
    pub closed spec fn cryptosuite(self) -> Cryptosuite {
        self.cryptosuite
    }

    /// The name of the issuer.
    pub closed spec fn issuer_did(self) -> Seq<char> {
        self.issuer_did@
    }

    /// The secret.
    pub closed spec fn secret(self) -> Seq<u8> {
        self.master_secret@
    }

    /// An issuer with a random secret.
    pub fn new(cryptosuite: Cryptosuite, issuer_did: &str) -> (r: Issuer)
        ensures
            r.cryptosuite() == cryptosuite,
            r.issuer_did() == issuer_did@,
            r.secret().len() == 32,
    {
        Issuer {
            cryptosuite,
            issuer_did: issuer_did.to_string(),
            master_secret: primitives::generate_master_secret(),
        }
    }

    /// The compressed encodings of the keys.
    pub fn save_keys(&self) -> (r: (Vec<u8>, Vec<u8>))
        ensures
            r.0@ == self.cryptosuite().setup().keys.proving_key(),
            r.1@ == self.cryptosuite().setup().keys.verifying_key(),
            decoding::gives(
                groth16::decoded_proving_key(r.0@),
                self.cryptosuite().setup().keys.proving_key(),
            ),
            decoding::gives(
                groth16::decoded_verifying_key(r.1@),
                self.cryptosuite().setup().keys.verifying_key(),
            ),
    {
        self.cryptosuite.save_keys()
    }
}

/// The values of the attributes at their places.
spec fn placed(attributes: Seq<(&str, &str)>, count: int, places: Seq<Option<Seq<char>>>) -> bool {
    &&& places.len() == 16
    &&& forall|j: int|
        0 <= j < 16 && j < count ==> #[trigger] places[j] == Some(attributes[j].1@)
}

/// Adds the attributes, each at its place.
fn with_attributes(builder: CredentialBuilder, attributes: &[(&str, &str)]) -> (r:
    CredentialBuilder)
    requires
        builder@.infos.len() == 0,
        builder@.attributes.len() == 16,
    ensures
        r@ == (credential::Draft {
            infos: listed(attributes@),
            attributes: r@.attributes,
            ..builder@
        }),
        placed(attributes@, attributes@.len() as int, r@.attributes),
{
    let ghost first = builder@;
    let mut b = builder;
    assert(first.infos =~= listed(attributes@.take(0)));
    for i in 0..attributes.len()
        invariant
            b@ == (credential::Draft {
                infos: listed(attributes@.take(i as int)),
                attributes: b@.attributes,
                ..first
            }),
            placed(attributes@, i as int, b@.attributes),
    {
        let (name, value) = attributes[i];
        b = b.add_attribute(i, name, value);
        proof {
            assert(attributes@.take(i + 1).drop_last() =~= attributes@.take(i as int));
            assert(attributes@.take(i + 1).last() == attributes@[i as int]);
        }
    }
    assert(attributes@.take(attributes@.len() as int) =~= attributes@);
    b
}

/// Shows the attributes that are named.
fn with_shown(builder: CredentialBuilder, attributes: &[(&str, &str)], names: &[&str]) -> (r:
    CredentialBuilder)
    requires
        placed(attributes@, attributes@.len() as int, builder@.attributes),
        builder@.revealed.len() == 0,
        forall|i: int| 0 <= i < 16 ==> builder@.config.mask@[i] == false,
    ensures
        r@ == (credential::Draft {
            config: r@.config,
            revealed: shown_texts(attributes@, names@),
            ..builder@
        }),
        r@.config.age_index == builder@.config.age_index,
        r@.config.age_threshold == builder@.config.age_threshold,
        forall|i: int|
            0 <= i < 16 ==> #[trigger] r@.config.mask@[i] == (i < attributes@.len() && named(
                names@,
                attributes@[i].0@,
            )),
{
    let ghost first = builder@;
    let mut b = builder;
    assert(first.revealed =~= shown_texts(attributes@.take(0), names@));
    for i in 0..attributes.len()
        invariant
            placed(attributes@, attributes@.len() as int, first.attributes),
            b@ == (credential::Draft {
                config: b@.config,
                revealed: shown_texts(attributes@.take(i as int), names@),
                ..first
            }),
            b@.config.age_index == first.config.age_index,
            b@.config.age_threshold == first.config.age_threshold,
            forall|j: int|
                0 <= j < 16 ==> #[trigger] b@.config.mask@[j] == (j < i && named(
                    names@,
                    attributes@[j].0@,
                )),
    {
        proof {
            assert(attributes@.take(i + 1).drop_last() =~= attributes@.take(i as int));
            assert(attributes@.take(i + 1).last() == attributes@[i as int]);
        }
        let (name, _) = attributes[i];
        if is_named(names, name) {
            b = b.reveal_attribute(i);
        }
    }
    assert(attributes@.take(attributes@.len() as int) =~= attributes@);
    b
}

/// Every requested name counts: an attribute that one of them names is shown, and
/// one that none of them names is not.
pub proof fn lemma_all_names(
    d: credential::Draft,
    attributes: Seq<(&str, &str)>,
    names: Seq<&str>,
)
    requires
        d.revealed == shown_texts(attributes, names),
        forall|i: int|
            0 <= i < 16 ==> #[trigger] d.config.mask@[i] == (i < attributes.len() && named(
                names,
                attributes[i].0@,
            )),
    ensures
        forall|i: int, j: int|
            0 <= i < 16 && i < attributes.len() && 0 <= j < names.len() && (#[trigger] names[j])@
                == (#[trigger] attributes[i]).0@ ==> d.config.mask@[i] && d.revealed.contains(
                attributes[i].1@,
            ),
        forall|i: int|
            0 <= i < 16 && (i < attributes.len() ==> forall|j: int|
                0 <= j < names.len() ==> (#[trigger] names[j])@ != attributes[i].0@) ==> !(
            #[trigger] d.config.mask@[i]),
{
    assert forall|i: int, j: int|
        0 <= i < 16 && i < attributes.len() && 0 <= j < names.len() && (#[trigger] names[j])@ == (
        #[trigger] attributes[i]).0@ implies d.config.mask@[i] && d.revealed.contains(
        attributes[i].1@,
    ) by {
        assert(d.config.mask@[i] == named(names, attributes[i].0@));
        lemma_shown_text(attributes, names, i, j);
    }
}

proof fn lemma_shown_text(attributes: Seq<(&str, &str)>, names: Seq<&str>, i: int, j: int)
    requires
        0 <= i < 16,
        i < attributes.len(),
        0 <= j < names.len(),
        names[j]@ == attributes[i].0@,
    ensures
        shown_texts(attributes, names).contains(attributes[i].1@),
    decreases attributes.len(),
{
    let before = attributes.drop_last();
    let all = shown_texts(attributes, names);
    let some = shown_texts(before, names);
    if i < before.len() {
        lemma_shown_text(before, names, i, j);
        let k = choose|k: int| 0 <= k < some.len() && some[k] == attributes[i].1@;
        assert(all[k] == attributes[i].1@);
    } else {
        assert(named(names, attributes[i].0@));
        assert(all[some.len() as int] == attributes[i].1@);
    }
}

impl Issuer {
    /// Drafts a credential.
    fn drafted(
        &self,
        subject_id: &str,
        attributes: &[(&str, &str)],
        age: Option<u64>,
        revealed_attribute_names: &[&str],
    ) -> (r: CredentialBuilder)
        ensures
            issued_draft(
                r@,
                self.issuer_did(),
                self.secret(),
                subject_id@,
                attributes@,
                age,
                revealed_attribute_names@,
            ),
    {
        let mut builder = CredentialBuilder::new();
        builder = builder.subject(subject_id);
        builder = builder.issuer(self.issuer_did.as_str());
        builder = builder.master_secret(self.master_secret);
        builder = with_attributes(builder, attributes);
        if let Some(age_value) = age {
            let age_index = attributes.len();
            builder = builder.add_age(age_index, age_value);
            builder = builder.require_min_age(18);
        }
        with_shown(builder, attributes, revealed_attribute_names)
    }

    /// Issues a credential for a subject, with attributes, perhaps an age that
    /// must reach eighteen, and some of the attributes shown.
    pub fn issue_credential(
        &self,
        subject_id: &str,
        attributes: &[(&str, &str)],
        age: Option<u64>,
        revealed_attribute_names: &[&str],
    ) -> (r: Result<W3CCredential, CredentialError>)
        ensures
            exists|d: credential::Draft|
                {
                    &&& issued_draft(
                        d,
                        self.issuer_did(),
                        self.secret(),
                        subject_id@,
                        attributes@,
                        age,
                        revealed_attribute_names@,
                    )
                    &&& #[trigger] credential::built(
                        d,
                        self.secret(),
                        self.cryptosuite().setup(),
                        r,
                    )
                    &&& forall|i: int, j: int|
                        0 <= i < 16 && i < attributes@.len() && 0 <= j
                            < revealed_attribute_names@.len() && (
                        #[trigger] revealed_attribute_names@[j])@ == (
                        #[trigger] attributes@[i]).0@ ==> d.config.mask@[i]
                            && d.revealed.contains(attributes@[i].1@)
                    &&& forall|i: int|
                        0 <= i < 16 && (i < attributes@.len() ==> forall|j: int|
                            0 <= j < revealed_attribute_names@.len() ==> (
                            #[trigger] revealed_attribute_names@[j])@ != attributes@[i].0@)
                            ==> !(#[trigger] d.config.mask@[i])
                },
            r matches Ok(c) ==> forall|i: int, j: int|
                0 <= i < 16 && i < attributes@.len() && 0 <= j < revealed_attribute_names@.len()
                    && (#[trigger] revealed_attribute_names@[j])@ == (#[trigger] attributes@[i]).0@
                    ==> text::texts(c.credential_subject.revealed_attributes@).contains(
                    attributes@[i].1@,
                ),
    {
        let builder = self.drafted(subject_id, attributes, age, revealed_attribute_names);
        let ghost d = builder@;
        let r = builder.build(&self.cryptosuite.setup);
        proof {
            assert(credential::built(d, self.secret(), self.cryptosuite().setup(), r));
            lemma_all_names(d, attributes@, revealed_attribute_names@);
        }
        r
    }
}

/// Verifies credentials.
pub struct Verifier {
    cryptosuite: Cryptosuite,
}

impl Verifier {
    /// The suite that credentials are verified with.
    pub closed spec fn cryptosuite(self) -> Cryptosuite {
        self.cryptosuite
    }

    /// A verifier with keys from their compressed encodings.
    pub fn new(proving_key: &[u8], verifying_key: &[u8], config: DisclosureConfig) -> (r: Result<
        Verifier,
        CredentialError,
    >)
        ensures
            r is Ok <==> groth16::decoded_proving_key(proving_key@) is Ok
                && groth16::decoded_verifying_key(verifying_key@) is Ok,
            r matches Ok(verifier) ==> {
                &&& decoding::gives(
                    groth16::decoded_proving_key(proving_key@),
                    verifier.cryptosuite().setup().keys.proving_key(),
                )
                &&& decoding::gives(
                    groth16::decoded_verifying_key(verifying_key@),
                    verifier.cryptosuite().setup().keys.verifying_key(),
                )
                &&& verifier.cryptosuite().config() == config
            },
            r matches Err(e) ==> primitives::undecoded(proving_key@, verifying_key@, e),
    {
        match Cryptosuite::load(proving_key, verifying_key, config) {
            Ok(cryptosuite) => Ok(Verifier { cryptosuite }),
            Err(e) => Err(e),
        }
    }

    /// Checks a credential of the suite.
    pub fn verify_credential(
        &self,
        credential: &W3CCredential,
        expected_domain: Option<&str>,
        attribute_mapping: &[(usize, &str)],
        age_threshold: Option<u64>,
    ) -> (r: Result<VerificationResult, CredentialError>)
        requires
            credential.proof.cryptosuite@ == CRYPTOSUITE_ID@ && credential.proof.proof_type@
                == PROOF_TYPE@ ==> readable(*credential, expected_domain),
        ensures
            r matches Ok(v) && v@ == suite_verification(
                *credential,
                self.cryptosuite().setup(),
                expected_domain,
                credential::claimed_attributes(attribute_mapping@),
                age_threshold,
            ),
    {
        self.cryptosuite.verify(
            credential,
            expected_domain,
            None,
            attribute_mapping,
            age_threshold,
        )
    }
}

/// A credential of an issuer verifies with a verifier that has the issuer's
/// verifying key, takes the shown attributes for what they are and expects the
/// credential's domain or none, where the keys are for the credential's
/// configuration and the commitment is not zero.
pub proof fn lemma_issued_verifies(
    issuer: Issuer,
    verifier: Verifier,
    d: credential::Draft,
    c: W3CCredential,
    expected_domain: Option<&str>,
    shown: Seq<nat>,
)
    requires
        credential::built(d, issuer.secret(), issuer.cryptosuite().setup(), Ok(c)),
        issuer.cryptosuite().setup().is_for(d.config),
        verifier.cryptosuite().setup().keys.verifying_key()
            == issuer.cryptosuite().setup().keys.verifying_key(),
        credential::draft_commitment(d, issuer.secret()) != 0,
        expected_domain matches Some(e) ==> e@ == d.domain,
        shown == disclosure::shown_values(
            credential::committed_attributes(d.infos),
            d.config.mask@,
            16,
        ),
    ensures
        readable(c, expected_domain),
        suite_verification(
            c,
            verifier.cryptosuite().setup(),
            expected_domain,
            shown,
            d.config.age_threshold,
        ) == (credential::Outcome { valid: true, reason: None, revealed: d.revealed }),
{
    credential::lemma_built_verifies(
        d,
        issuer.secret(),
        issuer.cryptosuite().setup(),
        c,
        expected_domain,
        shown,
    );
    base64url::lemma_ascii_read(c.proof.proof_value@);
}

} // verus!
