use ark_bn254::{Bn254, Fr as ArkFr};
use ark_ff::{PrimeField, Zero};
use ark_groth16::{Groth16, ProvingKey};
use ark_relations::r1cs::{
    ConstraintSynthesizer, ConstraintSystemRef, LinearCombination, SynthesisError, Variable,
};
use ark_serialize::{CanonicalDeserialize, CanonicalSerialize};
use ark_snark::SNARK;
use zk_credentials::base64url::{base64url_decode, base64url_encode, is_ascii_read};
use zk_credentials::field::Fr;
use zk_credentials::gates::Matrices;
use zk_credentials::w3c::credential::{
    uuid_of, uuid_simple, verify_credential, CredentialBuilder, W3CCredential,
};
use zk_credentials::w3c::cryptosuite::{Cryptosuite, Issuer, ProofOptions, Verifier};
use zk_credentials::w3c::error::CredentialError;
use zk_credentials::w3c::primitives::{
    create_commitment, derive_blinding, fr_from_string, fr_to_string, generate_proof,
    get_commitment_domain, get_poseidon_params, hash_attribute, poseidon_hash, proof_from_bytes,
    proof_to_bytes, verify_proof, DisclosureConfig, TrustedSetup,
};

/// A constraint system given by its matrices.
struct Given(Matrices);

fn row(entries: &[(Fr, usize)], inputs: usize) -> LinearCombination<ArkFr> {
    LinearCombination(
        entries
            .iter()
            .map(|(c, i)| {
                let variable = if *i == 0 {
                    Variable::One
                } else if *i < inputs {
                    Variable::Instance(*i)
                } else {
                    Variable::Witness(*i - inputs)
                };
                (ArkFr::from_be_bytes_mod_order(&c.to_bytes_be()), variable)
            })
            .collect(),
    )
}

impl ConstraintSynthesizer<ArkFr> for Given {
    fn generate_constraints(self, cs: ConstraintSystemRef<ArkFr>) -> Result<(), SynthesisError> {
        let m = self.0;
        for _ in 1..m.num_instance_variables {
            cs.new_input_variable(|| Ok(ArkFr::zero()))?;
        }
        for _ in 0..m.num_witness_variables {
            cs.new_witness_variable(|| Ok(ArkFr::zero()))?;
        }
        for i in 0..m.a.len() {
            cs.enforce_constraint(
                row(&m.a[i], m.num_instance_variables),
                row(&m.b[i], m.num_instance_variables),
                row(&m.c[i], m.num_instance_variables),
            )?;
        }
        Ok(())
    }
}

fn key_bytes(matrices: Matrices) -> (Vec<u8>, Vec<u8>) {
    let mut rng = ark_std::rand::thread_rng();
    let (pk, vk) = Groth16::<Bn254>::circuit_specific_setup(Given(matrices), &mut rng).unwrap();
    let (mut proving, mut verifying) = (Vec::new(), Vec::new());
    pk.serialize_compressed(&mut proving).unwrap();
    vk.serialize_compressed(&mut verifying).unwrap();
    (proving, verifying)
}

fn setup_for(config: &DisclosureConfig) -> TrustedSetup {
    let (proving, verifying) = key_bytes(TrustedSetup::circuit_matrices(config).unwrap());
    TrustedSetup::load(&proving, &verifying).unwrap()
}

fn config() -> DisclosureConfig {
    let mut mask = [false; 16];
    mask[3] = true;
    DisclosureConfig { mask, age_index: Some(2), age_threshold: Some(18) }
}

#[test]
fn test_full_flow() {
    let setup = setup_for(&config());
    let credential = CredentialBuilder::new()
        .subject("did:example:alice")
        .add_attribute(0, "name", "Alice")
        .add_age(2, 25)
        .add_attribute(3, "isOver18", "true")
        .reveal_attribute(3)
        .require_min_age(18)
        .build(&setup)
        .unwrap();
    let result =
        verify_credential(&credential, &setup, None, &[(3, "true")], Some(18)).unwrap();
    assert!(result.valid);
}

fn alice(setup: &TrustedSetup) -> W3CCredential {
    CredentialBuilder::new()
        .subject("did:example:alice")
        .add_attribute(0, "name", "Alice")
        .add_age(2, 25)
        .add_attribute(3, "isOver18", "true")
        .reveal_attribute(3)
        .require_min_age(18)
        .build(setup)
        .unwrap()
}

#[test]
fn test_tamper_detection() {
    let setup = setup_for(&config());
    let credential = alice(&setup);
    assert_eq!(credential.proof.domain, "https://verifier.example");
    let mut fake_cred = credential;
    fake_cred.proof.domain = "https://evil.example".to_string();
    let result = verify_credential(
        &fake_cred,
        &setup,
        Some("https://verifier.example"),
        &[(3, "true")],
        Some(18),
    )
    .unwrap();
    assert!(!result.valid);
    assert_eq!(
        result.reason.unwrap(),
        "Domain mismatch: expected 'https://verifier.example', got 'https://evil.example'"
    );
}

#[test]
fn test_underage_rejected() {
    let setup = setup_for(&config());
    let result = CredentialBuilder::new()
        .subject("did:example:bob")
        .add_age(2, 15)
        .add_attribute(3, "isOver18", "true")
        .reveal_attribute(3)
        .require_min_age(18)
        .build(&setup);
    assert!(result.is_err());
    match result {
        Err(CredentialError::ConstraintUnsatisfied(m)) => {
            assert_eq!(m, "Age 15 is less than threshold 18")
        }
        _ => panic!("another outcome"),
    }
}

#[test]
fn test_key_persistence() {
    let setup = setup_for(&config());
    let (proving, verifying) = setup.save();
    let loaded = TrustedSetup::load(&proving, &verifying).unwrap();
    let credential = CredentialBuilder::new()
        .subject("did:example:alice")
        .add_age(2, 25)
        .add_attribute(3, "isOver18", "true")
        .reveal_attribute(3)
        .require_min_age(18)
        .build(&loaded)
        .unwrap();
    let result =
        verify_credential(&credential, &loaded, None, &[(3, "true")], Some(18)).unwrap();
    assert!(result.valid);
}

#[test]
fn keys_that_do_not_decode_are_refused() {
    match TrustedSetup::load(&[1, 2, 3], &[4]) {
        Err(CredentialError::SerializationError(_)) => {}
        _ => panic!("another outcome"),
    }
}

#[test]
fn every_reason_for_refusal() {
    let setup = setup_for(&config());
    let credential = alice(&setup);
    assert_eq!(credential.credential_subject.revealed_attributes, vec!["true"]);
    let check = |c: &W3CCredential, shown: &str, age: Option<u64>| {
        verify_credential(c, &setup, None, &[(3, shown)], age).unwrap()
    };
    let result = check(&credential, "true", Some(18));
    assert!(result.valid && result.reason.is_none());
    assert_eq!(result.revealed_attributes, vec!["true"]);
    let result = check(&credential, "false", Some(18));
    assert_eq!(result.reason.unwrap(), "Proof verification failed");
    assert!(!check(&credential, "true", Some(19)).valid);
    assert!(!check(&credential, "true", None).valid);

    let mut other = credential.clone();
    other.credential_subject.commitment = "no number".to_string();
    assert_eq!(check(&other, "true", Some(18)).reason.unwrap(), "Invalid commitment format");
    let mut other = credential.clone();
    other.proof.proof_value = "????".to_string();
    assert_eq!(check(&other, "true", Some(18)).reason.unwrap(), "Invalid proof encoding");
    other.proof.proof_value = "AAAA????\u{e9}".to_string();
    assert_eq!(check(&other, "true", Some(18)).reason.unwrap(), "Invalid proof encoding");
    let mut other = credential.clone();
    other.proof.proof_value = "AAAA".to_string();
    assert_eq!(check(&other, "true", Some(18)).reason.unwrap(), "Invalid proof format");
    let mut other = credential;
    other.credential_subject.commitment = "12345".to_string();
    assert!(!check(&other, "true", Some(18)).valid);
}

#[test]
fn a_draft_without_a_subject_or_a_threshold_is_refused() {
    let setup = setup_for(&config());
    match CredentialBuilder::new().add_age(2, 25).require_min_age(18).build(&setup) {
        Err(CredentialError::InvalidCredential(m)) => assert_eq!(m, "Subject ID is required"),
        _ => panic!("another outcome"),
    }
    match CredentialBuilder::new().subject("did:example:x").add_age(2, 25).build(&setup) {
        Err(CredentialError::ProofGenerationFailed(m)) => {
            assert_eq!(m, "an assignment for a variable could not be computed")
        }
        _ => panic!("another outcome"),
    }
}

#[test]
fn a_built_credential_says_what_it_was_told() {
    let setup = setup_for(&config());
    let credential = CredentialBuilder::new()
        .id("urn:uuid:1")
        .subject("did:example:carol")
        .issuer("did:example:issuer")
        .domain("https://shop.example")
        .add_age(2, 30)
        .add_attribute(3, "isOver18", "true")
        .reveal_attribute(3)
        .require_min_age(18)
        .master_secret([9; 32])
        .build(&setup)
        .unwrap();
    assert_eq!(credential.id, "urn:uuid:1");
    assert_eq!(credential.issuer, "did:example:issuer");
    assert_eq!(credential.credential_subject.id, "did:example:carol");
    assert_eq!(credential.proof.domain, "https://shop.example");
    assert_eq!(
        credential.proof.verification_method,
        "did:example:issuer#poseidon-groth16-key-1"
    );
    let mut attrs = [Fr::zero(); 16];
    attrs[2] = Fr::from_u64(30);
    attrs[3] = hash_attribute("true");
    let commitment = create_commitment(&attrs, &derive_blinding(&[9; 32], "urn:uuid:1"));
    assert_eq!(credential.credential_subject.commitment, fr_to_string(&commitment));
}

#[test]
fn proofs_are_bound_to_commitment_and_attributes() {
    let config = config();
    let setup = setup_for(&config);
    let mut attrs = [Fr::zero(); 16];
    attrs[2] = Fr::from_u64(21);
    attrs[3] = hash_attribute("true");
    let blinding = Fr::from_u64(5);
    let commitment = create_commitment(&attrs, &blinding);
    let proof = generate_proof(&setup, &attrs, blinding, commitment, &config).unwrap();
    let again = proof_from_bytes(&proof_to_bytes(&proof).unwrap()).unwrap();
    let mut shown = [None; 16];
    shown[3] = Some(attrs[3]);
    assert!(verify_proof(&setup, &again, &shown, commitment, Some(18)).unwrap());
    assert!(!verify_proof(&setup, &again, &shown, blinding, Some(18)).unwrap());
    assert!(!verify_proof(&setup, &again, &[None; 16], commitment, Some(18)).unwrap());
    assert!(proof_from_bytes(&[0; 5]).is_err());
    match generate_proof(&setup, &attrs, blinding, blinding, &config) {
        Err(CredentialError::ConstraintUnsatisfied(m)) => {
            assert_eq!(m, "Constraint not satisfied (this usually means age < threshold)")
        }
        _ => panic!("another outcome"),
    }
    attrs[2] = Fr::from_u64(18 + (1 << 32));
    let commitment = create_commitment(&attrs, &blinding);
    assert!(generate_proof(&setup, &attrs, blinding, commitment, &config).is_err());
    let commitment = commitment_text_round_trip(commitment);
    assert_eq!(commitment, create_commitment(&attrs, &blinding));
}

fn commitment_text_round_trip(x: Fr) -> Fr {
    fr_from_string(&fr_to_string(&x)).unwrap()
}

#[test]
fn an_issuer_and_a_verifier_agree() {
    let mut mask = [false; 16];
    mask[1] = true;
    let config = DisclosureConfig { mask, age_index: Some(2), age_threshold: Some(18) };
    let setup = setup_for(&config);
    let (proving, verifying) = setup.save();
    let suite = Cryptosuite::load(&proving, &verifying, config).unwrap();
    let issuer = Issuer::new(suite, "did:example:government");
    let credential = issuer
        .issue_credential(
            "did:example:alice",
            &[("givenName", "Alice"), ("isOver18", "true")],
            Some(25),
            &["isOver18"],
        )
        .unwrap();
    assert_eq!(credential.issuer, "did:example:government");
    let verifier = Verifier::new(&proving, &verifying, config).unwrap();
    let shown = [(1, "true")];
    let result = verifier.verify_credential(&credential, None, &shown, Some(18)).unwrap();
    assert!(result.valid);
    let mut other = credential.clone();
    other.proof.cryptosuite = "other".to_string();
    let result = verifier.verify_credential(&other, None, &shown, Some(18)).unwrap();
    assert_eq!(result.reason.unwrap(), "Unsupported cryptosuite: other");
    let mut other = credential;
    other.proof.proof_type = "other".to_string();
    let result = verifier.verify_credential(&other, None, &shown, Some(18)).unwrap();
    assert_eq!(result.reason.unwrap(), "Invalid proof type");
    assert_eq!(issuer.save_keys().1, verifying);
}

#[test]
fn hashes_depend_on_their_tag() {
    let inputs = [Fr::from_u64(1)];
    assert_ne!(poseidon_hash(&inputs, b"a"), poseidon_hash(&inputs, b"b"));
    assert_ne!(hash_attribute("a"), hash_attribute("b"));
    let mut inputs = vec![get_commitment_domain()];
    inputs.extend_from_slice(&[Fr::zero(); 16]);
    inputs.push(Fr::from_u64(3));
    assert_eq!(
        create_commitment(&[Fr::zero(); 16], &Fr::from_u64(3)),
        get_poseidon_params().sponge_hash(&inputs)
    );
}

#[test]
fn field_elements_as_text() {
    assert_eq!(fr_to_string(&Fr::from_u64(120)), "120");
    assert_eq!(fr_to_string(&Fr::zero()), "");
    assert_eq!(fr_from_string("120").unwrap(), Fr::from_u64(120));
    assert_eq!(fr_from_string("0").unwrap(), Fr::zero());
    assert_eq!(
        fr_from_string(
            "21888242871839275222246405745257275088548364400416034343698204186575808495618"
        )
        .unwrap(),
        Fr::one()
    );
    for s in ["", "01", "-1", "1x"] {
        assert!(fr_from_string(s).is_err(), "{}", s);
    }
}

#[test]
fn base64url_round_trip() {
    assert_eq!(base64url_encode(b"foobar"), "Zm9vYmFy");
    assert_eq!(base64url_encode(b"fooba"), "Zm9vYmE");
    assert_eq!(base64url_encode(b"foob"), "Zm9vYg");
    assert_eq!(base64url_encode(&[251, 255]), "-_8");
    for n in 0..20u8 {
        let bytes: Vec<u8> = (0..n).map(|i| i.wrapping_mul(37)).collect();
        assert_eq!(base64url_decode(&base64url_encode(&bytes)).unwrap(), bytes);
    }
    assert!(base64url_decode("ab=d").is_none());
    assert!(base64url_decode("ab=d\u{e9}").is_none());
    assert!(is_ascii_read("ab=d\u{e9}"));
    assert!(is_ascii_read("abcdab=d\u{20ac}"));
    assert!(is_ascii_read("abcdab"));
    assert!(is_ascii_read(""));
    assert!(!is_ascii_read("ab=\u{e9}"));
    assert!(!is_ascii_read("abcd\u{e9}"));
    assert!(!is_ascii_read("abcdab\u{20ac}="));
}

#[test]
fn identifiers_have_five_groups() {
    let bytes: Vec<u8> = (0..16).collect();
    assert_eq!(uuid_of(&bytes), "00010203-0405-0607-0809-0a0b0c0d0e0f");
    let id = uuid_simple();
    assert_eq!(id.len(), 36);
    assert_ne!(id, uuid_simple());
}

#[test]
fn defaults() {
    let options = ProofOptions::default();
    assert_eq!(options.proof_purpose, "assertionMethod");
    assert!(options.domain.is_none() && options.challenge.is_none());
    let config = DisclosureConfig::default();
    assert_eq!(config.mask, [false; 16]);
    assert!(config.age_index.is_none() && config.age_threshold.is_none());
}

#[test]
fn errors_in_words() {
    assert_eq!(
        CredentialError::SetupFailed("x".to_string()).message(),
        "Setup failed: x"
    );
    assert_eq!(
        CredentialError::InvalidCredential("y".to_string()).message(),
        "Invalid credential format: y"
    );
}

#[test]
fn known_hash_values_under_the_data_integrity_tag() {
    let mut attrs = [Fr::zero(); 16];
    for i in 0..16 {
        attrs[i] = Fr::from_u64(i as u64);
    }
    assert_eq!(
        create_commitment(&attrs, &Fr::from_u64(999)).to_text(),
        "13673152034485383961074243258926604770562035265451451422404288242679102111054"
    );
    assert_eq!(
        hash_attribute("Alice").to_text(),
        "17742965668530887193801996251218395584601046181965062600346112625749905549289"
    );
    assert_eq!(
        derive_blinding(&[9; 32], "urn:uuid:1").to_text(),
        "7983751462681438388575077867557627696402983185338372728290252985727093940598"
    );
}

#[test]
fn a_proving_key_without_queries_counts_as_an_unmet_constraint() {
    let config = config();
    let (proving, verifying) = key_bytes(TrustedSetup::circuit_matrices(&config).unwrap());
    let whole: ProvingKey<Bn254> = CanonicalDeserialize::deserialize_compressed(&proving[..]).unwrap();
    let attrs = [Fr::from_u64(20); 16];
    let blinding = Fr::from_u64(7);
    let commitment = create_commitment(&attrs, &blinding);
    for missing in 0..4 {
        let mut key = whole.clone();
        match missing {
            0 => key.a_query.clear(),
            1 => key.b_g1_query.clear(),
            2 => key.b_g2_query.clear(),
            _ => {}
        }
        let mut bytes = Vec::new();
        key.serialize_compressed(&mut bytes).unwrap();
        let setup = TrustedSetup::load(&bytes, &verifying).unwrap();
        match generate_proof(&setup, &attrs, blinding, commitment, &config) {
            Err(CredentialError::ConstraintUnsatisfied(m)) if missing < 3 => assert_eq!(
                m,
                "Constraint not satisfied (this usually means age < threshold)"
            ),
            Ok(proof) if missing == 3 => assert_eq!(proof_to_bytes(&proof).unwrap().len(), 128),
            _ => panic!("another outcome"),
        }
    }
}
