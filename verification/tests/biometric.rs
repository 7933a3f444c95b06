use ark_bn254::{Bn254, Fr as ArkFr};
use ark_ff::{PrimeField, Zero};
use ark_groth16::Groth16;
use ark_relations::r1cs::{
    ConstraintSynthesizer, ConstraintSystemRef, LinearCombination, SynthesisError, Variable,
};
use ark_serialize::CanonicalSerialize;
use ark_snark::SNARK;
use zk_credentials::biometric::cache::{CachedProof, ProofCache, Task};
use zk_credentials::biometric::crypto::{
    create_commitment, derive_blinding, derive_nonce, generate_credential_nonce,
    generate_holder_secret, generate_proof, get_commitment_domain, get_poseidon_params,
    hash_attribute, poseidon_hash, poseidon_sponge_hash, verify_proof, TrustedSetup,
};
use zk_credentials::biometric::error::CredentialError;
use zk_credentials::biometric::matrix::MatrixCircuit;
use zk_credentials::biometric::suite::PoseidonGroth16Suite;
use zk_credentials::biometric::types::{
    fr_to_u64, u64_to_fr, Claim, ClaimValue, PredicateSlot, PredicateType, RevealRequest,
    VerifiableCredential,
};
use zk_credentials::field::Fr;
use zk_credentials::gates::{Builder, Matrices};
use zk_credentials::text::hex_text;

/// A constraint system given by its matrices.
struct Given(Matrices);

fn row(entries: &[(Fr, usize)], inputs: usize) -> LinearCombination<ArkFr> {
    LinearCombination(
        entries
            .iter()
            .map(|(c, i)| {
                let variable = if *i == 0 {
                    Variable::One
                } else if *i < inputs {
                    Variable::Instance(*i)
                } else {
                    Variable::Witness(*i - inputs)
                };
                (ArkFr::from_be_bytes_mod_order(&c.to_bytes_be()), variable)
            })
            .collect(),
    )
}

impl ConstraintSynthesizer<ArkFr> for Given {
    fn generate_constraints(self, cs: ConstraintSystemRef<ArkFr>) -> Result<(), SynthesisError> {
        let m = self.0;
        for _ in 1..m.num_instance_variables {
            cs.new_input_variable(|| Ok(ArkFr::zero()))?;
        }
        for _ in 0..m.num_witness_variables {
            cs.new_witness_variable(|| Ok(ArkFr::zero()))?;
        }
        for i in 0..m.a.len() {
            cs.enforce_constraint(
                row(&m.a[i], m.num_instance_variables),
                row(&m.b[i], m.num_instance_variables),
                row(&m.c[i], m.num_instance_variables),
            )?;
        }
        Ok(())
    }
}

fn key_bytes(matrices: Matrices) -> (Vec<u8>, Vec<u8>) {
    let mut rng = ark_std::rand::thread_rng();
    let (pk, vk) = Groth16::<Bn254>::circuit_specific_setup(Given(matrices), &mut rng).unwrap();
    let (mut proving, mut verifying) = (Vec::new(), Vec::new());
    pk.serialize_compressed(&mut proving).unwrap();
    vk.serialize_compressed(&mut verifying).unwrap();
    (proving, verifying)
}

fn blank_setup() -> TrustedSetup {
    let (proving, verifying) = key_bytes(TrustedSetup::circuit_matrices().unwrap());
    TrustedSetup::load(&proving, &verifying).unwrap()
}

/// A suite with its attributes.
fn suite() -> PoseidonGroth16Suite {
    let mut suite = PoseidonGroth16Suite::new(blank_setup());
    suite.register_attribute("age");
    suite.register_attribute("country");
    suite.register_attribute("member");
    suite.register_biometric_attributes();
    suite
}

fn claims() -> Vec<Claim> {
    vec![
        Claim::new("age", ClaimValue::Number(25)),
        Claim::new("country", ClaimValue::Text("US".to_string())),
        Claim::new("member", ClaimValue::Boolean(true)),
        Claim::new("biometric_face_match", ClaimValue::Number(92)),
        Claim::new("biometric_depth_variance", ClaimValue::Number(1500)),
        Claim::new("biometric_liveness", ClaimValue::Number(88)),
    ]
}

fn show(labels: &[&str]) -> RevealRequest {
    RevealRequest { reveal_labels: labels.iter().map(|l| l.to_string()).collect() }
}

/// Gives a suite keys for the circuit of shown places and predicates.
fn set_up(suite: &mut PoseidonGroth16Suite, shown: &[usize], predicates: &[PredicateType]) {
    let mut mask = [false; 16];
    for i in shown {
        mask[*i] = true;
    }
    let mut slots = [PredicateSlot::default(); 8];
    for (i, p) in predicates.iter().enumerate() {
        slots[i] = suite.build_slot(p).unwrap();
    }
    let circuit = MatrixCircuit {
        attributes: [None; 16],
        mask,
        blinding: None,
        expected_commitment: None,
        predicates: slots,
        window_start: None,
        window_expires: None,
        domain_element: get_commitment_domain(),
    };
    let b = circuit.generate_constraints(Builder::for_setup()).unwrap();
    let (proving, verifying) = key_bytes(b.into_matrices());
    suite.setup = TrustedSetup::load(&proving, &verifying).unwrap();
}

fn at_least(attribute: &str, threshold: u64) -> PredicateType {
    PredicateType::GreaterThanOrEqual { attribute: attribute.to_string(), threshold }
}

fn derived(
    suite: &PoseidonGroth16Suite,
    credential: &VerifiableCredential,
    predicates: &[PredicateType],
) -> Result<VerifiableCredential, CredentialError> {
    suite.derive_proof_with_timestamp(credential, &show(&[]), predicates, 1000, 1030)
}

#[test]
fn a_derived_proof_verifies_in_its_window() {
    let mut suite = suite();
    let credential = suite.issue_credential("cred:1", "did:example:issuer", &claims()).unwrap();
    let predicates = vec![
        at_least("age", 18),
        PredicateType::InSet {
            attribute: "country".to_string(),
            allowed_values: vec!["US".to_string(), "CA".to_string()],
        },
        PredicateType::FaceMatch { min_similarity: 85 },
        PredicateType::DepthCheck { min_depth_variance: 1000 },
        PredicateType::LivenessCheck { min_confidence: 80 },
        PredicateType::Range { attribute: "age".to_string(), min: 20, max: 30 },
        PredicateType::LessThan { attribute: "age".to_string(), threshold: 26 },
        PredicateType::NotEqual { attribute: "country".to_string(), value: "FR".to_string() },
    ];
    set_up(&mut suite, &[2], &predicates);
    let proved = suite
        .derive_proof_with_timestamp(&credential, &show(&["member"]), &predicates, 1000, 1030)
        .unwrap();
    assert_eq!(proved.commitment, credential.commitment);
    assert_eq!((proved.window_start, proved.window_expires), (1000, 1030));
    let result = suite.verify_proof_at(&proved, 1010);
    assert!(result.valid, "{:?}", result.errors);
    assert_eq!(result.revealed_claims.len(), 1);
    assert_eq!(result.revealed_claims[0].label, "member");
    assert_eq!(result.predicates_verified[0], "age >= 18");
    assert_eq!(result.predicates_verified[1], "country IN [\"CA\", \"US\"]");
    assert_eq!(suite.verify_proof_at(&proved, 999).errors, vec!["Not yet valid until 1000"]);
    assert_eq!(suite.verify_proof_at(&proved, 1030).errors, vec!["Expired at 1030"]);
    assert!(!suite.verify_proof_with_time(&proved).valid);

    let mut altered = proved.clone();
    altered.claims[2] = Claim::new("member", ClaimValue::Boolean(false));
    assert_eq!(suite.verify_proof_at(&altered, 1010).errors, vec!["Invalid proof"]);
    let mut longer = proved.clone();
    longer.window_expires = 1031;
    assert!(!suite.verify_proof_at(&longer, 1010).valid);
    let mut garbled = proved.clone();
    garbled.proof_value = "!".to_string();
    assert!(!suite.verify_proof_at(&garbled, 1010).valid);

    let json = suite.export_w3c_json(&proved);
    assert!(json.contains("  \"id\": \"cred:1\",\n"));
    assert!(json.contains("      {\"label\": \"age\", \"value\": 25},\n"));
    assert!(json.contains("      {\"label\": \"country\", \"value\": \"US\"},\n"));
    assert!(json.contains("      {\"label\": \"member\", \"value\": true},\n"));
    assert!(json.contains(&format!("    \"proofValue\": \"{}\",\n", proved.proof_value)));
    assert!(json.contains("    \"windowStart\": 1000,\n    \"windowExpires\": 1030,\n"));
    assert!(json.contains("    \"revealedAttributes\": [\"member\"],\n"));

    let cached = CachedProof::new(proved);
    assert_eq!(cached.proof_bytes.len(), 128);
}

#[test]
fn predicates_that_do_not_hold_are_not_proved() {
    let suite = suite();
    let credential = suite.issue_credential("cred:2", "did:example:issuer", &claims()).unwrap();
    for p in [
        at_least("age", 26),
        PredicateType::GreaterThan { attribute: "age".to_string(), threshold: 25 },
        PredicateType::LessThan { attribute: "age".to_string(), threshold: 25 },
        PredicateType::LessThanOrEqual { attribute: "age".to_string(), threshold: 24 },
        PredicateType::Equality { attribute: "country".to_string(), value: "FR".to_string() },
        PredicateType::NotEqual { attribute: "country".to_string(), value: "US".to_string() },
        PredicateType::Range { attribute: "age".to_string(), min: 26, max: 30 },
        PredicateType::InSet {
            attribute: "country".to_string(),
            allowed_values: vec!["FR".to_string()],
        },
        PredicateType::FaceMatch { min_similarity: 93 },
    ] {
        match derived(&suite, &credential, &[p.clone()]) {
            Err(CredentialError::ProofGenerationFailed(_)) => {}
            _ => panic!("{:?}", p),
        }
    }
}

#[test]
fn keys_of_another_circuit_do_not_verify() {
    let suite = suite();
    let credential = suite.issue_credential("cred:3", "did:example:issuer", &claims()).unwrap();
    if let Ok(proved) = derived(&suite, &credential, &[at_least("age", 18)]) {
        assert!(!suite.verify_proof_at(&proved, 1010).valid);
    }
}

#[test]
fn what_cannot_be_derived() {
    let suite = suite();
    let credential = suite.issue_credential("cred:4", "did:example:issuer", &claims()).unwrap();
    let nine: Vec<PredicateType> = (0..9).map(|i| at_least("age", i)).collect();
    match derived(&suite, &credential, &nine) {
        Err(CredentialError::TooManyPredicates(8, 9)) => {}
        _ => panic!("another outcome"),
    }
    match derived(&suite, &credential, &[at_least("height", 1)]) {
        Err(CredentialError::UnknownAttribute(label)) => assert_eq!(label, "height"),
        _ => panic!("another outcome"),
    }
    let backwards = PredicateType::Range { attribute: "age".to_string(), min: 5, max: 4 };
    match derived(&suite, &credential, &[backwards]) {
        Err(CredentialError::InvalidPredicate(m)) => assert_eq!(m, "min > max"),
        _ => panic!("another outcome"),
    }
    let mut altered = credential.clone();
    altered.claims[0] = Claim::new("age", ClaimValue::Number(40));
    assert!(derived(&suite, &altered, &[]).is_err());
    let unknown = [Claim::new("height", ClaimValue::Number(180))];
    match suite.issue_credential("cred:5", "did:example:issuer", &unknown) {
        Err(CredentialError::UnknownAttribute(label)) => assert_eq!(label, "height"),
        _ => panic!("another outcome"),
    }
}

#[test]
fn issued_commitments_open_to_the_claims() {
    let suite = suite();
    let credential = suite.issue_credential("cred:6", "did:example:issuer", &claims()).unwrap();
    let mut attrs = [Fr::zero(); 16];
    attrs[0] = u64_to_fr(25);
    attrs[1] = hash_attribute("US");
    attrs[2] = hash_attribute("true");
    attrs[3] = u64_to_fr(92);
    attrs[4] = u64_to_fr(1500);
    attrs[5] = u64_to_fr(88);
    let nonce = derive_nonce("cred:6", &suite.holder_secret);
    let blinding = derive_blinding(&suite.holder_secret, &nonce);
    assert_eq!(credential.commitment, create_commitment(&attrs, &blinding).to_text());
    assert_eq!(credential.proof_value, "");
    assert_eq!(credential.cryptosuite, "poseidon-groth16-bn254-2026");
}

#[test]
fn proofs_without_a_suite() {
    let mut attrs = [Fr::zero(); 16];
    attrs[0] = u64_to_fr(30);
    let blinding = u64_to_fr(6);
    let commitment = create_commitment(&attrs, &blinding);
    let mut suite = suite();
    set_up(&mut suite, &[0], &[]);
    let mut mask = [false; 16];
    mask[0] = true;
    let slots = [PredicateSlot::default(); 8];
    let (bytes, inputs) =
        match generate_proof(&suite.setup, &attrs, blinding, commitment, &slots, &mask, 10, 20) {
            Ok(proof) => {
                let mut inputs = [Fr::zero(); 19];
                inputs[0] = attrs[0];
                inputs[16] = commitment;
                inputs[17] = u64_to_fr(10);
                inputs[18] = u64_to_fr(20);
                (proof, inputs)
            }
            Err(e) => panic!("{}", e.message()),
        };
    assert!(verify_proof(&suite.setup, &bytes, &inputs).unwrap());
    let mut other = inputs;
    other[18] = u64_to_fr(21);
    assert!(!verify_proof(&suite.setup, &bytes, &other).unwrap());
    assert!(verify_proof(&suite.setup, &bytes[1..], &inputs).is_err());
}

#[test]
fn keys_survive_their_encoding() {
    let setup = blank_setup();
    let (proving, verifying) = setup.save();
    let again = TrustedSetup::load(&proving, &verifying).unwrap();
    assert_eq!(again.save(), (proving, verifying));
    assert!(TrustedSetup::load(&[], &[]).is_err());
}

#[test]
fn hashes_and_secrets() {
    assert_eq!(
        poseidon_sponge_hash(&[u64_to_fr(1), u64_to_fr(2)]),
        get_poseidon_params().sponge_hash(&[u64_to_fr(1), u64_to_fr(2)])
    );
    assert_ne!(poseidon_hash(&[u64_to_fr(1)], b"a"), poseidon_hash(&[u64_to_fr(1)], b"b"));
    assert_ne!(generate_holder_secret(), generate_holder_secret());
    assert_ne!(generate_credential_nonce(), generate_credential_nonce());
    assert_eq!(derive_nonce("a", &[1; 32]), derive_nonce("a", &[1; 32]));
    assert_ne!(derive_nonce("a", &[1; 32]), derive_nonce("b", &[1; 32]));
    assert_eq!(fr_to_u64(&u64_to_fr(77)), 77);
}

#[test]
fn predicates_in_words_and_numbers() {
    let text = |s: &str| s.to_string();
    let all = vec![
        (at_least("a", 1), "a >= 1", 1),
        (PredicateType::GreaterThan { attribute: text("a"), threshold: 2 }, "a > 2", 2),
        (PredicateType::LessThan { attribute: text("a"), threshold: 3 }, "a < 3", 3),
        (PredicateType::LessThanOrEqual { attribute: text("a"), threshold: 4 }, "a <= 4", 4),
        (PredicateType::Equality { attribute: text("a"), value: text("x") }, "a = \"x\"", 5),
        (PredicateType::NotEqual { attribute: text("a"), value: text("x") }, "a != \"x\"", 6),
        (
            PredicateType::Range { attribute: text("a"), min: 5, max: 6 },
            "a BETWEEN 5 AND 6",
            7,
        ),
        (
            PredicateType::InSet {
                attribute: text("a"),
                allowed_values: vec![text("z"), text("b\"c"), text("a")],
            },
            "a IN [\"a\", \"b\\\"c\", \"z\"]",
            8,
        ),
        (PredicateType::FaceMatch { min_similarity: 7 }, "face_match >= 7", 9),
        (PredicateType::DepthCheck { min_depth_variance: 8 }, "depth_variance >= 8", 10),
        (PredicateType::LivenessCheck { min_confidence: 9 }, "liveness >= 9", 11),
    ];
    for (p, words, code) in all {
        assert_eq!(p.describe(), words);
        assert_eq!(p.to_opcode(), code);
    }
}

#[test]
fn claim_values_as_field_elements() {
    assert_eq!(ClaimValue::Number(9).to_fr(), u64_to_fr(9));
    assert_eq!(ClaimValue::Text("x".to_string()).to_fr(), hash_attribute("x"));
    assert_eq!(ClaimValue::Boolean(true).to_fr(), hash_attribute("true"));
    assert_eq!(ClaimValue::Boolean(false).to_fr(), hash_attribute("false"));
}

fn in_window(start: u64, end: u64) -> CachedProof {
    CachedProof::new(VerifiableCredential {
        credential_id: format!("{}", start),
        issuer_did: String::new(),
        claims: vec![],
        commitment: String::new(),
        proof_value: "AQID".to_string(),
        revealed_labels: vec![],
        predicates_described: vec![],
        cryptosuite: String::new(),
        window_start: start,
        window_expires: end,
    })
}

#[test]
fn the_cache_keeps_the_last_four_that_have_not_ended() {
    let mut cache = ProofCache::new();
    assert!(cache.get_proof_at(0).is_none());
    for i in 0..5 {
        cache.store(0, in_window(30 * i, 30 * i + 30));
    }
    assert_eq!(cache.len(), 4);
    assert!(cache.get_proof_at(10).is_none());
    assert_eq!(cache.get_proof_at(30).unwrap().credential.credential_id, "30");
    assert_eq!(cache.get_proof_at(59).unwrap().proof_bytes, vec![1, 2, 3]);
    assert!(cache.get_proof_at(150).is_none());
    cache.store(90, in_window(150, 180));
    assert_eq!(cache.len(), 3);
    assert!(cache.get_proof_at(60).is_none());
    assert!(cache.get_proof().is_none());
}

#[test]
fn a_found_proof_is_that_of_the_window() {
    let mut cache = ProofCache::new();
    let mut next = ProofCache::window_start_at(1007);
    while let (Task::Prove { start, end }, after) = ProofCache::next_task(next, 900) {
        cache.store(900, in_window(start, end));
        next = after;
    }
    assert_eq!(next, 1050);
    for now in 990..1050 {
        let found = &cache.get_proof_at(now).unwrap().credential;
        assert_eq!(found.window_start, now - now % 30);
        assert_eq!(found.window_expires, found.window_start + 30);
    }
}

#[test]
fn windows_and_tasks() {
    assert_eq!(ProofCache::window_start_at(61), 60);
    assert_eq!(ProofCache::window_start_at(60), 60);
    assert_eq!(ProofCache::current_window_start() % 30, 0);
    assert_eq!(ProofCache::next_task(221, 100), (Task::Wait, 221));
    assert_eq!(ProofCache::next_task(220, 100), (Task::Prove { start: 220, end: 250 }, 250));
}

#[test]
fn suite_errors_in_words() {
    assert_eq!(
        CredentialError::TooManyPredicates(8, 9).message(),
        "Too many predicates: max 8, got 9"
    );
    assert_eq!(CredentialError::ProofExpired(5).message(), "Proof expired at 5");
    assert_eq!(CredentialError::IoError("x".to_string()).message(), "IO error: x");
}

#[test]
fn known_hash_values_under_the_suite_tag() {
    let mut attrs = [Fr::zero(); 16];
    for i in 0..16 {
        attrs[i] = u64_to_fr(i as u64);
    }
    assert_eq!(
        create_commitment(&attrs, &u64_to_fr(999)).to_text(),
        "7279629562025979381689748453842322957113718057629455752448020607991356359246"
    );
    assert_eq!(
        hash_attribute("Alice").to_text(),
        "13187671638802820743650308621708533967726672489533525797066122367501178552935"
    );
    assert_eq!(
        derive_blinding(&[9; 32], &[7; 32]).to_text(),
        "8371677725125310190931315223721639559734458444084232656182727957909918962133"
    );
    assert_eq!(
        hex_text(&derive_nonce("urn:uuid:1", &[9; 32])),
        "10f56353115bfb707591f7a31a71f41259b331d89349b4b74150814c0031887b"
    );
}

#[test]
fn places_behind_a_refusal_do_not_matter() {
    let mut suite = suite();
    for i in 7..20 {
        suite.register_attribute(&format!("extra {}", i));
    }
    let far = "extra 16";
    assert_eq!(suite.attribute_map.get(far), Some(16));
    let credential = suite.issue_credential("cred:7", "did:example:issuer", &claims()).unwrap();

    let nine: Vec<PredicateType> = (0..9).map(|i| at_least(far, i)).collect();
    match suite.derive_proof_with_timestamp(&credential, &show(&[far]), &nine, 1000, 1030) {
        Err(CredentialError::TooManyPredicates(8, 9)) => {}
        _ => panic!("another outcome"),
    }
    let mut altered = credential.clone();
    altered.claims[0] = Claim::new("age", ClaimValue::Number(40));
    let one = [at_least(far, 1)];
    match suite.derive_proof_with_timestamp(&altered, &show(&[far]), &one, 1000, 1030) {
        Err(CredentialError::ConstraintUnsatisfied(m)) => {
            assert!(m.starts_with("COMMITMENT MISMATCH: stored="))
        }
        _ => panic!("another outcome"),
    }
    match suite.derive_proof_with_timestamp(&credential, &show(&["height", far]), &one, 1000, 1030)
    {
        Err(CredentialError::UnknownAttribute(label)) => assert_eq!(label, "height"),
        _ => panic!("another outcome"),
    }
    let mixed = [
        Claim::new("height", ClaimValue::Number(180)),
        Claim::new(far, ClaimValue::Number(1)),
    ];
    match suite.issue_credential("cred:8", "did:example:issuer", &mixed) {
        Err(CredentialError::UnknownAttribute(label)) => assert_eq!(label, "height"),
        _ => panic!("another outcome"),
    }

    let tried = |shown: &[&str], predicates: &[PredicateType]| {
        suite.derive_proof_if_placed(&credential, &show(shown), predicates, 1000, 1030)
    };
    assert!(tried(&[far], &[]).is_none());
    assert!(tried(&[], &one).is_none());
    assert!(tried(&["height", far], &one).unwrap().is_err());
    assert!(tried(&[far], &nine).unwrap().is_err());
    let mut claimed = credential.clone();
    claimed.claims.push(Claim::new(far, ClaimValue::Number(1)));
    assert!(suite.derive_proof_if_placed(&claimed, &show(&[]), &[], 1000, 1030).is_none());

    let mut shown = credential.clone();
    shown.claims.push(Claim::new("extra 19", ClaimValue::Number(1)));
    shown.revealed_labels = vec!["extra 19".to_string()];
    shown.window_start = 1000;
    shown.window_expires = 1030;
    assert_eq!(suite.verify_proof_at(&shown, 999).errors, vec!["Not yet valid until 1000"]);
    assert_eq!(suite.verify_proof_at(&shown, 1030).errors, vec!["Expired at 1030"]);
    shown.proof_value = "=".to_string();
    assert!(!suite.verify_proof_at(&shown, 1010).valid);
}
