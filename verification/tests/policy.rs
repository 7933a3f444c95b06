use ark_bn254::{Bn254, Fr as ArkFr};
use ark_ff::{PrimeField, Zero};
use ark_groth16::Groth16;
use ark_relations::r1cs::{
    ConstraintSynthesizer, ConstraintSystemRef, LinearCombination, SynthesisError, Variable,
};
use ark_serialize::CanonicalSerialize;
use ark_snark::SNARK;
use zk_credentials::field::Fr;
use zk_credentials::gates::{Builder, Matrices, SynthesisError as BuildError};
use zk_credentials::groth16::{KeyPair, VerifyingKey};
use zk_credentials::policy::bundle::{
    assert_consistent, batch_verify, commitment_consistent, prove, prove_at,
};
use zk_credentials::policy::circuit::CredentialCircuit;
use zk_credentials::policy::hash::{
    commit, derive_blinding, domain_fr, fr_to_u64, hash_attribute, sponge_n, u64_to_fr, MERKLE_TAG,
};
use zk_credentials::policy::merkle::{
    build_merkle_tree, generate_merkle_proof, verify_merkle_proof,
};
use zk_credentials::policy::revocation::RevocationList;
use zk_credentials::policy::types::{CredentialPolicy, Predicate, CIRCUIT_VERSION};

/// A constraint system given by its matrices.
struct Given(Matrices);

fn row(entries: &[(Fr, usize)], inputs: usize) -> LinearCombination<ArkFr> {
    LinearCombination(
        entries
            .iter()
            .map(|(c, i)| {
                let variable = if *i == 0 {
                    Variable::One
                } else if *i < inputs {
                    Variable::Instance(*i)
                } else {
                    Variable::Witness(*i - inputs)
                };
                (ArkFr::from_be_bytes_mod_order(&c.to_bytes_be()), variable)
            })
            .collect(),
    )
}

impl ConstraintSynthesizer<ArkFr> for Given {
    fn generate_constraints(self, cs: ConstraintSystemRef<ArkFr>) -> Result<(), SynthesisError> {
        let m = self.0;
        for _ in 1..m.num_instance_variables {
            cs.new_input_variable(|| Ok(ArkFr::zero()))?;
        }
        for _ in 0..m.num_witness_variables {
            cs.new_witness_variable(|| Ok(ArkFr::zero()))?;
        }
        for i in 0..m.a.len() {
            cs.enforce_constraint(
                row(&m.a[i], m.num_instance_variables),
                row(&m.b[i], m.num_instance_variables),
                row(&m.c[i], m.num_instance_variables),
            )?;
        }
        Ok(())
    }
}

fn key_bytes(matrices: Matrices) -> (Vec<u8>, Vec<u8>) {
    let mut rng = ark_std::rand::thread_rng();
    let (pk, vk) = Groth16::<Bn254>::circuit_specific_setup(Given(matrices), &mut rng).unwrap();
    let (mut proving, mut verifying) = (Vec::new(), Vec::new());
    pk.serialize_compressed(&mut proving).unwrap();
    vk.serialize_compressed(&mut verifying).unwrap();
    (proving, verifying)
}

fn attributes() -> [Fr; 16] {
    let mut attrs = [Fr::zero(); 16];
    attrs[0] = u64_to_fr(25);
    attrs[2] = hash_attribute("US");
    attrs[3] = u64_to_fr(92);
    attrs[4] = u64_to_fr(1500);
    attrs[5] = u64_to_fr(88);
    attrs[6] = hash_attribute("BSc");
    attrs[7] = u64_to_fr(12345);
    attrs[8] = u64_to_fr(100);
    attrs[9] = hash_attribute("Gold");
    attrs[10] = hash_attribute("VIP");
    attrs[11] = u64_to_fr(150);
    attrs[12] = u64_to_fr(30);
    attrs[13] = u64_to_fr(999);
    attrs
}

fn policy() -> CredentialPolicy {
    CredentialPolicy {
        version: CIRCUIT_VERSION,
        age_threshold: 18,
        citizenship: hash_attribute("US"),
        face_threshold: 85,
        liveness_threshold: 80,
        allowed_diplomas: vec![
            hash_attribute("BSc"),
            hash_attribute("MSc"),
            hash_attribute("PhD"),
        ],
        expiry_timestamp: Some(2_000_000_000),
        required_nonce: Some(u64_to_fr(12345)),
    }
}

fn all_predicates() -> Vec<Predicate> {
    vec![
        Predicate::Gte(50),
        Predicate::Eq(hash_attribute("Gold")),
        Predicate::InSet(vec![
            hash_attribute("VIP"),
            hash_attribute("Premium"),
            hash_attribute("Gold"),
        ]),
        Predicate::Range(100, 200),
        Predicate::Lt(50),
        Predicate::Neq(u64_to_fr(888)),
    ]
}

const NOW: u64 = 1_900_000_000;

fn plain_policy() -> CredentialPolicy {
    CredentialPolicy { expiry_timestamp: None, required_nonce: None, ..policy() }
}

fn with(policy: &CredentialPolicy, attrs: [Fr; 16], predicates: Vec<Predicate>) -> CredentialCircuit {
    CredentialCircuit::new_enhanced(
        attrs,
        u64_to_fr(77),
        [false; 16],
        policy,
        None,
        None,
        predicates,
    )
}

/// Whether a credential meets what it is to prove.
fn met_at(c: &CredentialCircuit, now: u64) -> bool {
    let b = c.generate_constraints_at(Builder::for_proving(), now).unwrap();
    b.is_satisfied().unwrap()
}

fn met(c: &CredentialCircuit) -> bool {
    met_at(c, NOW)
}

fn keys_for(c: &CredentialCircuit) -> KeyPair {
    let (proving, verifying) = key_bytes(c.circuit_matrices().unwrap());
    KeyPair::from_bytes(&proving, &verifying).unwrap()
}

fn refusal(predicate: Predicate) -> BuildError {
    let c = with(&plain_policy(), attributes(), vec![predicate]);
    c.generate_constraints_at(Builder::for_proving(), NOW).err().unwrap()
}

#[test]
fn circuit_and_direct_commitments_agree() {
    let (agrees, hash) = assert_consistent();
    assert!(agrees);
    let mut sample = [Fr::zero(); 16];
    for i in 0..16 {
        sample[i] = u64_to_fr(i as u64 + 1);
    }
    assert_eq!(hash, commit(&sample, &u64_to_fr(999)));
    assert!(commitment_consistent(&attributes(), &u64_to_fr(5)).0);
}

#[test]
fn a_commitment_is_the_sponge_of_its_parts() {
    let attrs = attributes();
    let mut inputs = vec![domain_fr("Commitment")];
    inputs.extend_from_slice(&attrs);
    inputs.push(u64_to_fr(5));
    assert_eq!(commit(&attrs, &u64_to_fr(5)), sponge_n(&inputs));
    assert_ne!(commit(&attrs, &u64_to_fr(5)), commit(&attrs, &u64_to_fr(6)));
    assert_ne!(derive_blinding(&[1; 32], "a"), derive_blinding(&[1; 32], "b"));
    assert_eq!(fr_to_u64(&u64_to_fr(u64::MAX)), u64::MAX);
}

#[test]
fn a_basic_proof_verifies_in_a_batch() {
    let zero = Fr::zero();
    let diplomas = [
        hash_attribute("BSc"),
        hash_attribute("MSc"),
        hash_attribute("PhD"),
        zero,
        zero,
        zero,
    ];
    let citizenship = hash_attribute("US");
    let credential = CredentialCircuit::new_prove(
        attributes(),
        u64_to_fr(77),
        [false; 16],
        18,
        citizenship,
        85,
        80,
        diplomas,
    );
    assert!(met(&credential));
    let blank =
        CredentialCircuit::new_prove([zero; 16], zero, [false; 16], 18, citizenship, 85, 80, diplomas);
    let keys = keys_for(&blank);
    let bundle = prove(&credential, plain_policy(), &keys).unwrap();
    assert_eq!(bundle.public_inputs.len(), 22);
    assert_eq!(bundle.public_inputs[16], commit(&attributes(), &u64_to_fr(77)));
    assert_eq!(bundle.public_inputs[21], Fr::one());

    let mut altered = bundle.clone();
    altered.public_inputs[17] = u64_to_fr(26);
    let mut broken = bundle.clone();
    broken.proof[0] ^= 1;
    let mut short = bundle.clone();
    short.public_inputs.pop();
    let key = VerifyingKey::from_bytes(&keys.public_key().to_bytes()).unwrap();
    let results = batch_verify(&[bundle, altered, broken, short], &key);
    assert_eq!(results, vec![true, false, false, false]);
    assert!(batch_verify(&[], &key).is_empty());
    assert!(VerifyingKey::from_bytes(&[1, 2, 3]).is_err());
}

#[test]
fn an_enhanced_proof_verifies_with_every_predicate() {
    let policy = policy();
    let mut reveals = [false; 16];
    reveals[2] = true;
    let root = Some(u64_to_fr(4711));
    let credential = CredentialCircuit::new_enhanced(
        attributes(),
        u64_to_fr(77),
        reveals,
        &policy,
        None,
        root,
        all_predicates(),
    );
    let zero = Fr::zero();
    let blank = CredentialCircuit::new_enhanced(
        [zero; 16],
        zero,
        reveals,
        &policy,
        None,
        root,
        all_predicates(),
    );
    let keys = keys_for(&blank);
    let bundle = prove_at(&credential, policy, &keys, NOW).unwrap();
    assert_eq!(bundle.public_inputs.len(), 25);
    assert_eq!(bundle.public_inputs[0], zero);
    assert_eq!(bundle.public_inputs[2], hash_attribute("US"));
    assert_eq!(bundle.public_inputs[17], u64_to_fr(18));
    assert_eq!(bundle.public_inputs[22], u64_to_fr(2_000_000_000));
    assert_eq!(bundle.public_inputs[23], u64_to_fr(12345));
    assert_eq!(bundle.public_inputs[24], u64_to_fr(4711));
    assert_eq!(bundle.timestamp, NOW);
    assert_eq!(bundle.version, CIRCUIT_VERSION);
    assert_eq!(bundle.proof.len(), 128);
    assert_eq!(batch_verify(&[bundle], &keys.public_key()), vec![true]);
}

#[test]
fn a_credential_that_falls_short_is_not_proved() {
    let mut attrs = attributes();
    attrs[0] = u64_to_fr(17);
    let credential = with(&plain_policy(), attrs, vec![]);
    let keys = keys_for(&credential);
    let outcome = prove_at(&credential, plain_policy(), &keys, NOW);
    assert_eq!(outcome.unwrap_err(), BuildError::Unsatisfiable);
    let refused = with(&plain_policy(), attributes(), vec![Predicate::Lt(0)]);
    let outcome = prove_at(&refused, plain_policy(), &keys, NOW);
    assert_eq!(outcome.unwrap_err(), BuildError::AssignmentMissing);
}

#[test]
fn every_check_is_enforced() {
    let p = plain_policy();
    assert!(met(&with(&p, attributes(), vec![])));
    for (place, value) in [
        (0, u64_to_fr(17)),
        (0, u64_to_fr(1 << 32)),
        (2, hash_attribute("FR")),
        (3, u64_to_fr(84)),
        (5, u64_to_fr(79)),
        (6, hash_attribute("None")),
    ] {
        let mut attrs = attributes();
        attrs[place] = value;
        assert!(!met(&with(&p, attrs, vec![])), "attribute {}", place);
    }
    let mut attrs = attributes();
    attrs[0] = u64_to_fr(18);
    attrs[3] = u64_to_fr(85);
    attrs[5] = u64_to_fr(80);
    attrs[6] = hash_attribute("PhD");
    assert!(met(&with(&p, attrs, vec![])));
    let mut other = with(&p, attributes(), vec![]);
    other.commitment = u64_to_fr(1);
    assert!(!met(&other));
}

#[test]
fn diplomas_matter_only_where_the_policy_names_any() {
    let free = CredentialPolicy { allowed_diplomas: vec![], ..plain_policy() };
    let mut attrs = attributes();
    attrs[6] = hash_attribute("None");
    let credential = with(&free, attrs, vec![]);
    assert!(!credential.diploma_sel);
    assert_eq!(credential.public_inputs()[21], Fr::zero());
    assert!(met(&credential));
    let many = CredentialPolicy {
        allowed_diplomas: (1..9).map(u64_to_fr).collect(),
        ..plain_policy()
    };
    attrs[6] = u64_to_fr(6);
    assert!(met(&with(&many, attrs, vec![])));
    attrs[6] = u64_to_fr(7);
    assert!(!met(&with(&many, attrs, vec![])));
    attrs[6] = Fr::zero();
    assert!(met(&with(&plain_policy(), attrs, vec![])));
}

#[test]
fn expiry_and_nonce_are_enforced() {
    let p = policy();
    let credential = with(&p, attributes(), vec![]);
    assert!(met_at(&credential, 2_000_000_000));
    assert!(!met_at(&credential, 2_000_000_001));
    let far = CredentialPolicy { expiry_timestamp: Some(1 << 32), ..p.clone() };
    assert!(!met(&with(&far, attributes(), vec![])));
    let mut attrs = attributes();
    attrs[7] = u64_to_fr(12346);
    assert!(!met(&with(&p, attrs, vec![])));
    let b = credential.generate_constraints(Builder::for_proving()).unwrap();
    assert_eq!(b.is_satisfied(), Some(true));
}

#[test]
fn every_predicate_holds_at_its_bounds_and_not_beyond() {
    let p = plain_policy();
    let check = |place: usize, value: Fr, predicate: Predicate| {
        let mut attrs = attributes();
        attrs[place] = value;
        met(&with(&p, attrs, vec![predicate]))
    };
    assert!(check(8, u64_to_fr(50), Predicate::Gte(50)));
    assert!(!check(8, u64_to_fr(49), Predicate::Gte(50)));
    assert!(check(8, Fr::zero(), Predicate::Gte(0)));
    assert!(check(9, u64_to_fr(3), Predicate::Eq(u64_to_fr(3))));
    assert!(!check(9, u64_to_fr(3), Predicate::Eq(u64_to_fr(4))));
    let set = vec![u64_to_fr(1), u64_to_fr(2)];
    assert!(check(10, u64_to_fr(2), Predicate::InSet(set.clone())));
    assert!(!check(10, u64_to_fr(3), Predicate::InSet(set)));
    assert!(check(11, u64_to_fr(100), Predicate::Range(100, 200)));
    assert!(check(11, u64_to_fr(200), Predicate::Range(100, 200)));
    assert!(!check(11, u64_to_fr(99), Predicate::Range(100, 200)));
    assert!(!check(11, u64_to_fr(201), Predicate::Range(100, 200)));
    assert!(check(12, u64_to_fr(49), Predicate::Lt(50)));
    assert!(!check(12, u64_to_fr(50), Predicate::Lt(50)));
    assert!(check(13, u64_to_fr(887), Predicate::Neq(u64_to_fr(888))));
    assert!(!check(13, u64_to_fr(888), Predicate::Neq(u64_to_fr(888))));
}

#[test]
fn predicates_without_a_circuit_are_refused() {
    assert_eq!(refusal(Predicate::Gte(1 << 32)), BuildError::AssignmentMissing);
    assert_eq!(refusal(Predicate::Lt(0)), BuildError::AssignmentMissing);
    assert_eq!(refusal(Predicate::Lt(1 << 32)), BuildError::AssignmentMissing);
    assert_eq!(refusal(Predicate::Range(0, 1 << 32)), BuildError::AssignmentMissing);
    assert_eq!(refusal(Predicate::Range(1 << 32, 0)), BuildError::AssignmentMissing);
    assert_eq!(refusal(Predicate::InSet(vec![])), BuildError::Unsatisfiable);
    let both = vec![Predicate::InSet(vec![]), Predicate::Lt(0)];
    let c = with(&plain_policy(), attributes(), both);
    assert_eq!(c.circuit_matrices().err(), Some(BuildError::Unsatisfiable));
}

#[test]
fn every_leaf_of_a_tree_has_a_proof() {
    let commitments: Vec<Fr> = (1..6).map(u64_to_fr).collect();
    let (root, levels) = build_merkle_tree(&commitments);
    assert_eq!(levels.iter().map(|l| l.len()).collect::<Vec<_>>(), vec![5, 3, 2, 1]);
    assert_eq!(levels[3][0], root);
    assert_eq!(
        levels[0][1],
        sponge_n(&[domain_fr(MERKLE_TAG), u64_to_fr(2), u64_to_fr(1)])
    );
    assert_eq!(
        levels[1][0],
        sponge_n(&[domain_fr(MERKLE_TAG), levels[0][0], levels[0][1]])
    );
    for i in 0..5 {
        let proof = generate_merkle_proof(&levels, i);
        assert_eq!(proof.root, root);
        assert_eq!(proof.path.len(), 3);
        assert!(verify_merkle_proof(&proof));
        let mut wrong = proof.clone();
        wrong.leaf = u64_to_fr(9);
        assert!(!verify_merkle_proof(&wrong));
        let mut unread = proof;
        unread.path[0].0 = "x".to_string();
        assert!(!verify_merkle_proof(&unread));
    }
    let (root, levels) = build_merkle_tree(&[]);
    assert_eq!(root, Fr::zero());
    assert!(levels.is_empty());
}

#[test]
fn revoked_commitments_are_found_with_their_proofs() {
    let mut list = RevocationList::new_at(5);
    assert_eq!((list.version, list.updated_at), (1, 5));
    assert_eq!(list.merkle_root, Fr::zero());
    assert!(!list.contains(&u64_to_fr(10)));
    list.revoke_at(u64_to_fr(10), "lost".to_string(), 6);
    list.revoke_at(u64_to_fr(11), "stolen".to_string(), 7);
    list.revoke_at(u64_to_fr(10), "again".to_string(), 8);
    assert_eq!(list.updated_at, 8);
    assert_eq!(list.entries[1].timestamp, 7);
    assert_eq!(list.entries[1].reason, "stolen");
    let commitments = [u64_to_fr(10), u64_to_fr(11), u64_to_fr(10)];
    let (root, levels) = build_merkle_tree(&commitments);
    assert_eq!(list.merkle_root, root);
    assert!(list.contains(&u64_to_fr(11)));
    let proof = list.get_merkle_proof(&u64_to_fr(10)).unwrap();
    assert_eq!(proof.leaf, levels[0][0]);
    assert!(verify_merkle_proof(&proof));
    assert!(list.get_merkle_proof(&u64_to_fr(12)).is_none());

    let mut current = RevocationList::new();
    current.revoke(u64_to_fr(1), "now".to_string());
    assert!(current.updated_at > 1_600_000_000);
    assert_eq!(current.entries[0].timestamp, current.updated_at);
    assert!(verify_merkle_proof(&current.get_merkle_proof(&u64_to_fr(1)).unwrap()));
}

#[test]
fn known_hash_values_under_the_policy_tag() {
    let mut attrs = [Fr::zero(); 16];
    for i in 0..16 {
        attrs[i] = u64_to_fr(i as u64 + 1);
    }
    assert_eq!(
        commit(&attrs, &u64_to_fr(999)).to_text(),
        "18928114383327030867413766218851889620211585551751384606840614424845910488281"
    );
    assert_eq!(
        hash_attribute("US").to_text(),
        "8482616674118362011583780995580579530840022090458557768724915952525091232343"
    );
    assert_eq!(
        derive_blinding(&[1; 32], "a").to_text(),
        "21199232005130287418345017404748684206046187495563003145687410375694970964794"
    );
    let commitments = [u64_to_fr(10), u64_to_fr(11), u64_to_fr(10)];
    assert_eq!(
        build_merkle_tree(&commitments).0.to_text(),
        "16413459504613949962558645326550327607585977866782210788178039627350218550220"
    );
}
