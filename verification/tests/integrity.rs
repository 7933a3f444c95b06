use ark_bn254::{Bn254, Fr as ArkFr};
use ark_ff::{PrimeField, Zero};
use ark_groth16::Groth16;
use ark_relations::r1cs::{
    ConstraintSynthesizer, ConstraintSystemRef, LinearCombination, SynthesisError, Variable,
};
use ark_serialize::CanonicalSerialize;
use ark_snark::SNARK;
use zk_credentials::base64url::encode;
use zk_credentials::disclosure::SelectiveDisclosureCircuit;
use zk_credentials::field::Fr;
use zk_credentials::gates::{Builder, Matrices, SynthesisError as BuildError};
use zk_credentials::groth16::KeyPair;
use zk_credentials::integrity::{derive_blinding, element_of, random_fr, w3c_credential};
use zk_credentials::w3c::primitives::{
    create_commitment, generate_master_secret, get_commitment_domain, hash_attribute,
};

/// A constraint system given by its matrices.
struct Given(Matrices);

fn row(entries: &[(Fr, usize)], inputs: usize) -> LinearCombination<ArkFr> {
    LinearCombination(
        entries
            .iter()
            .map(|(c, i)| {
                let variable = if *i == 0 {
                    Variable::One
                } else if *i < inputs {
                    Variable::Instance(*i)
                } else {
                    Variable::Witness(*i - inputs)
                };
                (ArkFr::from_be_bytes_mod_order(&c.to_bytes_be()), variable)
            })
            .collect(),
    )
}

impl ConstraintSynthesizer<ArkFr> for Given {
    fn generate_constraints(self, cs: ConstraintSystemRef<ArkFr>) -> Result<(), SynthesisError> {
        let m = self.0;
        for _ in 1..m.num_instance_variables {
            cs.new_input_variable(|| Ok(ArkFr::zero()))?;
        }
        for _ in 0..m.num_witness_variables {
            cs.new_witness_variable(|| Ok(ArkFr::zero()))?;
        }
        for i in 0..m.a.len() {
            cs.enforce_constraint(
                row(&m.a[i], m.num_instance_variables),
                row(&m.b[i], m.num_instance_variables),
                row(&m.c[i], m.num_instance_variables),
            )?;
        }
        Ok(())
    }
}

fn key_bytes(matrices: Matrices) -> (Vec<u8>, Vec<u8>) {
    let mut rng = ark_std::rand::thread_rng();
    let (pk, vk) = Groth16::<Bn254>::circuit_specific_setup(Given(matrices), &mut rng).unwrap();
    let (mut proving, mut verifying) = (Vec::new(), Vec::new());
    pk.serialize_compressed(&mut proving).unwrap();
    vk.serialize_compressed(&mut verifying).unwrap();
    (proving, verifying)
}

fn blank(mask: [bool; 16]) -> SelectiveDisclosureCircuit {
    SelectiveDisclosureCircuit {
        attributes: [None; 16],
        mask,
        blinding: None,
        expected_commitment: None,
        age_threshold: None,
        age_index: 2,
        domain_element: get_commitment_domain(),
    }
}

fn keys_for(mask: [bool; 16]) -> KeyPair {
    let b = blank(mask).generate_constraints(Builder::for_setup()).unwrap();
    let (proving, verifying) = key_bytes(b.into_matrices());
    KeyPair::from_bytes(&proving, &verifying).unwrap()
}

#[test]
fn test_end_to_end() {
    let id = "test:1";
    let secret = generate_master_secret();
    let blinding = derive_blinding(&secret, id, 0);

    let mut attrs = [Fr::zero(); 16];
    attrs[0] = hash_attribute("Alice");
    attrs[2] = Fr::from_u64(25);
    attrs[3] = hash_attribute("true");

    let commitment = create_commitment(&attrs, &blinding);
    let mut mask = [false; 16];
    mask[3] = true;

    let keys = keys_for(mask);
    let circuit = SelectiveDisclosureCircuit {
        attributes: attrs.map(Some),
        mask,
        blinding: Some(blinding),
        expected_commitment: Some(commitment),
        age_threshold: Some(Fr::from_u64(18)),
        age_index: 2,
        domain_element: get_commitment_domain(),
    };
    let b = circuit.generate_constraints(Builder::for_proving()).unwrap();
    let proof = keys.prove(b).unwrap();

    let mut pi = vec![Fr::zero(); 16];
    pi[3] = attrs[3];
    pi.push(commitment);
    pi.push(Fr::from_u64(18));

    assert!(keys.verify(&pi, &proof).unwrap());

    pi[17] = Fr::from_u64(30);
    assert!(!keys.verify(&pi, &proof).unwrap());
    assert!(keys.verify(&pi[1..], &proof).is_err());

    let text = w3c_credential(id, &proof, &commitment);
    assert!(text.contains("  \"id\": \"test:1\",\n"));
    assert!(text.contains(&format!("    \"commitment\": \"{}\",\n", commitment.to_text())));
    assert!(text.contains(&format!("    \"proofValue\": \"{}\",\n", encode(&proof.to_bytes()))));
    assert!(text.ends_with("    \"domain\": \"https://verifier.example\"\n  }\n}"));
}

#[test]
fn test_blinding_deterministic() {
    let s = generate_master_secret();
    assert_eq!(derive_blinding(&s, "x", 0), derive_blinding(&s, "x", 0));
}

#[test]
fn test_false_predicate_fails() {
    let id = "test:2";
    let secret = generate_master_secret();
    let blinding = derive_blinding(&secret, id, 0);

    let mut attrs = [Fr::zero(); 16];
    attrs[2] = Fr::from_u64(15);
    attrs[3] = hash_attribute("true");

    let commitment = create_commitment(&attrs, &blinding);
    let mut mask = [false; 16];
    mask[3] = true;

    let keys = keys_for(mask);
    let circuit = SelectiveDisclosureCircuit {
        attributes: attrs.map(Some),
        mask,
        blinding: Some(blinding),
        expected_commitment: Some(commitment),
        age_threshold: Some(Fr::from_u64(18)),
        age_index: 2,
        domain_element: get_commitment_domain(),
    };
    let b = circuit.generate_constraints(Builder::for_proving()).unwrap();
    assert!(keys.prove(b).is_err());
}

#[test]
fn a_circuit_without_values_cannot_be_proved() {
    let outcome = blank([true; 16]).generate_constraints(Builder::for_proving());
    assert_eq!(outcome.err(), Some(BuildError::AssignmentMissing));
}

#[test]
fn blinding_depends_on_every_argument() {
    let s = [7u8; 32];
    let b = derive_blinding(&s, "x", 0);
    assert_ne!(b, derive_blinding(&s, "x", 1));
    assert_ne!(b, derive_blinding(&s, "y", 0));
    assert_ne!(b, derive_blinding(&[8u8; 32], "x", 0));
}

#[test]
fn elements_are_read_with_the_lowest_byte_first() {
    let mut bytes = [0u8; 32];
    bytes[0] = 1;
    bytes[1] = 2;
    assert_eq!(element_of(&bytes), Fr::from_u64(513));
}

#[test]
fn random_elements_differ() {
    assert_ne!(random_fr(), random_fr());
    assert_ne!(generate_master_secret(), generate_master_secret());
}

#[test]
fn trailing_zero_bits_are_dropped() {
    assert_eq!(encode(b"Man"), "TWFu");
    assert_eq!(encode(&[0, 0, 0]), "");
    assert_eq!(encode(&[255, 0, 0]), "_w");
}

#[test]
fn one_missing_value_is_enough_for_a_refusal() {
    let attrs = [Fr::from_u64(20); 16];
    let blinding = Fr::from_u64(7);
    let full = || SelectiveDisclosureCircuit {
        attributes: attrs.map(Some),
        mask: [false; 16],
        blinding: Some(blinding),
        expected_commitment: Some(create_commitment(&attrs, &blinding)),
        age_threshold: Some(Fr::from_u64(18)),
        age_index: 2,
        domain_element: get_commitment_domain(),
    };
    let b = full().generate_constraints(Builder::for_proving()).unwrap();
    assert_eq!(b.is_satisfied(), Some(true));
    assert_eq!(keys_for([false; 16]).prove(b).ok().unwrap().to_bytes().len(), 128);
    let refused = |c: SelectiveDisclosureCircuit| {
        let outcome = c.generate_constraints(Builder::for_proving());
        assert_eq!(outcome.err(), Some(BuildError::AssignmentMissing));
    };
    for i in 0..16 {
        let mut c = full();
        c.attributes[i] = None;
        refused(c);
    }
    refused(SelectiveDisclosureCircuit { blinding: None, ..full() });
    refused(SelectiveDisclosureCircuit { expected_commitment: None, ..full() });
    refused(SelectiveDisclosureCircuit { age_threshold: None, ..full() });
    assert_eq!(Builder::for_setup().is_satisfied(), None);
}
