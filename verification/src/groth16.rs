//! Groth16 over BN254: keys, proofs and their checks.
//!
//! Keys and proofs are held as their compressed encodings. Proving and
//! verifying are those of `ark_groth16`.
use crate::decoding;
use crate::field;
use crate::field::Fr;
use crate::gates;
use crate::gates::{Builder, Gate, SynthesisError};
use ark_bn254::{Bn254, Fr as ArkFr};
use ark_ff::{BigInt, UniformRand};
use ark_groth16::Groth16;
use ark_relations::r1cs::SynthesisError as ArkError;
use ark_serialize::{CanonicalDeserialize, CanonicalSerialize, Compress, Validate};
use ark_snark::SNARK;
use vstd::prelude::*;

verus! {

/// What decoding a compressed proof gives: the encoding of the proof, or the
/// error in words.
pub uninterp spec fn decoded_proof(bytes: Seq<u8>) -> Result<Seq<u8>, Seq<char>>;

/// What decoding a compressed proving key gives.
pub uninterp spec fn decoded_proving_key(bytes: Seq<u8>) -> Result<Seq<u8>, Seq<char>>;

/// What decoding a compressed verifying key gives.
pub uninterp spec fn decoded_verifying_key(bytes: Seq<u8>) -> Result<Seq<u8>, Seq<char>>;

/// The numbers of elements that a proving key has for the three queries over all
/// variables.
pub uninterp spec fn query_sizes(proving_key: Seq<u8>) -> (nat, nat, nat);

/// Whether a proving and a verifying key are a pair that the circuit-specific
/// setup gives for the circuit of a record. No function here says that it is so:
/// whoever ran the setup vouches for it.
pub uninterp spec fn is_key_pair(
    proving_key: Seq<u8>,
    verifying_key: Seq<u8>,
    gates: Seq<Gate>,
) -> bool;

/// What checking a proof against a verifying key and public values gives.
pub uninterp spec fn verdict(
    verifying_key: Seq<u8>,
    inputs: Seq<nat>,
    proof: Seq<u8>,
) -> Result<bool, SynthesisError>;

/// The size of the largest evaluation domain of the scalar field: two to the power
/// of 28.
pub const DOMAIN_SIZE: usize = 0x1000_0000;

/// Whether the constraints and public variables of a circuit fit the largest
/// evaluation domain of the scalar field.
pub open spec fn domain_fits(gates: Seq<Gate>) -> bool {
    let (instance, _, a, _, _) = gates::constraint_matrices(gates);
    a.len() + instance <= DOMAIN_SIZE
}

/// A proof verifies.
pub open spec fn accepts(verifying_key: Seq<u8>, inputs: Seq<nat>, proof: Seq<u8>) -> bool {
    let outcome = verdict(verifying_key, inputs, proof);
    outcome is Ok && outcome->Ok_0
}

/// `ark_groth16::Proof::deserialize_compressed`, and the proof again in
/// compressed form. An encoding of a proof decodes to itself and has 128 bytes.
#[verifier::external_body]
fn ark_decode_proof(bytes: &[u8]) -> (r: Result<Vec<u8>, String>)
    ensures
        r matches Ok(proof) ==> decoding::gives(decoded_proof(bytes@), proof@),
        r matches Ok(proof) ==> decoding::gives(decoded_proof(proof@), proof@),
        r matches Ok(proof) ==> proof@.len() == 128,
        r matches Err(e) ==> decoding::fails(decoded_proof(bytes@), e@),
{
    let proof = ark_groth16::Proof::<Bn254>::deserialize_compressed(bytes).map_err(
        |e| e.to_string(),
    )?;
    let mut encoded = Vec::new();
    proof.serialize_compressed(&mut encoded).map_err(|e| e.to_string())?;
    Ok(encoded)
}

/// `ark_groth16::ProvingKey::deserialize_compressed`, and the key again in
/// compressed form, which decodes to itself.
#[verifier::external_body]
fn ark_decode_proving_key(bytes: &[u8]) -> (r: Result<Vec<u8>, String>)
    ensures
        r matches Ok(key) ==> decoding::gives(decoded_proving_key(bytes@), key@),
        r matches Ok(key) ==> decoding::gives(decoded_proving_key(key@), key@),
        r matches Err(e) ==> decoding::fails(decoded_proving_key(bytes@), e@),
{
    let key = ark_groth16::ProvingKey::<Bn254>::deserialize_compressed(bytes).map_err(
        |e| e.to_string(),
    )?;
    let mut encoded = Vec::new();
    key.serialize_compressed(&mut encoded).map_err(|e| e.to_string())?;
    Ok(encoded)
}

/// `ark_groth16::VerifyingKey::deserialize_compressed`, and the key again in
/// compressed form, which decodes to itself.
#[verifier::external_body]
fn ark_decode_verifying_key(bytes: &[u8]) -> (r: Result<Vec<u8>, String>)
    ensures
        r matches Ok(key) ==> decoding::gives(decoded_verifying_key(bytes@), key@),
        r matches Ok(key) ==> decoding::gives(decoded_verifying_key(key@), key@),
        r matches Err(e) ==> decoding::fails(decoded_verifying_key(bytes@), e@),
{
    let key = ark_groth16::VerifyingKey::<Bn254>::deserialize_compressed(bytes).map_err(
        |e| e.to_string(),
    )?;
    let mut encoded = Vec::new();
    key.serialize_compressed(&mut encoded).map_err(|e| e.to_string())?;
    Ok(encoded)
}

/// The lengths of `a_query`, `b_g1_query` and `b_g2_query` of an
/// `ark_groth16::ProvingKey`. A key that the setup gave has one element in each
/// of them for every variable and for the constant one.
#[verifier::external_body]
fn ark_query_sizes(proving_key: &[u8]) -> (r: (usize, usize, usize))
    requires
        decoded_proving_key(proving_key@) is Ok,
    ensures
        (r.0 as nat, r.1 as nat, r.2 as nat) == query_sizes(proving_key@),
        forall|verifying_key: Seq<u8>, gates: Seq<Gate>| #[trigger]
            is_key_pair(proving_key@, verifying_key, gates) ==> r.0 > 0 && r.1 > 0 && r.2 > 0,
{
    let key = ark_groth16::ProvingKey::<Bn254>::deserialize_with_mode(
        proving_key,
        Compress::Yes,
        Validate::No,
    ).unwrap();
    (key.a_query.len(), key.b_g1_query.len(), key.b_g2_query.len())
}

/// `Groth16::create_proof_with_reduction_and_matrices` with fresh randomness, on
/// the matrices and values of a finished circuit. It fails exactly when the
/// circuit does not fit an evaluation domain, which the setup of a key for the
/// circuit would have failed on too. The proof is an encoding of a proof, in 128
/// bytes; and where the values meet the circuit and the key is one of a pair for
/// it, the proof verifies with the public values.
#[verifier::external_body]
fn ark_prove(proving_key: &[u8], b: Builder) -> (r: Result<Vec<u8>, SynthesisError>)
    requires
        decoded_proving_key(proving_key@) is Ok,
        query_sizes(proving_key@).0 > 0,
        query_sizes(proving_key@).1 > 0,
        query_sizes(proving_key@).2 > 0,
        gates::assigned(b) is Some,
    ensures
        r is Ok <==> domain_fits(gates::recorded(b)),
        r matches Err(e) ==> e == SynthesisError::PolynomialDegreeTooLarge,
        forall|verifying_key: Seq<u8>| #[trigger]
            is_key_pair(proving_key@, verifying_key, gates::recorded(b)) ==> r is Ok,
        r matches Ok(proof) ==> decoding::gives(decoded_proof(proof@), proof@),
        r matches Ok(proof) ==> proof@.len() == 128,
        r matches Ok(proof) ==> (gates::holds(gates::recorded(b), gates::assigned(b)->0)
            ==> forall|verifying_key: Seq<u8>| #[trigger]
            is_key_pair(proving_key@, verifying_key, gates::recorded(b)) ==> accepts(
                verifying_key,
                gates::public_values(gates::recorded(b), gates::assigned(b)->0),
                proof@,
            )),
{
    let key = CanonicalDeserialize::deserialize_with_mode(proving_key, Compress::Yes, Validate::No);
    let mut rng = ark_std::rand::thread_rng();
    let (r, s) = (ArkFr::rand(&mut rng), ArkFr::rand(&mut rng));
    b.cs.finalize();
    let matrices = b.cs.to_matrices().unwrap();
    let cs = b.cs.borrow().unwrap();
    let assignment = [cs.instance_assignment.as_slice(), &cs.witness_assignment].concat();
    let proof = Groth16::<Bn254>::create_proof_with_reduction_and_matrices(
        &key.unwrap(), r, s, &matrices, cs.num_instance_variables, cs.num_constraints, &assignment,
    ).map_err(|_| SynthesisError::PolynomialDegreeTooLarge)?;
    let mut encoded = Vec::new();
    proof.serialize_compressed(&mut encoded).unwrap();
    Ok(encoded)
}

/// `ark_snark::SNARK::verify` of `Groth16`: its result is a function of the key,
/// the public values and the proof.
#[verifier::external_body]
fn ark_verify(verifying_key: &[u8], inputs: &[Fr], proof: &[u8]) -> (r: Result<
    bool,
    SynthesisError,
>)
    requires
        decoded_verifying_key(verifying_key@) is Ok,
        decoded_proof(proof@) is Ok,
    ensures
        r == verdict(verifying_key@, field::values(inputs@), proof@),
{
    let key = CanonicalDeserialize::deserialize_compressed(verifying_key).unwrap();
    let proof = CanonicalDeserialize::deserialize_compressed(proof).unwrap();
    let values: Vec<ArkFr> = inputs.iter().map(|x| ArkFr::new(BigInt::new(x.limbs()))).collect();
    Groth16::<Bn254>::verify(&key, &values, &proof).map_err(|e| match e {
        ArkError::MissingCS => SynthesisError::MissingCS,
        ArkError::AssignmentMissing => SynthesisError::AssignmentMissing,
        ArkError::DivisionByZero => SynthesisError::DivisionByZero,
        ArkError::Unsatisfiable => SynthesisError::Unsatisfiable,
        ArkError::PolynomialDegreeTooLarge => SynthesisError::PolynomialDegreeTooLarge,
        ArkError::UnexpectedIdentity => SynthesisError::UnexpectedIdentity,
        ArkError::MalformedVerifyingKey => SynthesisError::MalformedVerifyingKey,
        ArkError::UnconstrainedVariable => SynthesisError::UnconstrainedVariable,
    })
}

/// A Groth16 proof.
pub struct Proof {
    encoded: Vec<u8>,
}

impl Proof {
    #[verifier::type_invariant]
    spec fn is_proof(self) -> bool {
        &&& decoding::gives(decoded_proof(self.encoded@), self.encoded@)
        &&& self.encoded@.len() == 128
    }
}

impl View for Proof {
    type V = Seq<u8>;

    closed spec fn view(&self) -> Seq<u8> {
        self.encoded@
    }
}

impl Proof {
    /// Decodes a compressed proof.
    pub fn from_bytes(bytes: &[u8]) -> (r: Result<Proof, String>)
        ensures
            r matches Ok(proof) ==> decoding::gives(decoded_proof(bytes@), proof@),
            r matches Ok(proof) ==> proof@.len() == 128,
            r matches Err(e) ==> decoding::fails(decoded_proof(bytes@), e@),
    {
        match ark_decode_proof(bytes) {
            Ok(encoded) => Ok(Proof { encoded }),
            Err(e) => Err(e),
        }
    }

    /// The compressed encoding of 128 bytes, which decodes to the same proof.
    pub fn to_bytes(&self) -> (r: Vec<u8>)
        ensures
            r@ == self@,
            r@.len() == 128,
            decoding::gives(decoded_proof(r@), self@),
    {
        proof {
            use_type_invariant(self);
        }
        let mut bytes: Vec<u8> = Vec::new();
        crate::digest::append(&mut bytes, self.encoded.as_slice());
        assert(bytes@ =~= self.encoded@);
        bytes
    }
}

/// A verifying key.
pub struct VerifyingKey {
    encoded: Vec<u8>,
}

impl VerifyingKey {
    #[verifier::type_invariant]
    spec fn is_key(self) -> bool {
        decoding::gives(decoded_verifying_key(self.encoded@), self.encoded@)
    }
}

impl View for VerifyingKey {
    type V = Seq<u8>;

    closed spec fn view(&self) -> Seq<u8> {
        self.encoded@
    }
}

impl VerifyingKey {
    /// Decodes a compressed verifying key.
    pub fn from_bytes(bytes: &[u8]) -> (r: Result<VerifyingKey, String>)
        ensures
            r matches Ok(key) ==> decoding::gives(decoded_verifying_key(bytes@), key@),
            r matches Err(e) ==> decoding::fails(decoded_verifying_key(bytes@), e@),
    {
        match ark_decode_verifying_key(bytes) {
            Ok(encoded) => Ok(VerifyingKey { encoded }),
            Err(e) => Err(e),
        }
    }

    /// The compressed encoding, which decodes to the same key.
    pub fn to_bytes(&self) -> (r: Vec<u8>)
        ensures
            r@ == self@,
            decoding::gives(decoded_verifying_key(r@), self@),
    {
        proof {
            use_type_invariant(self);
        }
        let mut bytes: Vec<u8> = Vec::new();
        crate::digest::append(&mut bytes, self.encoded.as_slice());
        assert(bytes@ =~= self.encoded@);
        bytes
    }

    /// Checks a proof against public values.
    pub fn verify(&self, inputs: &[Fr], proof: &Proof) -> (r: Result<bool, SynthesisError>)
        ensures
            r == verdict(self@, field::values(inputs@), proof@),
    {
        proof {
            use_type_invariant(self);
            use_type_invariant(proof);
        }
        ark_verify(self.encoded.as_slice(), inputs, proof.encoded.as_slice())
    }
}

/// A proving and a verifying key.
pub struct KeyPair {
    proving: Vec<u8>,
    verifying: Vec<u8>,
    usable: bool,
}

impl KeyPair {
    #[verifier::type_invariant]
    spec fn are_keys(self) -> bool {
        &&& decoding::gives(decoded_proving_key(self.proving@), self.proving@)
        &&& decoding::gives(decoded_verifying_key(self.verifying@), self.verifying@)
        &&& self.usable == has_queries(self.proving@)
        &&& forall|verifying_key: Seq<u8>, gates: Seq<Gate>| #[trigger]
            is_key_pair(self.proving@, verifying_key, gates) ==> self.usable
    }

    /// The encoding of the proving key.
    pub closed spec fn proving_key(self) -> Seq<u8> {
        self.proving@
    }

    /// The encoding of the verifying key.
    pub closed spec fn verifying_key(self) -> Seq<u8> {
        self.verifying@
    }

    /// Whether the keys are a pair for the circuit of a record.
    pub open spec fn set_up_for(self, gates: Seq<Gate>) -> bool {
        is_key_pair(self.proving_key(), self.verifying_key(), gates)
    }
}

/// Whether a proving key has an element for the constant one in every query.
pub open spec fn has_queries(proving_key: Seq<u8>) -> bool {
    let sizes = query_sizes(proving_key);
    sizes.0 > 0 && sizes.1 > 0 && sizes.2 > 0
}

/// Why no proof comes out for values that meet a circuit: the circuit is too
/// large, or else the proving key has no queries.
pub open spec fn prover_refusal(proving_key: Seq<u8>, gates: Seq<Gate>) -> Option<SynthesisError> {
    if !domain_fits(gates) {
        Some(SynthesisError::PolynomialDegreeTooLarge)
    } else if !has_queries(proving_key) {
        Some(SynthesisError::MalformedVerifyingKey)
    } else {
        None
    }
}

impl KeyPair {
    /// Decodes compressed keys. The error is that of the proving key, or else
    /// that of the verifying key.
    pub fn from_bytes(proving_key: &[u8], verifying_key: &[u8]) -> (r: Result<KeyPair, String>)
        ensures
            r is Ok <==> decoded_proving_key(proving_key@) is Ok && decoded_verifying_key(
                verifying_key@,
            ) is Ok,
            r matches Ok(keys) ==> {
                &&& decoding::gives(decoded_proving_key(proving_key@), keys.proving_key())
                &&& decoding::gives(decoded_verifying_key(verifying_key@), keys.verifying_key())
            },
            r matches Err(e) ==> e@ == match decoded_proving_key(proving_key@) {
                Err(text) => text,
                Ok(_) => decoded_verifying_key(verifying_key@)->Err_0,
            },
    {
        let proving = match ark_decode_proving_key(proving_key) {
            Ok(key) => key,
            Err(e) => {
                return Err(e);
            },
        };
        let verifying = match ark_decode_verifying_key(verifying_key) {
            Ok(key) => key,
            Err(e) => {
                return Err(e);
            },
        };
        let sizes = ark_query_sizes(proving.as_slice());
        let usable = sizes.0 > 0 && sizes.1 > 0 && sizes.2 > 0;
        Ok(KeyPair { proving, verifying, usable })
    }

    /// The compressed proving key.
    pub fn proving_key_bytes(&self) -> (r: Vec<u8>)
        ensures
            r@ == self.proving_key(),
            decoding::gives(decoded_proving_key(r@), self.proving_key()),
    {
        proof {
            use_type_invariant(self);
        }
        let mut bytes: Vec<u8> = Vec::new();
        crate::digest::append(&mut bytes, self.proving.as_slice());
        assert(bytes@ =~= self.proving@);
        bytes
    }

    /// The compressed verifying key.
    pub fn verifying_key_bytes(&self) -> (r: Vec<u8>)
        ensures
            r@ == self.verifying_key(),
            decoding::gives(decoded_verifying_key(r@), self.verifying_key()),
    {
        proof {
            use_type_invariant(self);
        }
        let mut bytes: Vec<u8> = Vec::new();
        crate::digest::append(&mut bytes, self.verifying.as_slice());
        assert(bytes@ =~= self.verifying@);
        bytes
    }

    /// The verifying key alone.
    pub fn public_key(&self) -> (r: VerifyingKey)
        ensures
            r@ == self.verifying_key(),
    {
        let encoded = self.verifying_key_bytes();
        VerifyingKey { encoded }
    }

    /// Proves that the values of a circuit meet it. Values that do not are
    /// refused, and so are a circuit that is too large and a proving key without
    /// queries; neither is the case where the keys were set up for the circuit,
    /// and then the proof verifies.
    pub fn prove(&self, b: Builder) -> (r: Result<Proof, SynthesisError>)
        requires
            gates::assigned(b) is Some,
        ensures
            !gates::holds(gates::recorded(b), gates::assigned(b)->0) ==> r == Err::<
                Proof,
                SynthesisError,
            >(SynthesisError::Unsatisfiable),
            gates::holds(gates::recorded(b), gates::assigned(b)->0) ==> match prover_refusal(
                self.proving_key(),
                gates::recorded(b),
            ) {
                Some(e) => r == Err::<Proof, SynthesisError>(e),
                None => r is Ok,
            },
            gates::holds(gates::recorded(b), gates::assigned(b)->0) && self.set_up_for(
                gates::recorded(b),
            ) ==> r is Ok,
            r matches Ok(proof) ==> proof@.len() == 128,
            r matches Ok(proof) ==> (self.set_up_for(gates::recorded(b)) ==> accepts(
                self.verifying_key(),
                gates::public_values(gates::recorded(b), gates::assigned(b)->0),
                proof@,
            )),
    {
        proof {
            use_type_invariant(self);
        }
        let met = b.is_satisfied();
        if met != Some(true) {
            return Err(SynthesisError::Unsatisfiable);
        }
        if !self.usable {
            let m = b.into_matrices();
            let rows = m.a.len();
            if rows > DOMAIN_SIZE || m.num_instance_variables > DOMAIN_SIZE - rows {
                return Err(SynthesisError::PolynomialDegreeTooLarge);
            }
            return Err(SynthesisError::MalformedVerifyingKey);
        }
        match ark_prove(self.proving.as_slice(), b) {
            Ok(encoded) => Ok(Proof { encoded }),
            Err(e) => Err(e),
        }
    }

    /// Checks a proof against public values.
    pub fn verify(&self, inputs: &[Fr], proof: &Proof) -> (r: Result<bool, SynthesisError>)
        ensures
            r == verdict(self.verifying_key(), field::values(inputs@), proof@),
    {
        proof {
            use_type_invariant(self);
            use_type_invariant(proof);
        }
        ark_verify(self.verifying.as_slice(), inputs, proof.encoded.as_slice())
    }
}

} // verus!
