//! Proofs under a policy, bundled with what they were made for.
use crate::clock;
use crate::decoding;
use crate::disclosure;
use crate::disclosure::NUM_ATTRIBUTES;
use crate::field;
use crate::field::Fr;
use crate::gadgets;
use crate::gates;
use crate::gates::{Builder, Gate, SynthesisError};
use crate::groth16;
use crate::groth16::{KeyPair, Proof, VerifyingKey};
use crate::hashing;
use crate::policy::circuit;
use crate::policy::circuit::CredentialCircuit;
use crate::policy::hash;
use crate::policy::types::{CredentialPolicy, ProofBundle, CIRCUIT_VERSION};
use crate::rules;
use vstd::prelude::*;

verus! {

/// Whether a bundle verifies: its proof decodes and is accepted with its public
/// values.
pub open spec fn verifies(verifying_key: Seq<u8>, bundle: ProofBundle) -> bool {
    match groth16::decoded_proof(bundle.proof@) {
        Ok(proof) => groth16::accepts(verifying_key, field::values(bundle.public_inputs@), proof),
        Err(_) => false,
    }
}

fn verify_bundle(bundle: &ProofBundle, vk: &VerifyingKey) -> (r: bool)
    ensures
        r == verifies(vk@, *bundle),
{
    let proof = match Proof::from_bytes(bundle.proof.as_slice()) {
        Ok(proof) => proof,
        Err(_) => {
            return false;
        },
    };
    match vk.verify(bundle.public_inputs.as_slice(), &proof) {
        Ok(accepted) => accepted,
        Err(_) => false,
    }
}

/// Checks bundles against one verifying key, with one result for each.
pub fn batch_verify(proofs: &[ProofBundle], vk: &VerifyingKey) -> (r: Vec<bool>)
    ensures
        r@ == Seq::new(proofs@.len(), |i: int| verifies(vk@, proofs@[i])),
        r@.len() == proofs@.len(),
        forall|i: int|
            0 <= i < proofs@.len() ==> (#[trigger] r@[i] <==> {
                let decoded = groth16::decoded_proof(proofs@[i].proof@);
                let outcome = groth16::verdict(
                    vk@,
                    field::values(proofs@[i].public_inputs@),
                    decoded->Ok_0,
                );
                decoded is Ok && outcome is Ok && outcome->Ok_0
            }),
{
    let mut results: Vec<bool> = Vec::new();
    for i in 0..proofs.len()
        invariant
            results@.len() == i,
            forall|j: int| 0 <= j < i ==> #[trigger] results@[j] == verifies(vk@, proofs@[j]),
    {
        results.push(verify_bundle(&proofs[i], vk));
    }
    assert(results@ =~= Seq::new(proofs@.len(), |i: int| verifies(vk@, proofs@[i])));
    results
}

/// What proving a credential at a time comes to. A circuit that cannot be built
/// is refused, and so are a credential that does not meet it and keys that are
/// of no use for it. A bundle has the credential's public values, and with keys
/// that were set up for the circuit it verifies.
pub open spec fn proving(
    credential: CredentialCircuit,
    policy: CredentialPolicy,
    keys: KeyPair,
    now: u64,
    r: Result<ProofBundle, SynthesisError>,
) -> bool {
    let refusal = groth16::prover_refusal(keys.proving_key(), credential.record());
    match r {
        Err(e) => if credential.refused() is Some {
            credential.refused() == Some(e)
        } else if !credential.provable_at(now as nat) {
            e == SynthesisError::Unsatisfiable
        } else {
            refusal == Some(e) && !keys.set_up_for(credential.record())
        },
        Ok(bundle) => {
            &&& credential.refused() is None
            &&& credential.provable_at(now as nat)
            &&& refusal is None
            &&& field::values(bundle.public_inputs@) == credential.public_values()
            &&& bundle.policy == policy
            &&& bundle.timestamp == now
            &&& bundle.version == CIRCUIT_VERSION
            &&& decoding::gives(groth16::decoded_proof(bundle.proof@), bundle.proof@)
            &&& bundle.proof@.len() == 128
            &&& keys.set_up_for(credential.record()) ==> verifies(keys.verifying_key(), bundle)
        },
    }
}

/// Proves a credential under a policy at a time.
pub fn prove_at(
    credential: &CredentialCircuit,
    policy: CredentialPolicy,
    keys: &KeyPair,
    now: u64,
) -> (r: Result<ProofBundle, SynthesisError>)
    ensures
        proving(*credential, policy, *keys, now, r),
{
    let b = match credential.generate_constraints_at(Builder::for_proving(), now) {
        Ok(b) => b,
        Err(e) => {
            return Err(e);
        },
    };
    proof {
        let empty = Seq::<Gate>::empty();
        let none = Seq::<nat>::empty();
        let values = credential.values_at(now as nat);
        assert(none + values =~= values);
        circuit::lemma_assignment(*credential, empty, none, now);
        assert(gates::holds(empty, values));
        assert(gates::public_values(empty, values) + credential.public_values()
            =~= credential.public_values());
    }
    match keys.prove(b) {
        Ok(proof) => Ok(
            ProofBundle {
                proof: proof.to_bytes(),
                public_inputs: credential.public_inputs(),
                policy,
                timestamp: now,
                version: CIRCUIT_VERSION,
            },
        ),
        Err(e) => Err(e),
    }
}

/// Proves a credential under a policy now.
pub fn prove(credential: &CredentialCircuit, policy: CredentialPolicy, keys: &KeyPair) -> (r:
    Result<ProofBundle, SynthesisError>)
    ensures
        exists|now: u64| #[trigger] proving(*credential, policy, *keys, now, r),
{
    let now = clock::seconds_now();
    prove_at(credential, policy, keys, now)
}

/// With keys that were set up for its circuit, a credential that meets what it is
/// to prove gets a bundle, and the bundle verifies.
pub proof fn lemma_bundle_verifies(
    credential: CredentialCircuit,
    policy: CredentialPolicy,
    keys: KeyPair,
    now: u64,
    r: Result<ProofBundle, SynthesisError>,
)
    requires
        proving(credential, policy, keys, now, r),
        credential.refused() is None,
        credential.provable_at(now as nat),
        keys.set_up_for(credential.record()),
    ensures
        r is Ok,
        verifies(keys.verifying_key(), r->Ok_0),
{
}

/// Allocates private variables with their values. The result are their wires,
/// with that of the constant before them.
fn private_inputs(b: &mut Builder, constant: &Fr, all: &Vec<Fr>) -> (wires: Vec<usize>)
    requires
        gates::recorded(*old(b)) == Seq::<Gate>::empty(),
    ensures
        gates::recorded(*final(b)) == gates::draw_witnesses(
            seq![Gate::Constant(constant@)],
            all@.len(),
        ),
        gates::assigned(*final(b)) == gates::appended(
            gates::assigned(*old(b)),
            field::values(all@),
        ),
        gadgets::wires(wires@) == Seq::new(all@.len() + 1, |i: int| i as nat),
{
    let ghost base = gates::assigned(*b);
    let ghost values = field::values(all@);
    let first = b.constant(constant);
    let ghost g = gates::recorded(*b);
    let mut wires: Vec<usize> = Vec::new();
    wires.push(first);
    proof {
        assert(g =~= seq![Gate::Constant(constant@)]);
        assert(gates::draw_witnesses(g, 0) =~= g);
        if let Some(v) = base {
            assert(v + values.take(0) =~= v);
        }
    }
    for i in 0..all.len()
        invariant
            values == field::values(all@),
            g == seq![Gate::Constant(constant@)],
            gates::recorded(*b) == gates::draw_witnesses(g, i as nat),
            gates::assigned(*b) == gates::appended(base, values.take(i as int)),
            wires@.len() == i + 1,
            forall|j: int| 0 <= j <= i ==> #[trigger] wires@[j] == j,
    {
        proof {
            gates::lemma_witnesses_step(g, i as nat);
            if let Some(v) = base {
                assert((v + values.take(i as int)) + seq![all@[i as int]@] =~= v + values.take(
                    i + 1,
                ));
            }
        }
        let w = rules::witness_rule(b, all[i]);
        wires.push(w);
    }
    proof {
        assert(values.take(values.len() as int) =~= values);
        assert(gadgets::wires(wires@) =~= Seq::new(all@.len() + 1, |i: int| i as nat));
    }
    wires
}

/// Commits to attributes, both directly and in a circuit, and tells whether the
/// circuit's commitment is the other. It always is.
pub fn commitment_consistent(attrs: &[Fr; NUM_ATTRIBUTES], blinding: &Fr) -> (r: (bool, Fr))
    ensures
        r.0,
        r.1@ == hash::commitment_value(field::values(attrs@), blinding@),
{
    let native = hash::commit(attrs, blinding);
    let mut b = Builder::for_proving();
    let domain = hash::domain_fr(hashing::COMMITMENT_DOMAIN);
    let all = hashing::with_blinding(attrs.as_slice(), blinding);
    let ghost own = field::values(all@);
    assert(own.len() == 17);
    let wires = private_inputs(&mut b, &domain, &all);
    let params = hash::get_params();
    let ghost values = own.push(native@);
    let ghost g = seq![Gate::Constant(domain@)];
    let ghost h1 = gates::recorded(b);
    let ghost inputs = gadgets::wires(wires@);
    proof {
        let empty = Seq::<Gate>::empty();
        assert(empty.push(Gate::Constant(domain@)) =~= g);
        gates::lemma_push(empty, Gate::Constant(domain@), values);
        gadgets::lemma_constant(empty, domain@, values);
        gates::lemma_computes(empty, g, values);
        gates::lemma_draw_witnesses(g, 17, values);
        gates::lemma_wire_kept(g, h1, values, 0);
        assert forall|i: int| 0 <= i < inputs.len() implies gates::is_field(
            h1,
            #[trigger] inputs[i],
        ) && gates::wire(h1, values, inputs[i]) == disclosure::opening(
            domain@,
            field::values(attrs@),
            blinding@,
        )[i] by {
            if i > 0 {
                assert(gates::is_field(h1, g.len() + (i - 1) as nat));
                assert(inputs[i] == g.len() + (i - 1) as nat);
            }
        }
        assert(gadgets::reads(h1, values, inputs) =~= disclosure::opening(
            domain@,
            field::values(attrs@),
            blinding@,
        ));
        gadgets::lemma_draw_sponge(params@, h1, inputs, values);
    }
    let computed = gadgets::sponge_circuit(&mut b, &wires, &params);
    let ghost h2 = gates::recorded(b);
    let claimed = rules::input_rule(&mut b, native);
    let ghost h3 = gates::recorded(b);
    proof {
        rules::lemma_adds_nothing(h1, h2, values);
        rules::lemma_input(h2, values);
        gates::lemma_wire_kept(h2, h3, values, computed as nat);
        rules::lemma_equal(h3, computed as nat, claimed as nat, values);
    }
    b.enforce_equal(computed, claimed);
    proof {
        assert(Seq::<nat>::empty() + own =~= own);
        assert(own + seq![native@] =~= values);
        assert(gates::holds(Seq::<Gate>::empty(), values));
    }
    let met = b.is_satisfied();
    (met == Some(true), native)
}

/// The attributes of the sample.
pub open spec fn sample() -> Seq<nat> {
    Seq::new(16, |i: int| (i + 1) as nat)
}

/// Whether the circuit's commitment to a sample is the direct one, and that
/// commitment.
pub fn assert_consistent() -> (r: (bool, Fr))
    ensures
        r.0,
        r.1@ == hash::commitment_value(sample(), 999),
        forall|attrs: Seq<nat>|
            attrs.len() == 16 && (forall|i: int| 0 <= i < 16 ==> #[trigger] attrs[i] == i + 1)
                ==> r.1@ == #[trigger] hash::commitment_value(attrs, 999),
{
    proof {
        assert forall|attrs: Seq<nat>|
            attrs.len() == 16 && (forall|i: int| 0 <= i < 16 ==> #[trigger] attrs[i] == i
                + 1) implies attrs == sample() by {
            assert(attrs =~= sample());
        }
    }
    let zero = Fr::zero();
    let mut attrs: [Fr; NUM_ATTRIBUTES] = [
        zero, zero, zero, zero, zero, zero, zero, zero, zero, zero, zero, zero, zero, zero, zero, zero,
    ];
    for i in 0..NUM_ATTRIBUTES
        invariant
            forall|j: int| 0 <= j < i ==> (#[trigger] attrs@[j])@ == j + 1,
    {
        attrs[i] = Fr::from_u64(i as u64 + 1);
    }
    assert(field::values(attrs@) =~= sample());
    commitment_consistent(&attrs, &Fr::from_u64(999))
}

} // verus!
