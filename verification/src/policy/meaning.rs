//! What a proof under a policy says of the attributes, written out.
use crate::field;
use crate::field::Fr;
use crate::gates::SynthesisError;
use crate::groth16;
use crate::groth16::KeyPair;
use crate::policy::bundle;
use crate::policy::circuit;
use crate::policy::circuit::CredentialCircuit;
use crate::policy::hash;
use crate::policy::predicates;
use crate::policy::types::{CredentialPolicy, Predicate, ProofBundle};
use vstd::prelude::*;

verus! {

/// A credential can be proved at a time exactly if its commitment is that of its
/// attributes and its blinding, if the first attribute, the fourth and the sixth are
/// numbers of 32 bits that reach the thresholds of age, face match and liveness, if
/// the third is the citizenship, the seventh an allowed diploma where diplomas are
/// looked at, and the eighth the nonce where there is one, if the time is not past
/// the expiry, and if the attributes from the ninth on meet the predicates, each kind
/// of predicate looking at an attribute of its own.
pub proof fn lemma_provable(c: CredentialCircuit, now: nat)
    ensures
        c.provable_at(now) <==> {
            &&& c.commitment@ == hash::commitment_value(field::values(c.attrs@), c.blinding@)
            &&& c.age_thresh@ <= c.attrs@[0]@ <= 0xffff_ffff
            &&& c.attrs@[2]@ == c.citizenship@
            &&& c.face_thresh@ <= c.attrs@[3]@ <= 0xffff_ffff
            &&& c.live_thresh@ <= c.attrs@[5]@ <= 0xffff_ffff
            &&& c.diploma_sel ==> exists|k: int|
                0 <= k < 6 && (#[trigger] c.allowed_diplomas@[k])@ == c.attrs@[6]@
            &&& c.expiry_time matches Some(at) ==> now <= at <= 0xffff_ffff
            &&& c.nonce matches Some(expected) ==> c.attrs@[7]@ == expected@
            &&& forall|i: int|
                0 <= i < c.additional_predicates@.len() ==> match #[trigger] c.additional_predicates@[i] {
                    Predicate::Gte(t) => t <= c.attrs@[8]@ <= 0xffff_ffff,
                    Predicate::Eq(v) => c.attrs@[9]@ == v@,
                    Predicate::InSet(members) => exists|k: int|
                        0 <= k < members@.len() && (#[trigger] members@[k])@ == c.attrs@[10]@,
                    Predicate::Range(min, max) => min <= c.attrs@[11]@ <= max <= 0xffff_ffff,
                    Predicate::Lt(t) => c.attrs@[12]@ < t <= 0xffff_ffff,
                    Predicate::Neq(v) => c.attrs@[13]@ != v@,
                }
        },
{
    let attrs = field::values(c.attrs@);
    assert(forall|i: int| 0 <= i < 16 ==> attrs[i] == #[trigger] c.attrs@[i]@);
    lemma_contains(c.allowed_diplomas@, c.attrs@[6]@);
    assert forall|i: int| 0 <= i < c.additional_predicates@.len() implies predicates::met(
        #[trigger] c.additional_predicates@[i],
        attrs,
    ) == match c.additional_predicates@[i] {
        Predicate::Gte(t) => t <= c.attrs@[8]@ <= 0xffff_ffff,
        Predicate::Eq(v) => c.attrs@[9]@ == v@,
        Predicate::InSet(members) => exists|k: int|
            0 <= k < members@.len() && (#[trigger] members@[k])@ == c.attrs@[10]@,
        Predicate::Range(min, max) => min <= c.attrs@[11]@ <= max <= 0xffff_ffff,
        Predicate::Lt(t) => c.attrs@[12]@ < t <= 0xffff_ffff,
        Predicate::Neq(v) => c.attrs@[13]@ != v@,
    } by {
        if let Predicate::InSet(members) = c.additional_predicates@[i] {
            lemma_contains(members@, c.attrs@[10]@);
        }
    }
}

pub(crate) proof fn lemma_contains(s: Seq<Fr>, v: nat)
    ensures
        field::values(s).contains(v) <==> exists|k: int| 0 <= k < s.len() && (#[trigger] s[k])@ == v,
{
    if field::values(s).contains(v) {
        let k = choose|k: int| 0 <= k < s.len() && field::values(s)[k] == v;
        assert(s[k]@ == v);
    }
    if exists|k: int| 0 <= k < s.len() && (#[trigger] s[k])@ == v {
        let k = choose|k: int| 0 <= k < s.len() && (#[trigger] s[k])@ == v;
        assert(field::values(s)[k] == v);
    }
}

/// A circuit is refused exactly if one of its predicates has a bound of more than 32
/// bits, asks for less than zero, or has an empty set. The first such predicate gives
/// the error.
pub proof fn lemma_refused(c: CredentialCircuit, i: int)
    requires
        0 <= i < c.additional_predicates@.len(),
        forall|j: int|
            0 <= j < i ==> match #[trigger] c.additional_predicates@[j] {
                Predicate::Gte(t) => t <= 0xffff_ffff,
                Predicate::InSet(members) => members@.len() > 0,
                Predicate::Range(min, max) => min <= 0xffff_ffff && max <= 0xffff_ffff,
                Predicate::Lt(t) => 0 < t <= 0xffff_ffff,
                _ => true,
            },
    ensures
        match c.additional_predicates@[i] {
            Predicate::Gte(t) => t > 0xffff_ffff ==> c.refused() == Some(
                SynthesisError::AssignmentMissing,
            ),
            Predicate::InSet(members) => members@.len() == 0 ==> c.refused() == Some(
                SynthesisError::Unsatisfiable,
            ),
            Predicate::Range(min, max) => min > 0xffff_ffff || max > 0xffff_ffff ==> c.refused()
                == Some(SynthesisError::AssignmentMissing),
            Predicate::Lt(t) => t == 0 || t > 0xffff_ffff ==> c.refused() == Some(
                SynthesisError::AssignmentMissing,
            ),
            _ => i + 1 == c.additional_predicates@.len() ==> c.refused() is None,
        },
{
    let list = c.additional_predicates@;
    lemma_none_refused(list, i as nat);
    assert(circuit::first_refusal(list, (i + 1) as nat) == predicates::refusal(list[i]));
    if predicates::refusal(list[i]) is Some {
        lemma_first_stays(list, (i + 1) as nat, list.len());
    }
}

/// A circuit all of whose predicates have bounds of 32 bits and sets with members,
/// and ask for more than nothing, is not refused.
pub proof fn lemma_accepted(c: CredentialCircuit)
    ensures
        c.refused() is None <==> forall|j: int|
            0 <= j < c.additional_predicates@.len() ==> match #[trigger] c.additional_predicates@[j] {
                Predicate::Gte(t) => t <= 0xffff_ffff,
                Predicate::InSet(members) => members@.len() > 0,
                Predicate::Range(min, max) => min <= 0xffff_ffff && max <= 0xffff_ffff,
                Predicate::Lt(t) => 0 < t <= 0xffff_ffff,
                _ => true,
            },
{
    let list = c.additional_predicates@;
    if forall|j: int|
        0 <= j < list.len() ==> match #[trigger] list[j] {
            Predicate::Gte(t) => t <= 0xffff_ffff,
            Predicate::InSet(members) => members@.len() > 0,
            Predicate::Range(min, max) => min <= 0xffff_ffff && max <= 0xffff_ffff,
            Predicate::Lt(t) => 0 < t <= 0xffff_ffff,
            _ => true,
        } {
        lemma_none_refused(list, list.len());
    }
    if c.refused() is None {
        assert forall|j: int| 0 <= j < list.len() implies predicates::refusal(
            #[trigger] list[j],
        ) is None by {
            if circuit::first_refusal(list, (j + 1) as nat) is Some {
                lemma_first_stays(list, (j + 1) as nat, list.len());
            }
        }
        assert forall|j: int| 0 <= j < list.len() implies match #[trigger] list[j] {
            Predicate::Gte(t) => t <= 0xffff_ffff,
            Predicate::InSet(members) => members@.len() > 0,
            Predicate::Range(min, max) => min <= 0xffff_ffff && max <= 0xffff_ffff,
            Predicate::Lt(t) => 0 < t <= 0xffff_ffff,
            _ => true,
        } by {
            assert(predicates::refusal(list[j]) is None);
        }
    }
}

proof fn lemma_none_refused(list: Seq<Predicate>, count: nat)
    requires
        count <= list.len(),
        forall|j: int|
            0 <= j < count ==> match #[trigger] list[j] {
                Predicate::Gte(t) => t <= 0xffff_ffff,
                Predicate::InSet(members) => members@.len() > 0,
                Predicate::Range(min, max) => min <= 0xffff_ffff && max <= 0xffff_ffff,
                Predicate::Lt(t) => 0 < t <= 0xffff_ffff,
                _ => true,
            },
    ensures
        circuit::first_refusal(list, count) is None,
    decreases count,
{
    if count > 0 {
        lemma_none_refused(list, (count - 1) as nat);
        assert(predicates::refusal(list[count - 1]) is None);
    }
}

proof fn lemma_first_stays(list: Seq<Predicate>, i: nat, j: nat)
    requires
        i <= j,
        circuit::first_refusal(list, i) is Some,
    ensures
        circuit::first_refusal(list, j) == circuit::first_refusal(list, i),
    decreases j,
{
    if i < j {
        lemma_first_stays(list, i, (j - 1) as nat);
    }
}

/// What is public of a credential: sixteen places with the attributes that are shown
/// and zero for the others, the commitment, the age threshold, the citizenship, the
/// thresholds of face match and liveness, one or zero for whether diplomas are looked
/// at, and then the expiry, the nonce and the revocation root, as far as there are
/// any.
pub proof fn lemma_public(c: CredentialCircuit, i: int)
    requires
        0 <= i < 16,
    ensures
        ({
            let all = c.public_values();
            let expiry: int = if c.expiry_time is Some {
                1
            } else {
                0
            };
            let nonce: int = if c.nonce is Some {
                1
            } else {
                0
            };
            let root: int = if c.revocation_root is Some {
                1
            } else {
                0
            };
            &&& all.len() == 22 + expiry + nonce + root
            &&& all[i] == if c.reveals@[i] {
                c.attrs@[i]@
            } else {
                0
            }
            &&& all[16] == c.commitment@
            &&& all[17] == c.age_thresh@
            &&& all[18] == c.citizenship@
            &&& all[19] == c.face_thresh@
            &&& all[20] == c.live_thresh@
            &&& all[21] == if c.diploma_sel {
                1nat
            } else {
                0
            }
            &&& c.expiry_time matches Some(at) ==> all[22] == at
            &&& c.nonce matches Some(expected) ==> all[22 + expiry] == expected@
            &&& c.revocation_root matches Some(v) ==> all[22 + expiry + nonce] == v@
        }),
{
    let attrs = field::values(c.attrs@);
    assert(attrs[i] == c.attrs@[i]@);
    let first = c.statement();
    assert(first.len() == 22);
    let all = c.public_values();
    assert(forall|j: int| 0 <= j < 22 ==> all[j] == first[j]);
}

/// Proving gives a bundle only to a credential whose attributes meet what it is to
/// prove, and with keys that fit always to such a one. A refused predicate, a
/// credential that does not meet its terms, and keys that do not fit are told apart.
/// The bundle carries the policy, the time and the version, and is accepted.
pub proof fn lemma_proved(
    c: CredentialCircuit,
    policy: CredentialPolicy,
    keys: KeyPair,
    now: u64,
    r: Result<ProofBundle, SynthesisError>,
)
    requires
        bundle::proving(c, policy, keys, now, r),
    ensures
        r matches Ok(b) ==> {
            &&& c.commitment@ == hash::commitment_value(field::values(c.attrs@), c.blinding@)
            &&& c.age_thresh@ <= c.attrs@[0]@ <= 0xffff_ffff
            &&& c.attrs@[2]@ == c.citizenship@
            &&& c.face_thresh@ <= c.attrs@[3]@ <= 0xffff_ffff
            &&& c.live_thresh@ <= c.attrs@[5]@ <= 0xffff_ffff
            &&& c.expiry_time matches Some(at) ==> now <= at <= 0xffff_ffff
            &&& b.policy == policy
            &&& b.timestamp == now
            &&& b.version == 1
            &&& field::values(b.public_inputs@) == c.public_values()
            &&& b.proof@.len() == 128
        },
        keys.set_up_for(c.record()) ==> (r is Ok <==> c.refused() is None && c.provable_at(
            now as nat,
        )),
        keys.set_up_for(c.record()) && r is Ok ==> {
            let decoded = groth16::decoded_proof(r->Ok_0.proof@);
            &&& decoded is Ok
            &&& groth16::verdict(keys.verifying_key(), c.public_values(), decoded->Ok_0) is Ok
            &&& groth16::verdict(keys.verifying_key(), c.public_values(), decoded->Ok_0)->Ok_0
        },
        r is Err && c.refused() is Some ==> r->Err_0 == c.refused()->0,
        r is Err && c.refused() is None && !c.provable_at(now as nat) ==> r->Err_0
            == SynthesisError::Unsatisfiable,
{
    lemma_provable(c, now as nat);
}

} // verus!
