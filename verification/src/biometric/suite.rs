//! Issuing credentials, deriving proofs from them, and verifying these.
use crate::base64url;
use crate::biometric::crypto;
use crate::biometric::crypto::{TrustedSetup, PUBLIC_INPUT_SIZE};
use crate::biometric::error::CredentialError;
use crate::biometric::matrix;
use crate::biometric::registry::AttributeMap;
use crate::biometric::types;
use crate::biometric::types::{
    Claim, PredicateSlot, PredicateType, RevealRequest, VerifiableCredential,
    VerificationResult, MAX_INSET_VALUES, MAX_PREDICATES,
};
use crate::clock;
use crate::decoding;
use crate::disclosure;
use crate::disclosure::NUM_ATTRIBUTES;
use crate::field;
use crate::field::Fr;
use crate::gates::SynthesisError;
use crate::groth16;
use crate::order;
use crate::permutation;
use crate::text;
use vstd::prelude::*;

verus! {

/// A holder's secret, keys and the places of attributes.
pub struct PoseidonGroth16Suite {
    pub holder_secret: [u8; 32],
    pub setup: TrustedSetup,
    pub domain_element: Fr,
    pub attribute_map: AttributeMap,
    pub next_index: usize,
}

/// The first label of claims that has no place.
pub open spec fn unknown_label(
    map: Map<Seq<char>, usize>,
    labels: Seq<Seq<char>>,
) -> Option<Seq<char>>
    decreases labels.len(),
{
    if labels.len() == 0 {
        None
    } else {
        match unknown_label(map, labels.drop_last()) {
            Some(label) => Some(label),
            None => if map.contains_key(labels.last()) {
                None
            } else {
                Some(labels.last())
            },
        }
    }
}

/// The labels of claims.
pub open spec fn labels(claims: Seq<types::Statement>) -> Seq<Seq<char>> {
    Seq::new(claims.len(), |i: int| claims[i].label)
}

/// Those of the labels that have a place have one below a bound.
pub open spec fn placed_below(
    map: Map<Seq<char>, usize>,
    labels: Seq<Seq<char>>,
    bound: nat,
) -> bool {
    forall|i: int|
        0 <= i < labels.len() && map.contains_key(#[trigger] labels[i]) ==> map[labels[i]] < bound
}

/// The labels in front of the first one without a place have places below a bound.
pub open spec fn reached_below(
    map: Map<Seq<char>, usize>,
    labels: Seq<Seq<char>>,
    bound: nat,
) -> bool {
    forall|i: int|
        0 <= i < labels.len() && unknown_label(map, labels.take(i + 1)) is None ==> map[
            #[trigger] labels[i]
        ] < bound
}

/// The attributes that claims make: what is claimed last of each place, and zero
/// where nothing is claimed.
pub open spec fn claimed_attributes(
    map: Map<Seq<char>, usize>,
    claims: Seq<types::Statement>,
) -> Seq<nat>
    decreases claims.len(),
{
    if claims.len() == 0 {
        Seq::new(16, |i: int| 0nat)
    } else {
        claimed_attributes(map, claims.drop_last()).update(
            map[claims.last().label] as int,
            types::claim_element(claims.last().value),
        )
    }
}

/// The places of labels in a mask.
pub open spec fn label_mask(map: Map<Seq<char>, usize>, labels: Seq<Seq<char>>) -> Seq<bool>
    decreases labels.len(),
{
    if labels.len() == 0 {
        Seq::new(16, |i: int| false)
    } else {
        label_mask(map, labels.drop_last()).update(map[labels.last()] as int, true)
    }
}

/// The blinding factor of a credential of a holder.
pub open spec fn credential_blinding(credential_id: Seq<char>, secret: Seq<u8>) -> nat {
    crypto::holder_blinding(secret, crypto::nonce_value(credential_id, secret))
}

/// The name of the suite.
pub const CRYPTOSUITE: &'static str = "poseidon-groth16-bn254-2026";

impl PoseidonGroth16Suite {
    /// A suite with keys and a random secret, without attributes.
    pub fn new(setup: TrustedSetup) -> (r: PoseidonGroth16Suite)
        ensures
            r.setup == setup,
            r.domain_element@ == crypto::commitment_domain(),
            r.attribute_map@ == Map::<Seq<char>, usize>::empty(),
            r.next_index == 0,
    {
        PoseidonGroth16Suite {
            holder_secret: crypto::generate_holder_secret(),
            setup,
            domain_element: crypto::get_commitment_domain(),
            attribute_map: AttributeMap::new(),
            next_index: 0,
        }
    }

    /// Gives the next place to an attribute.
    pub fn register_attribute(&mut self, label: &str)
        requires
            old(self).next_index < usize::MAX,
        ensures
            final(self).attribute_map@ == old(self).attribute_map@.insert(
                label@,
                old(self).next_index,
            ),
            final(self).next_index == old(self).next_index + 1,
            final(self).attribute_map@.contains_key(label@),
            final(self).attribute_map@[label@] == old(self).next_index,
            forall|l: Seq<char>|
                l != label@ ==> final(self).attribute_map@.contains_key(l) == old(
                    self,
                ).attribute_map@.contains_key(l) && #[trigger] final(self).attribute_map@[l] == old(
                    self,
                ).attribute_map@[l],
            final(self).holder_secret == old(self).holder_secret,
            final(self).setup == old(self).setup,
            final(self).domain_element == old(self).domain_element,
    {
        let idx = self.next_index;
        self.attribute_map.insert(label, idx);
        self.next_index += 1;
    }

    /// Gives the next places to the four biometric attributes.
    pub fn register_biometric_attributes(&mut self)
        requires
            old(self).next_index + 4 <= usize::MAX,
        ensures
            ({
                let n = old(self).next_index;
                final(self).attribute_map@ == old(self).attribute_map@.insert(
                    "biometric_face_match"@,
                    n,
                ).insert("biometric_depth_variance"@, (n + 1) as usize).insert(
                    "biometric_liveness"@,
                    (n + 2) as usize,
                ).insert("biometric_timestamp"@, (n + 3) as usize)
            }),
            final(self).next_index == old(self).next_index + 4,
            final(self).attribute_map@.contains_key("biometric_face_match"@),
            final(self).attribute_map@["biometric_face_match"@] == old(self).next_index,
            final(self).attribute_map@.contains_key("biometric_depth_variance"@),
            final(self).attribute_map@["biometric_depth_variance"@] == old(self).next_index + 1,
            final(self).attribute_map@.contains_key("biometric_liveness"@),
            final(self).attribute_map@["biometric_liveness"@] == old(self).next_index + 2,
            final(self).attribute_map@.contains_key("biometric_timestamp"@),
            final(self).attribute_map@["biometric_timestamp"@] == old(self).next_index + 3,
            final(self).holder_secret == old(self).holder_secret,
            final(self).setup == old(self).setup,
            final(self).domain_element == old(self).domain_element,
    {
        proof {
            reveal_strlit("biometric_face_match");
            reveal_strlit("biometric_depth_variance");
            reveal_strlit("biometric_liveness");
            reveal_strlit("biometric_timestamp");
            assert("biometric_face_match"@.len() == 20);
            assert("biometric_depth_variance"@.len() == 24);
            assert("biometric_liveness"@.len() == 18);
            assert("biometric_timestamp"@.len() == 19);
        }
        self.register_attribute("biometric_face_match");
        self.register_attribute("biometric_depth_variance");
        self.register_attribute("biometric_liveness");
        self.register_attribute("biometric_timestamp");
    }

    /// The attributes that claims make, or the first label without a place.
    fn attributes_of(&self, claims: &[Claim]) -> (r: Result<[Fr; NUM_ATTRIBUTES], CredentialError>)
        requires
            reached_below(self.attribute_map@, labels(types::statements(claims@)), 16),
        ensures
            match unknown_label(self.attribute_map@, labels(types::statements(claims@))) {
                Some(label) => r matches Err(CredentialError::UnknownAttribute(m)) && m@ == label,
                None => r matches Ok(attrs) && field::values(attrs@) == claimed_attributes(
                    self.attribute_map@,
                    types::statements(claims@),
                ),
            },
    {
        let ghost map = self.attribute_map@;
        let ghost all = types::statements(claims@);
        let ghost names = labels(all);
        let mut attrs = [Fr::zero(); NUM_ATTRIBUTES];
        assert(field::values(attrs@) =~= claimed_attributes(map, all.take(0)));
        for i in 0..claims.len()
            invariant
                map == self.attribute_map@,
                all == types::statements(claims@),
                names == labels(all),
                reached_below(map, names, 16),
                unknown_label(map, names.take(i as int)) is None,
                field::values(attrs@) == claimed_attributes(map, all.take(i as int)),
        {
            let claim = &claims[i];
            proof {
                assert(names[i as int] == claim.label@);
                assert(names.take(i + 1).drop_last() =~= names.take(i as int));
                assert(names.take(i + 1).last() == claim.label@);
                assert(all.take(i + 1).drop_last() =~= all.take(i as int));
                assert(all.take(i + 1).last() == claim@);
            }
            match self.attribute_map.get(claim.label.as_str()) {
                Some(idx) => {
                    let ghost before = attrs@;
                    let element = claim.value.to_fr();
                    attrs[idx] = element;
                    assert(field::values(attrs@) =~= field::values(before).update(
                        idx as int,
                        element@,
                    ));
                },
                None => {
                    proof {
                        lemma_unknown_kept(map, names, (i + 1) as nat);
                    }
                    return Err(CredentialError::UnknownAttribute(claim.label.clone()));
                },
            }
        }
        assert(names.take(names.len() as int) =~= names);
        assert(all.take(all.len() as int) =~= all);
        Ok(attrs)
    }
}

/// The first label without a place stays the first however many follow.
proof fn lemma_unknown_kept(map: Map<Seq<char>, usize>, labels: Seq<Seq<char>>, i: nat)
    requires
        i <= labels.len(),
        unknown_label(map, labels.take(i as int)) is Some,
    ensures
        unknown_label(map, labels) == unknown_label(map, labels.take(i as int)),
    decreases labels.len() - i,
{
    if i == labels.len() {
        assert(labels.take(i as int) =~= labels);
    } else {
        assert(labels.take((i + 1) as int).drop_last() =~= labels.take(i as int));
        lemma_unknown_kept(map, labels, i + 1);
    }
}

/// Where a label without a place is met with all places so far below a bound, no
/// other place is reached.
proof fn lemma_reached_until_unknown(
    map: Map<Seq<char>, usize>,
    labels: Seq<Seq<char>>,
    bound: nat,
    i: nat,
)
    requires
        i < labels.len(),
        unknown_label(map, labels.take((i + 1) as int)) is Some,
        forall|j: int| 0 <= j < i ==> map[#[trigger] labels[j]] < bound,
    ensures
        reached_below(map, labels, bound),
{
    assert forall|k: int|
        0 <= k < labels.len() && unknown_label(map, labels.take(k + 1)) is None implies map[
        #[trigger] labels[k]] < bound by {
        if k >= i {
            let more = labels.take(k + 1);
            assert(more.take((i + 1) as int) =~= labels.take((i + 1) as int));
            lemma_unknown_kept(map, more, i + 1);
        }
    }
}

/// What is issued for claims: the commitment to their attributes, without a
/// proof.
pub open spec fn issued(
    map: Map<Seq<char>, usize>,
    secret: Seq<u8>,
    credential_id: Seq<char>,
    issuer_did: Seq<char>,
    claims: Seq<types::Statement>,
    c: VerifiableCredential,
) -> bool {
    &&& c.credential_id@ == credential_id
    &&& c.issuer_did@ == issuer_did
    &&& types::statements(c.claims@) == claims
    &&& c.commitment@ == field::field_text(
        crypto::commitment_value(
            claimed_attributes(map, claims),
            credential_blinding(credential_id, secret),
        ),
    )
    &&& c.proof_value@ == ""@
    &&& c.revealed_labels@.len() == 0
    &&& c.predicates_described@.len() == 0
    &&& c.cryptosuite@ == CRYPTOSUITE@
    &&& c.window_start == 0
    &&& c.window_expires == 0
}

impl PoseidonGroth16Suite {
    /// Issues a credential. The first claim without a place is refused.
    pub fn issue_credential(&self, credential_id: &str, issuer_did: &str, claims: &[Claim]) -> (r:
        Result<VerifiableCredential, CredentialError>)
        requires
            reached_below(self.attribute_map@, labels(types::statements(claims@)), 16),
        ensures
            match unknown_label(self.attribute_map@, labels(types::statements(claims@))) {
                Some(label) => r matches Err(CredentialError::UnknownAttribute(m)) && m@ == label,
                None => r matches Ok(c) && issued(
                    self.attribute_map@,
                    self.holder_secret@,
                    credential_id@,
                    issuer_did@,
                    types::statements(claims@),
                    c,
                ),
            },
    {
        let attrs = match self.attributes_of(claims) {
            Ok(attrs) => attrs,
            Err(e) => {
                return Err(e);
            },
        };
        let nonce = crypto::derive_nonce(credential_id, &self.holder_secret);
        let blinding = crypto::derive_blinding(&self.holder_secret, &nonce);
        let commitment = crypto::create_commitment(&attrs, &blinding);
        Ok(
            VerifiableCredential {
                credential_id: credential_id.to_string(),
                issuer_did: issuer_did.to_string(),
                claims: types::copied_claims(claims),
                commitment: commitment.to_text(),
                proof_value: "".to_string(),
                revealed_labels: vec![],
                predicates_described: vec![],
                cryptosuite: CRYPTOSUITE.to_string(),
                window_start: 0,
                window_expires: 0,
            },
        )
    }
}

// Predicates as slots.

/// The attribute that a predicate is about.
pub open spec fn predicate_label(p: PredicateType) -> Seq<char> {
    match p {
        PredicateType::GreaterThanOrEqual { attribute, .. } => attribute@,
        PredicateType::GreaterThan { attribute, .. } => attribute@,
        PredicateType::LessThan { attribute, .. } => attribute@,
        PredicateType::LessThanOrEqual { attribute, .. } => attribute@,
        PredicateType::Equality { attribute, .. } => attribute@,
        PredicateType::NotEqual { attribute, .. } => attribute@,
        PredicateType::Range { attribute, .. } => attribute@,
        PredicateType::InSet { attribute, .. } => attribute@,
        PredicateType::FaceMatch { .. } => "biometric_face_match"@,
        PredicateType::DepthCheck { .. } => "biometric_depth_variance"@,
        PredicateType::LivenessCheck { .. } => "biometric_liveness"@,
    }
}

/// The first value of a predicate: its bound, or the hash of the text that it
/// compares with.
pub open spec fn first_value(p: PredicateType) -> nat {
    match p {
        PredicateType::GreaterThanOrEqual { threshold, .. } => threshold as nat,
        PredicateType::GreaterThan { threshold, .. } => threshold as nat,
        PredicateType::LessThan { threshold, .. } => threshold as nat,
        PredicateType::LessThanOrEqual { threshold, .. } => threshold as nat,
        PredicateType::Equality { value, .. } => crypto::attribute_value(value@),
        PredicateType::NotEqual { value, .. } => crypto::attribute_value(value@),
        PredicateType::Range { min, .. } => min as nat,
        PredicateType::InSet { .. } => 0,
        PredicateType::FaceMatch { min_similarity } => min_similarity as nat,
        PredicateType::DepthCheck { min_depth_variance } => min_depth_variance as nat,
        PredicateType::LivenessCheck { min_confidence } => min_confidence as nat,
    }
}

/// The second value of a predicate: the upper bound of a range.
pub open spec fn second_value(p: PredicateType) -> nat {
    match p {
        PredicateType::Range { max, .. } => max as nat,
        _ => 0,
    }
}

/// The values of a set, in order and once each.
pub open spec fn set_texts(p: PredicateType) -> Seq<Seq<char>> {
    match p {
        PredicateType::InSet { allowed_values, .. } => order::distinct(
            text::texts(allowed_values@).sort_by(order::text_order()),
        ),
        _ => Seq::empty(),
    }
}

/// The hashes of the first six values of a set, and zero behind them.
pub open spec fn set_values(p: PredicateType) -> Seq<nat> {
    let members = set_texts(p);
    Seq::new(
        6,
        |i: int|
            if i < members.len() {
                crypto::attribute_value(members[i])
            } else {
                0
            },
    )
}

/// Whether a predicate is a range that ends before it begins.
pub open spec fn is_reversed(p: PredicateType) -> bool {
    p matches PredicateType::Range { min, max, .. } && min > max
}

/// A slot is that of a predicate.
pub open spec fn slot_for(
    map: Map<Seq<char>, usize>,
    p: PredicateType,
    slot: PredicateSlot,
) -> bool {
    &&& slot.active
    &&& slot.pred_type == types::opcode(p)
    &&& slot.attr_index == map[predicate_label(p)]
    &&& slot.val1@ == first_value(p)
    &&& slot.val2@ == second_value(p)
    &&& field::values(slot.inset_values@) == set_values(p)
    &&& slot.inset_count == if set_texts(p).len() < 6 {
        set_texts(p).len()
    } else {
        6
    }
}

/// Whether a predicate has a slot.
pub open spec fn has_slot(map: Map<Seq<char>, usize>, p: PredicateType) -> bool {
    !is_reversed(p) && map.contains_key(predicate_label(p))
}

/// Why a predicate has no slot.
pub open spec fn slot_refused(p: PredicateType, e: CredentialError) -> bool {
    if is_reversed(p) {
        e matches CredentialError::InvalidPredicate(m) && m@ == "min > max"@
    } else {
        e matches CredentialError::UnknownAttribute(m) && m@ == predicate_label(p)
    }
}

/// A slot without a set.
fn plain_slot(pred_type: u8, attr_index: usize, val1: Fr, val2: Fr) -> (r: PredicateSlot)
    ensures
        r.active,
        r.pred_type == pred_type,
        r.attr_index == attr_index,
        r.val1 == val1,
        r.val2 == val2,
        field::values(r.inset_values@) == Seq::new(6, |i: int| 0nat),
        r.inset_count == 0,
{
    let blank = PredicateSlot::default();
    assert(field::values(blank.inset_values@) =~= Seq::new(6, |i: int| 0nat));
    PredicateSlot { active: true, pred_type, attr_index, val1, val2, ..blank }
}

impl PoseidonGroth16Suite {
    fn place_of(&self, label: &str) -> (r: Result<usize, CredentialError>)
        ensures
            r is Ok <==> self.attribute_map@.contains_key(label@),
            r matches Ok(i) ==> i == self.attribute_map@[label@],
            r matches Err(e) ==> (e matches CredentialError::UnknownAttribute(m) && m@ == label@),
    {
        match self.attribute_map.get(label) {
            Some(i) => Ok(i),
            None => Err(CredentialError::UnknownAttribute(label.to_string())),
        }
    }

    /// A slot that compares an attribute with a number.
    fn bound_slot(&self, pred_type: u8, label: &str, bound: u64) -> (r: Result<
        PredicateSlot,
        CredentialError,
    >)
        ensures
            r is Ok <==> self.attribute_map@.contains_key(label@),
            r matches Ok(slot) ==> {
                &&& slot.active
                &&& slot.pred_type == pred_type
                &&& slot.attr_index == self.attribute_map@[label@]
                &&& slot.val1@ == bound
                &&& slot.val2@ == 0
                &&& field::values(slot.inset_values@) == Seq::new(6, |i: int| 0nat)
                &&& slot.inset_count == 0
            },
            r matches Err(e) ==> (e matches CredentialError::UnknownAttribute(m) && m@ == label@),
    {
        match self.place_of(label) {
            Ok(i) => Ok(plain_slot(pred_type, i, Fr::from_u64(bound), Fr::zero())),
            Err(e) => Err(e),
        }
    }

    /// A slot that compares an attribute with a text.
    fn text_slot(&self, pred_type: u8, label: &str, value: &str) -> (r: Result<
        PredicateSlot,
        CredentialError,
    >)
        ensures
            r is Ok <==> self.attribute_map@.contains_key(label@),
            r matches Ok(slot) ==> {
                &&& slot.active
                &&& slot.pred_type == pred_type
                &&& slot.attr_index == self.attribute_map@[label@]
                &&& slot.val1@ == crypto::attribute_value(value@)
                &&& slot.val2@ == 0
                &&& field::values(slot.inset_values@) == Seq::new(6, |i: int| 0nat)
                &&& slot.inset_count == 0
            },
            r matches Err(e) ==> (e matches CredentialError::UnknownAttribute(m) && m@ == label@),
    {
        match self.place_of(label) {
            Ok(i) => Ok(plain_slot(pred_type, i, crypto::hash_attribute(value), Fr::zero())),
            Err(e) => Err(e),
        }
    }

    /// The slot of a predicate.
    pub fn build_slot(&self, pred: &PredicateType) -> (r: Result<PredicateSlot, CredentialError>)
        ensures
            r is Ok <==> has_slot(self.attribute_map@, *pred),
            r matches Ok(slot) ==> slot_for(self.attribute_map@, *pred, slot),
            r matches Err(e) ==> slot_refused(*pred, e),
    {
        proof {
            let zeros = Seq::new(6, |i: int| 0nat);
            if !(pred is InSet) {
                assert(set_values(*pred) =~= zeros);
            }
        }
        match pred {
            PredicateType::GreaterThanOrEqual { attribute, threshold } => {
                self.bound_slot(1, attribute.as_str(), *threshold)
            },
            PredicateType::GreaterThan { attribute, threshold } => {
                self.bound_slot(2, attribute.as_str(), *threshold)
            },
            PredicateType::LessThan { attribute, threshold } => {
                self.bound_slot(3, attribute.as_str(), *threshold)
            },
            PredicateType::LessThanOrEqual { attribute, threshold } => {
                self.bound_slot(4, attribute.as_str(), *threshold)
            },
            PredicateType::Equality { attribute, value } => {
                self.text_slot(5, attribute.as_str(), value.as_str())
            },
            PredicateType::NotEqual { attribute, value } => {
                self.text_slot(6, attribute.as_str(), value.as_str())
            },
            PredicateType::Range { attribute, min, max } => {
                if *min > *max {
                    return Err(CredentialError::InvalidPredicate("min > max".to_string()));
                }
                match self.place_of(attribute.as_str()) {
                    Ok(i) => Ok(plain_slot(7, i, Fr::from_u64(*min), Fr::from_u64(*max))),
                    Err(e) => Err(e),
                }
            },
            PredicateType::InSet { attribute, allowed_values } => {
                let members = order::without_repeats(&order::sorted(allowed_values));
                let (inset_values, inset_count) = hashed_members(&members);
                assert(field::values(inset_values@) =~= set_values(*pred));
                match self.place_of(attribute.as_str()) {
                    Ok(i) => Ok(
                        PredicateSlot {
                            active: true,
                            pred_type: 8,
                            attr_index: i,
                            val1: Fr::zero(),
                            val2: Fr::zero(),
                            inset_values,
                            inset_count,
                        },
                    ),
                    Err(e) => Err(e),
                }
            },
            PredicateType::FaceMatch { min_similarity } => {
                self.bound_slot(9, "biometric_face_match", *min_similarity)
            },
            PredicateType::DepthCheck { min_depth_variance } => {
                self.bound_slot(10, "biometric_depth_variance", *min_depth_variance)
            },
            PredicateType::LivenessCheck { min_confidence } => {
                self.bound_slot(11, "biometric_liveness", *min_confidence)
            },
        }
    }
}

/// The hashes of the first six members, and zero behind them.
fn hashed_members(members: &Vec<String>) -> (r: ([Fr; MAX_INSET_VALUES], usize))
    ensures
        field::values(r.0@) == Seq::new(
            6,
            |i: int|
                if i < members@.len() {
                    crypto::attribute_value(members@[i]@)
                } else {
                    0
                },
        ),
        r.1 == if members@.len() < 6 {
            members@.len()
        } else {
            6
        },
{
    let zero = Fr::zero();
    let mut values = [zero, zero, zero, zero, zero, zero];
    let count = if members.len() < MAX_INSET_VALUES {
        members.len()
    } else {
        MAX_INSET_VALUES
    };
    for i in 0..count
        invariant
            count <= 6,
            count <= members@.len(),
            forall|j: int|
                0 <= j < i ==> (#[trigger] values@[j])@ == crypto::attribute_value(members@[j]@),
            forall|j: int| i <= j < 6 ==> (#[trigger] values@[j])@ == 0,
    {
        values[i] = crypto::hash_attribute(members[i].as_str());
    }
    assert(field::values(values@) =~= Seq::new(
        6,
        |i: int|
            if i < members@.len() {
                crypto::attribute_value(members@[i]@)
            } else {
                0
            },
    ));
    (values, count)
}

// Deriving a proof.

/// The first predicate without a slot.
pub open spec fn refused_predicate(
    map: Map<Seq<char>, usize>,
    predicates: Seq<PredicateType>,
) -> Option<int>
    decreases predicates.len(),
{
    if predicates.len() == 0 {
        None
    } else {
        match refused_predicate(map, predicates.drop_last()) {
            Some(i) => Some(i),
            None => if has_slot(map, predicates.last()) {
                None
            } else {
                Some(predicates.len() - 1)
            },
        }
    }
}

/// Slots are those of predicates, and the rest of them idle.
pub open spec fn slots_for(
    map: Map<Seq<char>, usize>,
    predicates: Seq<PredicateType>,
    slots: Seq<PredicateSlot>,
) -> bool {
    &&& slots.len() == 8
    &&& forall|i: int|
        0 <= i < predicates.len() ==> slot_for(map, predicates[i], #[trigger] slots[i])
    &&& forall|i: int| predicates.len() <= i < 8 ==> !(#[trigger] slots[i]).active
}

/// The labels that predicates are about.
pub open spec fn predicate_labels(predicates: Seq<PredicateType>) -> Seq<Seq<char>> {
    Seq::new(predicates.len(), |i: int| predicate_label(predicates[i]))
}

/// Predicates in words.
pub open spec fn descriptions(predicates: Seq<PredicateType>) -> Seq<Seq<char>> {
    Seq::new(predicates.len(), |i: int| types::description(predicates[i]))
}

/// The commitment that a credential states; zero where it cannot be read.
pub open spec fn stated_commitment(c: VerifiableCredential) -> nat {
    match field::field_of_text(c.commitment@) {
        Some(v) => v,
        None => 0,
    }
}

/// A time in 32 bits.
pub open spec fn short_time(t: u64) -> nat {
    t as nat % 0x1_0000_0000
}

/// What a derived credential says.
pub open spec fn derived(
    c: VerifiableCredential,
    reveal: Seq<Seq<char>>,
    predicates: Seq<PredicateType>,
    window_start: u64,
    window_expires: u64,
    d: VerifiableCredential,
) -> bool {
    &&& d.credential_id@ == c.credential_id@
    &&& d.issuer_did@ == c.issuer_did@
    &&& types::statements(d.claims@) == types::statements(c.claims@)
    &&& d.commitment@ == field::field_text(stated_commitment(c))
    &&& text::texts(d.revealed_labels@) == reveal
    &&& text::texts(d.predicates_described@) == descriptions(predicates)
    &&& d.cryptosuite@ == CRYPTOSUITE@
    &&& d.window_start == window_start
    &&& d.window_expires == window_expires
}

impl PoseidonGroth16Suite {
    /// The attributes that a credential's claims make.
    pub open spec fn attributes(self, c: VerifiableCredential) -> Seq<nat> {
        claimed_attributes(self.attribute_map@, types::statements(c.claims@))
    }

    /// The commitment that a credential's claims have.
    pub open spec fn true_commitment(self, c: VerifiableCredential) -> nat {
        crypto::commitment_value(
            self.attributes(c),
            credential_blinding(c.credential_id@, self.holder_secret@),
        )
    }

    /// What the attempt at a proof comes to once the slots are built.
    pub open spec fn attempted(
        self,
        c: VerifiableCredential,
        reveal: Seq<Seq<char>>,
        predicates: Seq<PredicateType>,
        slots: Seq<PredicateSlot>,
        window_start: u64,
        window_expires: u64,
        r: Result<VerifiableCredential, CredentialError>,
    ) -> bool {
        let attrs = self.attributes(c);
        let blinding = credential_blinding(c.credential_id@, self.holder_secret@);
        let commitment = stated_commitment(c);
        let start = short_time(window_start);
        let end = short_time(window_expires);
        &&& r matches Err(e) ==> crypto::proof_refused(
            self.setup,
            attrs,
            blinding,
            commitment,
            slots,
            label_mask(self.attribute_map@, reveal),
            start,
            end,
            e,
        )
        &&& r matches Ok(d) ==> {
            &&& crypto::can_prove(attrs, blinding, commitment, slots, start, end)
            &&& derived(c, reveal, predicates, window_start, window_expires, d)
            &&& base64url::strictly_decoded(d.proof_value@) is Ok
            &&& crypto::proved(
                self.setup,
                attrs,
                commitment,
                slots,
                label_mask(self.attribute_map@, reveal),
                start,
                end,
                base64url::strictly_decoded(d.proof_value@)->Ok_0,
            )
        }
    }

    /// What deriving a proof comes to. In this order are refused: more predicates
    /// than there is room for, a claim without a place, a commitment that is not
    /// that of the claims, a label to show without a place, and a predicate
    /// without a slot.
    pub open spec fn derivation(
        self,
        c: VerifiableCredential,
        reveal: Seq<Seq<char>>,
        predicates: Seq<PredicateType>,
        window_start: u64,
        window_expires: u64,
        r: Result<VerifiableCredential, CredentialError>,
    ) -> bool {
        let map = self.attribute_map@;
        let unknown = unknown_label(map, labels(types::statements(c.claims@)));
        if predicates.len() > 8 {
            r matches Err(CredentialError::TooManyPredicates(max, got)) && max == 8 && got
                == predicates.len()
        } else if unknown is Some {
            r matches Err(CredentialError::UnknownAttribute(m)) && m@ == unknown->0
        } else if stated_commitment(c) != self.true_commitment(c) {
            r matches Err(CredentialError::ConstraintUnsatisfied(m)) && m@
                == "COMMITMENT MISMATCH: stored="@ + field::field_text(stated_commitment(c))
                + " recomputed="@ + field::field_text(self.true_commitment(c))
        } else if unknown_label(map, reveal) is Some {
            r matches Err(CredentialError::UnknownAttribute(m)) && m@ == unknown_label(
                map,
                reveal,
            )->0
        } else if refused_predicate(map, predicates) is Some {
            r matches Err(e) && slot_refused(predicates[refused_predicate(map, predicates)->0], e)
        } else {
            exists|slots: Seq<PredicateSlot>|
                slots_for(map, predicates, slots) && #[trigger] self.attempted(
                    c,
                    reveal,
                    predicates,
                    slots,
                    window_start,
                    window_expires,
                    r,
                )
        }
    }

    /// Whether the claims are the ones that the stated commitment is for, and so
    /// the labels to show are looked at.
    pub open spec fn labels_reached(
        self,
        c: VerifiableCredential,
        predicates: Seq<PredicateType>,
    ) -> bool {
        &&& predicates.len() <= 8
        &&& unknown_label(self.attribute_map@, labels(types::statements(c.claims@))) is None
        &&& stated_commitment(c) == self.true_commitment(c)
    }

    /// Every place that deriving a proof comes to is one of the sixteen. Of the
    /// claims, the labels to show and the predicates only those count that are
    /// not behind a refusal.
    pub open spec fn places_fit(
        self,
        c: VerifiableCredential,
        reveal: Seq<Seq<char>>,
        predicates: Seq<PredicateType>,
    ) -> bool {
        let map = self.attribute_map@;
        &&& predicates.len() <= 8 ==> reached_below(
            map,
            labels(types::statements(c.claims@)),
            16,
        )
        &&& self.labels_reached(c, predicates) ==> reached_below(map, reveal, 16)
        &&& self.labels_reached(c, predicates) && unknown_label(map, reveal) is None
            && refused_predicate(map, predicates) is None ==> placed_below(
            map,
            predicate_labels(predicates),
            16,
        )
    }

    /// The mask of labels, or the first label without a place.
    fn mask_of(&self, shown: &Vec<String>) -> (r: Result<[bool; NUM_ATTRIBUTES], CredentialError>)
        requires
            reached_below(self.attribute_map@, text::texts(shown@), 16),
        ensures
            match unknown_label(self.attribute_map@, text::texts(shown@)) {
                Some(label) => r matches Err(CredentialError::UnknownAttribute(m)) && m@ == label,
                None => r matches Ok(mask) && mask@ == label_mask(
                    self.attribute_map@,
                    text::texts(shown@),
                ),
            },
    {
        let ghost map = self.attribute_map@;
        let ghost names = text::texts(shown@);
        let mut mask = [false; NUM_ATTRIBUTES];
        assert(mask@ =~= label_mask(map, names.take(0)));
        for i in 0..shown.len()
            invariant
                map == self.attribute_map@,
                names == text::texts(shown@),
                reached_below(map, names, 16),
                unknown_label(map, names.take(i as int)) is None,
                mask@ == label_mask(map, names.take(i as int)),
        {
            proof {
                assert(names[i as int] == shown@[i as int]@);
                assert(names.take(i + 1).drop_last() =~= names.take(i as int));
                assert(names.take(i + 1).last() == shown@[i as int]@);
            }
            match self.place_of(shown[i].as_str()) {
                Ok(idx) => {
                    let ghost before = mask@;
                    mask[idx] = true;
                    assert(mask@ =~= before.update(idx as int, true));
                },
                Err(e) => {
                    proof {
                        lemma_unknown_kept(map, names, (i + 1) as nat);
                    }
                    return Err(e);
                },
            }
        }
        assert(names.take(names.len() as int) =~= names);
        Ok(mask)
    }

    /// The slots of predicates, or why the first without one has none.
    fn slots_of(&self, predicates: &[PredicateType]) -> (r: Result<
        [PredicateSlot; MAX_PREDICATES],
        CredentialError,
    >)
        requires
            predicates@.len() <= 8,
        ensures
            r is Ok <==> refused_predicate(self.attribute_map@, predicates@) is None,
            r matches Ok(slots) ==> slots_for(self.attribute_map@, predicates@, slots@),
            r matches Err(e) ==> slot_refused(
                predicates@[refused_predicate(self.attribute_map@, predicates@)->0],
                e,
            ),
    {
        let ghost map = self.attribute_map@;
        let idle = PredicateSlot::default();
        let mut slots = [idle, idle, idle, idle, idle, idle, idle, idle];
        for i in 0..predicates.len()
            invariant
                map == self.attribute_map@,
                predicates@.len() <= 8,
                refused_predicate(map, predicates@.take(i as int)) is None,
                forall|j: int|
                    0 <= j < i ==> slot_for(map, predicates@[j], #[trigger] slots@[j]),
                forall|j: int| i <= j < 8 ==> !(#[trigger] slots@[j]).active,
        {
            proof {
                assert(predicates@.take(i + 1).drop_last() =~= predicates@.take(i as int));
                assert(predicates@.take(i + 1).last() == predicates@[i as int]);
            }
            match self.build_slot(&predicates[i]) {
                Ok(slot) => {
                    slots[i] = slot;
                },
                Err(e) => {
                    proof {
                        lemma_refused_kept(map, predicates@, (i + 1) as nat);
                    }
                    return Err(e);
                },
            }
        }
        assert(predicates@.take(predicates@.len() as int) =~= predicates@);
        Ok(slots)
    }

    /// Derives a proof for a window of time: it shows the attributes of the
    /// labels and that the predicates are met.
    pub fn derive_proof_with_timestamp(
        &self,
        credential: &VerifiableCredential,
        reveal: &RevealRequest,
        predicates: &[PredicateType],
        window_start: u64,
        window_expires: u64,
    ) -> (r: Result<VerifiableCredential, CredentialError>)
        requires
            self.places_fit(*credential, text::texts(reveal.reveal_labels@), predicates@),
        ensures
            self.derivation(
                *credential,
                text::texts(reveal.reveal_labels@),
                predicates@,
                window_start,
                window_expires,
                r,
            ),
    {
        if predicates.len() > MAX_PREDICATES {
            return Err(CredentialError::TooManyPredicates(MAX_PREDICATES, predicates.len()));
        }
        let attrs = match self.attributes_of(credential.claims.as_slice()) {
            Ok(attrs) => attrs,
            Err(e) => {
                return Err(e);
            },
        };
        let nonce = crypto::derive_nonce(credential.credential_id.as_str(), &self.holder_secret);
        let blinding = crypto::derive_blinding(&self.holder_secret, &nonce);
        let commitment = commitment_of(credential);
        let recomputed = crypto::create_commitment(&attrs, &blinding);
        if commitment != recomputed {
            let mut message = "COMMITMENT MISMATCH: stored=".to_string();
            message.push_str(commitment.to_text().as_str());
            message.push_str(" recomputed=");
            message.push_str(recomputed.to_text().as_str());
            return Err(CredentialError::ConstraintUnsatisfied(message));
        }
        let mask = match self.mask_of(&reveal.reveal_labels) {
            Ok(mask) => mask,
            Err(e) => {
                return Err(e);
            },
        };
        let slots = match self.slots_of(predicates) {
            Ok(slots) => slots,
            Err(e) => {
                return Err(e);
            },
        };
        proof {
            lemma_slots_placed(self.attribute_map@, predicates@, slots@);
        }
        let r = self.attempt(
            credential,
            reveal,
            predicates,
            &attrs,
            blinding,
            commitment,
            &slots,
            &mask,
            window_start,
            window_expires,
        );
        assert(self.attempted(
            *credential,
            text::texts(reveal.reveal_labels@),
            predicates@,
            slots@,
            window_start,
            window_expires,
            r,
        ));
        r
    }

    /// Whether the claims reach only places of attributes.
    fn claims_fit(&self, claims: &[Claim]) -> (r: bool)
        ensures
            r == reached_below(self.attribute_map@, labels(types::statements(claims@)), 16),
    {
        let ghost map = self.attribute_map@;
        let ghost names = labels(types::statements(claims@));
        for i in 0..claims.len()
            invariant
                map == self.attribute_map@,
                names == labels(types::statements(claims@)),
                unknown_label(map, names.take(i as int)) is None,
                forall|j: int| 0 <= j < i ==> map[#[trigger] names[j]] < 16,
        {
            proof {
                assert(names[i as int] == claims@[i as int].label@);
                assert(names.take(i + 1).drop_last() =~= names.take(i as int));
                assert(names.take(i + 1).last() == names[i as int]);
            }
            match self.attribute_map.get(claims[i].label.as_str()) {
                Some(idx) => {
                    if idx >= NUM_ATTRIBUTES {
                        return false;
                    }
                },
                None => {
                    proof {
                        lemma_reached_until_unknown(map, names, 16, i as nat);
                    }
                    return true;
                },
            }
        }
        true
    }

    /// Whether labels reach only places of attributes.
    fn labels_fit(&self, shown: &Vec<String>) -> (r: bool)
        ensures
            r == reached_below(self.attribute_map@, text::texts(shown@), 16),
    {
        let ghost map = self.attribute_map@;
        let ghost names = text::texts(shown@);
        for i in 0..shown.len()
            invariant
                map == self.attribute_map@,
                names == text::texts(shown@),
                unknown_label(map, names.take(i as int)) is None,
                forall|j: int| 0 <= j < i ==> map[#[trigger] names[j]] < 16,
        {
            proof {
                assert(names[i as int] == shown@[i as int]@);
                assert(names.take(i + 1).drop_last() =~= names.take(i as int));
                assert(names.take(i + 1).last() == names[i as int]);
            }
            match self.attribute_map.get(shown[i].as_str()) {
                Some(idx) => {
                    if idx >= NUM_ATTRIBUTES {
                        return false;
                    }
                },
                None => {
                    proof {
                        lemma_reached_until_unknown(map, names, 16, i as nat);
                    }
                    return true;
                },
            }
        }
        true
    }

    /// Whether deriving a proof comes only to places of attributes.
    fn has_fitting_places(
        &self,
        credential: &VerifiableCredential,
        reveal: &RevealRequest,
        predicates: &[PredicateType],
    ) -> (r: bool)
        ensures
            r == self.places_fit(*credential, text::texts(reveal.reveal_labels@), predicates@),
    {
        if predicates.len() > MAX_PREDICATES {
            return true;
        }
        if !self.claims_fit(credential.claims.as_slice()) {
            return false;
        }
        let attrs = match self.attributes_of(credential.claims.as_slice()) {
            Ok(attrs) => attrs,
            Err(_) => {
                return true;
            },
        };
        let nonce = crypto::derive_nonce(credential.credential_id.as_str(), &self.holder_secret);
        let blinding = crypto::derive_blinding(&self.holder_secret, &nonce);
        if commitment_of(credential) != crypto::create_commitment(&attrs, &blinding) {
            return true;
        }
        if !self.labels_fit(&reveal.reveal_labels) {
            return false;
        }
        if self.mask_of(&reveal.reveal_labels).is_err() {
            return true;
        }
        match self.slots_of(predicates) {
            Ok(slots) => {
                let fit = slots_fit(&slots);
                proof {
                    lemma_slots_placed(self.attribute_map@, predicates@, slots@);
                }
                fit
            },
            Err(_) => true,
        }
    }

    /// Derives a proof for a window of time, or nothing where that would come to a
    /// place beyond the sixteen attributes.
    pub fn derive_proof_if_placed(
        &self,
        credential: &VerifiableCredential,
        reveal: &RevealRequest,
        predicates: &[PredicateType],
        window_start: u64,
        window_expires: u64,
    ) -> (r: Option<Result<VerifiableCredential, CredentialError>>)
        ensures
            r is Some <==> self.places_fit(
                *credential,
                text::texts(reveal.reveal_labels@),
                predicates@,
            ),
            r matches Some(outcome) ==> self.derivation(
                *credential,
                text::texts(reveal.reveal_labels@),
                predicates@,
                window_start,
                window_expires,
                outcome,
            ),
    {
        if self.has_fitting_places(credential, reveal, predicates) {
            Some(
                self.derive_proof_with_timestamp(
                    credential,
                    reveal,
                    predicates,
                    window_start,
                    window_expires,
                ),
            )
        } else {
            None
        }
    }

    /// Makes the proof and the credential that carries it.
    fn attempt(
        &self,
        credential: &VerifiableCredential,
        reveal: &RevealRequest,
        predicates: &[PredicateType],
        attrs: &[Fr; NUM_ATTRIBUTES],
        blinding: Fr,
        commitment: Fr,
        slots: &[PredicateSlot; MAX_PREDICATES],
        mask: &[bool; NUM_ATTRIBUTES],
        window_start: u64,
        window_expires: u64,
    ) -> (r: Result<VerifiableCredential, CredentialError>)
        requires
            matrix::slots_placed(slots@),
            field::values(attrs@) == self.attributes(*credential),
            blinding@ == credential_blinding(credential.credential_id@, self.holder_secret@),
            commitment@ == stated_commitment(*credential),
            mask@ == label_mask(self.attribute_map@, text::texts(reveal.reveal_labels@)),
        ensures
            self.attempted(
                *credential,
                text::texts(reveal.reveal_labels@),
                predicates@,
                slots@,
                window_start,
                window_expires,
                r,
            ),
    {
        let start = (window_start % 0x1_0000_0000) as u32;
        let end = (window_expires % 0x1_0000_0000) as u32;
        let proof_bytes = match crypto::generate_proof(
            &self.setup,
            attrs,
            blinding,
            commitment,
            slots,
            mask,
            start,
            end,
        ) {
            Ok(bytes) => bytes,
            Err(e) => {
                return Err(e);
            },
        };
        let proof_value = base64url::strict_encode(proof_bytes.as_slice());
        Ok(
            VerifiableCredential {
                credential_id: credential.credential_id.clone(),
                issuer_did: credential.issuer_did.clone(),
                claims: types::copied_claims(credential.claims.as_slice()),
                commitment: commitment.to_text(),
                proof_value,
                revealed_labels: text::copied(&reveal.reveal_labels),
                predicates_described: described(predicates),
                cryptosuite: CRYPTOSUITE.to_string(),
                window_start,
                window_expires,
            },
        )
    }
}

/// The commitment that a credential states.
fn commitment_of(credential: &VerifiableCredential) -> (r: Fr)
    ensures
        r@ == stated_commitment(*credential),
{
    match Fr::from_text(credential.commitment.as_str()) {
        Some(c) => c,
        None => Fr::zero(),
    }
}

/// Predicates in words.
fn described(predicates: &[PredicateType]) -> (r: Vec<String>)
    ensures
        text::texts(r@) == descriptions(predicates@),
{
    let mut out: Vec<String> = Vec::new();
    assert(text::texts(out@) =~= descriptions(predicates@).take(0));
    for i in 0..predicates.len()
        invariant
            text::texts(out@) == descriptions(predicates@).take(i as int),
    {
        let ghost before = out@;
        out.push(predicates[i].describe());
        proof {
            let d = types::description(predicates@[i as int]);
            assert(text::texts(out@) =~= text::texts(before).push(d));
            assert(descriptions(predicates@).take(i + 1) =~= descriptions(predicates@).take(
                i as int,
            ).push(d));
        }
    }
    assert(descriptions(predicates@).take(predicates@.len() as int) =~= descriptions(predicates@));
    out
}

proof fn lemma_refused_kept(map: Map<Seq<char>, usize>, predicates: Seq<PredicateType>, i: nat)
    requires
        i <= predicates.len(),
        refused_predicate(map, predicates.take(i as int)) is Some,
    ensures
        refused_predicate(map, predicates) == refused_predicate(map, predicates.take(i as int)),
    decreases predicates.len() - i,
{
    if i == predicates.len() {
        assert(predicates.take(i as int) =~= predicates);
    } else {
        assert(predicates.take((i + 1) as int).drop_last() =~= predicates.take(i as int));
        lemma_refused_kept(map, predicates, i + 1);
    }
}

pub(crate) proof fn lemma_no_refused(map: Map<Seq<char>, usize>, predicates: Seq<PredicateType>, i: int)
    requires
        refused_predicate(map, predicates) is None,
        0 <= i < predicates.len(),
    ensures
        has_slot(map, predicates[i]),
    decreases predicates.len(),
{
    if i < predicates.len() - 1 {
        lemma_no_refused(map, predicates.drop_last(), i);
    }
}

proof fn lemma_slots_placed(
    map: Map<Seq<char>, usize>,
    predicates: Seq<PredicateType>,
    slots: Seq<PredicateSlot>,
)
    requires
        predicates.len() <= 8,
        refused_predicate(map, predicates) is None,
        slots_for(map, predicates, slots),
    ensures
        matrix::slots_placed(slots) == placed_below(map, predicate_labels(predicates), 16),
{
    let names = predicate_labels(predicates);
    if placed_below(map, names, 16) {
        assert forall|j: int| 0 <= j < slots.len() && (#[trigger] slots[j]).active implies
            slots[j].attr_index < 16 by {
            if j < predicates.len() {
                lemma_no_refused(map, predicates, j);
                assert(slot_for(map, predicates[j], slots[j]));
                assert(map.contains_key(names[j]));
            }
        }
    }
    if matrix::slots_placed(slots) {
        assert forall|j: int| 0 <= j < names.len() && map.contains_key(#[trigger] names[j]) implies
            map[names[j]] < 16 by {
            assert(slot_for(map, predicates[j], slots[j]));
            assert(slots[j].attr_index < 16);
        }
    }
}

/// Whether every active slot names one of the attributes.
fn slots_fit(slots: &[PredicateSlot; MAX_PREDICATES]) -> (r: bool)
    ensures
        r == matrix::slots_placed(slots@),
{
    for i in 0..MAX_PREDICATES
        invariant
            forall|j: int|
                0 <= j < i && (#[trigger] slots@[j]).active ==> slots@[j].attr_index < 16,
    {
        if slots[i].active && slots[i].attr_index >= NUM_ATTRIBUTES {
            assert(slots@[i as int].active);
            return false;
        }
    }
    true
}

// Verifying.

/// A result as it reads.
pub struct Report {
    pub valid: bool,
    pub claims: Seq<types::Statement>,
    pub predicates: Seq<Seq<char>>,
    pub errors: Seq<Seq<char>>,
}

impl View for VerificationResult {
    type V = Report;

    open spec fn view(&self) -> Report {
        Report {
            valid: self.valid,
            claims: types::statements(self.revealed_claims@),
            predicates: text::texts(self.predicates_verified@),
            errors: text::texts(self.errors@),
        }
    }
}

/// Whether a claim is shown: its label is among those shown and has a place.
pub open spec fn is_shown(
    map: Map<Seq<char>, usize>,
    shown: Seq<Seq<char>>,
    claim: types::Statement,
) -> bool {
    shown.contains(claim.label) && map.contains_key(claim.label)
}

/// The claims that are shown.
pub open spec fn shown_claims(
    map: Map<Seq<char>, usize>,
    shown: Seq<Seq<char>>,
    claims: Seq<types::Statement>,
) -> Seq<types::Statement>
    decreases claims.len(),
{
    if claims.len() == 0 {
        Seq::empty()
    } else {
        let before = shown_claims(map, shown, claims.drop_last());
        if is_shown(map, shown, claims.last()) {
            before.push(claims.last())
        } else {
            before
        }
    }
}

/// The shown claims at their places, among nineteen values.
pub open spec fn shown_inputs(
    map: Map<Seq<char>, usize>,
    shown: Seq<Seq<char>>,
    claims: Seq<types::Statement>,
) -> Seq<nat>
    decreases claims.len(),
{
    if claims.len() == 0 {
        Seq::new(19, |i: int| 0nat)
    } else {
        let before = shown_inputs(map, shown, claims.drop_last());
        if is_shown(map, shown, claims.last()) {
            before.update(
                map[claims.last().label] as int,
                types::claim_element(claims.last().value),
            )
        } else {
            before
        }
    }
}

/// The labels of the shown claims that have places.
pub open spec fn shown_labels(
    map: Map<Seq<char>, usize>,
    shown: Seq<Seq<char>>,
    claims: Seq<types::Statement>,
) -> Seq<Seq<char>> {
    labels(shown_claims(map, shown, claims))
}

impl PoseidonGroth16Suite {
    /// The public values that a credential is checked against: the shown claims
    /// at their places, then the commitment and the window.
    pub open spec fn public_values(self, c: VerifiableCredential) -> Seq<nat> {
        shown_inputs(
            self.attribute_map@,
            text::texts(c.revealed_labels@),
            types::statements(c.claims@),
        ).update(16, stated_commitment(c)).update(17, c.window_start as nat).update(
            18,
            c.window_expires as nat,
        )
    }

    /// Every claim that is shown has a place among the public values.
    pub open spec fn shown_fit(self, c: VerifiableCredential) -> bool {
        placed_below(
            self.attribute_map@,
            shown_labels(
                self.attribute_map@,
                text::texts(c.revealed_labels@),
                types::statements(c.claims@),
            ),
            19,
        )
    }

    /// What checking a credential at a time gives. The proof must decode, and the
    /// time must be within the window, before the proof is checked.
    pub open spec fn report(self, c: VerifiableCredential, now: u64) -> Report {
        let claims = shown_claims(
            self.attribute_map@,
            text::texts(c.revealed_labels@),
            types::statements(c.claims@),
        );
        match base64url::strictly_decoded(c.proof_value@) {
            Err(text) => failure(text),
            Ok(bytes) => if now < c.window_start {
                failure("Not yet valid until "@ + text::decimal(c.window_start as nat))
            } else if now >= c.window_expires {
                failure("Expired at "@ + text::decimal(c.window_expires as nat))
            } else {
                match groth16::decoded_proof(bytes) {
                    Err(text) => Report {
                        valid: false,
                        claims,
                        predicates: Seq::empty(),
                        errors: seq!["Serialization error: "@ + text],
                    },
                    Ok(proof) => match groth16::verdict(
                        self.setup.keys.verifying_key(),
                        self.public_values(c),
                        proof,
                    ) {
                        Err(e) => Report {
                            valid: false,
                            claims,
                            predicates: Seq::empty(),
                            errors: seq!["Verification failed: "@ + e.text()],
                        },
                        Ok(valid) => if valid {
                            Report {
                                valid: true,
                                claims,
                                predicates: text::texts(c.predicates_described@),
                                errors: Seq::empty(),
                            }
                        } else {
                            Report {
                                valid: false,
                                claims,
                                predicates: Seq::empty(),
                                errors: seq!["Invalid proof"@],
                            }
                        },
                    },
                }
            },
        }
    }

    /// The shown claims, and the public values that they come to.
    fn shown_of(&self, credential: &VerifiableCredential) -> (r: (
        [Fr; PUBLIC_INPUT_SIZE],
        Vec<Claim>,
    ))
        requires
            self.shown_fit(*credential),
        ensures
            field::values(r.0@) == self.public_values(*credential),
            types::statements(r.1@) == shown_claims(
                self.attribute_map@,
                text::texts(credential.revealed_labels@),
                types::statements(credential.claims@),
            ),
    {
        let ghost map = self.attribute_map@;
        let ghost shown = text::texts(credential.revealed_labels@);
        let ghost all = types::statements(credential.claims@);
        let zero = Fr::zero();
        let mut inputs = [
            zero,
            zero,
            zero,
            zero,
            zero,
            zero,
            zero,
            zero,
            zero,
            zero,
            zero,
            zero,
            zero,
            zero,
            zero,
            zero,
            zero,
            zero,
            zero,
        ];
        let mut claims: Vec<Claim> = Vec::new();
        proof {
            assert(field::values(inputs@) =~= shown_inputs(map, shown, all.take(0)));
            assert(types::statements(claims@) =~= shown_claims(map, shown, all.take(0)));
        }
        for i in 0..credential.claims.len()
            invariant
                map == self.attribute_map@,
                shown == text::texts(credential.revealed_labels@),
                all == types::statements(credential.claims@),
                placed_below(map, shown_labels(map, shown, all), 19),
                field::values(inputs@) == shown_inputs(map, shown, all.take(i as int)),
                types::statements(claims@) == shown_claims(map, shown, all.take(i as int)),
        {
            let claim = &credential.claims[i];
            proof {
                assert(all.take(i + 1).drop_last() =~= all.take(i as int));
                assert(all.take(i + 1).last() == claim@);
            }
            if is_listed(&credential.revealed_labels, claim.label.as_str()) {
                if let Some(idx) = self.attribute_map.get(claim.label.as_str()) {
                    proof {
                        lemma_shown_placed(map, shown, all, 19, i as int);
                    }
                    let ghost before = inputs@;
                    let ghost earlier = claims@;
                    let element = claim.value.to_fr();
                    inputs[idx] = element;
                    claims.push(types::copied_claim(claim));
                    proof {
                        assert(field::values(inputs@) =~= field::values(before).update(
                            idx as int,
                            element@,
                        ));
                        assert(types::statements(claims@) =~= types::statements(earlier).push(
                            claim@,
                        ));
                    }
                }
            }
        }
        assert(all.take(all.len() as int) =~= all);
        let ghost filled = inputs@;
        let commitment = commitment_of(credential);
        let start = Fr::from_u64(credential.window_start);
        let end = Fr::from_u64(credential.window_expires);
        inputs[NUM_ATTRIBUTES] = commitment;
        inputs[NUM_ATTRIBUTES + 1] = start;
        inputs[NUM_ATTRIBUTES + 2] = end;
        assert(field::values(inputs@) =~= field::values(filled).update(16, commitment@).update(
            17,
            start@,
        ).update(18, end@));
        (inputs, claims)
    }

    /// Checks a credential at a time.
    pub fn verify_proof_at(&self, credential: &VerifiableCredential, now: u64) -> (r:
        VerificationResult)
        requires
            base64url::is_encoding(credential.proof_value@) && credential.window_start <= now
                < credential.window_expires ==> self.shown_fit(*credential),
        ensures
            r@ == self.report(*credential, now),
    {
        let proof_bytes = match base64url::strict_decode(credential.proof_value.as_str()) {
            Ok(bytes) => bytes,
            Err(e) => {
                return failed(e);
            },
        };
        if now < credential.window_start {
            let mut message = "Not yet valid until ".to_string();
            message.push_str(text::decimal_text(credential.window_start).as_str());
            return failed(message);
        }
        if now >= credential.window_expires {
            let mut message = "Expired at ".to_string();
            message.push_str(text::decimal_text(credential.window_expires).as_str());
            return failed(message);
        }
        let (public_inputs, revealed_claims) = self.shown_of(credential);
        let verdict = crypto::verify_proof(&self.setup, proof_bytes.as_slice(), &public_inputs);
        match verdict {
            Ok(true) => {
                let r = VerificationResult {
                    valid: true,
                    revealed_claims,
                    predicates_verified: text::copied(&credential.predicates_described),
                    errors: vec![],
                };
                assert(r@.errors =~= Seq::<Seq<char>>::empty());
                r
            },
            Ok(false) => rejected(revealed_claims, "Invalid proof".to_string()),
            Err(e) => rejected(revealed_claims, e.message()),
        }
    }

    /// Checks a credential now.
    pub fn verify_proof_with_time(&self, credential: &VerifiableCredential) -> (r:
        VerificationResult)
        requires
            base64url::is_encoding(credential.proof_value@) && credential.window_start
                < credential.window_expires ==> self.shown_fit(*credential),
        ensures
            exists|now: u64| r@ == #[trigger] self.report(*credential, now),
    {
        let now = clock::seconds_now();
        self.verify_proof_at(credential, now)
    }

    /// The compressed encodings of the keys.
    pub fn save_keys(&self) -> (r: (Vec<u8>, Vec<u8>))
        ensures
            r.0@ == self.setup.keys.proving_key(),
            r.1@ == self.setup.keys.verifying_key(),
            decoding::gives(groth16::decoded_proving_key(r.0@), self.setup.keys.proving_key()),
            decoding::gives(
                groth16::decoded_verifying_key(r.1@),
                self.setup.keys.verifying_key(),
            ),
    {
        self.setup.save()
    }
}

/// A failure before the proof is checked.
pub open spec fn failure(error: Seq<char>) -> Report {
    Report { valid: false, claims: Seq::empty(), predicates: Seq::empty(), errors: seq![error] }
}

fn failed(error: String) -> (r: VerificationResult)
    ensures
        r@ == failure(error@),
{
    let none: Vec<Claim> = Vec::new();
    assert(types::statements(none@) =~= Seq::<types::Statement>::empty());
    rejected(none, error)
}

/// A rejection with the claims that are shown.
fn rejected(revealed_claims: Vec<Claim>, error: String) -> (r: VerificationResult)
    ensures
        r@ == (Report {
            valid: false,
            claims: types::statements(revealed_claims@),
            predicates: Seq::empty(),
            errors: seq![error@],
        }),
{
    let r = VerificationResult {
        valid: false,
        revealed_claims,
        predicates_verified: vec![],
        errors: vec![error],
    };
    assert(r@.predicates =~= Seq::<Seq<char>>::empty());
    assert(r@.errors =~= seq![error@]);
    r
}

/// Whether a text is among texts.
fn is_listed(v: &Vec<String>, item: &str) -> (r: bool)
    ensures
        r == text::texts(v@).contains(item@),
{
    let wanted = item.to_string();
    for i in 0..v.len()
        invariant
            wanted@ == item@,
            forall|j: int| 0 <= j < i ==> (#[trigger] v@[j])@ != item@,
    {
        if v[i] == wanted {
            assert(text::texts(v@)[i as int] == item@);
            return true;
        }
    }
    proof {
        if text::texts(v@).contains(item@) {
            let i = choose|i: int|
                0 <= i < text::texts(v@).len() && text::texts(v@)[i] == item@;
            assert(v@[i]@ == item@);
        }
    }
    false
}

/// A shown claim's label is among the shown labels.
proof fn lemma_shown_placed(
    map: Map<Seq<char>, usize>,
    shown: Seq<Seq<char>>,
    claims: Seq<types::Statement>,
    bound: nat,
    i: int,
)
    requires
        placed_below(map, shown_labels(map, shown, claims), bound),
        0 <= i < claims.len(),
        is_shown(map, shown, claims[i]),
    ensures
        map[claims[i].label] < bound,
    decreases claims.len(),
{
    let all = shown_claims(map, shown, claims);
    let names = labels(all);
    if i == claims.len() - 1 {
        assert(names[all.len() - 1] == claims[i].label);
    } else {
        let before = shown_claims(map, shown, claims.drop_last());
        assert forall|j: int|
            0 <= j < labels(before).len() && map.contains_key(
                #[trigger] labels(before)[j],
            ) implies map[labels(before)[j]] < bound by {
            assert(names[j] == labels(before)[j]);
        }
        lemma_shown_placed(map, shown, claims.drop_last(), bound, i);
    }
}

// A derived proof verifies.

/// No two labels have the same place.
pub open spec fn separate(map: Map<Seq<char>, usize>) -> bool {
    forall|a: Seq<char>, b: Seq<char>|
        #[trigger] map.contains_key(a) && #[trigger] map.contains_key(b) && map[a] == map[b] ==> a
            == b
}

/// A place is in the mask exactly when one of the labels has it.
pub(crate) proof fn lemma_label_mask(map: Map<Seq<char>, usize>, shown: Seq<Seq<char>>, i: int)
    requires
        placed_below(map, shown, 16),
        unknown_label(map, shown) is None,
        0 <= i < 16,
    ensures
        label_mask(map, shown).len() == 16,
        label_mask(map, shown)[i] <==> exists|j: int|
            0 <= j < shown.len() && map[#[trigger] shown[j]] == i,
    decreases shown.len(),
{
    if shown.len() > 0 {
        let before = shown.drop_last();
        assert forall|j: int| 0 <= j < before.len() && map.contains_key(#[trigger] before[j]) implies
            map[before[j]] < 16 by {
            assert(shown[j] == before[j]);
        }
        lemma_label_mask(map, before, i);
        let last = shown[shown.len() - 1];
        assert(map.contains_key(last) && map[last] < 16);
        if label_mask(map, before)[i] {
            let j = choose|j: int| 0 <= j < before.len() && map[#[trigger] before[j]] == i;
            assert(map[shown[j]] == i);
        }
        if exists|j: int| 0 <= j < shown.len() && map[#[trigger] shown[j]] == i {
            let j = choose|j: int| 0 <= j < shown.len() && map[#[trigger] shown[j]] == i;
            if j < before.len() {
                assert(map[before[j]] == i);
            }
        }
    }
}

/// The shown claims at their places are the attributes that the mask shows.
pub(crate) proof fn lemma_shown_inputs(
    map: Map<Seq<char>, usize>,
    shown: Seq<Seq<char>>,
    claims: Seq<types::Statement>,
    i: int,
)
    requires
        separate(map),
        placed_below(map, shown, 16),
        unknown_label(map, shown) is None,
        placed_below(map, labels(claims), 16),
        unknown_label(map, labels(claims)) is None,
        0 <= i < 19,
    ensures
        shown_inputs(map, shown, claims).len() == 19,
        claimed_attributes(map, claims).len() == 16,
        shown_inputs(map, shown, claims)[i] == if i < 16 && label_mask(map, shown)[i] {
            claimed_attributes(map, claims)[i]
        } else {
            0
        },
    decreases claims.len(),
{
    if claims.len() > 0 {
        let before = claims.drop_last();
        let claim = claims.last();
        let names = labels(claims);
        assert(names.drop_last() =~= labels(before));
        assert forall|j: int|
            0 <= j < labels(before).len() && map.contains_key(
                #[trigger] labels(before)[j],
            ) implies map[labels(before)[j]] < 16 by {
            assert(names[j] == labels(before)[j]);
        }
        lemma_shown_inputs(map, shown, before, i);
        assert(names[claims.len() - 1] == claim.label);
        assert(map.contains_key(claim.label) && map[claim.label] < 16);
        let idx = map[claim.label] as int;
        if i == idx {
            lemma_label_mask(map, shown, i);
            if shown.contains(claim.label) {
                let j = choose|j: int| 0 <= j < shown.len() && shown[j] == claim.label;
                assert(map[shown[j]] == i);
            } else if label_mask(map, shown)[i] {
                let j = choose|j: int| 0 <= j < shown.len() && map[#[trigger] shown[j]] == i;
                lemma_known(map, shown, j);
                assert(shown[j] == claim.label);
            }
        }
    }
}

pub(crate) proof fn lemma_known(map: Map<Seq<char>, usize>, shown: Seq<Seq<char>>, j: int)
    requires
        unknown_label(map, shown) is None,
        0 <= j < shown.len(),
    ensures
        map.contains_key(shown[j]),
    decreases shown.len(),
{
    if j < shown.len() - 1 {
        lemma_known(map, shown.drop_last(), j);
    }
}

/// A derived proof verifies at any time within its window, and shows the claims
/// and predicates that it was derived for. The keys must be for the circuit, no
/// two labels may share a place, and the window must fit 32 bits, as later times
/// are cut to that width when the proof is made.
pub proof fn lemma_derived_verifies(
    suite: PoseidonGroth16Suite,
    c: VerifiableCredential,
    reveal: Seq<Seq<char>>,
    predicates: Seq<PredicateType>,
    slots: Seq<PredicateSlot>,
    window_start: u64,
    window_expires: u64,
    d: VerifiableCredential,
    now: u64,
)
    requires
        separate(suite.attribute_map@),
        placed_below(suite.attribute_map@, labels(types::statements(c.claims@)), 16),
        unknown_label(suite.attribute_map@, labels(types::statements(c.claims@))) is None,
        placed_below(suite.attribute_map@, reveal, 16),
        unknown_label(suite.attribute_map@, reveal) is None,
        suite.attempted(c, reveal, predicates, slots, window_start, window_expires, Ok(d)),
        suite.setup.is_for(label_mask(suite.attribute_map@, reveal), slots),
        window_start <= now < window_expires < 0x1_0000_0000,
    ensures
        suite.report(d, now) == (Report {
            valid: true,
            claims: shown_claims(suite.attribute_map@, reveal, types::statements(c.claims@)),
            predicates: descriptions(predicates),
            errors: Seq::empty(),
        }),
{
    let map = suite.attribute_map@;
    let claims = types::statements(c.claims@);
    let attrs = suite.attributes(c);
    let mask = label_mask(map, reveal);
    let commitment = stated_commitment(c);
    field::lemma_text_round_trip(commitment);
    assert(stated_commitment(d) == commitment);
    let statement = matrix::public_statement(
        attrs,
        mask,
        commitment,
        window_start as nat,
        window_expires as nat,
    );
    let inputs = suite.public_values(d);
    lemma_shown_inputs(map, reveal, claims, 0);
    assert forall|i: int| 0 <= i < 19 implies #[trigger] inputs[i] == statement[i] by {
        lemma_shown_inputs(map, reveal, claims, i);
    }
    assert(inputs =~= statement);
}

/// With keys for the circuit, what can be proved is derived.
pub proof fn lemma_provable_derived(
    suite: PoseidonGroth16Suite,
    c: VerifiableCredential,
    reveal: Seq<Seq<char>>,
    predicates: Seq<PredicateType>,
    slots: Seq<PredicateSlot>,
    window_start: u64,
    window_expires: u64,
    r: Result<VerifiableCredential, CredentialError>,
)
    requires
        suite.attempted(c, reveal, predicates, slots, window_start, window_expires, r),
        suite.setup.is_for(label_mask(suite.attribute_map@, reveal), slots),
        crypto::can_prove(
            suite.attributes(c),
            credential_blinding(c.credential_id@, suite.holder_secret@),
            stated_commitment(c),
            slots,
            short_time(window_start),
            short_time(window_expires),
        ),
    ensures
        r is Ok,
{
}

/// Outside of its window no credential is valid.
pub proof fn lemma_outside_window(
    suite: PoseidonGroth16Suite,
    c: VerifiableCredential,
    now: u64,
)
    requires
        now < c.window_start || now >= c.window_expires,
    ensures
        !suite.report(c, now).valid,
{
}

/// A proof is derived only from the commitment of the claims.
pub proof fn lemma_altered_claims_refused(
    suite: PoseidonGroth16Suite,
    c: VerifiableCredential,
    reveal: Seq<Seq<char>>,
    predicates: Seq<PredicateType>,
    window_start: u64,
    window_expires: u64,
    r: Result<VerifiableCredential, CredentialError>,
)
    requires
        suite.derivation(c, reveal, predicates, window_start, window_expires, r),
        stated_commitment(c) != suite.true_commitment(c),
    ensures
        r is Err,
{
}

/// Deriving from an issued credential never fails for the commitment.
pub proof fn lemma_issued_commitment(
    suite: PoseidonGroth16Suite,
    credential_id: Seq<char>,
    issuer_did: Seq<char>,
    claims: Seq<types::Statement>,
    c: VerifiableCredential,
)
    requires
        issued(
            suite.attribute_map@,
            suite.holder_secret@,
            credential_id,
            issuer_did,
            claims,
            c,
        ),
    ensures
        stated_commitment(c) == suite.true_commitment(c),
{
    permutation::lemma_sponge_reduced(
        permutation::standard(),
        disclosure::opening(
            crypto::commitment_domain(),
            suite.attributes(c),
            credential_blinding(c.credential_id@, suite.holder_secret@),
        ),
    );
    field::lemma_text_round_trip(suite.true_commitment(c));
}

} // verus!
