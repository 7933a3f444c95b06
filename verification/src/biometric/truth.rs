//! What a derived proof says of the claims it was derived from.
use crate::base64url;
use crate::biometric::crypto;
use crate::biometric::error::CredentialError;
use crate::biometric::matrix;
use crate::biometric::slots;
use crate::biometric::suite;
use crate::biometric::suite::PoseidonGroth16Suite;
use crate::biometric::types;
use crate::biometric::types::{ClaimValue, PredicateSlot, PredicateType, VerifiableCredential};
use crate::field;
use crate::gates;
use crate::groth16;
use crate::order;
use crate::range;
use crate::text;
use vstd::arithmetic::div_mod::*;
use vstd::prelude::*;
use vstd::relations::*;

verus! {

// The attributes of claims.

/// Every label has a place among the sixteen, and no two of them share one.
pub open spec fn well_placed(map: Map<Seq<char>, usize>, claims: Seq<types::Claim>) -> bool {
    &&& suite::separate(map)
    &&& forall|i: int|
        0 <= i < claims.len() ==> map.contains_key((#[trigger] claims[i]).label@)
            && map[claims[i].label@] < 16
}

/// No label is claimed twice.
pub open spec fn claimed_once(claims: Seq<types::Claim>) -> bool {
    forall|i: int, j: int|
        0 <= i < j < claims.len() ==> (#[trigger] claims[i]).label@ != (
        #[trigger] claims[j]).label@
}

proof fn lemma_reached(map: Map<Seq<char>, usize>, labels: Seq<Seq<char>>)
    requires
        suite::unknown_label(map, labels) is None,
        suite::reached_below(map, labels, 16),
    ensures
        forall|i: int|
            0 <= i < labels.len() ==> map.contains_key(#[trigger] labels[i]) && map[labels[i]]
                < 16,
    decreases labels.len(),
{
    if labels.len() > 0 {
        let before = labels.drop_last();
        assert forall|i: int|
            0 <= i < before.len() && suite::unknown_label(map, before.take(i + 1))
                is None implies map[#[trigger] before[i]] < 16 by {
            assert(before.take(i + 1) =~= labels.take(i + 1));
            assert(labels[i] == before[i]);
        }
        lemma_reached(map, before);
        assert(labels.take(labels.len() as int) =~= labels);
        let last = labels.len() - 1;
        assert(map[labels[last]] < 16);
        assert forall|i: int| 0 <= i < labels.len() implies map.contains_key(#[trigger] labels[i])
            && map[labels[i]] < 16 by {
            if i < last {
                assert(before[i] == labels[i]);
            }
        }
    }
}

proof fn lemma_all_known(map: Map<Seq<char>, usize>, claims: Seq<types::Claim>)
    requires
        suite::unknown_label(map, suite::labels(types::statements(claims))) is None,
        suite::reached_below(map, suite::labels(types::statements(claims)), 16),
        suite::separate(map),
    ensures
        well_placed(map, claims),
{
    let names = suite::labels(types::statements(claims));
    lemma_reached(map, names);
    assert forall|i: int| 0 <= i < claims.len() implies map.contains_key(
        (#[trigger] claims[i]).label@,
    ) && map[claims[i].label@] < 16 by {
        assert(names[i] == claims[i].label@);
    }
}

/// The attribute at a label's place is the element of the claim with the label,
/// and zero where there is none.
proof fn lemma_attribute_of(
    map: Map<Seq<char>, usize>,
    claims: Seq<types::Claim>,
    label: Seq<char>,
    i: int,
)
    requires
        well_placed(map, claims),
        claimed_once(claims),
        map.contains_key(label),
        map[label] < 16,
    ensures
        suite::claimed_attributes(map, types::statements(claims)).len() == 16,
        0 <= i < claims.len() && claims[i].label@ == label ==> suite::claimed_attributes(
            map,
            types::statements(claims),
        )[map[label] as int] == types::claim_element(claims[i].value@),
        (forall|j: int| 0 <= j < claims.len() ==> (#[trigger] claims[j]).label@ != label)
            ==> suite::claimed_attributes(map, types::statements(claims))[map[label] as int] == 0,
    decreases claims.len(),
{
    let all = types::statements(claims);
    if claims.len() > 0 {
        let before = claims.drop_last();
        let last = claims.len() - 1;
        assert(types::statements(before) =~= all.drop_last());
        assert forall|j: int| 0 <= j < before.len() implies map.contains_key(
            (#[trigger] before[j]).label@,
        ) && map[before[j].label@] < 16 by {
            assert(claims[j] == before[j]);
        }
        assert forall|a: int, b: int| 0 <= a < b < before.len() implies (
        #[trigger] before[a]).label@ != (#[trigger] before[b]).label@ by {
            assert(claims[a] == before[a] && claims[b] == before[b]);
        }
        lemma_attribute_of(map, before, label, i);
        assert(all.last() == claims[last]@);
        assert(map.contains_key(claims[last].label@));
        if claims[last].label@ == label {
            if 0 <= i < last {
                assert(claims[i].label@ != claims[last].label@);
            }
        } else {
            assert(map[claims[last].label@] != map[label]);
            if forall|j: int| 0 <= j < claims.len() ==> (#[trigger] claims[j]).label@ != label {
                assert forall|j: int| 0 <= j < before.len() implies (
                #[trigger] before[j]).label@ != label by {
                    assert(claims[j] == before[j]);
                }
            }
        }
    }
}

/// The attribute that a claim stands for.
pub open spec fn element(value: ClaimValue) -> nat {
    match value {
        ClaimValue::Number(n) => n as nat,
        ClaimValue::Text(s) => crypto::attribute_value(s@),
        ClaimValue::Boolean(b) => crypto::attribute_value(
            if b {
                "true"@
            } else {
                "false"@
            },
        ),
    }
}

// Sets of texts.

/// The members of a set, in order and once each, are its values.
proof fn lemma_set_texts(values: Seq<String>, x: Seq<char>)
    ensures
        ({
            let members = order::distinct(text::texts(values).sort_by(order::text_order()));
            &&& members.contains(x) <==> exists|j: int|
                0 <= j < values.len() && (#[trigger] values[j])@ == x
            &&& members.len() <= values.len()
        }),
{
    broadcast use vstd::seq_lib::group_to_multiset_ensures;

    let all = text::texts(values);
    let sorted = all.sort_by(order::text_order());
    order::lemma_text_order();
    all.lemma_sort_by_ensures(order::text_order());
    order::lemma_distinct(sorted, x);
    assert(all.to_multiset().len() == sorted.to_multiset().len());
    assert(all.contains(x) <==> all.to_multiset().count(x) > 0);
    assert(sorted.contains(x) <==> sorted.to_multiset().count(x) > 0);
    if all.contains(x) {
        let j = choose|j: int| 0 <= j < all.len() && all[j] == x;
        assert(values[j]@ == x);
    }
    if exists|j: int| 0 <= j < values.len() && (#[trigger] values[j])@ == x {
        let j = choose|j: int| 0 <= j < values.len() && (#[trigger] values[j])@ == x;
        assert(all[j] == x);
    }
}

// What a slot says of an attribute.

/// A bound from below holds of every attribute, be it a number or a hash.
proof fn lemma_floor(slot: PredicateSlot, x: nat)
    requires
        slot.active,
        slots::slot_met(slot, x),
        x < field::modulus(),
        slot.val1@ < 0x1_0000_0000_0000_0000,
    ensures
        slot.pred_type == 1 || 7 == slot.pred_type || 9 <= slot.pred_type <= 11 ==> slot.val1@ <= x
            < slot.val1@ + 0x1_0000_0000,
        slot.pred_type == 2 ==> slot.val1@ < x <= slot.val1@ + 0x1_0000_0000,
{
    let p = field::modulus();
    let own = slots::slot_values(slot, x);
    let v = slot.val1@;
    lemma_small_mod(v + 1, p);
    if slot.pred_type == 2 {
        if own[0] < range::width_bound() {
            lemma_small_mod(v + 1 + own[0], p);
        }
    } else if slot.pred_type == 1 || 7 == slot.pred_type || 9 <= slot.pred_type <= 11 {
        if own[0] < range::width_bound() {
            lemma_small_mod(v + own[0], p);
        }
    }
}

proof fn lemma_hash_reduced(s: Seq<char>)
    ensures
        crypto::attribute_value(s) < field::modulus(),
{
}

proof fn lemma_element_reduced(value: ClaimValue)
    ensures
        element(value) < field::modulus(),
        types::claim_element(value@) == element(value),
{
    match value {
        ClaimValue::Text(s) => {
            lemma_hash_reduced(s@);
        },
        ClaimValue::Boolean(b) => {
            lemma_hash_reduced("true"@);
            lemma_hash_reduced("false"@);
        },
        ClaimValue::Number(_) => {},
    }
}

/// The slots that a derived proof was made with, and that each of them is met by
/// the attribute of the claim that its predicate is about.
proof fn lemma_slot_of(
    suite: PoseidonGroth16Suite,
    c: VerifiableCredential,
    reveal: Seq<Seq<char>>,
    predicates: Seq<PredicateType>,
    window_start: u64,
    window_expires: u64,
    d: VerifiableCredential,
    k: int,
) -> (slot: PredicateSlot)
    requires
        suite.places_fit(c, reveal, predicates),
        suite.derivation(c, reveal, predicates, window_start, window_expires, Ok(d)),
        suite::separate(suite.attribute_map@),
        claimed_once(c.claims@),
        0 <= k < predicates.len(),
    ensures
        ({
            let map = suite.attribute_map@;
            let label = suite::predicate_label(predicates[k]);
            &&& suite::slot_for(map, predicates[k], slot)
            &&& !suite::is_reversed(predicates[k])
            &&& map.contains_key(label)
            &&& map[label] < 16
            &&& forall|i: int|
                0 <= i < c.claims@.len() && (#[trigger] c.claims@[i]).label@ == label
                    ==> slots::slot_met(slot, element(c.claims@[i].value))
            &&& (forall|i: int| 0 <= i < c.claims@.len() ==> (#[trigger] c.claims@[i]).label@
                != label) ==> slots::slot_met(slot, 0)
        }),
{
    let map = suite.attribute_map@;
    let claims = c.claims@;
    let label = suite::predicate_label(predicates[k]);
    let all = choose|all: Seq<PredicateSlot>|
        suite::slots_for(map, predicates, all) && #[trigger] suite.attempted(
            c,
            reveal,
            predicates,
            all,
            window_start,
            window_expires,
            Ok(d),
        );
    let slot = all[k];
    let attrs = suite.attributes(c);
    assert(matrix::slots_met(all, attrs, 8));
    assert(slots::slot_met(all[k], attrs[all[k].attr_index as int]));
    assert(suite::slot_for(map, predicates[k], all[k]));
    suite::lemma_no_refused(map, predicates, k);
    assert(suite::predicate_labels(predicates)[k] == label);
    lemma_all_known(map, claims);
    lemma_attribute_of(map, claims, label, 0);
    assert forall|i: int|
        0 <= i < claims.len() && (#[trigger] claims[i]).label@ == label implies slots::slot_met(
        slot,
        element(claims[i].value),
    ) by {
        lemma_attribute_of(map, claims, label, i);
        lemma_element_reduced(claims[i].value);
    }
    slot
}

/// A proof is derived only where each of its predicates is true of the claim that
/// it is about: a number is in the range that the predicate gives, with less than
/// 32 bits to its bounds, and a text is one of the texts that it names, or has the
/// same hash. A text or truth value under a bound counts as the number that its
/// hash is. A set of less than six values admits the number zero besides.
pub proof fn lemma_derived_true(
    suite: PoseidonGroth16Suite,
    c: VerifiableCredential,
    reveal: Seq<Seq<char>>,
    predicates: Seq<PredicateType>,
    window_start: u64,
    window_expires: u64,
    d: VerifiableCredential,
    k: int,
    i: int,
)
    requires
        suite.places_fit(c, reveal, predicates),
        suite.derivation(c, reveal, predicates, window_start, window_expires, Ok(d)),
        suite::separate(suite.attribute_map@),
        claimed_once(c.claims@),
        0 <= k < predicates.len(),
        0 <= i < c.claims@.len(),
    ensures
        ({
            let label = c.claims@[i].label@;
            let x = element(c.claims@[i].value);
            let small = c.claims@[i].value is Number;
            match predicates[k] {
                PredicateType::GreaterThanOrEqual { attribute, threshold } => attribute@ == label
                    ==> threshold <= x < threshold + 0x1_0000_0000,
                PredicateType::GreaterThan { attribute, threshold } => attribute@ == label
                    ==> threshold < x <= threshold + 0x1_0000_0000,
                PredicateType::LessThan { attribute, threshold } => attribute@ == label && small
                    ==> x < threshold <= x + 0x1_0000_0000,
                PredicateType::LessThanOrEqual { attribute, threshold } => attribute@ == label
                    && small ==> x <= threshold < x + 0x1_0000_0000,
                PredicateType::Equality { attribute, value } => attribute@ == label ==> x
                    == crypto::attribute_value(value@),
                PredicateType::NotEqual { attribute, value } => attribute@ == label ==> x
                    != crypto::attribute_value(value@),
                PredicateType::Range { attribute, min, max } => {
                    &&& min <= max
                    &&& attribute@ == label ==> min <= x < min + 0x1_0000_0000
                    &&& attribute@ == label && small ==> x <= max < x + 0x1_0000_0000
                },
                PredicateType::InSet { attribute, allowed_values } => attribute@ == label ==> (
                exists|j: int|
                    0 <= j < allowed_values@.len() && x == crypto::attribute_value(
                        (#[trigger] allowed_values@[j])@,
                    )) || x == 0,
                PredicateType::FaceMatch { min_similarity } => label == "biometric_face_match"@
                    ==> min_similarity <= x < min_similarity + 0x1_0000_0000,
                PredicateType::DepthCheck { min_depth_variance } => label
                    == "biometric_depth_variance"@ ==> min_depth_variance <= x
                    < min_depth_variance + 0x1_0000_0000,
                PredicateType::LivenessCheck { min_confidence } => label == "biometric_liveness"@
                    ==> min_confidence <= x < min_confidence + 0x1_0000_0000,
            }
        }),
{
    let slot = lemma_slot_of(
        suite,
        c,
        reveal,
        predicates,
        window_start,
        window_expires,
        d,
        k,
    );
    let value = c.claims@[i].value;
    let x = element(value);
    if c.claims@[i].label@ == suite::predicate_label(predicates[k]) {
        lemma_element_reduced(value);
        lemma_slot_true(predicates[k], slot, x);
        if value is Number {
            lemma_slot_number(predicates[k], slot, x);
        }
    }
}

proof fn lemma_slot_true(p: PredicateType, slot: PredicateSlot, x: nat)
    requires
        slots::slot_met(slot, x),
        slot.active,
        slot.pred_type == types::opcode(p),
        slot.val1@ == suite::first_value(p),
        slot.val2@ == suite::second_value(p),
        field::values(slot.inset_values@) == suite::set_values(p),
        x < field::modulus(),
    ensures
        match p {
            PredicateType::GreaterThanOrEqual { threshold, .. } => threshold <= x < threshold
                + 0x1_0000_0000,
            PredicateType::GreaterThan { threshold, .. } => threshold < x <= threshold
                + 0x1_0000_0000,
            PredicateType::Equality { value, .. } => x == crypto::attribute_value(value@),
            PredicateType::NotEqual { value, .. } => x != crypto::attribute_value(value@),
            PredicateType::Range { min, .. } => min <= x < min + 0x1_0000_0000,
            PredicateType::InSet { allowed_values, .. } => (exists|j: int|
                0 <= j < allowed_values@.len() && x == crypto::attribute_value(
                    (#[trigger] allowed_values@[j])@,
                )) || x == 0,
            PredicateType::FaceMatch { min_similarity } => min_similarity <= x < min_similarity
                + 0x1_0000_0000,
            PredicateType::DepthCheck { min_depth_variance } => min_depth_variance <= x
                < min_depth_variance + 0x1_0000_0000,
            PredicateType::LivenessCheck { min_confidence } => min_confidence <= x
                < min_confidence + 0x1_0000_0000,
            _ => true,
        },
{
    match p {
        PredicateType::Equality { .. } | PredicateType::NotEqual { .. } => {
            slots::lemma_identities(slot, x);
        },
        PredicateType::InSet { allowed_values, .. } => {
            slots::lemma_identities(slot, x);
            let set = suite::set_values(p);
            let members = suite::set_texts(p);
            let i = choose|i: int| 0 <= i < set.len() && set[i] == x;
            if i < members.len() {
                lemma_set_texts(allowed_values@, members[i]);
                assert(members.contains(members[i]));
            }
        },
        PredicateType::LessThan { .. } | PredicateType::LessThanOrEqual { .. } => {},
        _ => {
            lemma_floor(slot, x);
        },
    }
}

proof fn lemma_slot_number(p: PredicateType, slot: PredicateSlot, x: nat)
    requires
        slots::slot_met(slot, x),
        slot.active,
        slot.pred_type == types::opcode(p),
        slot.val1@ == suite::first_value(p),
        slot.val2@ == suite::second_value(p),
        x < 0x1_0000_0000_0000_0000,
    ensures
        match p {
            PredicateType::LessThan { threshold, .. } => x < threshold <= x + 0x1_0000_0000,
            PredicateType::LessThanOrEqual { threshold, .. } => x <= threshold < x
                + 0x1_0000_0000,
            PredicateType::Range { max, .. } => x <= max < x + 0x1_0000_0000,
            _ => true,
        },
{
    match p {
        PredicateType::Range { .. }
        | PredicateType::LessThan { .. }
        | PredicateType::LessThanOrEqual { .. } => {
            slots::lemma_comparisons(slot, x);
        },
        _ => {},
    }
}

/// Where nothing is claimed under a label, the number zero is: no bound above it
/// is met, and nothing is met that lies below it.
pub proof fn lemma_unclaimed(
    suite: PoseidonGroth16Suite,
    c: VerifiableCredential,
    reveal: Seq<Seq<char>>,
    predicates: Seq<PredicateType>,
    window_start: u64,
    window_expires: u64,
    d: VerifiableCredential,
    k: int,
    label: Seq<char>,
)
    requires
        suite.places_fit(c, reveal, predicates),
        suite.derivation(c, reveal, predicates, window_start, window_expires, Ok(d)),
        suite::separate(suite.attribute_map@),
        claimed_once(c.claims@),
        0 <= k < predicates.len(),
        forall|i: int| 0 <= i < c.claims@.len() ==> (#[trigger] c.claims@[i]).label@ != label,
    ensures
        match predicates[k] {
            PredicateType::GreaterThanOrEqual { attribute, threshold } => attribute@ == label
                ==> threshold == 0,
            PredicateType::GreaterThan { attribute, .. } => attribute@ != label,
            PredicateType::LessThan { attribute, threshold } => attribute@ == label ==> 0
                < threshold <= 0x1_0000_0000,
            PredicateType::LessThanOrEqual { attribute, threshold } => attribute@ == label
                ==> threshold < 0x1_0000_0000,
            PredicateType::Range { attribute, min, max } => attribute@ == label ==> min == 0 && max
                < 0x1_0000_0000,
            PredicateType::FaceMatch { min_similarity } => label == "biometric_face_match"@
                ==> min_similarity == 0,
            PredicateType::DepthCheck { min_depth_variance } => label
                == "biometric_depth_variance"@ ==> min_depth_variance == 0,
            PredicateType::LivenessCheck { min_confidence } => label == "biometric_liveness"@
                ==> min_confidence == 0,
            _ => true,
        },
{
    let slot = lemma_slot_of(
        suite,
        c,
        reveal,
        predicates,
        window_start,
        window_expires,
        d,
        k,
    );
    if label == suite::predicate_label(predicates[k]) {
        lemma_slot_true(predicates[k], slot, 0);
        lemma_slot_number(predicates[k], slot, 0);
    }
}

// What can be derived.

/// A claim bears a predicate out.
pub open spec fn bears_out(claim: types::Claim, p: PredicateType) -> bool {
    let label = claim.label@;
    match (p, claim.value) {
        (PredicateType::GreaterThanOrEqual { attribute, threshold }, ClaimValue::Number(n)) =>
            label == attribute@ && threshold <= n < threshold + 0x1_0000_0000,
        (PredicateType::GreaterThan { attribute, threshold }, ClaimValue::Number(n)) => label
            == attribute@ && threshold < n <= threshold + 0x1_0000_0000,
        (PredicateType::LessThan { attribute, threshold }, ClaimValue::Number(n)) => label
            == attribute@ && n < threshold <= n + 0x1_0000_0000,
        (PredicateType::LessThanOrEqual { attribute, threshold }, ClaimValue::Number(n)) => label
            == attribute@ && n <= threshold < n + 0x1_0000_0000,
        (PredicateType::Equality { attribute, value }, ClaimValue::Text(s)) => label == attribute@
            && s@ == value@,
        (PredicateType::Equality { attribute, value }, ClaimValue::Boolean(b)) => label
            == attribute@ && value@ == if b {
            "true"@
        } else {
            "false"@
        },
        (PredicateType::NotEqual { attribute, value }, ClaimValue::Text(s)) => label == attribute@
            && crypto::attribute_value(s@) != crypto::attribute_value(value@),
        (PredicateType::Range { attribute, min, max }, ClaimValue::Number(n)) => {
            &&& label == attribute@
            &&& min <= n < min + 0x1_0000_0000
            &&& n <= max < n + 0x1_0000_0000
        },
        (PredicateType::InSet { attribute, allowed_values }, ClaimValue::Text(s)) => {
            &&& label == attribute@
            &&& allowed_values@.len() <= 6
            &&& exists|j: int| 0 <= j < allowed_values@.len() && (#[trigger] allowed_values@[j])@
                == s@
        },
        (PredicateType::FaceMatch { min_similarity }, ClaimValue::Number(n)) => label
            == "biometric_face_match"@ && min_similarity <= n < min_similarity + 0x1_0000_0000,
        (PredicateType::DepthCheck { min_depth_variance }, ClaimValue::Number(n)) => label
            == "biometric_depth_variance"@ && min_depth_variance <= n < min_depth_variance
            + 0x1_0000_0000,
        (PredicateType::LivenessCheck { min_confidence }, ClaimValue::Number(n)) => label
            == "biometric_liveness"@ && min_confidence <= n < min_confidence + 0x1_0000_0000,
        _ => false,
    }
}

proof fn lemma_slot_borne_out(
    map: Map<Seq<char>, usize>,
    claim: types::Claim,
    p: PredicateType,
    slot: PredicateSlot,
)
    requires
        bears_out(claim, p),
        suite::slot_for(map, p, slot),
    ensures
        claim.label@ == suite::predicate_label(p),
        !suite::is_reversed(p),
        slots::slot_met(slot, element(claim.value)),
{
    let x = element(claim.value);
    lemma_element_reduced(claim.value);
    match p {
        PredicateType::Equality { .. } | PredicateType::NotEqual { .. } => {
            slots::lemma_identities(slot, x);
        },
        PredicateType::InSet { allowed_values, .. } => {
            slots::lemma_identities(slot, x);
            let s = claim.value->Text_0@;
            let set = suite::set_values(p);
            let members = suite::set_texts(p);
            lemma_set_texts(allowed_values@, s);
            let i = choose|i: int| 0 <= i < members.len() && members[i] == s;
            assert(set[i] == x);
        },
        _ => {
            slots::lemma_comparisons(slot, x);
        },
    }
}

/// A proof is derived from an issued credential whenever its predicates are borne
/// out by the claims and the keys are for the circuit.
pub proof fn lemma_true_derived(
    suite: PoseidonGroth16Suite,
    c: VerifiableCredential,
    reveal: Seq<Seq<char>>,
    predicates: Seq<PredicateType>,
    window_start: u64,
    window_expires: u64,
    r: Result<VerifiableCredential, CredentialError>,
)
    requires
        suite::issued(
            suite.attribute_map@,
            suite.holder_secret@,
            c.credential_id@,
            c.issuer_did@,
            types::statements(c.claims@),
            c,
        ),
        suite.derivation(c, reveal, predicates, window_start, window_expires, r),
        well_placed(suite.attribute_map@, c.claims@),
        claimed_once(c.claims@),
        forall|i: int|
            0 <= i < reveal.len() ==> suite.attribute_map@.contains_key(#[trigger] reveal[i]),
        predicates.len() <= 8,
        forall|k: int|
            0 <= k < predicates.len() ==> exists|i: int|
                0 <= i < c.claims@.len() && bears_out(
                    #[trigger] c.claims@[i],
                    #[trigger] predicates[k],
                ),
        window_start < window_expires < 0x1_0000_0000,
        forall|all: Seq<PredicateSlot>|
            suite::slots_for(suite.attribute_map@, predicates, all) ==> #[trigger] suite.setup.is_for(
                suite::label_mask(suite.attribute_map@, reveal),
                all,
            ),
    ensures
        r is Ok,
{
    let map = suite.attribute_map@;
    let claims = c.claims@;
    suite::lemma_issued_commitment(
        suite,
        c.credential_id@,
        c.issuer_did@,
        types::statements(claims),
        c,
    );
    let names = suite::labels(types::statements(claims));
    assert forall|i: int| 0 <= i < names.len() implies map.contains_key(#[trigger] names[i]) by {
        assert(names[i] == claims[i].label@);
    }
    lemma_none_unknown(map, names);
    lemma_none_unknown(map, reveal);
    assert forall|k: int| 0 <= k < predicates.len() implies suite::has_slot(
        map,
        #[trigger] predicates[k],
    ) by {
        let i = choose|i: int|
            0 <= i < claims.len() && bears_out(#[trigger] claims[i], predicates[k]);
        lemma_borne_out_label(claims[i], predicates[k]);
    }
    lemma_none_refused(map, predicates);
    let all = choose|all: Seq<PredicateSlot>|
        suite::slots_for(map, predicates, all) && #[trigger] suite.attempted(
            c,
            reveal,
            predicates,
            all,
            window_start,
            window_expires,
            r,
        );
    let attrs = suite.attributes(c);
    assert forall|k: int| 0 <= k < 8 implies slots::slot_met(
        #[trigger] all[k],
        attrs[all[k].attr_index as int],
    ) by {
        if k < predicates.len() {
            let i = choose|i: int|
                0 <= i < claims.len() && bears_out(#[trigger] claims[i], predicates[k]);
            assert(suite::slot_for(map, predicates[k], all[k]));
            lemma_slot_borne_out(map, claims[i], predicates[k], all[k]);
            lemma_attribute_of(map, claims, claims[i].label@, i);
            lemma_element_reduced(claims[i].value);
        }
    }
    lemma_small_mod(window_start as nat, 0x1_0000_0000);
    lemma_small_mod(window_expires as nat, 0x1_0000_0000);
    suite::lemma_provable_derived(
        suite,
        c,
        reveal,
        predicates,
        all,
        window_start,
        window_expires,
        r,
    );
}

proof fn lemma_borne_out_label(claim: types::Claim, p: PredicateType)
    requires
        bears_out(claim, p),
    ensures
        claim.label@ == suite::predicate_label(p),
        !suite::is_reversed(p),
{
}

proof fn lemma_none_unknown(map: Map<Seq<char>, usize>, labels: Seq<Seq<char>>)
    requires
        forall|i: int| 0 <= i < labels.len() ==> map.contains_key(#[trigger] labels[i]),
    ensures
        suite::unknown_label(map, labels) is None,
    decreases labels.len(),
{
    if labels.len() > 0 {
        let before = labels.drop_last();
        assert forall|i: int| 0 <= i < before.len() implies map.contains_key(
            #[trigger] before[i],
        ) by {
            assert(labels[i] == before[i]);
        }
        lemma_none_unknown(map, before);
        assert(labels[labels.len() - 1] == labels.last());
    }
}

proof fn lemma_none_refused(map: Map<Seq<char>, usize>, predicates: Seq<PredicateType>)
    requires
        forall|k: int|
            0 <= k < predicates.len() ==> suite::has_slot(map, #[trigger] predicates[k]),
    ensures
        suite::refused_predicate(map, predicates) is None,
    decreases predicates.len(),
{
    if predicates.len() > 0 {
        let before = predicates.drop_last();
        assert forall|k: int| 0 <= k < before.len() implies suite::has_slot(
            map,
            #[trigger] before[k],
        ) by {
            assert(predicates[k] == before[k]);
        }
        lemma_none_refused(map, before);
        assert(predicates[predicates.len() - 1] == predicates.last());
    }
}

// What a derived credential says, and what checking it tells.

/// A derived credential names the same subject, issuer, claims and commitment as
/// the one it comes from, the labels that were to be shown, each predicate in its
/// own words, and the window; and it carries a proof of 128 bytes.
pub proof fn lemma_derived_content(
    suite: PoseidonGroth16Suite,
    c: VerifiableCredential,
    reveal: Seq<Seq<char>>,
    predicates: Seq<PredicateType>,
    window_start: u64,
    window_expires: u64,
    d: VerifiableCredential,
)
    requires
        suite.derivation(c, reveal, predicates, window_start, window_expires, Ok(d)),
    ensures
        d.credential_id@ == c.credential_id@,
        d.issuer_did@ == c.issuer_did@,
        d.claims@.len() == c.claims@.len(),
        forall|i: int|
            0 <= i < c.claims@.len() ==> (#[trigger] d.claims@[i])@ == c.claims@[i]@,
        field::field_of_text(c.commitment@) is Some ==> field::field_of_text(d.commitment@)
            == field::field_of_text(c.commitment@) || d.commitment@.len() == 0,
        d.revealed_labels@.len() == reveal.len(),
        forall|i: int|
            0 <= i < reveal.len() ==> (#[trigger] d.revealed_labels@[i])@ == reveal[i],
        d.predicates_described@.len() == predicates.len(),
        forall|k: int|
            0 <= k < predicates.len() ==> (#[trigger] d.predicates_described@[k])@
                == types::description(predicates[k]),
        d.window_start == window_start,
        d.window_expires == window_expires,
        d.cryptosuite@ == "poseidon-groth16-bn254-2026"@,
        exists|proof: Seq<u8>|
            proof.len() == 128 && #[trigger] base64url::strictly_decoded(d.proof_value@) == Ok::<
                Seq<u8>,
                Seq<char>,
            >(proof),
{
    let map = suite.attribute_map@;
    let all = choose|all: Seq<PredicateSlot>|
        suite::slots_for(map, predicates, all) && #[trigger] suite.attempted(
            c,
            reveal,
            predicates,
            all,
            window_start,
            window_expires,
            Ok(d),
        );
    assert(suite::derived(c, reveal, predicates, window_start, window_expires, d));
    let these = types::statements(d.claims@);
    let those = types::statements(c.claims@);
    assert(these.len() == those.len());
    assert forall|i: int| 0 <= i < c.claims@.len() implies (#[trigger] d.claims@[i])@
        == c.claims@[i]@ by {
        assert(these[i] == those[i]);
    }
    let shown = text::texts(d.revealed_labels@);
    assert forall|i: int| 0 <= i < reveal.len() implies (#[trigger] d.revealed_labels@[i])@
        == reveal[i] by {
        assert(shown[i] == reveal[i]);
    }
    let words = text::texts(d.predicates_described@);
    assert(words.len() == predicates.len());
    assert forall|k: int| 0 <= k < predicates.len() implies (
    #[trigger] d.predicates_described@[k])@ == types::description(predicates[k]) by {
        assert(words[k] == suite::descriptions(predicates)[k]);
    }
    let commitment = suite::stated_commitment(c);
    if field::field_of_text(c.commitment@) is Some {
        field::lemma_text_round_trip(commitment);
    }
    assert(base64url::strictly_decoded(d.proof_value@) == Ok::<Seq<u8>, Seq<char>>(
        base64url::strictly_decoded(d.proof_value@)->Ok_0,
    ));
}

proof fn lemma_shown_claims(
    map: Map<Seq<char>, usize>,
    shown: Seq<Seq<char>>,
    claims: Seq<types::Statement>,
)
    ensures
        suite::shown_claims(map, shown, claims) == claims.filter(
            |s: types::Statement| shown.contains(s.label) && map.contains_key(s.label),
        ),
    decreases claims.len(),
{
    reveal(Seq::filter);
    if claims.len() > 0 {
        lemma_shown_claims(map, shown, claims.drop_last());
    }
}

/// What checking a credential at a time tells. It is valid exactly when the time
/// is within its window and its proof verifies with the public values; then the
/// claims that it reports are those of the shown labels, in their order, and the
/// predicates are those that the credential describes.
pub proof fn lemma_report(suite: PoseidonGroth16Suite, c: VerifiableCredential, now: u64)
    ensures
        ({
            let report = suite.report(c, now);
            let bytes = base64url::strictly_decoded(c.proof_value@);
            let proof = groth16::decoded_proof(bytes->Ok_0);
            let labels = text::texts(c.revealed_labels@);
            &&& report.valid <==> {
                &&& c.window_start <= now
                &&& now < c.window_expires
                &&& bytes is Ok
                &&& proof is Ok
                &&& groth16::verdict(
                    suite.setup.keys.verifying_key(),
                    suite.public_values(c),
                    proof->Ok_0,
                ) == Ok::<bool, gates::SynthesisError>(true)
            }
            &&& report.valid <==> report.errors.len() == 0
            &&& report.valid ==> report.claims == types::statements(c.claims@).filter(
                |s: types::Statement|
                    labels.contains(s.label) && suite.attribute_map@.contains_key(s.label),
            )
            &&& report.valid ==> report.predicates == text::texts(c.predicates_described@)
            &&& !report.valid ==> report.predicates.len() == 0
            &&& bytes is Ok && now < c.window_start ==> report.errors == seq![
                "Not yet valid until "@ + text::decimal(c.window_start as nat),
            ]
            &&& bytes is Ok && c.window_start <= now && c.window_expires <= now ==> report.errors
                == seq!["Expired at "@ + text::decimal(c.window_expires as nat)]
        }),
{
    lemma_shown_claims(
        suite.attribute_map@,
        text::texts(c.revealed_labels@),
        types::statements(c.claims@),
    );
}

proof fn lemma_input_of(
    map: Map<Seq<char>, usize>,
    shown: Seq<Seq<char>>,
    claims: Seq<types::Claim>,
    place: int,
    i: int,
)
    requires
        well_placed(map, claims),
        claimed_once(claims),
        0 <= place < 19,
    ensures
        ({
            let inputs = suite::shown_inputs(map, shown, types::statements(claims));
            &&& inputs.len() == 19
            &&& 0 <= i < claims.len() && map[claims[i].label@] == place ==> inputs[place]
                == if shown.contains(claims[i].label@) {
                types::claim_element(claims[i].value@)
            } else {
                0
            }
            &&& (forall|j: int|
                0 <= j < claims.len() ==> map[(#[trigger] claims[j]).label@] != place)
                ==> inputs[place] == 0
        }),
    decreases claims.len(),
{
    let all = types::statements(claims);
    if claims.len() > 0 {
        let before = claims.drop_last();
        let last = claims.len() - 1;
        assert(types::statements(before) =~= all.drop_last());
        assert forall|j: int| 0 <= j < before.len() implies map.contains_key(
            (#[trigger] before[j]).label@,
        ) && map[before[j].label@] < 16 by {
            assert(claims[j] == before[j]);
        }
        assert forall|a: int, b: int| 0 <= a < b < before.len() implies (
        #[trigger] before[a]).label@ != (#[trigger] before[b]).label@ by {
            assert(claims[a] == before[a] && claims[b] == before[b]);
        }
        lemma_input_of(map, shown, before, place, i);
        assert(all.last() == claims[last]@);
        assert(map.contains_key(claims[last].label@));
        if map[claims[last].label@] == place {
            assert forall|j: int| 0 <= j < before.len() implies map[(#[trigger] before[j]).label@]
                != place by {
                assert(claims[j] == before[j]);
                assert(claims[j].label@ != claims[last].label@);
            }
            if 0 <= i < last && map[claims[i].label@] == place {
                assert(map[before[i].label@] != place);
            }
        } else {
            if 0 <= i < last {
                assert(before[i] == claims[i]);
            }
            if forall|j: int| 0 <= j < claims.len() ==> map[(#[trigger] claims[j]).label@]
                != place {
                assert forall|j: int| 0 <= j < before.len() implies map[(
                #[trigger] before[j]).label@] != place by {
                    assert(claims[j] == before[j]);
                }
            }
        }
    }
}

/// The public values that a credential is checked against: at the place of each
/// claim its value where its label is shown, and zero where it is not and where
/// nothing is claimed; then the commitment and the two ends of the window.
pub proof fn lemma_public_values(suite: PoseidonGroth16Suite, c: VerifiableCredential, i: int)
    requires
        well_placed(suite.attribute_map@, c.claims@),
        claimed_once(c.claims@),
    ensures
        ({
            let values = suite.public_values(c);
            &&& values.len() == 19
            &&& 0 <= i < c.claims@.len() ==> values[suite.attribute_map@[c.claims@[i].label@] as int]
                == if exists|j: int|
                0 <= j < c.revealed_labels@.len() && (#[trigger] c.revealed_labels@[j])@
                    == c.claims@[i].label@ {
                element(c.claims@[i].value)
            } else {
                0
            }
            &&& 0 <= i < 16 && (forall|j: int|
                0 <= j < c.claims@.len() ==> suite.attribute_map@[(
                #[trigger] c.claims@[j]).label@] != i) ==> values[i] == 0
            &&& values[16] == match field::field_of_text(c.commitment@) {
                Some(commitment) => commitment,
                None => 0,
            }
            &&& values[17] == c.window_start
            &&& values[18] == c.window_expires
        }),
{
    let map = suite.attribute_map@;
    let shown = text::texts(c.revealed_labels@);
    let claims = c.claims@;
    lemma_input_of(map, shown, claims, 0, 0);
    if 0 <= i < 16 {
        lemma_input_of(map, shown, claims, i, 0);
    }
    if 0 <= i < claims.len() {
        assert(map.contains_key(claims[i].label@));
        lemma_input_of(map, shown, claims, map[claims[i].label@] as int, i);
        lemma_element_reduced(claims[i].value);
        if shown.contains(claims[i].label@) {
            let j = choose|j: int| 0 <= j < shown.len() && shown[j] == claims[i].label@;
            assert(c.revealed_labels@[j]@ == claims[i].label@);
        }
        if exists|j: int|
            0 <= j < c.revealed_labels@.len() && (#[trigger] c.revealed_labels@[j])@
                == claims[i].label@ {
            let j = choose|j: int|
                0 <= j < c.revealed_labels@.len() && (#[trigger] c.revealed_labels@[j])@
                    == claims[i].label@;
            assert(shown[j] == claims[i].label@);
        }
    }
}

/// What issuing comes to: every claim is in the credential, and the commitment is
/// to attributes that have each claim's value at the place of its label and zero
/// at every other place.
pub proof fn lemma_issued_content(
    suite: PoseidonGroth16Suite,
    credential_id: Seq<char>,
    issuer_did: Seq<char>,
    claims: Seq<types::Claim>,
    c: VerifiableCredential,
) -> (attrs: Seq<nat>)
    requires
        suite::issued(
            suite.attribute_map@,
            suite.holder_secret@,
            credential_id,
            issuer_did,
            types::statements(claims),
            c,
        ),
        well_placed(suite.attribute_map@, claims),
        claimed_once(claims),
    ensures
        c.credential_id@ == credential_id,
        c.issuer_did@ == issuer_did,
        c.claims@.len() == claims.len(),
        forall|i: int| 0 <= i < claims.len() ==> (#[trigger] c.claims@[i])@ == claims[i]@,
        attrs.len() == 16,
        forall|i: int|
            0 <= i < claims.len() ==> attrs[suite.attribute_map@[(
            #[trigger] claims[i]).label@] as int] == element(claims[i].value),
        forall|place: int|
            0 <= place < 16 && (forall|j: int|
                0 <= j < claims.len() ==> suite.attribute_map@[(#[trigger] claims[j]).label@]
                    != place) ==> #[trigger] attrs[place] == 0,
        c.commitment@ == field::field_text(
            crypto::commitment_value(
                attrs,
                crypto::holder_blinding(
                    suite.holder_secret@,
                    crypto::nonce_value(credential_id, suite.holder_secret@),
                ),
            ),
        ),
        c.proof_value@.len() == 0,
        c.cryptosuite@ == "poseidon-groth16-bn254-2026"@,
{
    let map = suite.attribute_map@;
    let attrs = suite::claimed_attributes(map, types::statements(claims));
    let these = types::statements(c.claims@);
    assert(these.len() == claims.len());
    assert forall|i: int| 0 <= i < claims.len() implies (#[trigger] c.claims@[i])@
        == claims[i]@ by {
        assert(these[i] == types::statements(claims)[i]);
    }
    assert forall|i: int| 0 <= i < claims.len() implies attrs[map[(
    #[trigger] claims[i]).label@] as int] == element(claims[i].value) by {
        lemma_attribute_of(map, claims, claims[i].label@, i);
        lemma_element_reduced(claims[i].value);
    }
    lemma_empty_places(map, claims);
    assert(""@.len() == 0) by {
        reveal_strlit("");
    }
    attrs
}

proof fn lemma_empty_places(map: Map<Seq<char>, usize>, claims: Seq<types::Claim>)
    requires
        well_placed(map, claims),
    ensures
        suite::claimed_attributes(map, types::statements(claims)).len() == 16,
        forall|place: int|
            0 <= place < 16 && (forall|j: int|
                0 <= j < claims.len() ==> map[(#[trigger] claims[j]).label@] != place)
                ==> #[trigger] suite::claimed_attributes(map, types::statements(claims))[place]
                == 0,
    decreases claims.len(),
{
    if claims.len() > 0 {
        let all = types::statements(claims);
        let before = claims.drop_last();
        let last = claims.len() - 1;
        assert(types::statements(before) =~= all.drop_last());
        assert forall|j: int| 0 <= j < before.len() implies map.contains_key(
            (#[trigger] before[j]).label@,
        ) && map[before[j].label@] < 16 by {
            assert(claims[j] == before[j]);
        }
        lemma_empty_places(map, before);
        assert(all.last() == claims[last]@);
        assert forall|place: int|
            0 <= place < 16 && (forall|j: int|
                0 <= j < claims.len() ==> map[(#[trigger] claims[j]).label@]
                    != place) implies #[trigger] suite::claimed_attributes(map, all)[place]
            == 0 by {
            assert forall|j: int| 0 <= j < before.len() implies map[(
            #[trigger] before[j]).label@] != place by {
                assert(claims[j] == before[j]);
            }
            assert(map[claims[last].label@] != place);
        }
    }
}

/// A label that is registered takes a place that no other label has, so that
/// labels never share one however many are registered.
pub proof fn lemma_registered(map: Map<Seq<char>, usize>, next: usize, label: Seq<char>)
    requires
        suite::separate(map),
        forall|l: Seq<char>| #[trigger] map.contains_key(l) ==> map[l] < next,
        next < usize::MAX,
    ensures
        ({
            let after = map.insert(label, next);
            &&& suite::separate(after)
            &&& forall|l: Seq<char>| #[trigger] after.contains_key(l) ==> after[l] < next + 1
            &&& after.contains_key(label)
            &&& forall|l: Seq<char>| l != label && #[trigger] map.contains_key(l) ==> after[l]
                == map[l] && after[label] != map[l]
        }),
{
}

// What is refused.

proof fn lemma_first_unknown(map: Map<Seq<char>, usize>, labels: Seq<Seq<char>>, i: int)
    requires
        0 <= i <= labels.len(),
        forall|j: int| 0 <= j < i ==> map.contains_key(#[trigger] labels[j]),
        i < labels.len() ==> !map.contains_key(labels[i]),
    ensures
        suite::unknown_label(map, labels) == if i < labels.len() {
            Some(labels[i])
        } else {
            None
        },
    decreases labels.len(),
{
    if labels.len() > 0 {
        let before = labels.drop_last();
        let last = labels.len() - 1;
        assert forall|j: int| 0 <= j < i && j < before.len() implies map.contains_key(
            #[trigger] before[j],
        ) by {
            assert(before[j] == labels[j]);
        }
        if i < labels.len() {
            lemma_first_unknown(map, before, i);
        } else {
            lemma_first_unknown(map, before, i - 1);
            assert(map.contains_key(labels[last]));
        }
    }
}

proof fn lemma_first_refused(map: Map<Seq<char>, usize>, predicates: Seq<PredicateType>, i: int)
    requires
        0 <= i <= predicates.len(),
        forall|j: int| 0 <= j < i ==> suite::has_slot(map, #[trigger] predicates[j]),
        i < predicates.len() ==> !suite::has_slot(map, predicates[i]),
    ensures
        suite::refused_predicate(map, predicates) == if i < predicates.len() {
            Some(i)
        } else {
            None
        },
    decreases predicates.len(),
{
    if predicates.len() > 0 {
        let before = predicates.drop_last();
        let last = predicates.len() - 1;
        assert forall|j: int| 0 <= j < i && j < before.len() implies suite::has_slot(
            map,
            #[trigger] before[j],
        ) by {
            assert(before[j] == predicates[j]);
        }
        if i < predicates.len() {
            lemma_first_refused(map, before, i);
        } else {
            lemma_first_refused(map, before, i - 1);
            assert(suite::has_slot(map, predicates[last]));
        }
    }
}

/// Too many predicates are refused, whatever they are, and after that the first claim
/// whose label has no place.
pub proof fn lemma_claims_refused(
    suite: PoseidonGroth16Suite,
    c: VerifiableCredential,
    reveal: Seq<Seq<char>>,
    predicates: Seq<PredicateType>,
    window_start: u64,
    window_expires: u64,
    r: Result<VerifiableCredential, CredentialError>,
    i: int,
)
    requires
        suite.derivation(c, reveal, predicates, window_start, window_expires, r),
    ensures
        predicates.len() > 8 ==> (r matches Err(CredentialError::TooManyPredicates(max, got))
            && max == 8 && got == predicates.len()),
        predicates.len() <= 8 && 0 <= i < c.claims@.len() && (forall|j: int|
            0 <= j < i ==> suite.attribute_map@.contains_key((#[trigger] c.claims@[j]).label@))
            && !suite.attribute_map@.contains_key(c.claims@[i].label@) ==> (r matches Err(
            CredentialError::UnknownAttribute(m),
        ) && m@ == c.claims@[i].label@),
{
    let map = suite.attribute_map@;
    let names = suite::labels(types::statements(c.claims@));
    if predicates.len() <= 8 && 0 <= i < c.claims@.len() && (forall|j: int|
        0 <= j < i ==> map.contains_key((#[trigger] c.claims@[j]).label@)) && !map.contains_key(
        c.claims@[i].label@,
    ) {
        assert forall|j: int| 0 <= j < i implies map.contains_key(#[trigger] names[j]) by {
            assert(names[j] == c.claims@[j].label@);
        }
        lemma_first_unknown(map, names, i);
    }
}

/// Where the claims have places and the commitment is theirs, the first label to show that
/// has no place is refused; and then the first predicate whose attribute has no place, or
/// whose range ends before it begins.
pub proof fn lemma_predicates_refused(
    suite: PoseidonGroth16Suite,
    c: VerifiableCredential,
    reveal: Seq<Seq<char>>,
    predicates: Seq<PredicateType>,
    window_start: u64,
    window_expires: u64,
    r: Result<VerifiableCredential, CredentialError>,
    i: int,
)
    requires
        suite.derivation(c, reveal, predicates, window_start, window_expires, r),
        predicates.len() <= 8,
        forall|j: int|
            0 <= j < c.claims@.len() ==> suite.attribute_map@.contains_key(
                (#[trigger] c.claims@[j]).label@,
            ),
        suite::stated_commitment(c) == suite.true_commitment(c),
        forall|j: int|
            0 <= j < i && j < reveal.len() ==> suite.attribute_map@.contains_key(
                #[trigger] reveal[j],
            ),
    ensures
        0 <= i < reveal.len() && !suite.attribute_map@.contains_key(reveal[i]) ==> (r matches Err(
            CredentialError::UnknownAttribute(m),
        ) && m@ == reveal[i]),
        i == reveal.len() && predicates.len() > 0 ==> match predicates[0] {
            PredicateType::Range { attribute, min, max } => {
                &&& min > max ==> (r matches Err(CredentialError::InvalidPredicate(m)) && m@
                    == "min > max"@)
                &&& min <= max && !suite.attribute_map@.contains_key(attribute@) ==> (r matches Err(
                    CredentialError::UnknownAttribute(m),
                ) && m@ == attribute@)
            },
            PredicateType::GreaterThanOrEqual { attribute, .. }
            | PredicateType::GreaterThan { attribute, .. }
            | PredicateType::LessThan { attribute, .. }
            | PredicateType::LessThanOrEqual { attribute, .. }
            | PredicateType::Equality { attribute, .. }
            | PredicateType::NotEqual { attribute, .. }
            | PredicateType::InSet { attribute, .. } => !suite.attribute_map@.contains_key(
                attribute@,
            ) ==> (r matches Err(CredentialError::UnknownAttribute(m)) && m@ == attribute@),
            PredicateType::FaceMatch { .. } => !suite.attribute_map@.contains_key(
                "biometric_face_match"@,
            ) ==> (r matches Err(CredentialError::UnknownAttribute(m)) && m@
                == "biometric_face_match"@),
            PredicateType::DepthCheck { .. } => !suite.attribute_map@.contains_key(
                "biometric_depth_variance"@,
            ) ==> (r matches Err(CredentialError::UnknownAttribute(m)) && m@
                == "biometric_depth_variance"@),
            PredicateType::LivenessCheck { .. } => !suite.attribute_map@.contains_key(
                "biometric_liveness"@,
            ) ==> (r matches Err(CredentialError::UnknownAttribute(m)) && m@
                == "biometric_liveness"@),
        },
{
    let map = suite.attribute_map@;
    let names = suite::labels(types::statements(c.claims@));
    assert forall|j: int| 0 <= j < names.len() implies map.contains_key(#[trigger] names[j]) by {
        assert(names[j] == c.claims@[j].label@);
    }
    lemma_first_unknown(map, names, names.len() as int);
    if 0 <= i < reveal.len() && !map.contains_key(reveal[i]) {
        lemma_first_unknown(map, reveal, i);
    }
    if i == reveal.len() {
        lemma_first_unknown(map, reveal, i);
        if predicates.len() > 0 && !suite::has_slot(map, predicates[0]) {
            lemma_first_refused(map, predicates, 0);
        }
    }
}

/// Of a set only the first six values count, in the order of texts and once each: a proof
/// is derived only where the claim has the hash of one of them, or is zero and the set has
/// less than six.
pub proof fn lemma_first_six(
    suite: PoseidonGroth16Suite,
    c: VerifiableCredential,
    reveal: Seq<Seq<char>>,
    predicates: Seq<PredicateType>,
    window_start: u64,
    window_expires: u64,
    d: VerifiableCredential,
    k: int,
    i: int,
    ranked: Seq<Seq<char>>,
)
    requires
        suite.places_fit(c, reveal, predicates),
        suite.derivation(c, reveal, predicates, window_start, window_expires, Ok(d)),
        suite::separate(suite.attribute_map@),
        claimed_once(c.claims@),
        0 <= k < predicates.len(),
        0 <= i < c.claims@.len(),
        predicates[k] is InSet,
        predicates[k]->InSet_attribute@ == c.claims@[i].label@,
        ranked.no_duplicates(),
        forall|a: int, b: int|
            0 <= a < b < ranked.len() ==> order::text_le(#[trigger] ranked[a], #[trigger] ranked[b]),
        forall|s: Seq<char>| #[trigger] ranked.contains(s) <==> exists|j: int|
            0 <= j < predicates[k]->allowed_values@.len() && (
            #[trigger] predicates[k]->allowed_values@[j])@ == s,
    ensures
        ({
            let x = element(c.claims@[i].value);
            ||| x == 0 && ranked.len() < 6
            ||| exists|j: int|
                0 <= j < 6 && j < ranked.len() && x == crypto::attribute_value(#[trigger] ranked[j])
        }),
{
    broadcast use vstd::seq_lib::group_to_multiset_ensures;

    let p = predicates[k];
    let slot = lemma_slot_of(suite, c, reveal, predicates, window_start, window_expires, d, k);
    let x = element(c.claims@[i].value);
    let values = p->allowed_values@;
    let members = suite::set_texts(p);
    let le = order::text_order();
    let all = text::texts(values);
    let sorted = all.sort_by(le);
    lemma_element_reduced(c.claims@[i].value);
    slots::lemma_identities(slot, x);
    let set = suite::set_values(p);
    let n = choose|n: int| 0 <= n < set.len() && set[n] == x;
    order::lemma_text_order();
    all.lemma_sort_by_ensures(le);
    order::lemma_distinct(sorted, Seq::empty());
    assert(sorted_by(ranked, le)) by {
        assert forall|a: int, b: int| 0 <= a < b < ranked.len() implies #[trigger] le(
            ranked[a],
            ranked[b],
        ) by {
            assert(order::text_le(ranked[a], ranked[b]));
        }
    }
    members.lemma_multiset_has_no_duplicates();
    ranked.lemma_multiset_has_no_duplicates();
    assert(members.to_multiset() =~= ranked.to_multiset()) by {
        assert forall|s: Seq<char>| members.to_multiset().count(s) == ranked.to_multiset().count(
            s,
        ) by {
            lemma_set_texts(values, s);
            assert(members.contains(s) <==> ranked.contains(s));
            assert(members.contains(s) <==> members.to_multiset().count(s) > 0);
            assert(ranked.contains(s) <==> ranked.to_multiset().count(s) > 0);
        }
    }
    vstd::seq_lib::lemma_sorted_unique(members, ranked, le);
    assert(members == ranked);
    if n < members.len() {
        assert(x == crypto::attribute_value(ranked[n]));
    }
}

/// A proof is derived only for a window that ends after it begins, both in 32 bits, and
/// only from a credential whose commitment is that of its claims. What fails after the
/// claims, the labels and the predicates have been found in order, with keys for the
/// circuit, fails as an unsatisfiable constraint system.
pub proof fn lemma_derived_window(
    suite: PoseidonGroth16Suite,
    c: VerifiableCredential,
    reveal: Seq<Seq<char>>,
    predicates: Seq<PredicateType>,
    window_start: u64,
    window_expires: u64,
    r: Result<VerifiableCredential, CredentialError>,
)
    requires
        suite.derivation(c, reveal, predicates, window_start, window_expires, r),
    ensures
        r is Ok ==> predicates.len() <= 8,
        r is Ok ==> window_start as nat % 0x1_0000_0000 < window_expires as nat % 0x1_0000_0000,
        r is Ok ==> match field::field_of_text(c.commitment@) {
            Some(v) => v == suite.true_commitment(c),
            None => suite.true_commitment(c) == 0,
        },
        (forall|all: Seq<PredicateSlot>|
            suite::slots_for(suite.attribute_map@, predicates, all) ==> #[trigger] suite.setup.is_for(
                suite::label_mask(suite.attribute_map@, reveal),
                all,
            )) ==> (r matches Err(CredentialError::ProofGenerationFailed(m)) ==> m@
            == "unsatisfiable constraint system"@),
        r matches Err(e) ==> e is TooManyPredicates || e is UnknownAttribute
            || e is ConstraintUnsatisfied || e is InvalidPredicate || e is ProofGenerationFailed,
{
}

/// What checking a credential says within its window when the proof does not verify: that
/// the bytes are no proof, that the check failed, or that the proof is invalid. A text that
/// is no encoding is named whatever the time.
pub proof fn lemma_report_errors(suite: PoseidonGroth16Suite, c: VerifiableCredential, now: u64)
    ensures
        ({
            let report = suite.report(c, now);
            let bytes = base64url::strictly_decoded(c.proof_value@);
            let proof = groth16::decoded_proof(bytes->Ok_0);
            let outcome = groth16::verdict(
                suite.setup.keys.verifying_key(),
                suite.public_values(c),
                proof->Ok_0,
            );
            let within = bytes is Ok && c.window_start <= now && now < c.window_expires;
            &&& bytes is Err ==> report.errors == seq![bytes->Err_0] && report.claims.len() == 0
            &&& within && proof is Err ==> report.errors == seq![
                "Serialization error: "@ + proof->Err_0,
            ]
            &&& within && proof is Ok && outcome is Err ==> report.errors == seq![
                "Verification failed: "@ + outcome->Err_0.text(),
            ]
            &&& within && proof is Ok && outcome is Ok && !outcome->Ok_0 ==> report.errors == seq![
                "Invalid proof"@,
            ]
            &&& bytes is Ok && !within ==> report.claims.len() == 0
        }),
{
}

} // verus!
