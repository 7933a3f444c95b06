//! What values that satisfy a circuit are, whoever chose them.
use crate::biometric::crypto;
use crate::biometric::matrix;
use crate::biometric::slots;
use crate::biometric::types::PredicateSlot;
use crate::disclosure;
use crate::field;
use crate::gates;
use crate::membership;
use crate::permutation;
use crate::policy::circuit;
use crate::policy::circuit::CredentialCircuit;
use crate::policy::hash;
use crate::policy::meaning;
use crate::policy::predicates;
use crate::policy::types::Predicate;
use crate::w3c::primitives;
use crate::w3c::primitives::DisclosureConfig;
use vstd::arithmetic::div_mod::*;
use vstd::prelude::*;

verus! {

/// Where a number is another and a difference, both modulo the field's order, the
/// difference is what lies between them.
proof fn lemma_between(y: int, w: int, d: nat)
    requires
        y % (field::modulus() as int) == ((w % (field::modulus() as int)) + d) % (
        field::modulus() as int),
        d < field::modulus(),
    ensures
        (y - w) % (field::modulus() as int) == d,
{
    let m = field::modulus() as int;
    lemma_fundamental_div_mod(y, m);
    lemma_fundamental_div_mod(w, m);
    let a = (w % m) + d;
    lemma_fundamental_div_mod(a, m);
    let (p, q, r) = (y / m, w / m, a / m);
    assert(y - w == m * (p - q - r) + d) by (nonlinear_arith)
        requires
            y == m * p + y % m,
            w == m * q + w % m,
            a == m * r + a % m,
            y % m == a % m,
            a == (w % m) + d,
    ;
    lemma_mod_multiples_vanish(p - q - r, d as int, m);
    lemma_small_mod(d, m as nat);
}

proof fn lemma_hidden_count(mask: Seq<bool>, i: nat)
    ensures
        disclosure::hidden_before(mask, i) <= i,
    decreases i,
{
    if i > 0 {
        lemma_hidden_count(mask, (i - 1) as nat);
    }
}

/// Whatever values satisfy the circuit for selective disclosure, they have sixteen
/// attributes and a blinding whose commitment is the public one, the attributes that the
/// mask shows are the public ones, and the age exceeds the public threshold by less than
/// 32 bits, all in the field.
pub proof fn lemma_disclosed(config: DisclosureConfig, values: Seq<nat>) -> (r: (Seq<nat>, nat))
    requires
        values.len() >= 36,
        forall|i: int| 0 <= i < values.len() ==> #[trigger] values[i] < field::modulus(),
        gates::holds(config.circuit(), values),
    ensures
        ({
            let public = gates::public_values(config.circuit(), values);
            let (attrs, blinding) = r;
            let at = if config.age_index is Some {
                config.age_index->0 as int
            } else {
                0
            };
            &&& public.len() == 18
            &&& attrs.len() == 16
            &&& forall|i: int| 0 <= i < 16 && config.mask@[i] ==> #[trigger] attrs[i] == public[i]
            &&& public[16] == permutation::sponge(
                permutation::standard(),
                seq![primitives::commitment_domain()] + attrs + seq![blinding],
            )
            &&& at < 16 ==> (attrs[at] - public[17]) % (field::modulus() as int) < 0x1_0000_0000
        }),
{
    let p = permutation::standard();
    let none = Seq::<gates::Gate>::empty();
    let mask = config.mask@;
    let domain = primitives::commitment_domain();
    lemma_hidden_count(mask, 16);
    disclosure::lemma_disclosure(p, none, mask, config.index(), domain, values);
    let attrs = Seq::new(16, |i: int| disclosure::attribute_at(mask, values, 0, i as nat));
    let blinding = values[(18 + disclosure::hidden_before(mask, 16)) as int];
    let public = gates::public_values(config.circuit(), values);
    assert(public =~= values.subrange(0, 18));
    assert(gates::holds(none, values));
    assert(disclosure::opening_at(mask, domain, values, 0) =~= seq![domain] + attrs + seq![
        blinding,
    ]);
    if config.index() < 16 {
        let d = values[(19 + disclosure::hidden_before(mask, 16)) as int];
        let at = config.index() as int;
        let m = field::modulus();
        assert(attrs[at] == field::fadd(public[17], d));
        lemma_small_mod(public[17], m);
        lemma_mod_twice((public[17] + d) as int, m as int);
        lemma_between(attrs[at] as int, public[17] as int, d);
    }
    (attrs, blinding)
}

/// Whatever values satisfy the circuit of a policy, they have sixteen attributes and a
/// blinding whose commitment is the public one; the shown attributes are the public ones;
/// age, face match and liveness reach the public thresholds, the citizenship is the public
/// one, the diploma is an allowed one where it is selected; and the predicates are true.
pub proof fn lemma_policy(c: CredentialCircuit, values: Seq<nat>) -> (r: (Seq<nat>, nat))
    requires
        values.len() >= 44,
        forall|i: int| 0 <= i < values.len() ==> #[trigger] values[i] < field::modulus(),
        c.refused() is None,
        gates::holds(c.record(), values),
    ensures
        ({
            let public = gates::public_values(c.record(), values);
            let (attrs, blinding) = r;
            &&& public.len() >= 22
            &&& attrs.len() == 16
            &&& forall|i: int| 0 <= i < 16 && c.reveals@[i] ==> #[trigger] attrs[i] == public[i]
            &&& public[16] == hash::commitment_value(attrs, blinding)
            &&& public[17] <= attrs[0] <= 0xffff_ffff
            &&& attrs[2] == public[18]
            &&& public[19] <= attrs[3] <= 0xffff_ffff
            &&& public[20] <= attrs[5] <= 0xffff_ffff
            &&& c.diploma_sel && public[21] != 0 ==> exists|k: int|
                0 <= k < 6 && (#[trigger] c.allowed_diplomas@[k])@ == attrs[6]
            &&& forall|i: int|
                0 <= i < c.additional_predicates@.len() ==> match #[trigger] c.additional_predicates@[i] {
                    Predicate::Gte(t) => t <= attrs[8] <= 0xffff_ffff,
                    Predicate::Eq(v) => attrs[9] == v@,
                    Predicate::InSet(members) => exists|k: int|
                        0 <= k < members@.len() && (#[trigger] members@[k])@ == attrs[10],
                    Predicate::Range(min, max) => min <= attrs[11] <= max <= 0xffff_ffff,
                    Predicate::Lt(t) => attrs[12] < t <= 0xffff_ffff,
                    Predicate::Neq(v) => attrs[13] != v@,
                }
        }),
{
    let p = hash::schedule();
    let t = c.terms();
    let none = Seq::<gates::Gate>::empty();
    let domain = hash::commitment_domain();
    predicates::lemma_values_reduced(c.allowed_diplomas@);
    circuit::lemma_credential(p, none, t, domain, values);
    let attrs = values.subrange(22, 38);
    let blinding = values[38];
    let public = gates::public_values(c.record(), values);
    assert(gates::holds(none, values));
    assert(public =~= circuit::credential_shown(t, values, 0));
    assert forall|i: int| 0 <= i < 16 && c.reveals@[i] implies #[trigger] attrs[i]
        == public[i] by {
        let j = i as nat;
        assert(t.mask[j as int]);
        assert(values[(0 + 22 + j) as int] == values[(0 + j) as int]);
    }
    meaning::lemma_contains(c.allowed_diplomas@, attrs[6]);
    let list = c.additional_predicates@;
    assert forall|i: int| 0 <= i < list.len() implies match #[trigger] list[i] {
        Predicate::Gte(t) => t <= attrs[8] <= 0xffff_ffff,
        Predicate::Eq(v) => attrs[9] == v@,
        Predicate::InSet(members) => exists|k: int|
            0 <= k < members@.len() && (#[trigger] members@[k])@ == attrs[10],
        Predicate::Range(min, max) => min <= attrs[11] <= max <= 0xffff_ffff,
        Predicate::Lt(t) => attrs[12] < t <= 0xffff_ffff,
        Predicate::Neq(v) => attrs[13] != v@,
    } by {
        assert(predicates::met(t.predicates[i], attrs));
        if let Predicate::InSet(members) = list[i] {
            meaning::lemma_contains(members@, attrs[10]);
        }
    }
    (attrs, blinding)
}

proof fn lemma_slot_counts(all: Seq<PredicateSlot>, j: nat)
    ensures
        matrix::slots_count(all, j) <= 2 * j,
    decreases j,
{
    if j > 0 {
        lemma_slot_counts(all, (j - 1) as nat);
    }
}

proof fn lemma_slot_rule(all: Seq<PredicateSlot>, values: Seq<nat>, j: nat, i: int)
    requires
        matrix::slots_rule(all, values, 0, 38, j),
        0 <= i < j,
    ensures
        ({
            let first = 38 + matrix::slots_count(all, i as nat);
            slots::slot_rule(
                all[i],
                values[17 + all[i].attr_index],
                values.subrange(first as int, (first + slots::slot_count(all[i])) as int),
            )
        }),
    decreases j,
{
    if i < j - 1 {
        lemma_slot_rule(all, values, (j - 1) as nat, i);
    }
}

/// Whatever values satisfy the circuit with slots, they have sixteen attributes and a
/// blinding whose commitment is the public one; the shown attributes are the public ones;
/// the public window ends after it begins; and the attribute of each active slot is what
/// the slot asks for, all in the field and with less than 32 bits to a bound.
pub proof fn lemma_slots(
    mask: Seq<bool>,
    all: Seq<PredicateSlot>,
    values: Seq<nat>,
    j: int,
) -> (r: (Seq<nat>, nat))
    requires
        all.len() == 8,
        forall|i: int| 0 <= i < 8 && (#[trigger] all[i]).active ==> all[i].attr_index < 16,
        values.len() >= 54,
        forall|i: int| 0 <= i < values.len() ==> #[trigger] values[i] < field::modulus(),
        gates::holds(crypto::circuit(mask, all), values),
        0 <= j < 8,
    ensures
        ({
            let public = gates::public_values(crypto::circuit(mask, all), values);
            let (attrs, blinding) = r;
            let m = field::modulus() as int;
            let slot = all[j];
            let x = attrs[slot.attr_index as int];
            let v = slot.val1@;
            &&& public.len() == 19
            &&& attrs.len() == 16
            &&& forall|i: int| 0 <= i < 16 && mask[i] ==> #[trigger] attrs[i] == public[i]
            &&& public[16] == crypto::commitment_value(attrs, blinding)
            &&& 0 < (public[18] - public[17]) % m < 0x1_0000_0000
            &&& slot.active && (slot.pred_type == 1 || 9 <= slot.pred_type <= 11) ==> (x - v) % m
                < 0x1_0000_0000
            &&& slot.active && slot.pred_type == 2 ==> (x - (v + 1)) % m < 0x1_0000_0000
            &&& slot.active && slot.pred_type == 3 ==> (v - 1 - x) % m < 0x1_0000_0000
            &&& slot.active && slot.pred_type == 4 ==> (v - x) % m < 0x1_0000_0000
            &&& slot.active && slot.pred_type == 5 ==> x == v
            &&& slot.active && slot.pred_type == 6 ==> x != v
            &&& slot.active && slot.pred_type == 7 ==> (x - v) % m < 0x1_0000_0000 && (
            slot.val2@ - x) % m < 0x1_0000_0000
            &&& slot.active && slot.pred_type == 8 ==> exists|k: int|
                0 <= k < 6 && (#[trigger] slot.inset_values@[k])@ == x
        }),
{
    broadcast use field::lemma_fr_bound;

    let p = permutation::standard();
    let none = Seq::<gates::Gate>::empty();
    let domain = crypto::commitment_domain();
    let m = field::modulus();
    lemma_slot_counts(all, 8);
    matrix::lemma_matrix(p, none, mask, all, domain, values);
    assert(gates::holds(none, values));
    let attrs = values.subrange(17, 33);
    let blinding = values[33];
    let public = gates::public_values(crypto::circuit(mask, all), values);
    assert(public =~= values.subrange(0, 17) + values.subrange(36, 38));
    assert forall|i: int| 0 <= i < 16 && mask[i] implies #[trigger] attrs[i] == public[i] by {
        let k = i as nat;
        assert(mask[k as int]);
        assert(values[(0 + 17 + k) as int] == values[(0 + k) as int]);
    }
    let slot = all[j];
    if slot.active {
        let x = attrs[slot.attr_index as int];
        let v = slot.val1@;
        let w = slot.val2@;
        let first = 38 + matrix::slots_count(all, j as nat);
        lemma_slot_rule(all, values, 8, j);
        assert(x == values[17 + slot.attr_index]);
        let own = values.subrange(first as int, (first + slots::slot_count(slot)) as int);
        lemma_small_mod(x, m);
        lemma_small_mod(v, m);
        lemma_small_mod(w, m);
        lemma_small_mod(0, m);
        if slot.pred_type == 1 || 9 <= slot.pred_type <= 11 {
            lemma_between(x as int, v as int, own[0]);
        } else if slot.pred_type == 2 {
            lemma_between(x as int, (v + 1) as int, own[0]);
        } else if slot.pred_type == 3 {
            lemma_between(v - 1, x as int, own[0]);
        } else if slot.pred_type == 4 {
            lemma_between(v as int, x as int, own[0]);
        } else if slot.pred_type == 7 {
            lemma_between(x as int, v as int, own[0]);
            lemma_between(w as int, x as int, own[1]);
        } else if slot.pred_type == 8 {
            let set = field::values(slot.inset_values@);
            assert(set.take(6) =~= set);
            membership::lemma_membership(x, set, 6);
            meaning::lemma_contains(slot.inset_values@, x);
        }
    }
    (attrs, blinding)
}

} // verus!
