//! A circuit for sixteen committed attributes, a window of time and eight
//! predicate slots.
use crate::biometric::slots;
use crate::biometric::types;
use crate::biometric::types::{PredicateSlot, MAX_PREDICATES};
use crate::disclosure;
use crate::disclosure::NUM_ATTRIBUTES;
use crate::field;
use crate::field::Fr;
use crate::gadgets;
use crate::gates;
use crate::gates::{Builder, Gate, SynthesisError};
use crate::opening;
use crate::permutation;
use crate::permutation::PoseidonParams;
use crate::range;
use crate::rules;
use vstd::arithmetic::div_mod::*;
use vstd::prelude::*;

verus! {

// The window of time.

/// The record of the window: its ends are private and public, and the second is
/// above the first.
pub open spec fn draw_window(g: Seq<Gate>) -> Seq<Gate> {
    let m = g.len();
    let ends = rules::draw_input(
        rules::draw_input(rules::draw_witness(rules::draw_witness(g))),
    );
    let same = ends.push(Gate::Equal(m, m + 2)).push(Gate::Equal(m + 1, m + 3));
    range::draw_positive(same.push(Gate::Sub(m + 1, m)), m + 6)
}

/// The ends of the window agree with the public ones and are in order.
pub open spec fn window_rule(values: Seq<nat>, k: nat) -> bool {
    let start = values[k as int];
    let end = values[(k + 1) as int];
    &&& start == values[(k + 2) as int]
    &&& end == values[(k + 3) as int]
    &&& 0 < field::fsub(end, start) < range::width_bound()
}

proof fn lemma_window(g: Seq<Gate>, values: Seq<nat>)
    requires
        gates::allocations(g) + 4 <= values.len(),
        disclosure::all_reduced(values),
    ensures
        ({
            let k = gates::allocations(g);
            rules::shows(
                g,
                draw_window(g),
                values,
                4,
                values.subrange((k + 2) as int, (k + 4) as int),
                window_rule(values, k),
            )
        }),
{
    let m = g.len();
    let k = gates::allocations(g);
    let h1 = rules::draw_witness(g);
    let h2 = rules::draw_witness(h1);
    let h3 = rules::draw_input(h2);
    let h4 = rules::draw_input(h3);
    rules::lemma_witness(g, values);
    rules::lemma_witness(h1, values);
    rules::lemma_input(h2, values);
    rules::lemma_input(h3, values);
    opening::lemma_carries_kept(h1, h2, values, m, k as int);
    opening::lemma_carries_kept(h2, h3, values, m, k as int);
    opening::lemma_carries_kept(h3, h4, values, m, k as int);
    opening::lemma_carries_kept(h2, h3, values, m + 1, (k + 1) as int);
    opening::lemma_carries_kept(h3, h4, values, m + 1, (k + 1) as int);
    opening::lemma_carries_kept(h3, h4, values, m + 2, (k + 2) as int);
    rules::lemma_adds_trans(g, h1, h2, values, 1, true, 1, true);
    let s2 = values[(k + 2) as int];
    let s3 = values[(k + 3) as int];
    assert(gates::public_values(g, values) + Seq::<nat>::empty() =~= gates::public_values(
        g,
        values,
    ));
    assert(rules::shows(g, h2, values, 2, Seq::<nat>::empty(), true));
    rules::lemma_shows_trans(g, h2, h3, values, 2, Seq::empty(), true, 1, seq![s2], true);
    rules::lemma_shows_trans(
        g,
        h3,
        h4,
        values,
        3,
        Seq::<nat>::empty() + seq![s2],
        true,
        1,
        seq![s3],
        true,
    );
    let shown = values.subrange((k + 2) as int, (k + 4) as int);
    assert((Seq::<nat>::empty() + seq![s2]) + seq![s3] =~= shown);
    let h5 = h4.push(Gate::Equal(m, m + 2));
    let h6 = h5.push(Gate::Equal(m + 1, m + 3));
    let h7 = h6.push(Gate::Sub(m + 1, m));
    let m1 = values[k as int] == s2;
    let m2 = values[(k + 1) as int] == s3;
    rules::lemma_equal(h4, m, m + 2, values);
    opening::lemma_carries_kept(h4, h5, values, m, k as int);
    opening::lemma_carries_kept(h4, h5, values, m + 1, (k + 1) as int);
    opening::lemma_carries_kept(h4, h5, values, m + 3, (k + 3) as int);
    rules::lemma_equal(h5, m + 1, m + 3, values);
    opening::lemma_carries_kept(h5, h6, values, m, k as int);
    opening::lemma_carries_kept(h5, h6, values, m + 1, (k + 1) as int);
    gadgets::lemma_sub(h6, m + 1, m, values);
    opening::lemma_carries_kept(h6, h7, values, m, k as int);
    opening::lemma_carries_kept(h6, h7, values, m + 1, (k + 1) as int);
    assert(gates::fixed(h7, m + 6) is None);
    rules::lemma_adds_nothing(h6, h7, values);
    rules::lemma_shows_adds(g, h4, h5, values, 4, shown, true, 0, m1);
    rules::lemma_shows_adds(g, h5, h6, values, 4, shown, m1, 0, m2);
    rules::lemma_shows_adds(g, h6, h7, values, 4, shown, m1 && m2, 0, true);
    let d = field::fsub(values[(k + 1) as int], values[k as int]);
    lemma_mod_bound(values[(k + 1) as int] - values[k as int], field::modulus() as int);
    range::lemma_draw_positive(h7, m + 6, values);
    rules::lemma_shows_adds(
        g,
        h7,
        draw_window(g),
        values,
        4,
        shown,
        m1 && m2,
        0,
        0 < d < range::width_bound(),
    );
}

// The slots.

/// Every active slot names one of the attributes.
pub open spec fn slots_placed(slots: Seq<PredicateSlot>) -> bool {
    forall|j: int|
        0 <= j < slots.len() && (#[trigger] slots[j]).active ==> slots[j].attr_index < 16
}

/// The number of private variables of the first slots.
pub open spec fn slots_count(slots: Seq<PredicateSlot>, j: nat) -> nat
    decreases j,
{
    if j == 0 {
        0
    } else {
        slots_count(slots, (j - 1) as nat) + slots::slot_count(slots[j - 1])
    }
}

/// The record of the first slots.
pub open spec fn draw_slots(
    g: Seq<Gate>,
    n: nat,
    mask: Seq<bool>,
    slots: Seq<PredicateSlot>,
    j: nat,
) -> Seq<Gate>
    decreases j,
{
    if j == 0 {
        g
    } else {
        let slot = slots[j - 1];
        slots::draw_slot(
            draw_slots(g, n, mask, slots, (j - 1) as nat),
            opening::attribute_wire(n, 17, mask, slot.attr_index as nat),
            slot,
        )
    }
}

/// What the first slots enforce: each its rule, of its attribute, which are the
/// variables from `k + 17` on, and of its own variables, which begin at `own`.
pub open spec fn slots_rule(
    slots: Seq<PredicateSlot>,
    values: Seq<nat>,
    k: nat,
    own: nat,
    j: nat,
) -> bool
    decreases j,
{
    if j == 0 {
        true
    } else {
        let slot = slots[j - 1];
        let first = own + slots_count(slots, (j - 1) as nat);
        slots_rule(slots, values, k, own, (j - 1) as nat) && slots::slot_rule(
            slot,
            values[(k + 17 + slot.attr_index) as int],
            values.subrange(first as int, (first + slots::slot_count(slot)) as int),
        )
    }
}

proof fn lemma_slots(
    g: Seq<Gate>,
    n: nat,
    mask: Seq<bool>,
    slots: Seq<PredicateSlot>,
    k: nat,
    j: nat,
    values: Seq<nat>,
)
    requires
        j <= slots.len(),
        slots_placed(slots),
        opening::attributes_carried(g, values, n, 17, mask, k, 16),
        k + 33 <= values.len(),
        gates::allocations(g) + slots_count(slots, j) <= values.len(),
        disclosure::all_reduced(values),
    ensures
        ({
            let h = draw_slots(g, n, mask, slots, j);
            &&& rules::adds(
                g,
                h,
                values,
                slots_count(slots, j),
                slots_rule(slots, values, k, gates::allocations(g), j),
            )
            &&& opening::attributes_carried(h, values, n, 17, mask, k, 16)
        }),
    decreases j,
{
    if j == 0 {
        gates::lemma_computes(g, g, values);
    } else {
        let i = (j - 1) as nat;
        let own = gates::allocations(g);
        let slot = slots[i as int];
        lemma_slots(g, n, mask, slots, k, i, values);
        let h = draw_slots(g, n, mask, slots, i);
        let a = opening::attribute_wire(n, 17, mask, slot.attr_index as nat);
        let last = draw_slots(g, n, mask, slots, j);
        let first = own + slots_count(slots, i);
        let mine = values.subrange(first as int, (first + slots::slot_count(slot)) as int);
        let met = slots::slot_rule(slot, values[(k + 17 + slot.attr_index) as int], mine);
        if slot.active {
            assert(opening::carries(h, values, a, (k + 17 + slot.attr_index) as int));
            slots::lemma_slot(h, a, slot, values);
        } else {
            gates::lemma_computes(h, h, values);
        }
        rules::lemma_adds_trans(
            g,
            h,
            last,
            values,
            slots_count(slots, i),
            slots_rule(slots, values, k, own, i),
            slots::slot_count(slot),
            met,
        );
        opening::lemma_attributes_kept(h, last, values, n, 17, mask, k, 16);
    }
}

// The whole circuit.

/// The record of the whole circuit.
pub open spec fn draw_matrix(
    p: permutation::Schedule,
    g: Seq<Gate>,
    mask: Seq<bool>,
    slots: Seq<PredicateSlot>,
    domain: nat,
) -> Seq<Gate> {
    draw_slots(draw_window(opening::draw_opening(p, g, 17, mask, domain)), g.len(), mask, slots, 8)
}

/// What the circuit states of the values of its variables, which begin at `k`:
/// the private attributes are the public ones where they are shown, and with the
/// blinding they have the public commitment; the window is the public one and in
/// order; and every slot is met.
pub open spec fn matrix_rule(
    p: permutation::Schedule,
    mask: Seq<bool>,
    slots: Seq<PredicateSlot>,
    domain: nat,
    values: Seq<nat>,
    k: nat,
) -> bool {
    &&& opening::linked(mask, values, k, 17, 16)
    &&& permutation::sponge(p, opening::opened(domain, values, k, 17)) == values[(k + 16) as int]
    &&& window_rule(values, k + 34)
    &&& slots_rule(slots, values, k, k + 38, 8)
}

/// Values for the variables satisfy the circuit exactly when they are what it
/// states. The public ones are the shown attributes, the commitment and the
/// window.
pub proof fn lemma_matrix(
    p: permutation::Schedule,
    g: Seq<Gate>,
    mask: Seq<bool>,
    slots: Seq<PredicateSlot>,
    domain: nat,
    values: Seq<nat>,
)
    requires
        slots.len() == 8,
        slots_placed(slots),
        gates::allocations(g) + 38 + slots_count(slots, 8) <= values.len(),
        disclosure::all_reduced(values),
    ensures
        ({
            let k = gates::allocations(g);
            rules::shows(
                g,
                draw_matrix(p, g, mask, slots, domain),
                values,
                38 + slots_count(slots, 8),
                values.subrange(k as int, (k + 17) as int) + values.subrange(
                    (k + 36) as int,
                    (k + 38) as int,
                ),
                matrix_rule(p, mask, slots, domain, values, k),
            )
        }),
{
    let n = g.len();
    let k = gates::allocations(g);
    let h1 = opening::draw_opening(p, g, 17, mask, domain);
    let h2 = draw_window(h1);
    let m1 = opening::linked(mask, values, k, 17, 16) && permutation::sponge(p, opening::opened(domain, values, k, 17))
        == values[(k + 16) as int];
    let s1 = values.subrange(k as int, (k + 17) as int);
    let s2 = values.subrange((k + 36) as int, (k + 38) as int);
    opening::lemma_opening(p, g, 17, mask, domain, values);
    lemma_window(h1, values);
    opening::lemma_attributes_kept(h1, h2, values, n, 17, mask, k, 16);
    rules::lemma_shows_trans(
        g,
        h1,
        h2,
        values,
        34,
        s1,
        m1,
        4,
        s2,
        window_rule(values, k + 34),
    );
    lemma_slots(h2, n, mask, slots, k, 8, values);
    rules::lemma_shows_adds(
        g,
        h2,
        draw_matrix(p, g, mask, slots, domain),
        values,
        38,
        s1 + s2,
        m1 && window_rule(values, k + 34),
        slots_count(slots, 8),
        slots_rule(slots, values, k, k + 38, 8),
    );
}

// The values that an honest prover gives the variables.

/// The values of the first slots' own variables.
pub open spec fn slots_values(
    slots: Seq<PredicateSlot>,
    attributes: Seq<nat>,
    j: nat,
) -> Seq<nat>
    decreases j,
{
    if j == 0 {
        Seq::empty()
    } else {
        slots_values(slots, attributes, (j - 1) as nat) + slots::slot_values(
            slots[j - 1],
            attributes[slots[j - 1].attr_index as int],
        )
    }
}

/// The values of the variables before the slots, in order.
pub open spec fn head_values(
    attributes: Seq<nat>,
    mask: Seq<bool>,
    commitment: nat,
    blinding: nat,
    start: nat,
    end: nat,
) -> Seq<nat> {
    disclosure::shown_values(attributes, mask, 16).push(commitment) + attributes + seq![
        blinding,
        start,
        end,
        start,
        end,
    ]
}

/// The values of all variables, in order.
pub open spec fn assignment(
    attributes: Seq<nat>,
    mask: Seq<bool>,
    slots: Seq<PredicateSlot>,
    commitment: nat,
    blinding: nat,
    start: nat,
    end: nat,
) -> Seq<nat> {
    head_values(attributes, mask, commitment, blinding, start, end) + slots_values(
        slots,
        attributes,
        8,
    )
}

/// The public values: the shown attributes, the commitment and the window.
pub open spec fn public_statement(
    attributes: Seq<nat>,
    mask: Seq<bool>,
    commitment: nat,
    start: nat,
    end: nat,
) -> Seq<nat> {
    disclosure::shown_values(attributes, mask, 16).push(commitment).push(start).push(end)
}

/// Whether the first slots are met.
pub open spec fn slots_met(slots: Seq<PredicateSlot>, attributes: Seq<nat>, j: nat) -> bool {
    forall|i: int|
        0 <= i < j ==> slots::slot_met(
            #[trigger] slots[i],
            attributes[slots[i].attr_index as int],
        )
}

/// What an honest prover needs: the commitment opens to the attributes and the
/// blinding, the window is in order, and every slot is met.
pub open spec fn provable(
    p: permutation::Schedule,
    attributes: Seq<nat>,
    slots: Seq<PredicateSlot>,
    commitment: nat,
    blinding: nat,
    start: nat,
    end: nat,
    domain: nat,
) -> bool {
    &&& permutation::sponge(p, disclosure::opening(domain, attributes, blinding)) == commitment
    &&& start < end
    &&& slots_met(slots, attributes, 8)
}

proof fn lemma_slots_values(slots: Seq<PredicateSlot>, attributes: Seq<nat>, j: nat)
    requires
        j <= slots.len(),
        slots_placed(slots),
        attributes.len() == 16,
        disclosure::all_reduced(attributes),
    ensures
        slots_values(slots, attributes, j).len() == slots_count(slots, j),
        disclosure::all_reduced(slots_values(slots, attributes, j)),
    decreases j,
{
    if j > 0 {
        let i = (j - 1) as nat;
        lemma_slots_values(slots, attributes, i);
        let slot = slots[i as int];
        let before = slots_values(slots, attributes, i);
        let mine = slots::slot_values(slot, attributes[slot.attr_index as int]);
        if slot.active {
            slots::lemma_slot_values(slot, attributes[slot.attr_index as int]);
        }
        let all = slots_values(slots, attributes, j);
        assert forall|x: int| 0 <= x < all.len() implies #[trigger] all[x] < field::modulus() by {
            if x < before.len() {
                assert(all[x] == before[x]);
            } else {
                assert(all[x] == mine[x - before.len()]);
            }
        }
    }
}

/// Among the prover's values the slots' rules come to their being met.
proof fn lemma_slots_met(
    slots: Seq<PredicateSlot>,
    attributes: Seq<nat>,
    values: Seq<nat>,
    k: nat,
    own: nat,
    j: nat,
)
    requires
        j <= slots.len(),
        slots_placed(slots),
        attributes.len() == 16,
        disclosure::all_reduced(attributes),
        forall|i: nat|
            i < 16 ==> #[trigger] values[(k + 17 + i) as int] == attributes[i as int],
        own + slots_count(slots, j) <= values.len(),
        values.subrange(own as int, (own + slots_count(slots, j)) as int) == slots_values(
            slots,
            attributes,
            j,
        ),
    ensures
        slots_rule(slots, values, k, own, j) <==> slots_met(slots, attributes, j),
    decreases j,
{
    if j > 0 {
        let i = (j - 1) as nat;
        let slot = slots[i as int];
        let first = own + slots_count(slots, i);
        let all = slots_values(slots, attributes, j);
        let before = slots_values(slots, attributes, i);
        let x = attributes[slot.attr_index as int];
        let expected = slots::slot_values(slot, x);
        lemma_slots_values(slots, attributes, i);
        lemma_slots_values(slots, attributes, j);
        let mine = values.subrange(first as int, (first + slots::slot_count(slot)) as int);
        assert(values.subrange(own as int, first as int) =~= before) by {
            assert forall|y: int| 0 <= y < before.len() implies values.subrange(
                own as int,
                first as int,
            )[y] == #[trigger] before[y] by {
                assert(all[y] == before[y]);
            }
        }
        lemma_slots_met(slots, attributes, values, k, own, i);
        if slot.active {
            slots::lemma_slot_values(slot, x);
            assert(values[(k + 17 + slot.attr_index as nat) as int] == x);
        }
        assert(mine =~= expected) by {
            assert(expected.len() == slots::slot_count(slot));
            assert forall|y: int| 0 <= y < expected.len() implies #[trigger] mine[y]
                == expected[y] by {
                assert(all[before.len() + y] == expected[y]);
            }
        }
        assert(slots_met(slots, attributes, j) <==> slots_met(slots, attributes, i)
            && slots::slot_met(slot, x)) by {
            if slots_met(slots, attributes, j) {
                assert(slots::slot_met(slots[i as int], x));
                assert forall|y: int| 0 <= y < i implies slots::slot_met(
                    #[trigger] slots[y],
                    attributes[slots[y].attr_index as int],
                ) by {}
            }
        }
    }
}

/// The honest values satisfy the circuit exactly when the statement is provable,
/// and show the public statement.
pub proof fn lemma_assignment(
    p: permutation::Schedule,
    g: Seq<Gate>,
    before: Seq<nat>,
    attributes: Seq<nat>,
    mask: Seq<bool>,
    slots: Seq<PredicateSlot>,
    commitment: nat,
    blinding: nat,
    start: nat,
    end: nat,
    domain: nat,
)
    requires
        slots.len() == 8,
        slots_placed(slots),
        attributes.len() == 16,
        disclosure::all_reduced(attributes),
        disclosure::all_reduced(before),
        commitment < field::modulus(),
        blinding < field::modulus(),
        start < range::width_bound(),
        end < range::width_bound(),
        gates::allocations(g) == before.len(),
    ensures
        ({
            let values = before + assignment(
                attributes,
                mask,
                slots,
                commitment,
                blinding,
                start,
                end,
            );
            let h = draw_matrix(p, g, mask, slots, domain);
            &&& gates::holds(h, values) <==> gates::holds(g, values) && provable(
                p,
                attributes,
                slots,
                commitment,
                blinding,
                start,
                end,
                domain,
            )
            &&& gates::public_values(h, values) == gates::public_values(g, values)
                + public_statement(attributes, mask, commitment, start, end)
        }),
{
    let k = before.len();
    let head = head_values(attributes, mask, commitment, blinding, start, end);
    let tail = slots_values(slots, attributes, 8);
    let own = assignment(attributes, mask, slots, commitment, blinding, start, end);
    let values = before + own;
    lemma_slots_values(slots, attributes, 8);
    assert(head.len() == 38);
    assert forall|i: int| 0 <= i < 38 implies #[trigger] values[k + i] == head[i] by {}
    assert forall|i: int| 0 <= i < values.len() implies #[trigger] values[i] < field::modulus() by {
        if i < k {
            assert(values[i] == before[i]);
        } else if i < k + 38 {
            assert(values[i] == head[i - k]);
            if 17 <= i - k < 33 {
                assert(head[i - k] == attributes[i - k - 17]);
            }
        } else {
            assert(values[i] == tail[i - k - 38]);
        }
    }
    lemma_matrix(p, g, mask, slots, domain, values);
    assert forall|i: nat| i < 16 implies #[trigger] values[(k + 17 + i) as int]
        == attributes[i as int] by {
        assert(values[(k + (17 + i)) as int] == head[(17 + i) as int]);
    }
    assert forall|i: nat| i < 16 && mask[i as int] implies #[trigger] values[(k + 17 + i) as int]
        == values[(k + i) as int] by {
        assert(values[(k + i) as int] == head[i as int]);
    }
    assert(values[(k + 16) as int] == commitment);
    assert(values[(k + 33) as int] == blinding);
    assert(values.subrange((k + 17) as int, (k + 33) as int) =~= attributes);
    assert(opening::opened(domain, values, k, 17) == disclosure::opening(domain, attributes, blinding));
    assert(values[(k + 34) as int] == start && values[(k + 35) as int] == end);
    assert(values[(k + 36) as int] == start && values[(k + 37) as int] == end);
    let m = field::modulus();
    if start <= end {
        lemma_small_mod((end - start) as nat, m);
    } else {
        lemma_small_mod((end - start + m) as nat, m);
        lemma_mod_add_multiples_vanish(end - start, m as int);
    }
    assert(window_rule(values, k + 34) <==> start < end);
    assert(values.subrange((k + 38) as int, (k + 38 + slots_count(slots, 8)) as int) =~= tail);
    lemma_slots_met(slots, attributes, values, k, k + 38, 8);
    assert(values.subrange(k as int, (k + 17) as int) + values.subrange(
        (k + 36) as int,
        (k + 38) as int,
    ) =~= public_statement(attributes, mask, commitment, start, end));
}

// The circuit.

/// A circuit that shows some attributes, a window of time and that predicates
/// are met. What is missing counts as zero.
pub struct MatrixCircuit {
    pub attributes: [Option<Fr>; NUM_ATTRIBUTES],
    pub mask: [bool; NUM_ATTRIBUTES],
    pub blinding: Option<Fr>,
    pub expected_commitment: Option<Fr>,
    pub predicates: [PredicateSlot; MAX_PREDICATES],
    pub window_start: Option<u32>,
    pub window_expires: Option<u32>,
    pub domain_element: Fr,
}

/// A value, or zero where it is missing.
fn or_zero(x: Option<Fr>) -> (r: Fr)
    ensures
        r@ == disclosure::value_or_zero(x),
{
    match x {
        Some(v) => v,
        None => Fr::zero(),
    }
}

pub open spec fn time_or_zero(x: Option<u32>) -> nat {
    match x {
        Some(t) => t as nat,
        None => 0,
    }
}

/// A time as a field element, or zero where it is missing.
fn time_element(x: Option<u32>) -> (r: Fr)
    ensures
        r@ == time_or_zero(x),
{
    match x {
        Some(t) => Fr::from_u64(t as u64),
        None => Fr::zero(),
    }
}

impl MatrixCircuit {
    pub open spec fn attribute_values(self) -> Seq<nat> {
        Seq::new(16, |i: int| disclosure::value_or_zero(self.attributes@[i]))
    }

    /// The values of all variables, in order.
    pub open spec fn values(self) -> Seq<nat> {
        assignment(
            self.attribute_values(),
            self.mask@,
            self.predicates@,
            disclosure::value_or_zero(self.expected_commitment),
            disclosure::value_or_zero(self.blinding),
            time_or_zero(self.window_start),
            time_or_zero(self.window_expires),
        )
    }
}

/// The window, with its ends.
fn window_part(b: &mut Builder, start: Fr, end: Fr)
    ensures
        gates::recorded(*final(b)) == draw_window(gates::recorded(*old(b))),
        gates::assigned(*final(b)) == gates::appended(
            gates::assigned(*old(b)),
            seq![start@, end@, start@, end@],
        ),
{
    let ghost base = gates::assigned(*b);
    let ws = rules::witness_rule(b, start);
    let we = rules::witness_rule(b, end);
    let public_start = rules::input_rule(b, start);
    let public_end = rules::input_rule(b, end);
    proof {
        if let Some(v) = base {
            assert(v + seq![start@] + seq![end@] + seq![start@] + seq![end@] =~= v + seq![
                start@,
                end@,
                start@,
                end@,
            ]);
        }
    }
    b.enforce_equal(ws, public_start);
    b.enforce_equal(we, public_end);
    let delta = b.sub(we, ws);
    proof {
        let h7 = gates::recorded(*b);
        assert(gates::fixed(h7, ws as nat) is None);
        assert(gates::fixed(h7, we as nat) is None);
        assert(gates::fixed(h7, delta as nat) is None);
    }
    range::enforce_positive(b, delta);
}

impl MatrixCircuit {
    /// The attributes, with zero for those that are missing.
    fn known_attributes(&self) -> (r: [Fr; NUM_ATTRIBUTES])
        ensures
            field::values(r@) == self.attribute_values(),
    {
        let mut attrs = [Fr::zero(); NUM_ATTRIBUTES];
        for i in 0..NUM_ATTRIBUTES
            invariant
                forall|j: int|
                    0 <= j < i ==> (#[trigger] attrs@[j])@ == disclosure::value_or_zero(
                        self.attributes@[j],
                    ),
        {
            attrs[i] = or_zero(self.attributes[i]);
        }
        assert(field::values(attrs@) =~= self.attribute_values());
        attrs
    }

    /// The public attributes and the commitment.
    fn public_part(&self, attrs: &[Fr; NUM_ATTRIBUTES]) -> (r: Vec<Fr>)
        ensures
            field::values(r@) == disclosure::shown_values(
                field::values(attrs@),
                self.mask@,
                16,
            ).push(disclosure::value_or_zero(self.expected_commitment)),
    {
        let mut out = disclosure::shown_elements(attrs, &self.mask);
        let ghost shown = out@;
        out.push(or_zero(self.expected_commitment));
        assert(field::values(out@) =~= field::values(shown).push(
            disclosure::value_or_zero(self.expected_commitment),
        ));
        out
    }

    /// Builds the circuit. It never fails.
    pub fn generate_constraints(self, b: Builder) -> (r: Result<Builder, SynthesisError>)
        requires
            slots_placed(self.predicates@),
        ensures
            r matches Ok(c) && {
                &&& gates::recorded(c) == draw_matrix(
                    permutation::standard(),
                    gates::recorded(b),
                    self.mask@,
                    self.predicates@,
                    self.domain_element@,
                )
                &&& gates::assigned(c) == gates::appended(gates::assigned(b), self.values())
            },
    {
        let mut c = b;
        self.extend(&mut c);
        Ok(c)
    }

    /// Builds the circuit behind what is there.
    fn extend(self, b: &mut Builder)
        requires
            slots_placed(self.predicates@),
        ensures
            gates::recorded(*final(b)) == draw_matrix(
                permutation::standard(),
                gates::recorded(*old(b)),
                self.mask@,
                self.predicates@,
                self.domain_element@,
            ),
            gates::assigned(*final(b)) == gates::appended(
                gates::assigned(*old(b)),
                self.values(),
            ),
    {
        let ghost g = gates::recorded(*b);
        let ghost n = g.len();
        let ghost base = gates::assigned(*b);
        let ghost attrs = self.attribute_values();
        let known = self.known_attributes();
        let public = self.public_part(&known);
        assert(field::values(public@).len() == 17);
        let params = PoseidonParams::standard();
        let wires = opening::opening_circuit(
            b,
            &params,
            &self.domain_element,
            &public,
            &known,
            &self.mask,
            or_zero(self.blinding),
        );
        let ghost h1 = gates::recorded(*b);
        let start = time_element(self.window_start);
        let end = time_element(self.window_expires);
        window_part(b, start, end);
        let ghost h2 = gates::recorded(*b);
        let ghost head = head_values(
            attrs,
            self.mask@,
            disclosure::value_or_zero(self.expected_commitment),
            disclosure::value_or_zero(self.blinding),
            start@,
            end@,
        );
        let ghost k = gates::allocations(g);
        let ghost dummy = Seq::new(k + 38 + slots_count(self.predicates@, 8), |i: int| 0nat);
        proof {
            opening::lemma_opening(
                permutation::standard(),
                g,
                17,
                self.mask@,
                self.domain_element@,
                dummy,
            );
            lemma_window(h1, dummy);
            opening::lemma_attributes_kept(h1, h2, dummy, n, 17, self.mask@, k, 16);
            let first = (disclosure::shown_values(attrs, self.mask@, 16).push(
                disclosure::value_or_zero(self.expected_commitment),
            ) + attrs).push(disclosure::value_or_zero(self.blinding));
            let times = seq![start@, end@, start@, end@];
            assert(first + times =~= head);
            if let Some(v) = base {
                assert((v + first) + times =~= v + head);
                assert(v + head =~= v + (head + slots_values(self.predicates@, attrs, 0)));
            }
        }
        for i in 0..MAX_PREDICATES
            invariant
                base == gates::assigned(*old(b)),
                attrs == self.attribute_values(),
                n == g.len(),
                slots_placed(self.predicates@),
                gadgets::wires(wires@) == Seq::new(
                    16,
                    |j: int| opening::attribute_wire(n, 17, self.mask@, j as nat),
                ),
                opening::attributes_carried(h2, dummy, n, 17, self.mask@, k, 16),
                disclosure::all_reduced(dummy),
                dummy.len() == k + 38 + slots_count(self.predicates@, 8),
                gates::allocations(h2) == k + 38,
                gates::recorded(*b) == draw_slots(h2, n, self.mask@, self.predicates@, i as nat),
                gates::assigned(*b) == gates::appended(
                    base,
                    head + slots_values(self.predicates@, attrs, i as nat),
                ),
        {
            let ghost h = gates::recorded(*b);
            let slot = &self.predicates[i];
            let ghost before = slots_values(self.predicates@, attrs, i as nat);
            let ghost x = attrs[slot.attr_index as int];
            proof {
                lemma_slots_count_grows(self.predicates@, i as nat, 8);
                lemma_slots(
                    h2,
                    n,
                    self.mask@,
                    self.predicates@,
                    k,
                    i as nat,
                    dummy,
                );
            }
            if slot.active {
                let attribute = or_zero(self.attributes[slot.attr_index]);
                proof {
                    assert(gadgets::wires(wires@)[slot.attr_index as int] == opening::attribute_wire(
                        n,
                        17,
                        self.mask@,
                        slot.attr_index as nat,
                    ));
                    assert(gadgets::wires(wires@).len() == 16);
                    assert(wires@.len() == 16);
                    assert(opening::carries(
                        h,
                        dummy,
                        opening::attribute_wire(n, 17, self.mask@, slot.attr_index as nat),
                        (k + 17 + slot.attr_index) as int,
                    ));
                }
                slots::slot_circuit(b, wires[slot.attr_index], slot, &attribute);
            }
            proof {
                let mine = slots::slot_values(*slot, x);
                if let Some(v) = base {
                    assert((v + (head + before)) + mine =~= v + (head + (before + mine)));
                    if !slot.active {
                        assert(before + mine =~= before);
                    }
                }
            }
        }
    }
}

proof fn lemma_slots_count_grows(slots: Seq<PredicateSlot>, i: nat, j: nat)
    requires
        i <= j,
    ensures
        slots_count(slots, i) <= slots_count(slots, j),
    decreases j,
{
    if i < j {
        lemma_slots_count_grows(slots, i, (j - 1) as nat);
    }
}

} // verus!
