//! Selective disclosure: a circuit that shows some of sixteen committed
//! attributes and that one of them is at least a threshold.
use crate::field;
use crate::field::Fr;
use crate::gadgets;
use crate::gates;
use crate::gates::{Builder, Gate, SynthesisError};
use crate::permutation;
use crate::permutation::PoseidonParams;
use crate::range;
use vstd::arithmetic::div_mod::*;
use vstd::prelude::*;

verus! {

/// The number of attributes of a credential.
pub const NUM_ATTRIBUTES: usize = 16;

/// The number of hidden attributes before a place.
pub open spec fn hidden_before(mask: Seq<bool>, i: nat) -> nat
    decreases i,
{
    if i == 0 {
        0
    } else {
        hidden_before(mask, (i - 1) as nat) + if mask[i - 1] {
            0nat
        } else {
            1nat
        }
    }
}

proof fn lemma_hidden_before(mask: Seq<bool>, i: nat, j: nat)
    requires
        i <= j,
    ensures
        hidden_before(mask, i) <= hidden_before(mask, j),
        i < j && !mask[i as int] ==> hidden_before(mask, i) < hidden_before(mask, j),
        hidden_before(mask, j) <= j,
    decreases j,
{
    if j > 0 {
        if i < j {
            lemma_hidden_before(mask, i, (j - 1) as nat);
        } else {
            lemma_hidden_before(mask, (i - 1) as nat, (j - 1) as nat);
        }
    }
}

/// The wire of an attribute in a record that began with `n` gates.
pub open spec fn attribute_wire(n: nat, mask: Seq<bool>, i: nat) -> nat {
    if mask[i as int] {
        n + 1 + i
    } else {
        n + 19 + hidden_before(mask, i)
    }
}

/// The wires that the commitment is computed from.
pub open spec fn commitment_wires(n: nat, mask: Seq<bool>) -> Seq<nat> {
    (seq![n] + Seq::new(16, |i: int| attribute_wire(n, mask, i as nat))).push(
        n + 19 + hidden_before(mask, 16),
    )
}

/// The record up to the rule that the commitment is the expected one.
pub open spec fn draw_commitment(
    p: permutation::Schedule,
    g: Seq<Gate>,
    mask: Seq<bool>,
    domain: nat,
) -> Seq<Gate> {
    let public = gates::draw_inputs(g.push(Gate::Constant(domain)), 18);
    let private = gates::draw_witnesses(public, hidden_before(mask, 16) + 1);
    let hashed = gadgets::draw_sponge(p, private, commitment_wires(g.len(), mask));
    hashed.gates.push(Gate::Equal(hashed.out[0], g.len() + 17))
}

/// The record of the rule that the attribute at a wire is at least the
/// threshold at another, by less than a 32-bit difference.
pub open spec fn draw_at_least(g: Seq<Gate>, age: nat, threshold: nat) -> Seq<Gate> {
    let delta = gates::draw_witnesses(g, 1);
    let sum = delta.push(Gate::Add(threshold, g.len()));
    range::draw_low(sum.push(Gate::Equal(age, delta.len())), g.len())
}

/// The record of the whole circuit.
pub open spec fn draw_disclosure(
    p: permutation::Schedule,
    g: Seq<Gate>,
    mask: Seq<bool>,
    age_index: nat,
    domain: nat,
) -> Seq<Gate> {
    let committed = draw_commitment(p, g, mask, domain);
    if age_index < 16 {
        draw_at_least(committed, attribute_wire(g.len(), mask, age_index), g.len() + 18)
    } else {
        committed
    }
}

/// The number of variables of the circuit.
pub open spec fn variable_count(mask: Seq<bool>, age_index: nat) -> nat {
    19 + hidden_before(mask, 16) + if age_index < 16 {
        1nat
    } else {
        0nat
    }
}

/// An attribute among the values of the variables from `k` on.
pub open spec fn attribute_at(mask: Seq<bool>, values: Seq<nat>, k: nat, i: nat) -> nat {
    if mask[i as int] {
        values[(k + i) as int]
    } else {
        values[(k + 18 + hidden_before(mask, i)) as int]
    }
}

/// What the commitment is computed from, among the values from `k` on.
pub open spec fn opening_at(mask: Seq<bool>, domain: nat, values: Seq<nat>, k: nat) -> Seq<nat> {
    (seq![domain] + Seq::new(16, |i: int| attribute_at(mask, values, k, i as nat))).push(
        values[(k + 18 + hidden_before(mask, 16)) as int],
    )
}

/// What the circuit states of the values of its variables, which begin at `k`:
/// the attributes, shown or hidden, with the blinding have the public
/// commitment, and the attribute at the index exceeds the public threshold by a
/// difference of 32 bits.
pub open spec fn disclosed(
    p: permutation::Schedule,
    mask: Seq<bool>,
    age_index: nat,
    domain: nat,
    values: Seq<nat>,
    k: nat,
) -> bool {
    &&& permutation::sponge(p, opening_at(mask, domain, values, k)) == values[(k + 16) as int]
    &&& age_index < 16 ==> {
        let delta = values[(k + 19 + hidden_before(mask, 16)) as int];
        &&& delta < range::width_bound()
        &&& attribute_at(mask, values, k, age_index) == field::fadd(
            values[(k + 17) as int],
            delta,
        )
    }
}

/// Values below the modulus.
pub open spec fn all_reduced(values: Seq<nat>) -> bool {
    forall|i: int| 0 <= i < values.len() ==> #[trigger] values[i] < field::modulus()
}

proof fn lemma_draw_commitment(
    p: permutation::Schedule,
    g: Seq<Gate>,
    mask: Seq<bool>,
    domain: nat,
    values: Seq<nat>,
)
    requires
        mask.len() == 16,
        gates::allocations(g) + 19 + hidden_before(mask, 16) <= values.len(),
    ensures
        ({
            let h = draw_commitment(p, g, mask, domain);
            let k = gates::allocations(g);
            &&& gates::continues(g, h)
            &&& gates::allocations(h) == k + 19 + hidden_before(mask, 16)
            &&& gates::public_values(h, values) == gates::public_values(g, values)
                + values.subrange(k as int, (k + 18) as int)
            &&& gates::holds(h, values) <==> gates::holds(g, values) && permutation::sponge(
                p,
                opening_at(mask, domain, values, k),
            ) == values[(k + 16) as int]
            &&& gates::is_field(h, g.len() + 18)
            &&& gates::wire(h, values, g.len() + 18) == values[(k + 17) as int]
            &&& forall|i: nat|
                i < 16 ==> {
                    &&& gates::is_field(h, #[trigger] attribute_wire(g.len(), mask, i))
                    &&& gates::fixed(h, attribute_wire(g.len(), mask, i)) is None
                    &&& gates::wire(h, values, attribute_wire(g.len(), mask, i)) == attribute_at(
                        mask,
                        values,
                        k,
                        i,
                    )
                }
        }),
{
    let n = g.len();
    let k = gates::allocations(g);
    let hidden = hidden_before(mask, 16);
    let g0 = g.push(Gate::Constant(domain));
    gates::lemma_push(g, Gate::Constant(domain), values);
    gadgets::lemma_constant(g, domain, values);
    gates::lemma_computes(g, g0, values);
    let g1 = gates::draw_inputs(g0, 18);
    gates::lemma_draw_inputs(g0, 18, values);
    let g2 = gates::draw_witnesses(g1, hidden + 1);
    gates::lemma_draw_witnesses(g1, hidden + 1, values);
    gates::lemma_continues_trans(g0, g1, g2);
    let inputs = commitment_wires(n, mask);
    gates::lemma_wire_kept(g0, g2, values, n);
    assert forall|i: nat| i < 18 implies {
        &&& gates::is_field(g2, #[trigger] (n + 1 + i))
        &&& gates::fixed(g2, n + 1 + i) is None
        &&& gates::wire(g2, values, n + 1 + i) == values[(k + i) as int]
    } by {
        assert(gates::is_field(g1, g0.len() + i));
        gates::lemma_wire_kept(g1, g2, values, g0.len() + i);
    }
    assert forall|i: nat| i <= hidden implies {
        &&& gates::is_field(g2, #[trigger] (n + 19 + i))
        &&& gates::fixed(g2, n + 19 + i) is None
        &&& gates::wire(g2, values, n + 19 + i) == values[(k + 18 + i) as int]
    } by {
        assert(gates::is_field(g2, g1.len() + i));
    }
    assert forall|i: nat| i < 16 implies {
        &&& gates::is_field(g2, #[trigger] attribute_wire(n, mask, i))
        &&& gates::fixed(g2, attribute_wire(n, mask, i)) is None
        &&& gates::wire(g2, values, attribute_wire(n, mask, i)) == attribute_at(mask, values, k, i)
    } by {
        lemma_hidden_before(mask, i, 16);
        if mask[i as int] {
            assert(gates::is_field(g2, n + 1 + i));
        } else {
            assert(gates::is_field(g2, n + 19 + hidden_before(mask, i)));
        }
    }
    assert(gates::is_field(g2, n + 19 + hidden));
    assert forall|i: int| 0 <= i < inputs.len() implies gates::is_field(g2, #[trigger] inputs[i]) by {
        if 0 < i < 17 {
            assert(inputs[i] == attribute_wire(n, mask, (i - 1) as nat));
        }
    }
    assert(gadgets::reads(g2, values, inputs) =~= opening_at(mask, domain, values, k)) by {
        assert forall|i: int| 0 <= i < 18 implies #[trigger] gadgets::reads(
            g2,
            values,
            inputs,
        )[i] == opening_at(mask, domain, values, k)[i] by {
            if 0 < i < 17 {
                assert(inputs[i] == attribute_wire(n, mask, (i - 1) as nat));
            }
        }
    }
    let d = gadgets::draw_sponge(p, g2, inputs);
    gadgets::lemma_draw_sponge(p, g2, inputs, values);
    gates::lemma_computes(g2, d.gates, values);
    assert(gates::is_field(g2, n + 1 + 16));
    assert(gates::is_field(g2, n + 1 + 17));
    gates::lemma_wire_kept(g2, d.gates, values, n + 17);
    let h = d.gates.push(Gate::Equal(d.out[0], n + 17));
    gates::lemma_equal(d.gates, d.out[0], n + 17, values);
    gates::lemma_push(d.gates, Gate::Equal(d.out[0], n + 17), values);
    gates::lemma_continues_trans(g2, d.gates, h);
    gates::lemma_continues_trans(g, g0, g2);
    gates::lemma_continues_trans(g, g2, h);
    gates::lemma_wire_kept(g2, h, values, n + 18);
    assert forall|i: nat| i < 16 implies {
        &&& gates::is_field(h, #[trigger] attribute_wire(n, mask, i))
        &&& gates::fixed(h, attribute_wire(n, mask, i)) is None
        &&& gates::wire(h, values, attribute_wire(n, mask, i)) == attribute_at(mask, values, k, i)
    } by {
        assert(gates::is_field(g2, attribute_wire(n, mask, i)));
        gates::lemma_wire_kept(g2, h, values, attribute_wire(n, mask, i));
    }
}

proof fn lemma_draw_at_least(
    g: Seq<Gate>,
    age: nat,
    threshold: nat,
    values: Seq<nat>,
)
    requires
        gates::is_field(g, age),
        gates::is_field(g, threshold),
        gates::fixed(g, age) is None,
        gates::allocations(g) < values.len(),
        all_reduced(values),
    ensures
        ({
            let h = draw_at_least(g, age, threshold);
            let delta = values[gates::allocations(g) as int];
            &&& gates::continues(g, h)
            &&& gates::allocations(h) == gates::allocations(g) + 1
            &&& gates::public_values(h, values) == gates::public_values(g, values)
            &&& gates::holds(h, values) <==> {
                &&& gates::holds(g, values)
                &&& delta < range::width_bound()
                &&& gates::wire(g, values, age) == field::fadd(
                    gates::wire(g, values, threshold),
                    delta,
                )
            }
        }),
{
    let n = g.len();
    let g1 = gates::draw_witnesses(g, 1);
    gates::lemma_draw_witnesses(g, 1, values);
    assert(gates::is_field(g1, n + 0));
    let g2 = g1.push(Gate::Add(threshold, n));
    gates::lemma_wire_kept(g, g1, values, threshold);
    gates::lemma_wire_kept(g, g1, values, age);
    gadgets::lemma_add(g1, threshold, n, values);
    gates::lemma_computes(g1, g2, values);
    gates::lemma_wire_kept(g1, g2, values, age);
    gates::lemma_wire_kept(g1, g2, values, n);
    let g3 = g2.push(Gate::Equal(age, g1.len()));
    gates::lemma_equal(g2, age, g1.len(), values);
    gates::lemma_push(g2, Gate::Equal(age, g1.len()), values);
    gates::lemma_wire_kept(g2, g3, values, n);
    range::lemma_draw_low(g3, n, values);
    gates::lemma_continues_trans(g, g1, g2);
    gates::lemma_continues_trans(g, g2, g3);
    gates::lemma_continues_trans(g, g3, draw_at_least(g, age, threshold));
}

/// Values for the variables satisfy the circuit exactly when they disclose
/// what it states.
pub proof fn lemma_disclosure(
    p: permutation::Schedule,
    g: Seq<Gate>,
    mask: Seq<bool>,
    age_index: nat,
    domain: nat,
    values: Seq<nat>,
)
    requires
        mask.len() == 16,
        gates::allocations(g) + variable_count(mask, age_index) <= values.len(),
        all_reduced(values),
    ensures
        ({
            let h = draw_disclosure(p, g, mask, age_index, domain);
            let k = gates::allocations(g);
            &&& gates::continues(g, h)
            &&& gates::allocations(h) == k + variable_count(mask, age_index)
            &&& gates::public_values(h, values) == gates::public_values(g, values)
                + values.subrange(k as int, (k + 18) as int)
            &&& gates::holds(h, values) <==> gates::holds(g, values) && disclosed(
                p,
                mask,
                age_index,
                domain,
                values,
                k,
            )
        }),
{
    let committed = draw_commitment(p, g, mask, domain);
    lemma_draw_commitment(p, g, mask, domain, values);
    if age_index < 16 {
        let age = attribute_wire(g.len(), mask, age_index);
        assert(gates::is_field(committed, age));
        lemma_draw_at_least(committed, age, g.len() + 18, values);
        gates::lemma_continues_trans(g, committed, draw_at_least(committed, age, g.len() + 18));
    }
}

// The values that an honest prover gives the variables.

pub open spec fn value_or_zero(x: Option<Fr>) -> nat {
    match x {
        Some(v) => v@,
        None => 0,
    }
}

/// The attributes that a mask shows, with zero for the others.
pub open spec fn shown_values(attributes: Seq<nat>, mask: Seq<bool>, count: nat) -> Seq<nat> {
    Seq::new(
        count,
        |i: int|
            if mask[i] {
                attributes[i]
            } else {
                0
            },
    )
}

/// The attributes that a mask shows, with zero for the others.
pub(crate) fn shown_elements(attrs: &[Fr; NUM_ATTRIBUTES], mask: &[bool; NUM_ATTRIBUTES]) -> (r:
    Vec<Fr>)
    ensures
        field::values(r@) == shown_values(field::values(attrs@), mask@, 16),
{
    let mut out: Vec<Fr> = Vec::new();
    let ghost all = shown_values(field::values(attrs@), mask@, 16);
    assert(field::values(out@) =~= all.take(0));
    for i in 0..NUM_ATTRIBUTES
        invariant
            all == shown_values(field::values(attrs@), mask@, 16),
            field::values(out@) == all.take(i as int),
    {
        let ghost before = out@;
        out.push(
            if mask[i] {
                attrs[i]
            } else {
                Fr::zero()
            },
        );
        assert(field::values(out@) =~= field::values(before).push(all[i as int]));
        assert(all.take(i + 1) =~= all.take(i as int).push(all[i as int]));
    }
    assert(all.take(16) =~= all);
    out
}

/// The attributes among the first `i` that a mask hides.
pub open spec fn hidden_values(attributes: Seq<nat>, mask: Seq<bool>, i: nat) -> Seq<nat>
    decreases i,
{
    if i == 0 {
        Seq::empty()
    } else if mask[i - 1] {
        hidden_values(attributes, mask, (i - 1) as nat)
    } else {
        hidden_values(attributes, mask, (i - 1) as nat).push(attributes[i - 1])
    }
}

proof fn lemma_hidden_values(attributes: Seq<nat>, mask: Seq<bool>, i: nat, j: nat)
    requires
        i < j,
        !mask[i as int],
    ensures
        hidden_values(attributes, mask, j).len() == hidden_before(mask, j),
        hidden_before(mask, i) < hidden_before(mask, j),
        hidden_values(attributes, mask, j)[hidden_before(mask, i) as int] == attributes[i as int],
    decreases j,
{
    lemma_hidden_len(attributes, mask, j);
    lemma_hidden_len(attributes, mask, (j - 1) as nat);
    if i < j - 1 {
        lemma_hidden_values(attributes, mask, i, (j - 1) as nat);
    }
}

proof fn lemma_hidden_len(attributes: Seq<nat>, mask: Seq<bool>, j: nat)
    ensures
        hidden_values(attributes, mask, j).len() == hidden_before(mask, j),
    decreases j,
{
    if j > 0 {
        lemma_hidden_len(attributes, mask, (j - 1) as nat);
    }
}

/// By how much one number exceeds another, or zero.
pub open spec fn excess(a: nat, b: nat) -> nat {
    if a >= b {
        (a - b) as nat
    } else {
        0
    }
}

/// The values of all variables of the circuit, in order.
pub open spec fn assignment(
    attributes: Seq<nat>,
    mask: Seq<bool>,
    commitment: nat,
    threshold: nat,
    blinding: nat,
    age_index: nat,
) -> Seq<nat> {
    let first = (shown_values(attributes, mask, 16).push(commitment).push(threshold)
        + hidden_values(attributes, mask, 16)).push(blinding);
    if age_index < 16 {
        first.push(excess(attributes[age_index as int], threshold))
    } else {
        first
    }
}

/// The public values: the shown attributes, the commitment and the threshold.
pub open spec fn public_statement(
    attributes: Seq<nat>,
    mask: Seq<bool>,
    commitment: nat,
    threshold: nat,
) -> Seq<nat> {
    shown_values(attributes, mask, 16).push(commitment).push(threshold)
}

/// A domain element, attributes and blinding, as the commitment takes them.
pub open spec fn opening(domain: nat, attributes: Seq<nat>, blinding: nat) -> Seq<nat> {
    (seq![domain] + attributes).push(blinding)
}

/// What an honest prover needs: the commitment opens to the attributes and the
/// blinding, and the attribute at the index is at least the threshold, by a
/// difference of 32 bits.
pub open spec fn provable(
    p: permutation::Schedule,
    attributes: Seq<nat>,
    blinding: nat,
    commitment: nat,
    threshold: nat,
    age_index: nat,
    domain: nat,
) -> bool {
    &&& permutation::sponge(p, opening(domain, attributes, blinding)) == commitment
    &&& age_index < 16 ==> {
        &&& threshold <= attributes[age_index as int]
        &&& attributes[age_index as int] - threshold < range::width_bound()
    }
}

/// The honest values satisfy the circuit exactly when the statement is provable
/// and show the public statement.
pub proof fn lemma_assignment(
    p: permutation::Schedule,
    g: Seq<Gate>,
    before: Seq<nat>,
    attributes: Seq<nat>,
    mask: Seq<bool>,
    commitment: nat,
    threshold: nat,
    blinding: nat,
    age_index: nat,
    domain: nat,
)
    requires
        mask.len() == 16,
        attributes.len() == 16,
        all_reduced(attributes),
        all_reduced(before),
        commitment < field::modulus(),
        threshold < field::modulus(),
        blinding < field::modulus(),
        gates::allocations(g) == before.len(),
    ensures
        ({
            let values = before + assignment(
                attributes,
                mask,
                commitment,
                threshold,
                blinding,
                age_index,
            );
            let h = draw_disclosure(p, g, mask, age_index, domain);
            &&& all_reduced(values)
            &&& gates::allocations(h) == values.len()
            &&& gates::holds(h, values) <==> gates::holds(g, values) && provable(
                p,
                attributes,
                blinding,
                commitment,
                threshold,
                age_index,
                domain,
            )
            &&& gates::public_values(h, values) == gates::public_values(g, values)
                + public_statement(attributes, mask, commitment, threshold)
        }),
{
    let k = before.len();
    let hidden = hidden_before(mask, 16);
    let own = assignment(attributes, mask, commitment, threshold, blinding, age_index);
    let values = before + own;
    lemma_hidden_len(attributes, mask, 16);
    lemma_hidden_reduced(attributes, mask, 16);
    assert(own.len() == variable_count(mask, age_index));
    assert forall|i: int| 0 <= i < values.len() implies #[trigger] values[i] < field::modulus() by {
        if i < k {
            assert(values[i] == before[i]);
        } else {
            let j = i - k;
            assert(values[i] == own[j]);
            if 18 <= j < 18 + hidden {
                assert(own[j] == hidden_values(attributes, mask, 16)[j - 18]);
            }
        }
    }
    lemma_disclosure(p, g, mask, age_index, domain, values);
    assert forall|i: nat| i < 16 implies #[trigger] attribute_at(mask, values, k, i)
        == attributes[i as int] by {
        if mask[i as int] {
            assert(values[(k + i) as int] == own[i as int]);
        } else {
            lemma_hidden_values(attributes, mask, i, 16);
            assert(values[(k + 18 + hidden_before(mask, i)) as int] == own[(18 + hidden_before(
                mask,
                i,
            )) as int]);
        }
    }
    assert(values[(k + 16) as int] == own[16]);
    assert(values[(k + 17) as int] == own[17]);
    assert(values[(k + 18 + hidden) as int] == own[(18 + hidden) as int]);
    assert(opening_at(mask, domain, values, k) =~= opening(domain, attributes, blinding)) by {
        assert forall|i: int| 0 <= i < 18 implies #[trigger] opening_at(mask, domain, values, k)[i]
            == opening(domain, attributes, blinding)[i] by {
            if 0 < i < 17 {
                assert(attribute_at(mask, values, k, (i - 1) as nat) == attributes[i - 1]);
            }
        }
    }
    if age_index < 16 {
        let a = attributes[age_index as int];
        assert(values[(k + 19 + hidden) as int] == own[(19 + hidden) as int]);
        assert(attribute_at(mask, values, k, age_index) == a);
        lemma_small_mod(threshold, field::modulus());
        if a >= threshold {
            lemma_small_mod(a, field::modulus());
        }
    }
    assert(values.subrange(k as int, (k + 18) as int) =~= public_statement(
        attributes,
        mask,
        commitment,
        threshold,
    ));
}

proof fn lemma_hidden_reduced(attributes: Seq<nat>, mask: Seq<bool>, i: nat)
    requires
        i <= attributes.len(),
        all_reduced(attributes),
    ensures
        all_reduced(hidden_values(attributes, mask, i)),
    decreases i,
{
    if i > 0 {
        lemma_hidden_reduced(attributes, mask, (i - 1) as nat);
    }
}

// The circuit.

/// A circuit that discloses some attributes selectively. Values are missing
/// where only the shape of the circuit is asked for.
pub struct SelectiveDisclosureCircuit {
    pub attributes: [Option<Fr>; NUM_ATTRIBUTES],
    pub mask: [bool; NUM_ATTRIBUTES],
    pub blinding: Option<Fr>,
    pub expected_commitment: Option<Fr>,
    pub age_threshold: Option<Fr>,
    pub age_index: usize,
    pub domain_element: Fr,
}

impl SelectiveDisclosureCircuit {
    /// Whether no value is missing.
    pub open spec fn complete(self) -> bool {
        &&& forall|i: int| 0 <= i < 16 ==> (#[trigger] self.attributes@[i]) is Some
        &&& self.blinding is Some
        &&& self.expected_commitment is Some
        &&& self.age_threshold is Some
    }

    pub open spec fn attribute_values(self) -> Seq<nat> {
        Seq::new(16, |i: int| value_or_zero(self.attributes@[i]))
    }

    /// The values of all variables, in order.
    pub open spec fn values(self) -> Seq<nat> {
        assignment(
            self.attribute_values(),
            self.mask@,
            value_or_zero(self.expected_commitment),
            value_or_zero(self.age_threshold),
            value_or_zero(self.blinding),
            self.age_index as nat,
        )
    }

    fn is_complete(&self) -> (r: bool)
        ensures
            r == self.complete(),
    {
        for i in 0..NUM_ATTRIBUTES
            invariant
                forall|j: int| 0 <= j < i ==> (#[trigger] self.attributes@[j]) is Some,
        {
            if self.attributes[i].is_none() {
                assert(self.attributes@[i as int] is None);
                return false;
            }
        }
        self.blinding.is_some() && self.expected_commitment.is_some()
            && self.age_threshold.is_some()
    }

    /// Builds the circuit. It fails exactly when values are asked for and one is
    /// missing, and then there is no circuit to go on with.
    pub fn generate_constraints(self, b: Builder) -> (r: Result<Builder, SynthesisError>)
        ensures
            r is Ok <==> (gates::assigned(b) is None || self.complete()),
            r matches Err(e) ==> e == SynthesisError::AssignmentMissing,
            r matches Ok(c) ==> {
                &&& gates::recorded(c) == draw_disclosure(
                    permutation::standard(),
                    gates::recorded(b),
                    self.mask@,
                    self.age_index as nat,
                    self.domain_element@,
                )
                &&& gates::assigned(c) == gates::appended(gates::assigned(b), self.values())
            },
    {
        if !b.in_setup() && !self.is_complete() {
            return Err(SynthesisError::AssignmentMissing);
        }
        let mut c = b;
        self.extend(&mut c);
        Ok(c)
    }

    /// Builds the circuit behind what is there.
    fn extend(self, b: &mut Builder)
        requires
            gates::assigned(*old(b)) is None || self.complete(),
        ensures
            gates::recorded(*final(b)) == draw_disclosure(
                permutation::standard(),
                gates::recorded(*old(b)),
                self.mask@,
                self.age_index as nat,
                self.domain_element@,
            ),
            gates::assigned(*final(b)) == gates::appended(
                gates::assigned(*old(b)),
                self.values(),
            ),
    {
        let ghost g = gates::recorded(*b);
        let ghost base = gates::assigned(*b);
        let ghost attrs = self.attribute_values();
        let ghost n = g.len();
        let domain = b.constant(&self.domain_element);
        let ghost g0 = gates::recorded(*b);
        proof {
            assert(gates::draw_inputs(g0, 0) =~= g0);
            assert(gates::appended(base, shown_values(attrs, self.mask@, 0)) == base) by {
                if let Some(v) = base {
                    assert(v + shown_values(attrs, self.mask@, 0) =~= v);
                }
            }
        }

        let mut revealed: Vec<usize> = Vec::new();
        for i in 0..NUM_ATTRIBUTES
            invariant
                attrs == self.attribute_values(),
                base == gates::assigned(*old(b)),
                g0.len() == n + 1,
                gates::recorded(*b) == gates::draw_inputs(g0, i as nat),
                revealed@.len() == i,
                forall|j: int| 0 <= j < i ==> #[trigger] revealed@[j] == n + 1 + j,
                base is None || self.complete(),
                gates::assigned(*b) == gates::appended(
                    base,
                    shown_values(attrs, self.mask@, i as nat),
                ),
        {
            let value = if self.mask[i] {
                self.attributes[i]
            } else {
                Some(Fr::zero())
            };
            assert(self.complete() ==> self.attributes@[i as int] is Some);
            revealed.push(b.new_input(value));
            proof {
                gates::lemma_inputs_step(g0, i as nat);
                if let Some(v) = base {
                    assert(v + shown_values(attrs, self.mask@, (i + 1) as nat) =~= (v
                        + shown_values(attrs, self.mask@, i as nat)).push(value->0@));
                }
            }
        }
        let ghost shown = shown_values(attrs, self.mask@, 16);

        let commitment = b.new_input(self.expected_commitment);
        let threshold = b.new_input(self.age_threshold);
        let ghost c = value_or_zero(self.expected_commitment);
        let ghost t = value_or_zero(self.age_threshold);
        let ghost public = shown.push(c).push(t);
        let ghost g1 = gates::draw_inputs(g0, 18);
        proof {
            gates::lemma_inputs_step(g0, 16);
            gates::lemma_inputs_step(g0, 17);
            assert(gates::recorded(*b) == g1);
            if let Some(v) = base {
                assert((v + shown).push(c).push(t) =~= v + public);
                assert(v + public =~= v + (public + hidden_values(attrs, self.mask@, 0)));
            }
            assert(gates::assigned(*b) == gates::appended(base, public));
            assert(gates::draw_witnesses(g1, 0) =~= g1);
        }

        let mut hidden: Vec<usize> = Vec::new();
        for i in 0..NUM_ATTRIBUTES
            invariant
                attrs == self.attribute_values(),
                base == gates::assigned(*old(b)),
                public.len() == 18,
                g1.len() == n + 19,
                gates::recorded(*b) == gates::draw_witnesses(
                    g1,
                    hidden_before(self.mask@, i as nat),
                ),
                hidden@.len() == hidden_before(self.mask@, i as nat),
                forall|j: int| 0 <= j < hidden@.len() ==> #[trigger] hidden@[j] == n + 19 + j,
                base is None || self.complete(),
                gates::assigned(*b) == gates::appended(
                    base,
                    public + hidden_values(attrs, self.mask@, i as nat),
                ),
        {
            if !self.mask[i] {
                assert(self.complete() ==> self.attributes@[i as int] is Some);
                hidden.push(b.new_witness(self.attributes[i]));
                proof {
                    gates::lemma_witnesses_step(g1, hidden_before(self.mask@, i as nat));
                    if let Some(v) = base {
                        let before = hidden_values(attrs, self.mask@, i as nat);
                        assert((v + (public + before)).push(attrs[i as int]) =~= v + (public
                            + before.push(attrs[i as int])));
                    }
                }
            }
        }
        let ghost count = hidden_before(self.mask@, 16);
        let ghost known = public + hidden_values(attrs, self.mask@, 16);

        let blinding = b.new_witness(self.blinding);
        let ghost g2 = gates::draw_witnesses(g1, count + 1);
        proof {
            gates::lemma_witnesses_step(g1, count);
            if let Some(v) = base {
                assert((v + known).push(value_or_zero(self.blinding)) =~= v + known.push(
                    value_or_zero(self.blinding),
                ));
            }
        }

        let mut hash_inputs: Vec<usize> = Vec::new();
        hash_inputs.push(domain);
        let mut hidden_idx: usize = 0;
        let mut age: Option<usize> = None;
        for i in 0..NUM_ATTRIBUTES
            invariant
                revealed@.len() == 16,
                hidden@.len() == hidden_before(self.mask@, 16),
                forall|j: int| 0 <= j < 16 ==> #[trigger] revealed@[j] == n + 1 + j,
                forall|j: int| 0 <= j < hidden@.len() ==> #[trigger] hidden@[j] == n + 19 + j,
                hidden_idx == hidden_before(self.mask@, i as nat),
                domain == n,
                gadgets::wires(hash_inputs@) == seq![n] + Seq::new(
                    i as nat,
                    |j: int| attribute_wire(n, self.mask@, j as nat),
                ),
                age == if self.age_index < i {
                    Some(attribute_wire(n, self.mask@, self.age_index as nat) as usize)
                } else {
                    None
                },
                self.age_index < i ==> attribute_wire(n, self.mask@, self.age_index as nat)
                    <= usize::MAX,
        {
            proof {
                lemma_hidden_before(self.mask@, i as nat, 16);
            }
            let w = if self.mask[i] {
                revealed[i]
            } else {
                let v = hidden[hidden_idx];
                hidden_idx += 1;
                v
            };
            assert(w == attribute_wire(n, self.mask@, i as nat));
            if i == self.age_index {
                age = Some(w);
            }
            let ghost before = hash_inputs@;
            hash_inputs.push(w);
            proof {
                assert(gadgets::wires(hash_inputs@) =~= gadgets::wires(before).push(w as nat));
                assert(seq![n] + Seq::new(
                    (i + 1) as nat,
                    |j: int| attribute_wire(n, self.mask@, j as nat),
                ) =~= (seq![n] + Seq::new(
                    i as nat,
                    |j: int| attribute_wire(n, self.mask@, j as nat),
                )).push(attribute_wire(n, self.mask@, i as nat)));
            }
        }
        hash_inputs.push(blinding);
        let ghost inputs = commitment_wires(n, self.mask@);
        assert(gadgets::wires(hash_inputs@) =~= inputs);
        let ghost dummy = Seq::new(
            gates::allocations(g) + 19 + count,
            |i: int| 0nat,
        );
        proof {
            lemma_draw_commitment(
                permutation::standard(),
                g,
                self.mask@,
                self.domain_element@,
                dummy,
            );
            lemma_commitment_wires(g, self.mask@, self.domain_element@, dummy);
        }
        let params = PoseidonParams::standard();
        let computed = gadgets::sponge_circuit(b, &hash_inputs, &params);
        proof {
            gadgets::lemma_draw_sponge(permutation::standard(), g2, inputs, dummy);
        }
        b.enforce_equal(computed, commitment);
        let ghost committed = gates::recorded(*b);
        assert(committed == draw_commitment(
            permutation::standard(),
            g,
            self.mask@,
            self.domain_element@,
        ));

        if let Some(age_wire) = age {
            assert(gates::is_field(
                committed,
                attribute_wire(n, self.mask@, self.age_index as nat),
            ));
            let delta_value = match (self.attributes[self.age_index], self.age_threshold) {
                (Some(a), Some(t)) => if a.less_than(&t) {
                    Some(Fr::zero())
                } else {
                    Some(a.minus(t))
                },
                _ => None,
            };
            assert(self.complete() ==> self.attributes@[self.age_index as int] is Some);
            let delta = b.new_witness(delta_value);
            proof {
                broadcast use field::lemma_fr_bound;

                assert(gates::draw_witnesses(committed, 0) =~= committed);
                gates::lemma_witnesses_step(committed, 0);
                if base is Some {
                    let a = attrs[self.age_index as int];
                    if a >= t {
                        lemma_small_mod((a - t) as nat, field::modulus());
                    }
                    assert(delta_value->0@ == excess(a, t));
                    let v = base->0;
                    let all = known.push(value_or_zero(self.blinding));
                    assert((v + all).push(excess(a, t)) =~= v + all.push(excess(a, t)));
                }
            }
            let sum = b.add(threshold, delta);
            b.enforce_equal(age_wire, sum);
            match range::enforce_low(b, delta) {
                Ok(_) => {},
                Err(_) => {
                    assert(false);
                },
            }
        }
    }
}

proof fn lemma_commitment_wires(g: Seq<Gate>, mask: Seq<bool>, domain: nat, values: Seq<nat>)
    requires
        mask.len() == 16,
        gates::allocations(g) + 19 + hidden_before(mask, 16) <= values.len(),
    ensures
        ({
            let public = gates::draw_inputs(g.push(Gate::Constant(domain)), 18);
            let private = gates::draw_witnesses(public, hidden_before(mask, 16) + 1);
            &&& gadgets::all_fields(private, commitment_wires(g.len(), mask))
            &&& gates::is_field(private, g.len() + 17)
            &&& gates::is_field(private, g.len() + 18)
        }),
{
    let n = g.len();
    let hidden = hidden_before(mask, 16);
    let g0 = g.push(Gate::Constant(domain));
    gates::lemma_push(g, Gate::Constant(domain), values);
    let g1 = gates::draw_inputs(g0, 18);
    gates::lemma_draw_inputs(g0, 18, values);
    let g2 = gates::draw_witnesses(g1, hidden + 1);
    gates::lemma_draw_witnesses(g1, hidden + 1, values);
    let inputs = commitment_wires(n, mask);
    assert(g2[n as int] == g0[n as int]);
    assert forall|i: int| 0 <= i < inputs.len() implies gates::is_field(g2, #[trigger] inputs[i]) by {
        if 0 < i < 17 {
            let j = (i - 1) as nat;
            assert(inputs[i] == attribute_wire(n, mask, j));
            lemma_hidden_before(mask, j, 16);
            if mask[j as int] {
                assert(gates::is_field(g1, g0.len() + j));
            } else {
                assert(gates::is_field(g2, g1.len() + hidden_before(mask, j)));
            }
        } else if i == 17 {
            assert(gates::is_field(g2, g1.len() + hidden));
        }
    }
    assert(gates::is_field(g1, g0.len() + 16));
    assert(gates::is_field(g1, g0.len() + 17));
}

} // verus!
