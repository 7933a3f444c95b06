//! Conditions on attributes, as circuits.
use crate::comparison;
use crate::disclosure;
use crate::field;
use crate::field::Fr;
use crate::gadgets;
use crate::gates;
use crate::gates::{Builder, Gate, SynthesisError};
use crate::membership;
use crate::policy::types::Predicate;
use crate::range;
use crate::rules;
use vstd::prelude::*;

verus! {

/// Sixteen wires that are not constant.
pub open spec fn free(g: Seq<Gate>, wires: Seq<nat>) -> bool {
    &&& wires.len() == 16
    &&& forall|i: int|
        0 <= i < 16 ==> gates::is_field(g, #[trigger] wires[i]) && gates::fixed(g, wires[i]) is None
}

/// Sixteen wires that carry the attributes.
pub open spec fn carried(
    g: Seq<Gate>,
    values: Seq<nat>,
    wires: Seq<nat>,
    attrs: Seq<nat>,
) -> bool {
    &&& free(g, wires)
    &&& attrs.len() == 16
    &&& forall|i: int| 0 <= i < 16 ==> gates::wire(g, values, #[trigger] wires[i]) == attrs[i]
}

pub proof fn lemma_free_kept(g: Seq<Gate>, h: Seq<Gate>, wires: Seq<nat>)
    requires
        gates::continues(g, h),
        free(g, wires),
    ensures
        free(h, wires),
{
    assert forall|i: int| 0 <= i < 16 implies gates::is_field(h, #[trigger] wires[i])
        && gates::fixed(h, wires[i]) is None by {
        gates::lemma_wire_kept(g, h, Seq::empty(), wires[i]);
    }
}

pub proof fn lemma_carried_kept(
    g: Seq<Gate>,
    h: Seq<Gate>,
    values: Seq<nat>,
    wires: Seq<nat>,
    attrs: Seq<nat>,
)
    requires
        gates::continues(g, h),
        carried(g, values, wires, attrs),
    ensures
        carried(h, values, wires, attrs),
{
    lemma_free_kept(g, h, wires);
    assert forall|i: int| 0 <= i < 16 implies gates::wire(h, values, #[trigger] wires[i])
        == attrs[i] by {
        gates::lemma_wire_kept(g, h, values, wires[i]);
    }
}

/// Why no circuit can be built for a predicate: a bound does not fit 32 bits, or
/// nothing could meet it.
pub open spec fn refusal(p: Predicate) -> Option<SynthesisError> {
    match p {
        Predicate::Gte(t) => if t < range::width_bound() {
            None
        } else {
            Some(SynthesisError::AssignmentMissing)
        },
        Predicate::Eq(_) => None,
        Predicate::InSet(members) => if members@.len() > 0 {
            None
        } else {
            Some(SynthesisError::Unsatisfiable)
        },
        Predicate::Range(min, max) => if min < range::width_bound() && max < range::width_bound() {
            None
        } else {
            Some(SynthesisError::AssignmentMissing)
        },
        Predicate::Lt(t) => if 0 < t < range::width_bound() {
            None
        } else {
            Some(SynthesisError::AssignmentMissing)
        },
        Predicate::Neq(_) => None,
    }
}

/// Whether the attributes meet a predicate. Values that are compared have at
/// most 32 bits.
pub open spec fn met(p: Predicate, attrs: Seq<nat>) -> bool {
    match p {
        Predicate::Gte(t) => t <= attrs[8] < range::width_bound(),
        Predicate::Eq(v) => attrs[9] == v@,
        Predicate::InSet(members) => field::values(members@).contains(attrs[10]),
        Predicate::Range(min, max) => min <= attrs[11] <= max && max < range::width_bound(),
        Predicate::Lt(t) => attrs[12] < t && t < range::width_bound(),
        Predicate::Neq(v) => attrs[13] != v@,
    }
}

/// The record of the rule that a product of differences is zero.
pub open spec fn draw_member(g: Seq<Gate>, a: nat, members: Seq<nat>) -> Seq<Gate> {
    let h = membership::draw_product(g, a, members, members.len());
    h.push(Gate::Constant(0)).push(Gate::Equal((h.len() - 1) as nat, h.len()))
}

proof fn lemma_member(g: Seq<Gate>, a: nat, members: Seq<nat>, values: Seq<nat>)
    requires
        gates::is_field(g, a),
        gates::fixed(g, a) is None,
        gates::wire(g, values, a) < field::modulus(),
        members.len() > 0,
        disclosure::all_reduced(members),
    ensures
        rules::adds(
            g,
            draw_member(g, a, members),
            values,
            0,
            members.contains(gates::wire(g, values, a)),
        ),
{
    let h = membership::draw_product(g, a, members, members.len());
    let h1 = h.push(Gate::Constant(0));
    let last = (h.len() - 1) as nat;
    membership::lemma_product(g, a, members, members.len(), values);
    gadgets::lemma_constant(h, 0, values);
    gadgets::lemma_computes_trans(g, h, h1);
    rules::lemma_adds_nothing(g, h1, values);
    gates::lemma_wire_kept(h, h1, values, last);
    rules::lemma_equal(h1, last, h.len(), values);
    membership::lemma_membership(gates::wire(g, values, a), members, members.len());
    assert(members.take(members.len() as int) =~= members);
    rules::lemma_adds_trans(
        g,
        h1,
        draw_member(g, a, members),
        values,
        0,
        true,
        0,
        members.contains(gates::wire(g, values, a)),
    );
}

fn member_rule(b: &mut Builder, a: usize, members: &[Fr])
    requires
        gates::is_field(gates::recorded(*old(b)), a as nat),
        gates::fixed(gates::recorded(*old(b)), a as nat) is None,
    ensures
        gates::recorded(*final(b)) == draw_member(
            gates::recorded(*old(b)),
            a as nat,
            field::values(members@),
        ),
        gates::assigned(*final(b)) == gates::assigned(*old(b)),
{
    let ghost g = gates::recorded(*b);
    let product = membership::product_circuit(b, a, members);
    proof {
        membership::lemma_product(
            g,
            a as nat,
            field::values(members@),
            members@.len(),
            Seq::empty(),
        );
    }
    let zero = b.constant(&Fr::zero());
    b.enforce_equal(product, zero);
}

/// The record of the rule that a wire is not a constant.
pub open spec fn draw_unequal(g: Seq<Gate>, a: nat, c: nat) -> Seq<Gate> {
    let n = g.len();
    g.push(Gate::Constant(c)).push(Gate::IsEqual(a, n)).push(Gate::Flag(false)).push(
        Gate::Same(n + 1, n + 2),
    )
}

proof fn lemma_unequal(g: Seq<Gate>, a: nat, c: nat, values: Seq<nat>)
    requires
        gates::is_field(g, a),
    ensures
        rules::adds(g, draw_unequal(g, a, c), values, 0, gates::wire(g, values, a) != c),
{
    let n = g.len();
    let h1 = g.push(Gate::Constant(c));
    let h2 = h1.push(Gate::IsEqual(a, n));
    let h3 = h2.push(Gate::Flag(false));
    gadgets::lemma_constant(g, c, values);
    gates::lemma_wire_kept(g, h3, values, a);
    gates::lemma_wire_kept(h1, h3, values, n);
    rules::lemma_adds_nothing(g, h3, values);
    gates::lemma_same(h3, n + 1, n + 2, values);
    gates::lemma_push(h3, Gate::Same(n + 1, n + 2), values);
    assert(gates::wire(h3, values, n + 1) == gates::bit_value(gates::wire(g, values, a) == c));
    assert(gates::wire(h3, values, n + 2) == 0);
    rules::lemma_adds_trans(
        g,
        h3,
        draw_unequal(g, a, c),
        values,
        0,
        true,
        0,
        gates::wire(g, values, a) != c,
    );
}

fn unequal_rule(b: &mut Builder, a: usize, c: &Fr)
    requires
        gates::is_field(gates::recorded(*old(b)), a as nat),
        gates::fixed(gates::recorded(*old(b)), a as nat) is None,
    ensures
        gates::recorded(*final(b)) == draw_unequal(gates::recorded(*old(b)), a as nat, c@),
        gates::assigned(*final(b)) == gates::assigned(*old(b)),
{
    let ghost g = gates::recorded(*b);
    let k = b.constant(c);
    let equal = b.is_eq(a, k);
    let never = b.flag(false);
    proof {
        let h = gates::recorded(*b);
        gates::lemma_wire_kept(g, h, Seq::empty(), a as nat);
        assert(gates::fixed(h, equal as nat) is None);
    }
    let r = b.enforce_same(equal, never);
    assert(r is Ok);
}

/// The record of a predicate.
pub open spec fn draw_predicate(g: Seq<Gate>, wires: Seq<nat>, p: Predicate) -> Seq<Gate> {
    let n = g.len();
    match p {
        Predicate::Gte(t) => comparison::draw_gte(
            g.push(Gate::Constant(t as nat)),
            wires[8],
            n,
        ),
        Predicate::Eq(v) => g.push(Gate::Constant(v@)).push(Gate::Equal(wires[9], n)),
        Predicate::InSet(members) => draw_member(g, wires[10], field::values(members@)),
        Predicate::Range(min, max) => comparison::draw_gte(
            comparison::draw_gte(
                g.push(Gate::Constant(min as nat)).push(Gate::Constant(max as nat)),
                wires[11],
                n,
            ),
            n + 1,
            wires[11],
        ),
        Predicate::Lt(t) => comparison::draw_lt(g.push(Gate::Constant(t as nat)), wires[12], n),
        Predicate::Neq(v) => draw_unequal(g, wires[13], v@),
    }
}

/// A wire that is a constant of 64 bits, and one that was there before it.
proof fn lemma_beside(g: Seq<Gate>, a: nat, c: u64, values: Seq<nat>)
    requires
        gates::is_field(g, a),
        gates::fixed(g, a) is None,
    ensures
        ({
            let h = g.push(Gate::Constant(c as nat));
            &&& rules::adds(g, h, values, 0, true)
            &&& gates::is_field(h, a)
            &&& gates::is_field(h, g.len())
            &&& gates::fixed(h, a) is None
            &&& gates::fixed(h, g.len()) == Some(c as nat)
            &&& gates::wire(h, values, a) == gates::wire(g, values, a)
            &&& gates::wire(h, values, g.len()) == c
            &&& c < field::modulus()
            &&& c < range::width_bound() <==> comparison::comparable(h, a, g.len())
            &&& c < range::width_bound() <==> comparison::comparable(h, g.len(), a)
        }),
{
    let h = g.push(Gate::Constant(c as nat));
    gadgets::lemma_constant(g, c as nat, values);
    rules::lemma_adds_nothing(g, h, values);
    gates::lemma_wire_kept(g, h, values, a);
}

/// The rule of a predicate is met exactly when the predicate is.
pub proof fn lemma_predicate(
    g: Seq<Gate>,
    wires: Seq<nat>,
    p: Predicate,
    attrs: Seq<nat>,
    values: Seq<nat>,
)
    requires
        carried(g, values, wires, attrs),
        disclosure::all_reduced(attrs),
        refusal(p) is None,
    ensures
        rules::adds(g, draw_predicate(g, wires, p), values, 0, met(p, attrs)),
{
    let n = g.len();
    let last = draw_predicate(g, wires, p);
    match p {
        Predicate::Gte(t) => {
            let h = g.push(Gate::Constant(t as nat));
            lemma_beside(g, wires[8], t, values);
            comparison::lemma_gte(h, wires[8], n, values);
            rules::lemma_adds_trans(g, h, last, values, 0, true, 0, met(p, attrs));
        },
        Predicate::Eq(v) => {
            let h = g.push(Gate::Constant(v@));
            gadgets::lemma_constant(g, v@, values);
            rules::lemma_adds_nothing(g, h, values);
            gates::lemma_wire_kept(g, h, values, wires[9]);
            rules::lemma_equal(h, wires[9], n, values);
            rules::lemma_adds_trans(g, h, last, values, 0, true, 0, met(p, attrs));
        },
        Predicate::InSet(members) => {
            lemma_values_reduced(members@);
            lemma_member(g, wires[10], field::values(members@), values);
        },
        Predicate::Range(min, max) => {
            let a = wires[11];
            let h1 = g.push(Gate::Constant(min as nat));
            let h2 = h1.push(Gate::Constant(max as nat));
            let h3 = comparison::draw_gte(h2, a, n);
            lemma_beside(g, a, min, values);
            lemma_beside(h1, a, max, values);
            gates::lemma_wire_kept(h1, h2, values, n);
            assert(comparison::comparable(h2, a, n));
            comparison::lemma_gte(h2, a, n, values);
            gates::lemma_wire_kept(h2, h3, values, a);
            gates::lemma_wire_kept(h2, h3, values, n + 1);
            comparison::lemma_gte(h3, n + 1, a, values);
            rules::lemma_adds_trans(g, h1, h2, values, 0, true, 0, true);
            let low = min <= attrs[11] < range::width_bound();
            rules::lemma_adds_trans(g, h2, h3, values, 0, true, 0, low);
            rules::lemma_adds_trans(
                g,
                h3,
                last,
                values,
                0,
                low,
                0,
                attrs[11] <= max && max < range::width_bound(),
            );
        },
        Predicate::Lt(t) => {
            let h = g.push(Gate::Constant(t as nat));
            lemma_beside(g, wires[12], t, values);
            comparison::lemma_lt(h, wires[12], n, values);
            rules::lemma_adds_trans(g, h, last, values, 0, true, 0, met(p, attrs));
        },
        Predicate::Neq(v) => {
            lemma_unequal(g, wires[13], v@, values);
        },
    }
}

/// Field elements are reduced.
pub proof fn lemma_values_reduced(s: Seq<Fr>)
    ensures
        disclosure::all_reduced(field::values(s)),
{
    assert forall|i: int| 0 <= i < s.len() implies #[trigger] field::values(s)[i]
        < field::modulus() by {
        field::lemma_values_bound(s, i);
    }
}

/// Adds the rule of a predicate.
pub(crate) fn predicate_circuit(b: &mut Builder, wires: &Vec<usize>, p: &Predicate) -> (r: Result<
    (),
    SynthesisError,
>)
    requires
        free(gates::recorded(*old(b)), gadgets::wires(wires@)),
    ensures
        r matches Err(e) ==> refusal(*p) == Some(e),
        r is Ok ==> {
            &&& refusal(*p) is None
            &&& gates::recorded(*final(b)) == draw_predicate(
                gates::recorded(*old(b)),
                gadgets::wires(wires@),
                *p,
            )
            &&& gates::assigned(*final(b)) == gates::assigned(*old(b))
        },
{
    let ghost g = gates::recorded(*b);
    let ghost ws = gadgets::wires(wires@);
    assert(wires@.len() == 16);
    assert(forall|i: int| 0 <= i < 16 ==> ws[i] == wires@[i]);
    match p {
        Predicate::Gte(t) => {
            assert(gates::is_field(g, ws[8]));
            proof {
                lemma_beside(g, ws[8], *t, Seq::empty());
            }
            let k = b.constant(&Fr::from_u64(*t));
            comparison::enforce_gte(b, wires[8], k)
        },
        Predicate::Eq(v) => {
            assert(gates::is_field(g, ws[9]));
            let k = b.constant(v);
            b.enforce_equal(wires[9], k);
            Ok(())
        },
        Predicate::InSet(members) => {
            if members.len() == 0 {
                return Err(SynthesisError::Unsatisfiable);
            }
            assert(gates::is_field(g, ws[10]));
            member_rule(b, wires[10], members.as_slice());
            Ok(())
        },
        Predicate::Range(min, max) => {
            assert(gates::is_field(g, ws[11]));
            let low = b.constant(&Fr::from_u64(*min));
            let ghost h1 = gates::recorded(*b);
            let high = b.constant(&Fr::from_u64(*max));
            let ghost h2 = gates::recorded(*b);
            proof {
                lemma_beside(g, ws[11], *min, Seq::empty());
                lemma_beside(h1, ws[11], *max, Seq::empty());
                gates::lemma_wire_kept(h1, h2, Seq::empty(), low as nat);
            }
            match comparison::enforce_gte(b, wires[11], low) {
                Ok(_) => {},
                Err(e) => {
                    return Err(e);
                },
            }
            proof {
                let h3 = gates::recorded(*b);
                let dummy = Seq::<nat>::empty();
                comparison::lemma_gte_continues(h2, ws[11], low as nat);
                gates::lemma_wire_kept(h2, h3, dummy, ws[11]);
                gates::lemma_wire_kept(h2, h3, dummy, high as nat);
            }
            comparison::enforce_lte(b, wires[11], high)
        },
        Predicate::Lt(t) => {
            assert(gates::is_field(g, ws[12]));
            proof {
                lemma_beside(g, ws[12], *t, Seq::empty());
            }
            let k = b.constant(&Fr::from_u64(*t));
            comparison::enforce_lt(b, wires[12], k)
        },
        Predicate::Neq(v) => {
            assert(gates::is_field(g, ws[13]));
            unequal_rule(b, wires[13], v);
            Ok(())
        },
    }
}

} // verus!
