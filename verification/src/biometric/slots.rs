//! Predicates over one attribute, as circuits.
//!
//! A slot names an attribute and one of eleven predicates. Comparisons work on
//! differences of 32 bits; the prover finds a difference from the lowest 64 bits
//! of its operands.
use crate::biometric::types;
use crate::biometric::types::PredicateSlot;
use crate::disclosure;
use crate::field;
use crate::field::Fr;
use crate::gadgets;
use crate::gates;
use crate::gates::{Builder, Gate};
use crate::membership;
use crate::modulus;
use crate::primes;
use crate::range;
use crate::rules;
use vstd::arithmetic::div_mod::*;
use vstd::arithmetic::power::*;
use vstd::prelude::*;

verus! {

// Comparisons.

/// The record of the rule that a wire is at least a constant.
pub open spec fn draw_at_least(g: Seq<Gate>, a: nat, c: nat) -> Seq<Gate> {
    range::draw_low(rules::draw_floor(rules::draw_witness(g), a, g.len(), c), g.len())
}

/// A number exceeds a bound by a difference of 32 bits.
pub open spec fn exceeds(a: nat, c: nat, d: nat) -> bool {
    a == field::fadd(c, d) && d < range::width_bound()
}

proof fn lemma_at_least(g: Seq<Gate>, a: nat, c: nat, values: Seq<nat>)
    requires
        gates::is_field(g, a),
        gates::fixed(g, a) is None,
        gates::wire(g, values, a) < field::modulus(),
        gates::allocations(g) < values.len(),
        disclosure::all_reduced(values),
    ensures
        rules::adds(
            g,
            draw_at_least(g, a, c),
            values,
            1,
            exceeds(gates::wire(g, values, a), c, values[gates::allocations(g) as int]),
        ),
{
    let n = g.len();
    let x = gates::wire(g, values, a);
    let d = values[gates::allocations(g) as int];
    let h1 = rules::draw_witness(g);
    let h2 = rules::draw_floor(h1, a, n, c);
    rules::lemma_witness(g, values);
    gates::lemma_wire_kept(g, h1, values, a);
    rules::lemma_floor(h1, a, n, c, values);
    gates::lemma_wire_kept(h1, h2, values, n);
    rules::lemma_low(h2, n, values);
    rules::lemma_adds_trans(g, h1, h2, values, 1, true, 0, x == field::fadd(c, d));
    rules::lemma_adds_trans(
        g,
        h2,
        draw_at_least(g, a, c),
        values,
        1,
        x == field::fadd(c, d),
        0,
        d < range::width_bound(),
    );
}

/// Enforces that a wire is at least a constant, by a difference at hand.
fn at_least_rule(b: &mut Builder, a: usize, c: &Fr, difference: Fr)
    requires
        gates::is_field(gates::recorded(*old(b)), a as nat),
    ensures
        gates::recorded(*final(b)) == draw_at_least(gates::recorded(*old(b)), a as nat, c@),
        gates::assigned(*final(b)) == gates::appended(
            gates::assigned(*old(b)),
            seq![difference@],
        ),
{
    let ghost g = gates::recorded(*b);
    proof {
        rules::lemma_witness(g, Seq::empty());
    }
    let d = rules::witness_rule(b, difference);
    let ghost h1 = gates::recorded(*b);
    rules::floor_rule(b, a, d, c);
    let ghost h2 = gates::recorded(*b);
    proof {
        assert(gates::continues(h1, h2)) by {
            lemma_floor_continues(h1, a as nat, d as nat, c@);
        }
        gates::lemma_wire_kept(h1, h2, Seq::empty(), d as nat);
    }
    rules::low_rule(b, d);
}

proof fn lemma_floor_continues(g: Seq<Gate>, a: nat, d: nat, c: nat)
    ensures
        gates::continues(g, rules::draw_floor(g, a, d, c)),
        gates::continues(g, rules::draw_ceiling(g, a, d, c)),
        rules::draw_floor(g, a, d, c).len() == g.len() + 5,
        rules::draw_ceiling(g, a, d, c).len() == g.len() + 5,
{
}

/// The record of the rule that a wire is at most a constant.
pub open spec fn draw_at_most(g: Seq<Gate>, a: nat, c: nat) -> Seq<Gate> {
    range::draw_low(rules::draw_ceiling(rules::draw_witness(g), a, g.len(), c), g.len())
}

proof fn lemma_at_most(g: Seq<Gate>, a: nat, c: nat, values: Seq<nat>)
    requires
        gates::is_field(g, a),
        gates::fixed(g, a) is None,
        c < field::modulus(),
        gates::allocations(g) < values.len(),
        disclosure::all_reduced(values),
    ensures
        rules::adds(
            g,
            draw_at_most(g, a, c),
            values,
            1,
            exceeds(c, gates::wire(g, values, a), values[gates::allocations(g) as int]),
        ),
{
    let n = g.len();
    let x = gates::wire(g, values, a);
    let d = values[gates::allocations(g) as int];
    let h1 = rules::draw_witness(g);
    let h2 = rules::draw_ceiling(h1, a, n, c);
    rules::lemma_witness(g, values);
    gates::lemma_wire_kept(g, h1, values, a);
    rules::lemma_ceiling(h1, a, n, c, values);
    gates::lemma_wire_kept(h1, h2, values, n);
    rules::lemma_low(h2, n, values);
    rules::lemma_adds_trans(g, h1, h2, values, 1, true, 0, c == field::fadd(x, d));
    rules::lemma_adds_trans(
        g,
        h2,
        draw_at_most(g, a, c),
        values,
        1,
        c == field::fadd(x, d),
        0,
        d < range::width_bound(),
    );
}

/// Enforces that a wire is at most a constant, by a difference at hand.
fn at_most_rule(b: &mut Builder, a: usize, c: &Fr, difference: Fr)
    requires
        gates::is_field(gates::recorded(*old(b)), a as nat),
    ensures
        gates::recorded(*final(b)) == draw_at_most(gates::recorded(*old(b)), a as nat, c@),
        gates::assigned(*final(b)) == gates::appended(
            gates::assigned(*old(b)),
            seq![difference@],
        ),
{
    let ghost g = gates::recorded(*b);
    proof {
        rules::lemma_witness(g, Seq::empty());
    }
    let d = rules::witness_rule(b, difference);
    let ghost h1 = gates::recorded(*b);
    rules::ceiling_rule(b, a, d, c);
    let ghost h2 = gates::recorded(*b);
    proof {
        lemma_floor_continues(h1, a as nat, d as nat, c@);
        gates::lemma_wire_kept(h1, h2, Seq::empty(), d as nat);
    }
    rules::low_rule(b, d);
}

/// The record of the rule that a wire is between two constants.
pub open spec fn draw_between(g: Seq<Gate>, a: nat, low: nat, high: nat) -> Seq<Gate> {
    let n = g.len();
    let both = rules::draw_witness(rules::draw_witness(g));
    let bounded = rules::draw_ceiling(rules::draw_floor(both, a, n, low), a, n + 1, high);
    range::draw_low(range::draw_low(bounded, n), n + 1)
}

proof fn lemma_between(g: Seq<Gate>, a: nat, low: nat, high: nat, values: Seq<nat>)
    requires
        gates::is_field(g, a),
        gates::fixed(g, a) is None,
        gates::wire(g, values, a) < field::modulus(),
        high < field::modulus(),
        gates::allocations(g) + 1 < values.len(),
        disclosure::all_reduced(values),
    ensures
        rules::adds(
            g,
            draw_between(g, a, low, high),
            values,
            2,
            exceeds(gates::wire(g, values, a), low, values[gates::allocations(g) as int])
                && exceeds(
                high,
                gates::wire(g, values, a),
                values[(gates::allocations(g) + 1) as int],
            ),
        ),
{
    let n = g.len();
    let x = gates::wire(g, values, a);
    let d1 = values[gates::allocations(g) as int];
    let d2 = values[(gates::allocations(g) + 1) as int];
    let h1 = rules::draw_witness(g);
    let h2 = rules::draw_witness(h1);
    let h3 = rules::draw_floor(h2, a, n, low);
    let h4 = rules::draw_ceiling(h3, a, n + 1, high);
    let h5 = range::draw_low(h4, n);
    rules::lemma_witness(g, values);
    rules::lemma_witness(h1, values);
    gates::lemma_wire_kept(h1, h2, values, n);
    gates::lemma_wire_kept(g, h1, values, a);
    gates::lemma_wire_kept(h1, h2, values, a);
    rules::lemma_floor(h2, a, n, low, values);
    gates::lemma_wire_kept(h2, h3, values, a);
    gates::lemma_wire_kept(h2, h3, values, n);
    gates::lemma_wire_kept(h2, h3, values, n + 1);
    rules::lemma_ceiling(h3, a, n + 1, high, values);
    gates::lemma_wire_kept(h3, h4, values, n);
    gates::lemma_wire_kept(h3, h4, values, n + 1);
    rules::lemma_low(h4, n, values);
    gates::lemma_wire_kept(h4, h5, values, n + 1);
    rules::lemma_low(h5, n + 1, values);
    let m1 = x == field::fadd(low, d1);
    let m2 = high == field::fadd(x, d2);
    rules::lemma_adds_trans(g, h1, h2, values, 1, true, 1, true);
    rules::lemma_adds_trans(g, h2, h3, values, 2, true, 0, m1);
    rules::lemma_adds_trans(g, h3, h4, values, 2, m1, 0, m2);
    rules::lemma_adds_trans(g, h4, h5, values, 2, m1 && m2, 0, d1 < range::width_bound());
    rules::lemma_adds_trans(
        g,
        h5,
        draw_between(g, a, low, high),
        values,
        2,
        m1 && m2 && d1 < range::width_bound(),
        0,
        d2 < range::width_bound(),
    );
}

/// Enforces that a wire is between two constants, by differences at hand.
fn between_rule(b: &mut Builder, a: usize, low: &Fr, high: &Fr, above: Fr, below: Fr)
    requires
        gates::is_field(gates::recorded(*old(b)), a as nat),
    ensures
        gates::recorded(*final(b)) == draw_between(
            gates::recorded(*old(b)),
            a as nat,
            low@,
            high@,
        ),
        gates::assigned(*final(b)) == gates::appended(
            gates::assigned(*old(b)),
            seq![above@, below@],
        ),
{
    let ghost g = gates::recorded(*b);
    proof {
        rules::lemma_witness(g, Seq::empty());
        rules::lemma_witness(rules::draw_witness(g), Seq::empty());
    }
    let d1 = rules::witness_rule(b, above);
    let ghost h1 = gates::recorded(*b);
    let d2 = rules::witness_rule(b, below);
    let ghost h2 = gates::recorded(*b);
    proof {
        if let Some(v) = gates::assigned(*old(b)) {
            assert(v + seq![above@] + seq![below@] =~= v + seq![above@, below@]);
        }
        gates::lemma_wire_kept(h1, h2, Seq::empty(), d1 as nat);
        lemma_floor_continues(h2, a as nat, d1 as nat, low@);
    }
    rules::floor_rule(b, a, d1, low);
    let ghost h3 = gates::recorded(*b);
    proof {
        gates::lemma_wire_kept(h2, h3, Seq::empty(), d1 as nat);
        gates::lemma_wire_kept(h2, h3, Seq::empty(), d2 as nat);
        lemma_floor_continues(h3, a as nat, d2 as nat, high@);
    }
    rules::ceiling_rule(b, a, d2, high);
    let ghost h4 = gates::recorded(*b);
    proof {
        gates::lemma_wire_kept(h3, h4, Seq::empty(), d1 as nat);
        gates::lemma_wire_kept(h3, h4, Seq::empty(), d2 as nat);
    }
    rules::low_rule(b, d1);
    let ghost h5 = gates::recorded(*b);
    proof {
        range::lemma_low_continues(h4, d1 as nat);
        gates::lemma_wire_kept(h4, h5, Seq::empty(), d2 as nat);
    }
    rules::low_rule(b, d2);
}

// Equality, difference and membership.

/// The record of the rule that a wire is a constant.
pub open spec fn draw_is(g: Seq<Gate>, a: nat, c: nat) -> Seq<Gate> {
    rules::draw_difference(g.push(Gate::Constant(c)), a, g.len())
}

proof fn lemma_is(g: Seq<Gate>, a: nat, c: nat, values: Seq<nat>)
    requires
        gates::is_field(g, a),
        gates::fixed(g, a) is None,
        gates::wire(g, values, a) < field::modulus(),
        c < field::modulus(),
    ensures
        rules::adds(g, draw_is(g, a, c), values, 0, gates::wire(g, values, a) == c),
{
    let h = g.push(Gate::Constant(c));
    gadgets::lemma_constant(g, c, values);
    rules::lemma_adds_nothing(g, h, values);
    gates::lemma_wire_kept(g, h, values, a);
    rules::lemma_difference(h, a, g.len(), values);
    rules::lemma_adds_trans(
        g,
        h,
        draw_is(g, a, c),
        values,
        0,
        true,
        0,
        gates::wire(g, values, a) == c,
    );
}

fn is_rule(b: &mut Builder, a: usize, c: &Fr)
    requires
        gates::is_field(gates::recorded(*old(b)), a as nat),
    ensures
        gates::recorded(*final(b)) == draw_is(gates::recorded(*old(b)), a as nat, c@),
        gates::assigned(*final(b)) == gates::assigned(*old(b)),
{
    let k = b.constant(c);
    rules::difference_rule(b, a, k);
}

/// The record of the rule that a wire is not a constant: its difference has an
/// inverse.
pub open spec fn draw_is_not(g: Seq<Gate>, a: nat, c: nat) -> Seq<Gate> {
    let n = g.len();
    rules::draw_witness(g.push(Gate::Constant(c)).push(Gate::Sub(a, n))).push(
        Gate::Mul(n + 1, n + 2),
    ).push(Gate::Constant(1)).push(Gate::Equal(n + 3, n + 4))
}

proof fn lemma_is_not(g: Seq<Gate>, a: nat, c: nat, values: Seq<nat>)
    requires
        gates::is_field(g, a),
        gates::fixed(g, a) is None,
    ensures
        rules::adds(
            g,
            draw_is_not(g, a, c),
            values,
            1,
            field::fmul(
                field::fsub(gates::wire(g, values, a), c),
                values[gates::allocations(g) as int],
            ) == 1,
        ),
{
    let n = g.len();
    let h1 = g.push(Gate::Constant(c));
    let h2 = h1.push(Gate::Sub(a, n));
    let h3 = rules::draw_witness(h2);
    let h4 = h3.push(Gate::Mul(n + 1, n + 2));
    let h5 = h4.push(Gate::Constant(1));
    gadgets::lemma_constant(g, c, values);
    gates::lemma_wire_kept(g, h1, values, a);
    gadgets::lemma_sub(h1, a, n, values);
    gadgets::lemma_computes_trans(g, h1, h2);
    rules::lemma_adds_nothing(g, h2, values);
    rules::lemma_witness(h2, values);
    gates::lemma_wire_kept(h2, h3, values, n + 1);
    gadgets::lemma_mul(h3, n + 1, n + 2, values);
    gadgets::lemma_constant(h4, 1, values);
    gadgets::lemma_computes_trans(h3, h4, h5);
    rules::lemma_adds_nothing(h3, h5, values);
    gates::lemma_wire_kept(h3, h4, values, n + 2);
    gates::lemma_wire_kept(h4, h5, values, n + 3);
    assert(gates::fixed(h4, n + 3) is None);
    gates::lemma_equal(h5, n + 3, n + 4, values);
    gates::lemma_push(h5, Gate::Equal(n + 3, n + 4), values);
    let met = field::fmul(
        field::fsub(gates::wire(g, values, a), c),
        values[gates::allocations(g) as int],
    ) == 1;
    rules::lemma_adds_trans(g, h2, h3, values, 0, true, 1, true);
    rules::lemma_adds_trans(g, h3, h5, values, 1, true, 0, true);
    rules::lemma_adds_trans(g, h5, draw_is_not(g, a, c), values, 1, true, 0, met);
}

fn is_not_rule(b: &mut Builder, a: usize, c: &Fr, inverse: Fr)
    requires
        gates::is_field(gates::recorded(*old(b)), a as nat),
    ensures
        gates::recorded(*final(b)) == draw_is_not(gates::recorded(*old(b)), a as nat, c@),
        gates::assigned(*final(b)) == gates::appended(
            gates::assigned(*old(b)),
            seq![inverse@],
        ),
{
    let k = b.constant(c);
    let diff = b.sub(a, k);
    let inv = rules::witness_rule(b, inverse);
    let product = b.mul(diff, inv);
    let one = b.constant(&Fr::one());
    b.enforce_equal(product, one);
}

/// The record of the rule that the product is zero.
pub open spec fn draw_is_in(g: Seq<Gate>, a: nat, members: Seq<nat>) -> Seq<Gate> {
    let h = membership::draw_product(g, a, members, 6);
    h.push(Gate::Constant(0)).push(Gate::Equal((h.len() - 1) as nat, h.len()))
}

proof fn lemma_is_in(g: Seq<Gate>, a: nat, members: Seq<nat>, values: Seq<nat>)
    requires
        gates::is_field(g, a),
        gates::fixed(g, a) is None,
    ensures
        rules::adds(
            g,
            draw_is_in(g, a, members),
            values,
            0,
            membership::difference_product(gates::wire(g, values, a), members, 6) == 0,
        ),
{
    let h = membership::draw_product(g, a, members, 6);
    let h1 = h.push(Gate::Constant(0));
    let w = (h.len() - 1) as nat;
    membership::lemma_product(g, a, members, 6, values);
    gadgets::lemma_constant(h, 0, values);
    gadgets::lemma_computes_trans(g, h, h1);
    rules::lemma_adds_nothing(g, h1, values);
    gates::lemma_wire_kept(h, h1, values, w);
    gates::lemma_equal(h1, w, h.len(), values);
    gates::lemma_push(h1, Gate::Equal(w, h.len()), values);
    rules::lemma_adds_trans(
        g,
        h1,
        draw_is_in(g, a, members),
        values,
        0,
        true,
        0,
        membership::difference_product(gates::wire(g, values, a), members, 6) == 0,
    );
}

fn is_in_rule(b: &mut Builder, a: usize, members: &[Fr; 6])
    requires
        gates::is_field(gates::recorded(*old(b)), a as nat),
        gates::fixed(gates::recorded(*old(b)), a as nat) is None,
    ensures
        gates::recorded(*final(b)) == draw_is_in(
            gates::recorded(*old(b)),
            a as nat,
            field::values(members@),
        ),
        gates::assigned(*final(b)) == gates::assigned(*old(b)),
{
    let ghost g = gates::recorded(*b);
    let product = membership::product_circuit(b, a, members.as_slice());
    proof {
        membership::lemma_product(
            g,
            a as nat,
            field::values(members@),
            6,
            Seq::empty(),
        );
    }
    let zero = b.constant(&Fr::zero());
    b.enforce_equal(product, zero);
}

// Slots.

/// The number of private variables of a slot.
pub open spec fn slot_count(slot: PredicateSlot) -> nat {
    let t = slot.pred_type;
    if !slot.active {
        0
    } else if t == 7 {
        2
    } else if 1 <= t <= 4 || t == 6 || 9 <= t <= 11 {
        1
    } else {
        0
    }
}

/// The record of a slot over the attribute on a wire.
pub open spec fn draw_slot(g: Seq<Gate>, a: nat, slot: PredicateSlot) -> Seq<Gate> {
    let t = slot.pred_type;
    if !slot.active {
        g
    } else if t == 1 || 9 <= t <= 11 {
        draw_at_least(g, a, slot.val1@)
    } else if t == 2 {
        draw_at_least(g, a, field::fadd(slot.val1@, 1))
    } else if t == 3 {
        draw_at_most(g, a, field::fsub(slot.val1@, 1))
    } else if t == 4 {
        draw_at_most(g, a, slot.val1@)
    } else if t == 5 {
        draw_is(g, a, slot.val1@)
    } else if t == 6 {
        draw_is_not(g, a, slot.val1@)
    } else if t == 7 {
        draw_between(g, a, slot.val1@, slot.val2@)
    } else if t == 8 {
        draw_is_in(g, a, field::values(slot.inset_values@))
    } else {
        g
    }
}

/// What a slot enforces of an attribute and of its own private variables.
pub open spec fn slot_rule(slot: PredicateSlot, x: nat, own: Seq<nat>) -> bool {
    let t = slot.pred_type;
    if !slot.active {
        true
    } else if t == 1 || 9 <= t <= 11 {
        exceeds(x, slot.val1@, own[0])
    } else if t == 2 {
        exceeds(x, field::fadd(slot.val1@, 1), own[0])
    } else if t == 3 {
        exceeds(field::fsub(slot.val1@, 1), x, own[0])
    } else if t == 4 {
        exceeds(slot.val1@, x, own[0])
    } else if t == 5 {
        x == slot.val1@
    } else if t == 6 {
        field::fmul(field::fsub(x, slot.val1@), own[0]) == 1
    } else if t == 7 {
        exceeds(x, slot.val1@, own[0]) && exceeds(slot.val2@, x, own[1])
    } else if t == 8 {
        membership::difference_product(x, field::values(slot.inset_values@), 6) == 0
    } else {
        true
    }
}

/// Whatever the variables are, a slot's record holds exactly when the one before
/// it does and the slot's rule is met.
pub proof fn lemma_slot(g: Seq<Gate>, a: nat, slot: PredicateSlot, values: Seq<nat>)
    requires
        gates::is_field(g, a),
        gates::fixed(g, a) is None,
        gates::wire(g, values, a) < field::modulus(),
        gates::allocations(g) + slot_count(slot) <= values.len(),
        disclosure::all_reduced(values),
    ensures
        rules::adds(
            g,
            draw_slot(g, a, slot),
            values,
            slot_count(slot),
            slot_rule(
                slot,
                gates::wire(g, values, a),
                values.subrange(
                    gates::allocations(g) as int,
                    (gates::allocations(g) + slot_count(slot)) as int,
                ),
            ),
        ),
{
    broadcast use field::lemma_fr_bound;

    let t = slot.pred_type;
    let p = field::modulus() as int;
    if !slot.active {
        gates::lemma_computes(g, g, values);
    } else if t == 1 || 9 <= t <= 11 {
        lemma_at_least(g, a, slot.val1@, values);
    } else if t == 2 {
        lemma_at_least(g, a, field::fadd(slot.val1@, 1), values);
    } else if t == 3 {
        lemma_mod_bound(slot.val1@ - 1, p);
        lemma_at_most(g, a, field::fsub(slot.val1@, 1), values);
    } else if t == 4 {
        lemma_at_most(g, a, slot.val1@, values);
    } else if t == 5 {
        lemma_is(g, a, slot.val1@, values);
    } else if t == 6 {
        lemma_is_not(g, a, slot.val1@, values);
    } else if t == 7 {
        lemma_between(g, a, slot.val1@, slot.val2@, values);
    } else if t == 8 {
        lemma_is_in(g, a, field::values(slot.inset_values@), values);
    } else {
        gates::lemma_computes(g, g, values);
    }
}

/// By how much the lowest 64 bits of one number exceed those of another, or
/// zero.
pub open spec fn gap(a: nat, b: nat) -> nat {
    disclosure::excess(types::low_part(a), types::low_part(b))
}

/// The multiplicative inverse.
pub open spec fn inverse(x: nat) -> nat {
    choose|y: nat| y < field::modulus() && field::fmul(x, y) == 1
}

/// The inverse of an element other than zero, and one for zero.
pub open spec fn inverse_or_one(x: nat) -> nat {
    if x == 0 {
        1
    } else {
        inverse(x)
    }
}

/// An element has at most one inverse.
proof fn lemma_inverse_unique(x: nat, y: nat)
    requires
        y < field::modulus(),
        field::fmul(x, y) == 1,
    ensures
        y == inverse(x),
        field::fmul(x, inverse(x)) == 1,
{
    let p = field::modulus();
    let z = inverse(x);
    assert(z < p && field::fmul(x, z) == 1);
    let d = y - z;
    lemma_sub_mod_noop((x * y) as int, (x * z) as int, p as int);
    assert(x * y - x * z == x * d) by (nonlinear_arith)
        requires
            d == y - z,
    ;
    lemma_small_mod(0, p);
    modulus::lemma_modulus_prime();
    primes::lemma_euclid(p, x as int, d);
    if x as int % p as int == 0 {
        lemma_mul_mod_noop_left(x as int, y as int, p as int);
        assert(0 * y == 0);
    }
    if y >= z {
        lemma_small_mod((y - z) as nat, p);
    } else {
        lemma_small_mod((y - z + p) as nat, p);
        lemma_mod_add_multiples_vanish(y - z, p as int);
    }
}

/// The values that a prover gives a slot's own variables.
pub open spec fn slot_values(slot: PredicateSlot, x: nat) -> Seq<nat> {
    let t = slot.pred_type;
    if !slot.active {
        Seq::empty()
    } else if t == 1 || 9 <= t <= 11 {
        seq![gap(x, slot.val1@)]
    } else if t == 2 {
        seq![gap(x, field::fadd(slot.val1@, 1))]
    } else if t == 3 {
        seq![gap(field::fsub(slot.val1@, 1), x)]
    } else if t == 4 {
        seq![gap(slot.val1@, x)]
    } else if t == 6 {
        seq![inverse_or_one(field::fsub(x, slot.val1@))]
    } else if t == 7 {
        seq![gap(x, slot.val1@), gap(slot.val2@, x)]
    } else {
        Seq::empty()
    }
}

/// Whether a prover can meet a slot with an attribute.
pub open spec fn slot_met(slot: PredicateSlot, x: nat) -> bool {
    slot_rule(slot, x, slot_values(slot, x))
}

/// A prover's values are as many as the variables, and reduced.
pub proof fn lemma_slot_values(slot: PredicateSlot, x: nat)
    requires
        x < field::modulus(),
    ensures
        slot_values(slot, x).len() == slot_count(slot),
        disclosure::all_reduced(slot_values(slot, x)),
{
    broadcast use field::lemma_fr_bound;

    let p = field::modulus();
    let d = field::fsub(x, slot.val1@);
    lemma_mod_bound(x - slot.val1@, p as int);
    if d > 0 {
        lemma_inverse_exists(d);
    }
}

/// The difference that a prover finds.
fn gap_of(a: &Fr, b: &Fr) -> (r: Fr)
    ensures
        r@ == gap(a@, b@),
{
    let x = types::fr_to_u64(a);
    let y = types::fr_to_u64(b);
    if x >= y {
        types::u64_to_fr(x - y)
    } else {
        Fr::zero()
    }
}

/// The inverse of the difference of two elements, and one when there is none.
fn inverse_of_difference(a: Fr, b: Fr) -> (r: Fr)
    ensures
        r@ == inverse_or_one(field::fsub(a@, b@)),
{
    broadcast use field::lemma_fr_bound;

    let d = a.minus(b);
    match d.inverse() {
        Some(inv) => {
            proof {
                lemma_inverse_unique(d@, inv@);
            }
            inv
        },
        None => Fr::one(),
    }
}

/// Adds a slot over the attribute on a wire, with the attribute's value.
pub(crate) fn slot_circuit(b: &mut Builder, a: usize, slot: &PredicateSlot, x: &Fr)
    requires
        gates::is_field(gates::recorded(*old(b)), a as nat),
        gates::fixed(gates::recorded(*old(b)), a as nat) is None,
    ensures
        gates::recorded(*final(b)) == draw_slot(gates::recorded(*old(b)), a as nat, *slot),
        gates::assigned(*final(b)) == gates::appended(
            gates::assigned(*old(b)),
            slot_values(*slot, x@),
        ),
{
    proof {
        if let Some(v) = gates::assigned(*b) {
            assert(v + Seq::<nat>::empty() =~= v);
        }
    }
    if !slot.active {
        return;
    }
    let t = slot.pred_type;
    if t == 1 || t == 9 || t == 10 || t == 11 {
        at_least_rule(b, a, &slot.val1, gap_of(x, &slot.val1));
    } else if t == 2 {
        let bound = slot.val1.plus(Fr::one());
        at_least_rule(b, a, &bound, gap_of(x, &bound));
    } else if t == 3 {
        let bound = slot.val1.minus(Fr::one());
        at_most_rule(b, a, &bound, gap_of(&bound, x));
    } else if t == 4 {
        at_most_rule(b, a, &slot.val1, gap_of(&slot.val1, x));
    } else if t == 5 {
        is_rule(b, a, &slot.val1);
    } else if t == 6 {
        is_not_rule(b, a, &slot.val1, inverse_of_difference(*x, slot.val1));
    } else if t == 7 {
        between_rule(
            b,
            a,
            &slot.val1,
            &slot.val2,
            gap_of(x, &slot.val1),
            gap_of(&slot.val2, x),
        );
    } else if t == 8 {
        is_in_rule(b, a, &slot.inset_values);
    }
}

// What the predicates mean.

/// Every element other than zero has an inverse.
proof fn lemma_inverse_exists(x: nat)
    requires
        0 < x < field::modulus(),
    ensures
        field::fmul(x, inverse(x)) == 1,
        inverse(x) < field::modulus(),
{
    let p = field::modulus();
    modulus::lemma_modulus_prime();
    lemma_small_mod(x, p);
    primes::lemma_fermat(p, x);
    let v = pow(x as int, (p - 2) as nat);
    let y = (v % p as int) as nat;
    lemma_mod_bound(v, p as int);
    lemma_pow_adds(x as int, 1, (p - 2) as nat);
    lemma_pow1(x as int);
    lemma_mul_mod_noop_right(x as int, v, p as int);
    assert(field::fmul(x, y) == 1);
    lemma_inverse_unique(x, y);
}

/// Comparing numbers of 64 bits: an attribute is at least, above, below or at
/// most the bound, or between two bounds, with less than 32 bits between them.
pub proof fn lemma_comparisons(slot: PredicateSlot, x: nat)
    requires
        slot.active,
        x < 0x1_0000_0000_0000_0000,
        slot.val1@ < 0x1_0000_0000_0000_0000,
        slot.val2@ < 0x1_0000_0000_0000_0000,
    ensures
        slot.pred_type == 1 || 9 <= slot.pred_type <= 11 ==> (slot_met(slot, x) <==> slot.val1@
            <= x && x - slot.val1@ < range::width_bound()),
        slot.pred_type == 2 ==> (slot_met(slot, x) <==> slot.val1@ < x && x - slot.val1@
            <= range::width_bound()),
        slot.pred_type == 3 ==> (slot_met(slot, x) <==> x < slot.val1@ && slot.val1@ - x
            <= range::width_bound()),
        slot.pred_type == 4 ==> (slot_met(slot, x) <==> x <= slot.val1@ && slot.val1@ - x
            < range::width_bound()),
        slot.pred_type == 7 ==> (slot_met(slot, x) <==> slot.val1@ <= x <= slot.val2@ && x
            - slot.val1@ < range::width_bound() && slot.val2@ - x < range::width_bound()),
{
    let p = field::modulus();
    let v = slot.val1@;
    let w = slot.val2@;
    let m = 0x1_0000_0000_0000_0000nat;
    lemma_small_mod(x, m);
    lemma_small_mod(v, m);
    lemma_small_mod(w, m);
    lemma_small_mod(x, p);
    lemma_small_mod(v, p);
    lemma_small_mod(w, p);
    lemma_small_mod(v + 1, p);
    if v + 1 < m {
        lemma_small_mod(v + 1, m);
    }
    assert forall|a: nat, d: nat| a < m + 1 && d < m implies #[trigger] field::fadd(a, d) == a
        + d by {
        lemma_small_mod(a + d, p);
    }
    if v > 0 {
        lemma_small_mod((v - 1) as nat, p);
        lemma_small_mod((v - 1) as nat, m);
    } else {
        lemma_small_mod((p - 1) as nat, p);
        lemma_mod_add_multiples_vanish(-1, p as int);
        lemma_mod_bound((p - 1) as int, m as int);
    }
}

/// Equality, difference and membership in a set of six, for every attribute.
pub proof fn lemma_identities(slot: PredicateSlot, x: nat)
    requires
        slot.active,
        x < field::modulus(),
    ensures
        slot.pred_type == 5 ==> (slot_met(slot, x) <==> x == slot.val1@),
        slot.pred_type == 6 ==> (slot_met(slot, x) <==> x != slot.val1@),
        slot.pred_type == 8 ==> (slot_met(slot, x) <==> field::values(
            slot.inset_values@,
        ).contains(x)),
{
    broadcast use field::lemma_fr_bound;

    let p = field::modulus();
    rules::lemma_difference_zero(x, slot.val1@);
    let d = field::fsub(x, slot.val1@);
    lemma_mod_bound(x - slot.val1@, p as int);
    if d > 0 {
        lemma_inverse_exists(d);
    } else {
        lemma_small_mod(0, p);
        assert(field::fmul(0, 1) == 0);
    }
    let set = field::values(slot.inset_values@);
    assert(set.take(6) =~= set);
    membership::lemma_membership(x, set, 6);
}

} // verus!
