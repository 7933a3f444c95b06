//! Small circuits that add a rule, with what each of them enforces.
use crate::field;
use crate::field::Fr;
use crate::gadgets;
use crate::gates;
use crate::gates::{Builder, Gate};
use crate::range;
use vstd::arithmetic::div_mod::*;
use vstd::prelude::*;

verus! {

/// One record continues another with a number of new private variables and no
/// new public one, and holds exactly when the other does and a condition is met.
pub open spec fn adds(
    g: Seq<Gate>,
    h: Seq<Gate>,
    values: Seq<nat>,
    count: nat,
    met: bool,
) -> bool {
    &&& gates::continues(g, h)
    &&& gates::allocations(h) == gates::allocations(g) + count
    &&& gates::public_values(h, values) == gates::public_values(g, values)
    &&& gates::holds(h, values) <==> gates::holds(g, values) && met
}

/// Additions one after the other.
pub proof fn lemma_adds_trans(
    g: Seq<Gate>,
    h: Seq<Gate>,
    k: Seq<Gate>,
    values: Seq<nat>,
    c1: nat,
    m1: bool,
    c2: nat,
    m2: bool,
)
    requires
        adds(g, h, values, c1, m1),
        adds(h, k, values, c2, m2),
    ensures
        adds(g, k, values, c1 + c2, m1 && m2),
{
    gates::lemma_continues_trans(g, h, k);
}

/// One record continues another with a number of new variables, of which some
/// are public and have the given values, and holds exactly when the other does
/// and a condition is met.
pub open spec fn shows(
    g: Seq<Gate>,
    h: Seq<Gate>,
    values: Seq<nat>,
    count: nat,
    shown: Seq<nat>,
    met: bool,
) -> bool {
    &&& gates::continues(g, h)
    &&& gates::allocations(h) == gates::allocations(g) + count
    &&& gates::public_values(h, values) == gates::public_values(g, values) + shown
    &&& gates::holds(h, values) <==> gates::holds(g, values) && met
}

/// Additions that show values, one after the other.
pub proof fn lemma_shows_trans(
    g: Seq<Gate>,
    h: Seq<Gate>,
    k: Seq<Gate>,
    values: Seq<nat>,
    c1: nat,
    s1: Seq<nat>,
    m1: bool,
    c2: nat,
    s2: Seq<nat>,
    m2: bool,
)
    requires
        shows(g, h, values, c1, s1, m1),
        shows(h, k, values, c2, s2, m2),
    ensures
        shows(g, k, values, c1 + c2, s1 + s2, m1 && m2),
{
    gates::lemma_continues_trans(g, h, k);
    let before = gates::public_values(g, values);
    assert((before + s1) + s2 =~= before + (s1 + s2));
}

/// An addition without public variables after one that shows values.
pub proof fn lemma_shows_adds(
    g: Seq<Gate>,
    h: Seq<Gate>,
    k: Seq<Gate>,
    values: Seq<nat>,
    c1: nat,
    s1: Seq<nat>,
    m1: bool,
    c2: nat,
    m2: bool,
)
    requires
        shows(g, h, values, c1, s1, m1),
        adds(h, k, values, c2, m2),
    ensures
        shows(g, k, values, c1 + c2, s1, m1 && m2),
{
    gates::lemma_continues_trans(g, h, k);
}

/// The record of one public variable.
pub open spec fn draw_input(g: Seq<Gate>) -> Seq<Gate> {
    g.push(Gate::Input(gates::allocations(g)))
}

pub proof fn lemma_input(g: Seq<Gate>, values: Seq<nat>)
    ensures
        ({
            let h = draw_input(g);
            let v = values[gates::allocations(g) as int];
            &&& shows(g, h, values, 1, seq![v], true)
            &&& gates::is_field(h, g.len())
            &&& gates::fixed(h, g.len()) is None
            &&& gates::wire(h, values, g.len()) == v
        }),
{
    let gate = Gate::Input(gates::allocations(g));
    let v = values[gates::allocations(g) as int];
    gates::lemma_push(g, gate, values);
    gates::lemma_variable(g, gate, values);
    assert(gates::public_values(g, values).push(v) =~= gates::public_values(g, values) + seq![v]);
}

/// The rule that two variables are equal.
pub proof fn lemma_equal(g: Seq<Gate>, a: nat, b: nat, values: Seq<nat>)
    requires
        a < g.len(),
        b < g.len(),
        gates::fixed(g, a) is None || gates::fixed(g, b) is None,
    ensures
        adds(
            g,
            g.push(Gate::Equal(a, b)),
            values,
            0,
            gates::wire(g, values, a) == gates::wire(g, values, b),
        ),
{
    gates::lemma_equal(g, a, b, values);
    gates::lemma_push(g, Gate::Equal(a, b), values);
}

/// Computations add no rule and no variable.
pub proof fn lemma_adds_nothing(g: Seq<Gate>, h: Seq<Gate>, values: Seq<nat>)
    requires
        gates::computes(g, h),
    ensures
        adds(g, h, values, 0, true),
{
    gates::lemma_computes(g, h, values);
}

/// The record of one private variable.
pub open spec fn draw_witness(g: Seq<Gate>) -> Seq<Gate> {
    g.push(Gate::Witness(gates::allocations(g)))
}

pub proof fn lemma_witness(g: Seq<Gate>, values: Seq<nat>)
    ensures
        ({
            let h = draw_witness(g);
            &&& adds(g, h, values, 1, true)
            &&& gates::is_field(h, g.len())
            &&& gates::fixed(h, g.len()) is None
            &&& gates::wire(h, values, g.len()) == values[gates::allocations(g) as int]
        }),
{
    let gate = Gate::Witness(gates::allocations(g));
    gates::lemma_push(g, gate, values);
    gates::lemma_variable(g, gate, values);
}

/// Differences of reduced elements are zero only for equal ones.
pub proof fn lemma_difference_zero(x: nat, y: nat)
    requires
        x < field::modulus(),
        y < field::modulus(),
    ensures
        field::fsub(x, y) == 0 <==> x == y,
{
    let p = field::modulus();
    if x >= y {
        lemma_small_mod((x - y) as nat, p);
    } else {
        lemma_small_mod((x - y + p) as nat, p);
        lemma_mod_add_multiples_vanish(x - y, p as int);
    }
}

/// The record of the rule that the difference of two wires is zero.
pub open spec fn draw_difference(g: Seq<Gate>, a: nat, b: nat) -> Seq<Gate> {
    g.push(Gate::Sub(a, b)).push(Gate::Constant(0)).push(Gate::Equal(g.len(), g.len() + 1))
}

pub proof fn lemma_difference(g: Seq<Gate>, a: nat, b: nat, values: Seq<nat>)
    requires
        gates::is_field(g, a),
        gates::is_field(g, b),
        gates::fixed(g, a) is None || gates::fixed(g, b) is None,
        gates::wire(g, values, a) < field::modulus(),
        gates::wire(g, values, b) < field::modulus(),
    ensures
        adds(
            g,
            draw_difference(g, a, b),
            values,
            0,
            gates::wire(g, values, a) == gates::wire(g, values, b),
        ),
{
    let n = g.len();
    let h1 = g.push(Gate::Sub(a, b));
    let h2 = h1.push(Gate::Constant(0));
    gadgets::lemma_sub(g, a, b, values);
    gates::lemma_wire_kept(g, h1, values, a);
    gates::lemma_wire_kept(g, h1, values, b);
    gadgets::lemma_constant(h1, 0, values);
    gadgets::lemma_computes_trans(g, h1, h2);
    lemma_adds_nothing(g, h2, values);
    gates::lemma_wire_kept(h1, h2, values, n);
    gates::lemma_equal(h2, n, n + 1, values);
    gates::lemma_push(h2, Gate::Equal(n, n + 1), values);
    assert(gates::fixed(h1, n) is None);
    lemma_difference_zero(gates::wire(g, values, a), gates::wire(g, values, b));
    lemma_adds_trans(
        g,
        h2,
        draw_difference(g, a, b),
        values,
        0,
        true,
        0,
        gates::wire(g, values, a) == gates::wire(g, values, b),
    );
}

/// Enforces that two wires do not differ.
pub(crate) fn difference_rule(b: &mut Builder, x: usize, y: usize)
    requires
        gates::is_field(gates::recorded(*old(b)), x as nat),
        gates::is_field(gates::recorded(*old(b)), y as nat),
    ensures
        gates::recorded(*final(b)) == draw_difference(
            gates::recorded(*old(b)),
            x as nat,
            y as nat,
        ),
        gates::assigned(*final(b)) == gates::assigned(*old(b)),
{
    let d = b.sub(x, y);
    let zero = b.constant(&Fr::zero());
    b.enforce_equal(d, zero);
}

/// The record of the rule that a wire is a constant plus another wire.
pub open spec fn draw_floor(g: Seq<Gate>, a: nat, d: nat, c: nat) -> Seq<Gate> {
    draw_difference(
        g.push(Gate::Constant(c)).push(Gate::Add(g.len(), d)),
        a,
        g.len() + 1,
    )
}

pub proof fn lemma_floor(g: Seq<Gate>, a: nat, d: nat, c: nat, values: Seq<nat>)
    requires
        gates::is_field(g, a),
        gates::is_field(g, d),
        gates::fixed(g, a) is None,
        gates::wire(g, values, a) < field::modulus(),
    ensures
        adds(
            g,
            draw_floor(g, a, d, c),
            values,
            0,
            gates::wire(g, values, a) == field::fadd(c, gates::wire(g, values, d)),
        ),
{
    let n = g.len();
    let h1 = g.push(Gate::Constant(c));
    let h2 = h1.push(Gate::Add(n, d));
    gadgets::lemma_constant(g, c, values);
    gates::lemma_wire_kept(g, h1, values, d);
    gadgets::lemma_add(h1, n, d, values);
    gadgets::lemma_computes_trans(g, h1, h2);
    lemma_adds_nothing(g, h2, values);
    gates::lemma_wire_kept(g, h2, values, a);
    lemma_difference(h2, a, n + 1, values);
    lemma_adds_trans(
        g,
        h2,
        draw_floor(g, a, d, c),
        values,
        0,
        true,
        0,
        gates::wire(g, values, a) == field::fadd(c, gates::wire(g, values, d)),
    );
}

/// Enforces that a wire is a constant plus another wire.
pub(crate) fn floor_rule(b: &mut Builder, a: usize, d: usize, c: &Fr)
    requires
        gates::is_field(gates::recorded(*old(b)), a as nat),
        gates::is_field(gates::recorded(*old(b)), d as nat),
    ensures
        gates::recorded(*final(b)) == draw_floor(
            gates::recorded(*old(b)),
            a as nat,
            d as nat,
            c@,
        ),
        gates::assigned(*final(b)) == gates::assigned(*old(b)),
{
    let k = b.constant(c);
    let sum = b.add(k, d);
    difference_rule(b, a, sum);
}

/// The record of the rule that a constant is a wire plus another wire.
pub open spec fn draw_ceiling(g: Seq<Gate>, a: nat, d: nat, c: nat) -> Seq<Gate> {
    draw_difference(
        g.push(Gate::Constant(c)).push(Gate::Add(a, d)),
        g.len(),
        g.len() + 1,
    )
}

pub proof fn lemma_ceiling(g: Seq<Gate>, a: nat, d: nat, c: nat, values: Seq<nat>)
    requires
        gates::is_field(g, a),
        gates::is_field(g, d),
        gates::fixed(g, a) is None,
        c < field::modulus(),
    ensures
        adds(
            g,
            draw_ceiling(g, a, d, c),
            values,
            0,
            c == field::fadd(gates::wire(g, values, a), gates::wire(g, values, d)),
        ),
{
    let n = g.len();
    let h1 = g.push(Gate::Constant(c));
    let h2 = h1.push(Gate::Add(a, d));
    gadgets::lemma_constant(g, c, values);
    gates::lemma_wire_kept(g, h1, values, a);
    gates::lemma_wire_kept(g, h1, values, d);
    gadgets::lemma_add(h1, a, d, values);
    gadgets::lemma_computes_trans(g, h1, h2);
    lemma_adds_nothing(g, h2, values);
    gates::lemma_wire_kept(h1, h2, values, n);
    gates::lemma_wire_kept(h1, h2, values, a);
    assert(gates::fixed(h2, n + 1) is None);
    lemma_difference(h2, n, n + 1, values);
    lemma_adds_trans(
        g,
        h2,
        draw_ceiling(g, a, d, c),
        values,
        0,
        true,
        0,
        c == field::fadd(gates::wire(g, values, a), gates::wire(g, values, d)),
    );
}

/// Enforces that a constant is a wire plus another wire.
pub(crate) fn ceiling_rule(b: &mut Builder, a: usize, d: usize, c: &Fr)
    requires
        gates::is_field(gates::recorded(*old(b)), a as nat),
        gates::is_field(gates::recorded(*old(b)), d as nat),
    ensures
        gates::recorded(*final(b)) == draw_ceiling(
            gates::recorded(*old(b)),
            a as nat,
            d as nat,
            c@,
        ),
        gates::assigned(*final(b)) == gates::assigned(*old(b)),
{
    let k = b.constant(c);
    let sum = b.add(a, d);
    difference_rule(b, k, sum);
}

/// The rule that a wire fits the width, as an addition.
pub proof fn lemma_low(g: Seq<Gate>, a: nat, values: Seq<nat>)
    requires
        gates::is_field(g, a),
        gates::wire(g, values, a) < field::modulus(),
    ensures
        adds(
            g,
            range::draw_low(g, a),
            values,
            0,
            gates::wire(g, values, a) < range::width_bound(),
        ),
{
    range::lemma_draw_low(g, a, values);
}

/// Enforces that a variable fits the width.
pub(crate) fn low_rule(b: &mut Builder, a: usize)
    requires
        gates::is_field(gates::recorded(*old(b)), a as nat),
        gates::fixed(gates::recorded(*old(b)), a as nat) is None,
    ensures
        gates::recorded(*final(b)) == range::draw_low(gates::recorded(*old(b)), a as nat),
        gates::assigned(*final(b)) == gates::assigned(*old(b)),
{
    let r = range::enforce_low(b, a);
    assert(r is Ok);
}

/// Allocates a private variable with its value.
pub(crate) fn witness_rule(b: &mut Builder, value: Fr) -> (w: usize)
    ensures
        w == gates::recorded(*old(b)).len(),
        gates::recorded(*final(b)) == draw_witness(gates::recorded(*old(b))),
        gates::assigned(*final(b)) == gates::appended(
            gates::assigned(*old(b)),
            seq![value@],
        ),
{
    let w = b.new_witness(Some(value));
    proof {
        if let Some(v) = gates::assigned(*old(b)) {
            assert(v.push(value@) =~= v + seq![value@]);
        }
    }
    w
}

/// Allocates a public variable with its value.
pub(crate) fn input_rule(b: &mut Builder, value: Fr) -> (w: usize)
    ensures
        w == gates::recorded(*old(b)).len(),
        gates::recorded(*final(b)) == draw_input(gates::recorded(*old(b))),
        gates::assigned(*final(b)) == gates::appended(
            gates::assigned(*old(b)),
            seq![value@],
        ),
{
    let w = b.new_input(Some(value));
    proof {
        if let Some(v) = gates::assigned(*old(b)) {
            assert(v.push(value@) =~= v + seq![value@]);
        }
    }
    w
}

} // verus!
