//! Membership in a list, by the product of the differences from its members.
use crate::disclosure;
use crate::field;
use crate::field::Fr;
use crate::gadgets;
use crate::gates;
use crate::gates::{Builder, Gate};
use crate::modulus;
use crate::primes;
use crate::rules;
use vstd::arithmetic::div_mod::*;
use vstd::prelude::*;

verus! {

/// The product of the differences of a number from the first members of a list.
pub open spec fn difference_product(a: nat, members: Seq<nat>, count: nat) -> nat
    decreases count,
{
    if count == 0 {
        1
    } else {
        field::fmul(
            difference_product(a, members, (count - 1) as nat),
            field::fsub(a, members[count - 1]),
        )
    }
}

/// The record of that product, whose last wire carries it.
pub open spec fn draw_product(g: Seq<Gate>, a: nat, members: Seq<nat>, count: nat) -> Seq<Gate>
    decreases count,
{
    if count == 0 {
        g.push(Gate::Constant(1))
    } else {
        let h = draw_product(g, a, members, (count - 1) as nat);
        let n = h.len();
        h.push(Gate::Constant(members[count - 1])).push(Gate::Sub(a, n)).push(
            Gate::Mul((n - 1) as nat, n + 1),
        )
    }
}

pub proof fn lemma_product(g: Seq<Gate>, a: nat, members: Seq<nat>, count: nat, values: Seq<nat>)
    requires
        gates::is_field(g, a),
        gates::fixed(g, a) is None,
    ensures
        ({
            let h = draw_product(g, a, members, count);
            &&& gates::computes(g, h)
            &&& h.len() == g.len() + 1 + 3 * count
            &&& gates::is_field(h, (h.len() - 1) as nat)
            &&& count > 0 ==> gates::fixed(h, (h.len() - 1) as nat) is None
            &&& gates::wire(h, values, (h.len() - 1) as nat) == difference_product(
                gates::wire(g, values, a),
                members,
                count,
            )
        }),
    decreases count,
{
    if count == 0 {
        gadgets::lemma_constant(g, 1, values);
    } else {
        lemma_product(g, a, members, (count - 1) as nat, values);
        let h = draw_product(g, a, members, (count - 1) as nat);
        let n = h.len();
        let h1 = h.push(Gate::Constant(members[count - 1]));
        let h2 = h1.push(Gate::Sub(a, n));
        let h3 = h2.push(Gate::Mul((n - 1) as nat, n + 1));
        gates::lemma_wire_kept(g, h, values, a);
        gadgets::lemma_constant(h, members[count - 1], values);
        gates::lemma_wire_kept(h, h1, values, a);
        gadgets::lemma_sub(h1, a, n, values);
        gates::lemma_wire_kept(h1, h2, values, a);
        gates::lemma_wire_kept(h, h2, values, (n - 1) as nat);
        gadgets::lemma_mul(h2, (n - 1) as nat, n + 1, values);
        gates::lemma_wire_kept(h2, h3, values, (n - 1) as nat);
        gates::lemma_wire_kept(h2, h3, values, n + 1);
        gadgets::lemma_computes_trans(g, h, h1);
        gadgets::lemma_computes_trans(g, h1, h2);
        gadgets::lemma_computes_trans(g, h2, h3);
        assert(gates::fixed(h2, n + 1) is None);
    }
}

/// Multiplies the differences of a variable from the members of a list. The
/// result is the wire of the product.
pub(crate) fn product_circuit(b: &mut Builder, a: usize, members: &[Fr]) -> (w: usize)
    requires
        gates::is_field(gates::recorded(*old(b)), a as nat),
        gates::fixed(gates::recorded(*old(b)), a as nat) is None,
    ensures
        gates::recorded(*final(b)) == draw_product(
            gates::recorded(*old(b)),
            a as nat,
            field::values(members@),
            members@.len(),
        ),
        w == gates::recorded(*final(b)).len() - 1,
        gates::assigned(*final(b)) == gates::assigned(*old(b)),
{
    let ghost g = gates::recorded(*b);
    let ghost set = field::values(members@);
    let mut product = b.constant(&Fr::one());
    for i in 0..members.len()
        invariant
            g == gates::recorded(*old(b)),
            set == field::values(members@),
            gates::is_field(g, a as nat),
            gates::fixed(g, a as nat) is None,
            gates::recorded(*b) == draw_product(g, a as nat, set, i as nat),
            product == gates::recorded(*b).len() - 1,
            gates::assigned(*b) == gates::assigned(*old(b)),
    {
        let ghost h = gates::recorded(*b);
        proof {
            lemma_product(g, a as nat, set, i as nat, Seq::empty());
            assert(h[a as int] == g[a as int]);
        }
        let k = b.constant(&members[i]);
        let diff = b.sub(a, k);
        product = b.mul(product, diff);
    }
    product
}

/// A product of reduced elements is zero exactly when one of them is.
pub proof fn lemma_zero_product(x: nat, y: nat)
    requires
        x < field::modulus(),
        y < field::modulus(),
    ensures
        field::fmul(x, y) == 0 <==> x == 0 || y == 0,
{
    let p = field::modulus();
    modulus::lemma_modulus_prime();
    if field::fmul(x, y) == 0 {
        primes::lemma_euclid(p, x as int, y as int);
        lemma_small_mod(x, p);
        lemma_small_mod(y, p);
    }
    assert(x == 0 ==> x * y == 0) by (nonlinear_arith);
    assert(y == 0 ==> x * y == 0) by (nonlinear_arith);
    lemma_small_mod(0, p);
}

/// The product of differences is zero exactly for the members of the list.
pub proof fn lemma_membership(a: nat, members: Seq<nat>, count: nat)
    requires
        a < field::modulus(),
        count <= members.len(),
        disclosure::all_reduced(members),
    ensures
        difference_product(a, members, count) == 0 <==> members.take(count as int).contains(a),
    decreases count,
{
    let p = field::modulus();
    if count > 0 {
        let before = difference_product(a, members, (count - 1) as nat);
        let d = field::fsub(a, members[count - 1]);
        lemma_membership(a, members, (count - 1) as nat);
        rules::lemma_difference_zero(a, members[count - 1]);
        lemma_product_reduced(a, members, (count - 1) as nat);
        lemma_mod_bound(a - members[count - 1], p as int);
        lemma_zero_product(before, d);
        let shorter = members.take(count - 1);
        let longer = members.take(count as int);
        assert(longer =~= shorter.push(members[count - 1]));
        if shorter.contains(a) {
            let i = choose|i: int| 0 <= i < shorter.len() && shorter[i] == a;
            assert(longer[i] == a);
        }
        if longer.contains(a) && a != members[count - 1] {
            let i = choose|i: int| 0 <= i < longer.len() && longer[i] == a;
            assert(shorter[i] == a);
        }
        if a == members[count - 1] {
            assert(longer[count - 1] == a);
        }
    }
}

/// The product of differences is reduced.
pub proof fn lemma_product_reduced(a: nat, members: Seq<nat>, count: nat)
    ensures
        difference_product(a, members, count) < field::modulus(),
{
}

} // verus!
