//! Circuits that compare two wires bit by bit, as integers of 32 bits.
use crate::field;
use crate::gadgets;
use crate::gates;
use crate::gates::{Builder, Gate, SynthesisError};
use crate::range;
use crate::rules;
use vstd::arithmetic::div_mod::*;
use vstd::arithmetic::power2::*;
use vstd::prelude::*;

verus! {

/// A number without its lowest bits.
pub open spec fn high(x: nat, i: nat) -> nat {
    x / pow2(i)
}

/// A bit put behind the higher ones.
proof fn lemma_high_step(x: nat, i: nat)
    ensures
        high(x, i) == 2 * high(x, i + 1) + range::bit_of(x, i),
{
    lemma_pow2_unfold(i + 1);
    lemma_pow2_pos(i);
    lemma_div_denominator(x as int, pow2(i) as int, 2);
    assert(pow2(i) * 2 == pow2(i + 1));
    lemma_fundamental_div_mod(high(x, i) as int, 2);
}

/// The wire that tells whether the first number is over (or under) the second,
/// after some bits.
pub open spec fn over_wire(n: nat, count: nat) -> nat {
    if count == 0 {
        n
    } else {
        (n + 7 * count - 2) as nat
    }
}

/// The wire that tells whether the numbers agree so far.
pub open spec fn even_wire(n: nat, count: nat) -> nat {
    n + 1 + 7 * count
}

/// The record of comparing one more bit.
pub open spec fn draw_step(
    h: Seq<Gate>,
    ai: nat,
    ti: nat,
    over: nat,
    even: nat,
    under: bool,
) -> Seq<Gate> {
    let m = h.len();
    let inner = if under {
        h.push(Gate::Not(ai)).push(Gate::And(m, ti))
    } else {
        h.push(Gate::Not(ti)).push(Gate::And(ai, m))
    };
    inner.push(Gate::And(even, m + 1)).push(Gate::Or(over, m + 2)).push(Gate::Xor(ai, ti)).push(
        Gate::Not(m + 4),
    ).push(Gate::And(even, m + 5))
}

/// The record of comparing the highest bits of two numbers. It is asked whether
/// the first is under the second, or else whether it is over it.
pub open spec fn draw_steps(g: Seq<Gate>, fa: nat, ft: nat, under: bool, count: nat) -> Seq<Gate>
    decreases count,
{
    if count == 0 {
        g.push(Gate::Flag(false)).push(Gate::Flag(true))
    } else {
        let c = (count - 1) as nat;
        let i = (32 - count) as nat;
        draw_step(
            draw_steps(g, fa, ft, under, c),
            fa + i,
            ft + i,
            over_wire(g.len(), c),
            even_wire(g.len(), c),
            under,
        )
    }
}

/// What is known of the two wires whatever the variables are: neither is
/// decided before a variable bit is seen.
pub open spec fn undecided(
    g: Seq<Gate>,
    h: Seq<Gate>,
    a: nat,
    t: nat,
    under: bool,
    count: nat,
) -> bool {
    let over = gates::fixed(h, over_wire(g.len(), count));
    let even = gates::fixed(h, even_wire(g.len(), count));
    &&& count == 0 ==> over == Some(0nat) && even == Some(1nat)
    &&& count > 0 ==> even is None
    &&& over is None || over == Some(0nat)
    &&& under && gates::fixed(g, a) is None ==> match gates::fixed(g, t) {
        Some(c) => over is Some <==> high(c, (32 - count) as nat) == 0,
        None => count > 0 ==> over is None,
    }
}

#[verifier::spinoff_prover]
#[verifier::rlimit(60)]
proof fn lemma_steps(
    g: Seq<Gate>,
    fa: nat,
    a: nat,
    ft: nat,
    t: nat,
    under: bool,
    count: nat,
    values: Seq<nat>,
)
    requires
        range::bits_at(g, fa, a),
        range::bits_at(g, ft, t),
        gates::fixed(g, a) is None || gates::fixed(g, t) is None,
        range::fits(g, a),
        range::fits(g, t),
        count <= 32,
    ensures
        ({
            let h = draw_steps(g, fa, ft, under, count);
            let x = gates::wire(g, values, a);
            let y = gates::wire(g, values, t);
            let i = (32 - count) as nat;
            &&& gates::computes(g, h)
            &&& h.len() == g.len() + 2 + 7 * count
            &&& gates::is_bit(h, over_wire(g.len(), count))
            &&& gates::is_bit(h, even_wire(g.len(), count))
            &&& undecided(g, h, a, t, under, count)
            &&& x < range::width_bound() && y < range::width_bound() ==> {
                &&& gates::wire(h, values, over_wire(g.len(), count)) == gates::bit_value(
                    if under {
                        high(x, i) < high(y, i)
                    } else {
                        high(x, i) > high(y, i)
                    },
                )
                &&& gates::wire(h, values, even_wire(g.len(), count)) == gates::bit_value(
                    high(x, i) == high(y, i),
                )
            }
        }),
    decreases count,
{
    let n = g.len();
    let x = gates::wire(g, values, a);
    let y = gates::wire(g, values, t);
    range::lemma_modulus_bits();
    if count == 0 {
        let h1 = g.push(Gate::Flag(false));
        let h2 = h1.push(Gate::Flag(true));
        if x < range::width_bound() && y < range::width_bound() {
            lemma_basic_div(x as int, pow2(32) as int);
            lemma_basic_div(y as int, pow2(32) as int);
        }
        if let Some(c) = gates::fixed(g, t) {
            lemma_basic_div(c as int, pow2(32) as int);
        }
    } else {
        let c = (count - 1) as nat;
        let i = (32 - count) as nat;
        lemma_steps(g, fa, a, ft, t, under, c, values);
        let h = draw_steps(g, fa, ft, under, c);
        let m = h.len();
        let over = over_wire(n, c);
        let even = even_wire(n, c);
        let h1 = if under {
            h.push(Gate::Not(fa + i))
        } else {
            h.push(Gate::Not(ft + i))
        };
        let h2 = if under {
            h1.push(Gate::And(m, ft + i))
        } else {
            h1.push(Gate::And(fa + i, m))
        };
        let h3 = h2.push(Gate::And(even, m + 1));
        let h4 = h3.push(Gate::Or(over, m + 2));
        let h5 = h4.push(Gate::Xor(fa + i, ft + i));
        let h6 = h5.push(Gate::Not(m + 4));
        let h7 = h6.push(Gate::And(even, m + 5));
        assert(h7 == draw_steps(g, fa, ft, under, count));
        range::lemma_bits_at(g, fa, a, i, values);
        range::lemma_bits_at(g, ft, t, i, values);
        gates::lemma_wire_kept(g, h, values, fa + i);
        gates::lemma_wire_kept(g, h, values, ft + i);
        assert(gates::continues(h, h7));
        gates::lemma_wire_kept(h, h7, values, fa + i);
        gates::lemma_wire_kept(h, h7, values, ft + i);
        gates::lemma_wire_kept(h, h7, values, over);
        gates::lemma_wire_kept(h, h7, values, even);
        assert forall|w: int| h.len() <= w < h7.len() implies gates::is_plain_gate(
            #[trigger] h7[w],
        ) by {}
        gadgets::lemma_computes_trans(g, h, h7);
        let xb = range::bit_of(x, i);
        let yb = range::bit_of(y, i);
        assert(gates::wire(h7, values, m) == gates::bit_value(
            if under {
                xb == 0
            } else {
                yb == 0
            },
        ));
        assert(gates::wire(h7, values, m + 1) == gates::bit_value(
            if under {
                xb == 0 && yb == 1
            } else {
                xb == 1 && yb == 0
            },
        ));
        assert(gates::wire(h7, values, m + 4) == gates::bit_value(xb != yb));
        assert(gates::wire(h7, values, m + 5) == gates::bit_value(xb == yb));
        let inner = gates::wire(h7, values, m + 1);
        let before = gates::wire(h7, values, even);
        assert(gates::wire(h7, values, m + 2) == gates::bit_value(before == 1 && inner == 1));
        assert(gates::wire(h7, values, m + 3) == gates::bit_value(
            gates::wire(h7, values, over) == 1 || gates::wire(h7, values, m + 2) == 1,
        ));
        assert(gates::wire(h7, values, m + 6) == gates::bit_value(before == 1 && xb == yb));
        assert(over_wire(n, count) == m + 3);
        assert(even_wire(n, count) == m + 6);
        lemma_high_step(x, i);
        lemma_high_step(y, i);
        lemma_step_fixed(g, h, h7, fa, a, ft, t, under, count);
    }
}

proof fn lemma_step_fixed(
    g: Seq<Gate>,
    h: Seq<Gate>,
    h7: Seq<Gate>,
    fa: nat,
    a: nat,
    ft: nat,
    t: nat,
    under: bool,
    count: nat,
)
    requires
        0 < count <= 32,
        range::bits_at(g, fa, a),
        range::bits_at(g, ft, t),
        gates::continues(g, h),
        h == draw_steps(g, fa, ft, under, (count - 1) as nat),
        h7 == draw_steps(g, fa, ft, under, count),
        h.len() == g.len() + 2 + 7 * (count - 1),
        gates::fixed(g, a) is None || gates::fixed(g, t) is None,
        undecided(g, h, a, t, under, (count - 1) as nat),
    ensures
        undecided(g, h7, a, t, under, count),
{
    let c = (count - 1) as nat;
    let i = (32 - count) as nat;
    let m = h.len();
    let over = over_wire(g.len(), c);
    let even = even_wire(g.len(), c);
    let none = Seq::<nat>::empty();
    assert(gates::continues(h, h7));
    gates::lemma_continues_trans(g, h, h7);
    range::lemma_bits_at(g, fa, a, i, none);
    range::lemma_bits_at(g, ft, t, i, none);
    gates::lemma_wire_kept(g, h7, none, fa + i);
    gates::lemma_wire_kept(g, h7, none, ft + i);
    gates::lemma_wire_kept(h, h7, none, over);
    gates::lemma_wire_kept(h, h7, none, even);
    let x = gates::fixed(h7, fa + i);
    let y = gates::fixed(h7, ft + i);
    let inverted = gates::fixed(h7, m);
    assert(inverted == match if under {
        x
    } else {
        y
    } {
        Some(v) => Some(gates::bit_value(v == 0)),
        None => None::<nat>,
    });
    assert(x is None || y is None);
    let inner = gates::fixed(h7, m + 1);
    assert(over_wire(g.len(), count) == m + 3);
    assert(even_wire(g.len(), count) == m + 6);
    assert(gates::fixed(h7, m + 4) is None);
    assert(gates::fixed(h7, m + 5) is None);
    assert(inner is None || inner == Some(0nat));
    let rising = gates::fixed(h7, m + 2);
    assert(rising is None || rising == Some(0nat));
    assert(gates::fixed(h7, m + 3) is None || gates::fixed(h7, m + 3) == Some(0nat));
    assert(gates::fixed(h7, m + 3) is None <==> gates::fixed(h7, over) is None || rising is None);
    assert(gates::fixed(h7, m + 6) is None);
    if let Some(v) = gates::fixed(g, t) {
        lemma_high_step(v, i);
    }
}

/// The record of the decomposition of two wires with the rules that they fit the
/// width.
pub open spec fn draw_pair(g: Seq<Gate>, a: nat, t: nat) -> Seq<Gate> {
    let bits = g + gates::bit_gates(a) + gates::bit_gates(t);
    range::draw_zeros(range::draw_zeros(bits, g.len(), 222), g.len() + 254, 222)
}

proof fn lemma_pair(g: Seq<Gate>, a: nat, t: nat, values: Seq<nat>)
    requires
        gates::is_field(g, a),
        gates::is_field(g, t),
        gates::wire(g, values, a) < field::modulus(),
        gates::wire(g, values, t) < field::modulus(),
    ensures
        ({
            let h = draw_pair(g, a, t);
            &&& rules::adds(
                g,
                h,
                values,
                0,
                gates::wire(g, values, a) < range::width_bound() && gates::wire(g, values, t)
                    < range::width_bound(),
            )
            &&& range::bits_at(h, g.len(), a)
            &&& range::bits_at(h, g.len() + 254, t)
        }),
{
    let n = g.len();
    let x = gates::wire(g, values, a);
    let y = gates::wire(g, values, t);
    let h1 = g + gates::bit_gates(a);
    let h2 = h1 + gates::bit_gates(t);
    let h3 = range::draw_zeros(h2, n, 222);
    let h4 = range::draw_zeros(h3, n + 254, 222);
    range::lemma_bit_gates(g, a);
    range::lemma_bit_gates(h1, t);
    gadgets::lemma_computes_trans(g, h1, h2);
    rules::lemma_adds_nothing(g, h2, values);
    range::lemma_bits_at_kept(h1, h2, n, a);
    gates::lemma_wire_kept(g, h2, values, a);
    gates::lemma_wire_kept(g, h2, values, t);
    range::lemma_draw_zeros(h2, n, a, 222, values);
    range::lemma_bits_at_kept(h2, h3, n, a);
    range::lemma_bits_at_kept(h2, h3, n + 254, t);
    gates::lemma_wire_kept(h2, h3, values, t);
    range::lemma_draw_zeros(h3, n + 254, t, 222, values);
    range::lemma_bits_at_kept(h3, h4, n, a);
    range::lemma_bits_at_kept(h3, h4, n + 254, t);
    range::lemma_high_bits(x);
    range::lemma_high_bits(y);
    rules::lemma_adds_trans(g, h2, h3, values, 0, true, 0, x < range::width_bound());
    rules::lemma_adds_trans(
        g,
        h3,
        h4,
        values,
        0,
        x < range::width_bound(),
        0,
        y < range::width_bound(),
    );
}

/// The record of the rule that a wire is at least another.
pub open spec fn draw_gte(g: Seq<Gate>, a: nat, t: nat) -> Seq<Gate> {
    let low = draw_pair(g, a, t);
    let s = draw_steps(low, g.len(), g.len() + 254, false, 32);
    s.push(Gate::Or(over_wire(low.len(), 32), even_wire(low.len(), 32))).push(
        Gate::Flag(true),
    ).push(Gate::Same(s.len(), s.len() + 1))
}

/// Two wires that can be compared: not both are constants, and constants fit.
pub open spec fn comparable(g: Seq<Gate>, a: nat, t: nat) -> bool {
    &&& gates::is_field(g, a)
    &&& gates::is_field(g, t)
    &&& gates::fixed(g, a) is None || gates::fixed(g, t) is None
    &&& range::fits(g, a)
    &&& range::fits(g, t)
}

/// The rule is met exactly by numbers of 32 bits in this order.
pub proof fn lemma_gte(g: Seq<Gate>, a: nat, t: nat, values: Seq<nat>)
    requires
        comparable(g, a, t),
        gates::wire(g, values, a) < field::modulus(),
        gates::wire(g, values, t) < field::modulus(),
    ensures
        rules::adds(
            g,
            draw_gte(g, a, t),
            values,
            0,
            gates::wire(g, values, t) <= gates::wire(g, values, a) < range::width_bound(),
        ),
{
    let n = g.len();
    let x = gates::wire(g, values, a);
    let y = gates::wire(g, values, t);
    let low = draw_pair(g, a, t);
    lemma_pair(g, a, t, values);
    gates::lemma_wire_kept(g, low, values, a);
    gates::lemma_wire_kept(g, low, values, t);
    let s = draw_steps(low, n, n + 254, false, 32);
    lemma_steps(low, n, a, n + 254, t, false, 32, values);
    let over = over_wire(low.len(), 32);
    let even = even_wire(low.len(), 32);
    let h1 = s.push(Gate::Or(over, even));
    let h2 = h1.push(Gate::Flag(true));
    gates::lemma_wire_kept(s, h1, values, over);
    gates::lemma_wire_kept(s, h1, values, even);
    gates::lemma_wire_kept(h1, h2, values, s.len());
    gadgets::lemma_computes_trans(low, s, h1);
    gadgets::lemma_computes_trans(low, h1, h2);
    rules::lemma_adds_nothing(low, h2, values);
    gates::lemma_same(h2, s.len(), s.len() + 1, values);
    gates::lemma_push(h2, Gate::Same(s.len(), s.len() + 1), values);
    let inside = x < range::width_bound() && y < range::width_bound();
    let met = gates::wire(h2, values, s.len()) == 1;
    assert(inside ==> (met <==> y <= x)) by {
        lemma2_to64();
        assert(high(x, 0) == x && high(y, 0) == y);
    }
    rules::lemma_adds_trans(g, low, h2, values, 0, inside, 0, true);
    rules::lemma_adds_trans(g, h2, draw_gte(g, a, t), values, 0, inside, 0, met);
}

/// The record of the rule that a wire is below another.
pub open spec fn draw_lt(g: Seq<Gate>, a: nat, t: nat) -> Seq<Gate> {
    let low = draw_pair(g, a, t);
    let s = draw_steps(low, g.len(), g.len() + 254, true, 32);
    s.push(Gate::Flag(true)).push(Gate::Same(over_wire(low.len(), 32), s.len()))
}

/// The rule is met exactly by numbers of 32 bits in this order.
pub proof fn lemma_lt(g: Seq<Gate>, a: nat, t: nat, values: Seq<nat>)
    requires
        comparable(g, a, t),
        gates::wire(g, values, a) < field::modulus(),
        gates::wire(g, values, t) < field::modulus(),
    ensures
        rules::adds(
            g,
            draw_lt(g, a, t),
            values,
            0,
            gates::wire(g, values, a) < gates::wire(g, values, t) < range::width_bound(),
        ),
{
    let n = g.len();
    let x = gates::wire(g, values, a);
    let y = gates::wire(g, values, t);
    let low = draw_pair(g, a, t);
    lemma_pair(g, a, t, values);
    gates::lemma_wire_kept(g, low, values, a);
    gates::lemma_wire_kept(g, low, values, t);
    let s = draw_steps(low, n, n + 254, true, 32);
    lemma_steps(low, n, a, n + 254, t, true, 32, values);
    let over = over_wire(low.len(), 32);
    let h1 = s.push(Gate::Flag(true));
    gates::lemma_wire_kept(s, h1, values, over);
    gadgets::lemma_computes_trans(low, s, h1);
    rules::lemma_adds_nothing(low, h1, values);
    gates::lemma_same(h1, over, s.len(), values);
    gates::lemma_push(h1, Gate::Same(over, s.len()), values);
    let inside = x < range::width_bound() && y < range::width_bound();
    let met = gates::wire(h1, values, over) == 1;
    assert(inside ==> (met <==> x < y)) by {
        lemma2_to64();
        assert(high(x, 0) == x && high(y, 0) == y);
    }
    rules::lemma_adds_trans(g, low, h1, values, 0, inside, 0, true);
    rules::lemma_adds_trans(g, h1, draw_lt(g, a, t), values, 0, inside, 0, met);
}

/// Decomposes two wires and enforces that they fit the width. Constants that do
/// not are refused.
fn enforce_pair(b: &mut Builder, a: usize, t: usize) -> (r: Result<(usize, usize), SynthesisError>)
    requires
        gates::is_field(gates::recorded(*old(b)), a as nat),
        gates::is_field(gates::recorded(*old(b)), t as nat),
        gates::fixed(gates::recorded(*old(b)), a as nat) matches Some(c) ==> c < field::modulus(),
        gates::fixed(gates::recorded(*old(b)), t as nat) matches Some(c) ==> c < field::modulus(),
    ensures
        r is Ok <==> range::fits(gates::recorded(*old(b)), a as nat) && range::fits(
            gates::recorded(*old(b)),
            t as nat,
        ),
        r matches Err(e) ==> e == SynthesisError::AssignmentMissing,
        r matches Ok(first) ==> {
            &&& first.0 == gates::recorded(*old(b)).len()
            &&& first.1 == gates::recorded(*old(b)).len() + 254
            &&& gates::recorded(*final(b)) == draw_pair(
                gates::recorded(*old(b)),
                a as nat,
                t as nat,
            )
            &&& gates::assigned(*final(b)) == gates::assigned(*old(b))
        },
{
    let ghost g = gates::recorded(*b);
    let ghost none = Seq::<nat>::empty();
    let fa = b.to_bits_le(a);
    let ghost h1 = gates::recorded(*b);
    proof {
        range::lemma_bit_gates(g, a as nat);
        assert(h1[t as int] == g[t as int]);
    }
    let ft = b.to_bits_le(t);
    let ghost h2 = gates::recorded(*b);
    proof {
        range::lemma_bit_gates(h1, t as nat);
        range::lemma_bits_at_kept(h1, h2, fa as nat, a as nat);
        gates::lemma_continues_trans(g, h1, h2);
        gates::lemma_wire_kept(g, h2, none, a as nat);
        gates::lemma_wire_kept(g, h2, none, t as nat);
    }
    match range::enforce_zeros(b, fa, Ghost(a as nat)) {
        Ok(_) => {},
        Err(e) => {
            return Err(e);
        },
    }
    let ghost h3 = gates::recorded(*b);
    proof {
        range::lemma_zeros_continue(h2, fa as nat, 222);
        range::lemma_bits_at_kept(h2, h3, ft as nat, t as nat);
        gates::lemma_wire_kept(h2, h3, none, t as nat);
    }
    match range::enforce_zeros(b, ft, Ghost(t as nat)) {
        Ok(_) => {},
        Err(e) => {
            return Err(e);
        },
    }
    Ok((fa, ft))
}

/// Compares one more bit.
fn compare_step(b: &mut Builder, ai: usize, ti: usize, over: usize, even: usize, under: bool) -> (r:
    (usize, usize))
    requires
        gates::is_bit(gates::recorded(*old(b)), ai as nat),
        gates::is_bit(gates::recorded(*old(b)), ti as nat),
        gates::is_bit(gates::recorded(*old(b)), over as nat),
        gates::is_bit(gates::recorded(*old(b)), even as nat),
    ensures
        gates::recorded(*final(b)) == draw_step(
            gates::recorded(*old(b)),
            ai as nat,
            ti as nat,
            over as nat,
            even as nat,
            under,
        ),
        r.0 == gates::recorded(*old(b)).len() + 3,
        r.1 == gates::recorded(*old(b)).len() + 6,
        gates::assigned(*final(b)) == gates::assigned(*old(b)),
{
    let inner = if under {
        let inverted = b.not(ai);
        b.and(inverted, ti)
    } else {
        let inverted = b.not(ti);
        b.and(ai, inverted)
    };
    let rising = b.and(even, inner);
    let next_over = b.or(over, rising);
    let differ = b.xor(ai, ti);
    let agree = b.not(differ);
    let next_even = b.and(even, agree);
    (next_over, next_even)
}

/// Compares two decomposed wires from the highest bit on.
fn compared(b: &mut Builder, fa: usize, ft: usize, under: bool, Ghost(a): Ghost<nat>, Ghost(t):
    Ghost<nat>) -> (r: (usize, usize))
    requires
        range::bits_at(gates::recorded(*old(b)), fa as nat, a),
        range::bits_at(gates::recorded(*old(b)), ft as nat, t),
        gates::fixed(gates::recorded(*old(b)), a) is None || gates::fixed(
            gates::recorded(*old(b)),
            t,
        ) is None,
        range::fits(gates::recorded(*old(b)), a),
        range::fits(gates::recorded(*old(b)), t),
    ensures
        gates::recorded(*final(b)) == draw_steps(
            gates::recorded(*old(b)),
            fa as nat,
            ft as nat,
            under,
            32,
        ),
        r.0 == over_wire(gates::recorded(*old(b)).len(), 32),
        r.1 == even_wire(gates::recorded(*old(b)).len(), 32),
        gates::assigned(*final(b)) == gates::assigned(*old(b)),
{
    let ghost g = gates::recorded(*b);
    let mut over = b.flag(false);
    let mut even = b.flag(true);
    for c in 0..32usize
        invariant
            g == gates::recorded(*old(b)),
            range::bits_at(g, fa as nat, a),
            range::bits_at(g, ft as nat, t),
            gates::fixed(g, a) is None || gates::fixed(g, t) is None,
            range::fits(g, a),
            range::fits(g, t),
            gates::recorded(*b) == draw_steps(g, fa as nat, ft as nat, under, c as nat),
            over == over_wire(g.len(), c as nat),
            even == even_wire(g.len(), c as nat),
            gates::assigned(*b) == gates::assigned(*old(b)),
    {
        let i = 31 - c;
        let ghost h = gates::recorded(*b);
        proof {
            lemma_steps(g, fa as nat, a, ft as nat, t, under, c as nat, Seq::empty());
            range::lemma_bits_at(g, fa as nat, a, i as nat, Seq::empty());
            range::lemma_bits_at(g, ft as nat, t, i as nat, Seq::empty());
            assert(h[(fa + i) as int] == g[(fa + i) as int]);
            assert(h[(ft + i) as int] == g[(ft + i) as int]);
            assert(even < h.len());
        }
        let next = compare_step(b, fa + i, ft + i, over, even, under);
        over = next.0;
        even = next.1;
    }
    (over, even)
}

/// Enforces that a wire is at least another, as integers of 32 bits. Constants
/// that do not fit are refused.
pub(crate) fn enforce_gte(b: &mut Builder, a: usize, t: usize) -> (r: Result<(), SynthesisError>)
    requires
        gates::is_field(gates::recorded(*old(b)), a as nat),
        gates::is_field(gates::recorded(*old(b)), t as nat),
        gates::fixed(gates::recorded(*old(b)), a as nat) is None || gates::fixed(
            gates::recorded(*old(b)),
            t as nat,
        ) is None,
        gates::fixed(gates::recorded(*old(b)), a as nat) matches Some(c) ==> c < field::modulus(),
        gates::fixed(gates::recorded(*old(b)), t as nat) matches Some(c) ==> c < field::modulus(),
    ensures
        r is Ok <==> comparable(gates::recorded(*old(b)), a as nat, t as nat),
        r matches Err(e) ==> e == SynthesisError::AssignmentMissing,
        r is Ok ==> {
            &&& gates::recorded(*final(b)) == draw_gte(
                gates::recorded(*old(b)),
                a as nat,
                t as nat,
            )
            &&& gates::assigned(*final(b)) == gates::assigned(*old(b))
        },
{
    let ghost g = gates::recorded(*b);
    let (fa, ft) = match enforce_pair(b, a, t) {
        Ok(first) => first,
        Err(e) => {
            return Err(e);
        },
    };
    let ghost low = gates::recorded(*b);
    proof {
        lemma_pair_shape(g, a as nat, t as nat);
    }
    let (over, even) = compared(b, fa, ft, false, Ghost(a as nat), Ghost(t as nat));
    let ghost s = gates::recorded(*b);
    proof {
        lemma_steps(
            low,
            fa as nat,
            a as nat,
            ft as nat,
            t as nat,
            false,
            32,
            Seq::empty(),
        );
    }
    let result = b.or(over, even);
    let ghost h1 = gates::recorded(*b);
    let truth = b.flag(true);
    proof {
        let h2 = gates::recorded(*b);
        gates::lemma_wire_kept(s, h1, Seq::empty(), over as nat);
        gates::lemma_wire_kept(s, h1, Seq::empty(), even as nat);
        assert(gates::fixed(h1, result as nat) is None);
        gates::lemma_wire_kept(h1, h2, Seq::empty(), result as nat);
    }
    b.enforce_same(result, truth)
}

/// Enforces that a wire is at most another.
pub(crate) fn enforce_lte(b: &mut Builder, a: usize, t: usize) -> (r: Result<(), SynthesisError>)
    requires
        gates::is_field(gates::recorded(*old(b)), a as nat),
        gates::is_field(gates::recorded(*old(b)), t as nat),
        gates::fixed(gates::recorded(*old(b)), a as nat) is None || gates::fixed(
            gates::recorded(*old(b)),
            t as nat,
        ) is None,
        gates::fixed(gates::recorded(*old(b)), a as nat) matches Some(c) ==> c < field::modulus(),
        gates::fixed(gates::recorded(*old(b)), t as nat) matches Some(c) ==> c < field::modulus(),
    ensures
        r is Ok <==> comparable(gates::recorded(*old(b)), t as nat, a as nat),
        r matches Err(e) ==> e == SynthesisError::AssignmentMissing,
        r is Ok ==> {
            &&& gates::recorded(*final(b)) == draw_gte(
                gates::recorded(*old(b)),
                t as nat,
                a as nat,
            )
            &&& gates::assigned(*final(b)) == gates::assigned(*old(b))
        },
{
    enforce_gte(b, t, a)
}

/// Enforces that a variable is below another wire, as integers of 32 bits.
/// Constants that do not fit are refused, and so is zero, as nothing is below it.
pub(crate) fn enforce_lt(b: &mut Builder, a: usize, t: usize) -> (r: Result<(), SynthesisError>)
    requires
        gates::is_field(gates::recorded(*old(b)), a as nat),
        gates::is_field(gates::recorded(*old(b)), t as nat),
        gates::fixed(gates::recorded(*old(b)), a as nat) is None,
        gates::fixed(gates::recorded(*old(b)), t as nat) matches Some(c) ==> c < field::modulus(),
    ensures
        r is Ok <==> comparable(gates::recorded(*old(b)), a as nat, t as nat) && gates::fixed(
            gates::recorded(*old(b)),
            t as nat,
        ) != Some(0nat),
        r matches Err(e) ==> e == SynthesisError::AssignmentMissing,
        r is Ok ==> {
            &&& gates::recorded(*final(b)) == draw_lt(
                gates::recorded(*old(b)),
                a as nat,
                t as nat,
            )
            &&& gates::assigned(*final(b)) == gates::assigned(*old(b))
        },
{
    let ghost g = gates::recorded(*b);
    let (fa, ft) = match enforce_pair(b, a, t) {
        Ok(first) => first,
        Err(e) => {
            return Err(e);
        },
    };
    let ghost low = gates::recorded(*b);
    proof {
        lemma_pair_shape(g, a as nat, t as nat);
    }
    let (over, _) = compared(b, fa, ft, true, Ghost(a as nat), Ghost(t as nat));
    let ghost s = gates::recorded(*b);
    proof {
        lemma_steps(
            low,
            fa as nat,
            a as nat,
            ft as nat,
            t as nat,
            true,
            32,
            Seq::empty(),
        );
    }
    let truth = b.flag(true);
    proof {
        lemma2_to64();
        gates::lemma_wire_kept(s, gates::recorded(*b), Seq::empty(), over as nat);
        if let Some(c) = gates::fixed(low, t as nat) {
            assert(high(c, 0) == c);
        }
    }
    b.enforce_same(over, truth)
}

proof fn lemma_pair_shape(g: Seq<Gate>, a: nat, t: nat)
    requires
        a < g.len(),
        t < g.len(),
    ensures
        ({
            let h = draw_pair(g, a, t);
            &&& gates::continues(g, h)
            &&& range::bits_at(h, g.len(), a)
            &&& range::bits_at(h, g.len() + 254, t)
            &&& gates::fixed(h, a) == gates::fixed(g, a)
            &&& gates::fixed(h, t) == gates::fixed(g, t)
        }),
{
    let n = g.len();
    let h1 = g + gates::bit_gates(a);
    let h2 = h1 + gates::bit_gates(t);
    let h3 = range::draw_zeros(h2, n, 222);
    let h4 = range::draw_zeros(h3, n + 254, 222);
    range::lemma_bit_gates(g, a);
    range::lemma_bit_gates(h1, t);
    range::lemma_zeros_continue(h2, n, 222);
    range::lemma_zeros_continue(h3, n + 254, 222);
    gates::lemma_continues_trans(h2, h3, h4);
    gates::lemma_continues_trans(h1, h2, h4);
    gates::lemma_continues_trans(g, h1, h4);
    range::lemma_bits_at_kept(h1, h4, n, a);
    range::lemma_bits_at_kept(h2, h4, n + 254, t);
    gates::lemma_wire_kept(g, h4, Seq::empty(), a);
    gates::lemma_wire_kept(g, h4, Seq::empty(), t);
}

/// The record of a comparison continues what was there.
pub proof fn lemma_gte_continues(g: Seq<Gate>, a: nat, t: nat)
    requires
        comparable(g, a, t),
    ensures
        gates::continues(g, draw_gte(g, a, t)),
{
    let low = draw_pair(g, a, t);
    lemma_pair_shape(g, a, t);
    let s = draw_steps(low, g.len(), g.len() + 254, false, 32);
    lemma_steps(low, g.len(), a, g.len() + 254, t, false, 32, Seq::empty());
    gates::lemma_continues_trans(g, low, s);
    gates::lemma_continues_trans(g, s, draw_gte(g, a, t));
}

} // verus!
