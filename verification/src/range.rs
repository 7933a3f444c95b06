//! Circuits that compare field elements as 32-bit integers.
use crate::field;
use crate::gadgets;
use crate::gates;
use crate::gates::{Builder, Gate, SynthesisError};
use vstd::arithmetic::div_mod::*;
use vstd::arithmetic::mul::*;
use vstd::arithmetic::power2::*;
use vstd::prelude::*;

verus! {

/// The width of the integers that comparisons work on.
pub const MAX_BIT_WIDTH: usize = 32;

/// The first number that has more than 32 bits.
pub open spec fn width_bound() -> nat {
    0x1_0000_0000nat
}

// Numbers and their bits.

pub open spec fn bit_of(x: nat, i: nat) -> nat {
    (x / pow2(i)) % 2
}

/// A number with no bit set below its width is zero.
proof fn lemma_no_bits(x: nat, n: nat)
    requires
        x < pow2(n),
        forall|i: nat| i < n ==> #[trigger] bit_of(x, i) == 0,
    ensures
        x == 0,
    decreases n,
{
    lemma_pow2(0);
    assert(pow2(0) == 1) by {
        lemma2_to64();
    }
    if n > 0 {
        assert(bit_of(x, 0) == 0);
        assert(x % 2 == 0);
        lemma_pow2_unfold(n);
        let y = x / 2;
        assert forall|i: nat| i < (n - 1) as nat implies #[trigger] bit_of(y, i) == 0 by {
            lemma_pow2_unfold(i + 1);
            lemma_pow2_pos(i);
            lemma_div_denominator(x as int, 2, pow2(i) as int);
            assert(bit_of(x, i + 1) == 0);
        }
        lemma_no_bits(y, (n - 1) as nat);
    }
}

/// The modulus has 254 bits.
pub proof fn lemma_modulus_bits()
    ensures
        field::modulus() <= pow2(254),
        pow2(32) == width_bound(),
{
    lemma2_to64();
    lemma2_to64_rest();
    lemma_pow2_adds(64, 64);
    lemma_pow2_adds(128, 64);
    lemma_pow2_adds(192, 62);
    assert(pow2(128) == 0x1_0000_0000_0000_0000nat * 0x1_0000_0000_0000_0000nat);
    assert(pow2(192) == 0x1_0000_0000_0000_0000_0000_0000_0000_0000nat
        * 0x1_0000_0000_0000_0000nat);
    assert(pow2(254)
        == 0x1_0000_0000_0000_0000_0000_0000_0000_0000_0000_0000_0000_0000nat
        * 0x4000_0000_0000_0000nat);
}

/// A field element is below the bound when its bits from the width on are zero.
pub proof fn lemma_high_bits(x: nat)
    requires
        x < field::modulus(),
    ensures
        x < width_bound() <==> (forall|i: nat| 32 <= i < 254 ==> #[trigger] bit_of(x, i) == 0),
{
    lemma_modulus_bits();
    if x < width_bound() {
        assert forall|i: nat| 32 <= i < 254 implies #[trigger] bit_of(x, i) == 0 by {
            if i > 32 {
                lemma_pow2_strictly_increases(32, i);
            }
            lemma_basic_div(x as int, pow2(i) as int);
        }
    }
    if forall|i: nat| 32 <= i < 254 ==> #[trigger] bit_of(x, i) == 0 {
        let y = x / width_bound();
        lemma_pow2_adds(32, 222);
        assert(y < pow2(222)) by {
            lemma_fundamental_div_mod(x as int, width_bound() as int);
            lemma_pow2_pos(222);
            assert(y < pow2(222)) by (nonlinear_arith)
                requires
                    x < width_bound() * pow2(222),
                    x == width_bound() * y + x % width_bound(),
                    x % width_bound() >= 0,
                    width_bound() > 0,
            ;
        }
        assert forall|i: nat| i < 222 implies #[trigger] bit_of(y, i) == 0 by {
            lemma_pow2_adds(32, i);
            lemma_pow2_pos(i);
            lemma_div_denominator(x as int, width_bound() as int, pow2(i) as int);
            assert(bit_of(x, 32 + i) == 0);
        }
        lemma_no_bits(y, 222);
        lemma_fundamental_div_mod(x as int, width_bound() as int);
        lemma_mod_bound(x as int, width_bound() as int);
    }
}

// The rule that a field element fits the width.

/// The record of `count` rules that bits from the width on are zero.
pub open spec fn draw_zeros(g: Seq<Gate>, first: nat, count: nat) -> Seq<Gate>
    decreases count,
{
    if count == 0 {
        g
    } else {
        let h = draw_zeros(g, first, (count - 1) as nat);
        h.push(Gate::Flag(false)).push(Gate::Same((first + 32 + count - 1) as nat, h.len()))
    }
}

/// The wires `first`, `first + 1` and so on are the bits of `a`.
pub open spec fn bits_at(g: Seq<Gate>, first: nat, a: nat) -> bool {
    &&& a < first
    &&& first + 254 <= g.len()
    &&& forall|i: nat| i < 254 ==> g[#[trigger] (first + i) as int] == Gate::Bit(a, i)
}

pub proof fn lemma_bits_at(g: Seq<Gate>, first: nat, a: nat, i: nat, values: Seq<nat>)
    requires
        bits_at(g, first, a),
        i < 254,
    ensures
        gates::is_bit(g, first + i),
        gates::wire(g, values, first + i) == bit_of(gates::wire(g, values, a), i),
        gates::fixed(g, first + i) == match gates::fixed(g, a) {
            Some(c) => Some(bit_of(c, i)),
            None => None::<nat>,
        },
{
    assert(g[(first + i) as int] == Gate::Bit(a, i));
}

pub proof fn lemma_bits_at_kept(g: Seq<Gate>, h: Seq<Gate>, first: nat, a: nat)
    requires
        gates::continues(g, h),
        bits_at(g, first, a),
    ensures
        bits_at(h, first, a),
{
    assert forall|i: nat| i < 254 implies h[#[trigger] (first + i) as int] == Gate::Bit(a, i) by {
        assert(g[(first + i) as int] == Gate::Bit(a, i));
    }
}

pub proof fn lemma_draw_zeros(g: Seq<Gate>, first: nat, a: nat, count: nat, values: Seq<nat>)
    requires
        bits_at(g, first, a),
        count <= 222,
    ensures
        ({
            let h = draw_zeros(g, first, count);
            &&& gates::continues(g, h)
            &&& gates::allocations(h) == gates::allocations(g)
            &&& gates::public_values(h, values) == gates::public_values(g, values)
            &&& gates::holds(h, values) <==> gates::holds(g, values) && forall|i: nat|
                32 <= i < 32 + count ==> #[trigger] bit_of(gates::wire(g, values, a), i) == 0
        }),
    decreases count,
{
    if count > 0 {
        let h = draw_zeros(g, first, (count - 1) as nat);
        lemma_draw_zeros(g, first, a, (count - 1) as nat, values);
        let k = (32 + count - 1) as nat;
        let w = (first + k) as nat;
        let h1 = h.push(Gate::Flag(false));
        let h2 = h1.push(Gate::Same(w, h.len()));
        assert(h2 == draw_zeros(g, first, count));
        lemma_bits_at_kept(g, h, first, a);
        lemma_bits_at_kept(h, h2, first, a);
        gates::lemma_wire_kept(g, h2, values, a);
        lemma_bits_at(h2, first, a, k, values);
        gates::lemma_holds_continued(h, h2, values);
        gates::lemma_push(h, Gate::Flag(false), values);
        gates::lemma_push(h1, Gate::Same(w, h.len()), values);
        assert(gates::wire(h2, values, h.len()) == 0);
        assert(gates::rule_met(h2, values, h.len()));
        assert(gates::rule_met(h2, values, h.len() + 1) <==> bit_of(
            gates::wire(g, values, a),
            k,
        ) == 0);
        if gates::holds(h2, values) {
            assert(gates::rule_met(h2, values, h.len() + 1));
            assert forall|i: nat| 32 <= i < 32 + count implies #[trigger] bit_of(
                gates::wire(g, values, a),
                i,
            ) == 0 by {
                if i == k {
                }
            }
        }
        if gates::holds(g, values) && forall|i: nat|
            32 <= i < 32 + count ==> #[trigger] bit_of(gates::wire(g, values, a), i) == 0 {
            assert(bit_of(gates::wire(g, values, a), k) == 0);
            assert forall|x: nat| h.len() <= x < h2.len() implies #[trigger] gates::rule_met(
                h2,
                values,
                x,
            ) by {
                if x == h.len() {
                } else {
                    assert(x == h.len() + 1);
                }
            }
        }
    }
}

/// The record of the decomposition of a wire with the rule that it fits the
/// width.
pub open spec fn draw_low(g: Seq<Gate>, a: nat) -> Seq<Gate> {
    draw_zeros(g + gates::bit_gates(a), g.len(), 222)
}

/// Under every assignment the rules are met by a wire below the bound and by no
/// other.
pub proof fn lemma_draw_low(g: Seq<Gate>, a: nat, values: Seq<nat>)
    requires
        gates::is_field(g, a),
        gates::wire(g, values, a) < field::modulus(),
    ensures
        ({
            let h = draw_low(g, a);
            &&& gates::continues(g, h)
            &&& bits_at(h, g.len(), a)
            &&& gates::allocations(h) == gates::allocations(g)
            &&& gates::public_values(h, values) == gates::public_values(g, values)
            &&& gates::holds(h, values) <==> gates::holds(g, values) && gates::wire(g, values, a)
                < width_bound()
        }),
{
    let h = g + gates::bit_gates(a);
    lemma_bit_gates(g, a);
    gates::lemma_computes(g, h, values);
    gates::lemma_wire_kept(g, h, values, a);
    lemma_draw_zeros(h, g.len(), a, 222, values);
    lemma_bits_at_kept(h, draw_low(g, a), g.len(), a);
    lemma_high_bits(gates::wire(g, values, a));
    assert forall|w: int| 0 <= w < g.len() implies #[trigger] draw_low(g, a)[w] == g[w] by {
        assert(h[w] == g[w]);
    }
}

/// The record of the rule continues the one before it.
pub proof fn lemma_low_continues(g: Seq<Gate>, a: nat)
    ensures
        gates::continues(g, draw_low(g, a)),
{
    lemma_zeros_continue(g + gates::bit_gates(a), g.len(), 222);
    gates::lemma_continues_trans(g, g + gates::bit_gates(a), draw_low(g, a));
}

pub proof fn lemma_zeros_continue(g: Seq<Gate>, first: nat, count: nat)
    ensures
        gates::continues(g, draw_zeros(g, first, count)),
    decreases count,
{
    if count > 0 {
        let h = draw_zeros(g, first, (count - 1) as nat);
        lemma_zeros_continue(g, first, (count - 1) as nat);
        gates::lemma_continues_trans(g, h, draw_zeros(g, first, count));
    }
}

pub proof fn lemma_bit_gates(g: Seq<Gate>, a: nat)
    requires
        a < g.len(),
    ensures
        gates::computes(g, g + gates::bit_gates(a)),
        bits_at(g + gates::bit_gates(a), g.len(), a),
{
    let h = g + gates::bit_gates(a);
    assert forall|i: nat| i < 254 implies h[#[trigger] (g.len() + i) as int] == Gate::Bit(
        a,
        i,
    ) by {}
    assert forall|w: int| g.len() <= w < h.len() implies gates::is_plain_gate(#[trigger] h[w]) by {
        assert(h[w] == gates::bit_gates(a)[w - g.len()]);
    }
}

/// Whether a wire can be decomposed into the width: a constant must fit.
pub open spec fn fits(g: Seq<Gate>, a: nat) -> bool {
    match gates::fixed(g, a) {
        Some(c) => c < width_bound(),
        None => true,
    }
}

/// Enforces that the bits of a wire from the width on are zero. A constant that
/// does not fit is refused.
pub(crate) fn enforce_zeros(b: &mut Builder, first: usize, Ghost(a): Ghost<nat>) -> (r: Result<
    (),
    SynthesisError,
>)
    requires
        bits_at(gates::recorded(*old(b)), first as nat, a),
        gates::fixed(gates::recorded(*old(b)), a) matches Some(c) ==> c < field::modulus(),
    ensures
        r is Ok <==> fits(gates::recorded(*old(b)), a),
        r matches Err(e) ==> e == SynthesisError::AssignmentMissing,
        r is Ok ==> {
            &&& gates::recorded(*final(b)) == draw_zeros(
                gates::recorded(*old(b)),
                first as nat,
                222,
            )
            &&& gates::assigned(*final(b)) == gates::assigned(*old(b))
        },
{
    let ghost h = gates::recorded(*b);
    let ghost c = gates::fixed(h, a);
    proof {
        if let Some(v) = c {
            lemma_high_bits(v);
        }
    }
    for i in MAX_BIT_WIDTH..gates::FIELD_BITS
        invariant
            gates::recorded(*b) == draw_zeros(h, first as nat, (i - 32) as nat),
            gates::assigned(*b) == gates::assigned(*old(b)),
            bits_at(h, first as nat, a),
            h == gates::recorded(*old(b)),
            c == gates::fixed(h, a),
            c matches Some(v) ==> v < field::modulus(),
            c matches Some(v) ==> forall|k: nat| 32 <= k < i ==> #[trigger] bit_of(v, k) == 0,
            fits(h, a) <==> (c matches Some(v) ==> forall|k: nat|
                32 <= k < 254 ==> #[trigger] bit_of(v, k) == 0),
    {
        let ghost before = gates::recorded(*b);
        proof {
            lemma_draw_zeros(h, first as nat, a, (i - 32) as nat, Seq::empty());
            lemma_bits_at_kept(h, before, first as nat, a);
            lemma_bits_at(before, first as nat, a, i as nat, Seq::empty());
            gates::lemma_wire_kept(h, before, Seq::empty(), a);
            gates::lemma_wire_kept(h, before, Seq::empty(), (first + i) as nat);
        }
        let zero = b.flag(false);
        let ghost after = gates::recorded(*b);
        proof {
            gates::lemma_wire_kept(before, after, Seq::empty(), (first + i) as nat);
            assert(gates::fixed(after, zero as nat) == Some(0nat));
        }
        assert(first + i < before.len());
        match b.enforce_same(first + i, zero) {
            Err(e) => {
                proof {
                    assert(bit_of(c->0, i as nat) != 0);
                }
                return Err(e);
            },
            Ok(_) => {},
        }
    }
    Ok(())
}

/// Decomposes a wire and enforces that it fits the width. The result is the
/// wire of the lowest bit. A constant that does not fit is refused.
pub(crate) fn enforce_low(b: &mut Builder, a: usize) -> (r: Result<usize, SynthesisError>)
    requires
        gates::is_field(gates::recorded(*old(b)), a as nat),
        gates::fixed(gates::recorded(*old(b)), a as nat) matches Some(c) ==> c < field::modulus(),
    ensures
        r is Ok <==> fits(gates::recorded(*old(b)), a as nat),
        r matches Err(e) ==> e == SynthesisError::AssignmentMissing,
        r matches Ok(first) ==> {
            &&& first == gates::recorded(*old(b)).len()
            &&& gates::recorded(*final(b)) == draw_low(gates::recorded(*old(b)), a as nat)
            &&& gates::assigned(*final(b)) == gates::assigned(*old(b))
        },
{
    let ghost g = gates::recorded(*b);
    let first = b.to_bits_le(a);
    proof {
        lemma_bit_gates(g, a as nat);
        gates::lemma_wire_kept(g, gates::recorded(*b), Seq::empty(), a as nat);
    }
    match enforce_zeros(b, first, Ghost(a as nat)) {
        Ok(_) => Ok(first),
        Err(e) => Err(e),
    }
}

// The rule that a number of 32 bits is not zero.

/// The record of the conjunction of the negations of the first bits. Its last
/// wire carries it.
pub open spec fn draw_none(g: Seq<Gate>, first: nat, count: nat) -> Seq<Gate>
    decreases count,
{
    if count == 0 {
        g.push(Gate::Flag(true))
    } else {
        let h = draw_none(g, first, (count - 1) as nat);
        h.push(Gate::Not((first + count - 1) as nat)).push(
            Gate::And((h.len() - 1) as nat, h.len()),
        )
    }
}

proof fn lemma_draw_none(g: Seq<Gate>, first: nat, a: nat, count: nat, values: Seq<nat>)
    requires
        bits_at(g, first, a),
        gates::fixed(g, a) is None,
        count <= 32,
    ensures
        ({
            let h = draw_none(g, first, count);
            let last = (h.len() - 1) as nat;
            &&& gates::computes(g, h)
            &&& h.len() == g.len() + 1 + 2 * count
            &&& gates::is_bit(h, last)
            &&& count > 0 ==> gates::fixed(h, last) is None
            &&& count == 0 ==> gates::fixed(h, last) == Some(1nat)
            &&& gates::wire(h, values, last) == gates::bit_value(
                forall|i: nat|
                    i < count ==> #[trigger] bit_of(gates::wire(g, values, a), i) == 0,
            )
        }),
    decreases count,
{
    if count > 0 {
        let c = (count - 1) as nat;
        let h = draw_none(g, first, c);
        let last = (h.len() - 1) as nat;
        lemma_draw_none(g, first, a, c, values);
        let h1 = h.push(Gate::Not(first + c));
        let h2 = h1.push(Gate::And(last, h.len()));
        assert(h2 == draw_none(g, first, count));
        lemma_bits_at(g, first, a, c, values);
        gates::lemma_wire_kept(g, h, values, first + c);
        gates::lemma_wire_kept(h, h1, values, first + c);
        gates::lemma_wire_kept(h, h1, values, last);
        gates::lemma_wire_kept(h1, h2, values, last);
        gates::lemma_wire_kept(h1, h2, values, h.len());
        gadgets::lemma_computes_trans(g, h, h1);
        gadgets::lemma_computes_trans(g, h1, h2);
        let x = gates::wire(g, values, a);
        let before = forall|i: nat| i < c ==> #[trigger] bit_of(x, i) == 0;
        let all = forall|i: nat| i < count ==> #[trigger] bit_of(x, i) == 0;
        if all {
            assert(bit_of(x, c) == 0);
        }
        if before && bit_of(x, c) == 0 {
            assert forall|i: nat| i < count implies #[trigger] bit_of(x, i) == 0 by {}
        }
        assert(all == (before && bit_of(x, c) == 0));
        assert(gates::wire(h1, values, h.len()) == gates::bit_value(bit_of(x, c) == 0));
    }
}

/// The record of the rule that a wire is positive and fits the width.
pub open spec fn draw_positive(g: Seq<Gate>, a: nat) -> Seq<Gate> {
    let h = draw_none(draw_low(g, a), g.len(), 32);
    h.push(Gate::Flag(false)).push(Gate::Same((h.len() - 1) as nat, h.len()))
}

/// The rules are met exactly by positive numbers of 32 bits.
pub proof fn lemma_draw_positive(g: Seq<Gate>, a: nat, values: Seq<nat>)
    requires
        gates::is_field(g, a),
        gates::fixed(g, a) is None,
        gates::wire(g, values, a) < field::modulus(),
    ensures
        ({
            let h = draw_positive(g, a);
            &&& gates::continues(g, h)
            &&& gates::allocations(h) == gates::allocations(g)
            &&& gates::public_values(h, values) == gates::public_values(g, values)
            &&& gates::holds(h, values) <==> gates::holds(g, values) && 0 < gates::wire(
                g,
                values,
                a,
            ) < width_bound()
        }),
{
    let x = gates::wire(g, values, a);
    let low = draw_low(g, a);
    let h = draw_none(low, g.len(), 32);
    let last = (h.len() - 1) as nat;
    lemma_draw_low(g, a, values);
    gates::lemma_wire_kept(g, low, values, a);
    lemma_draw_none(low, g.len(), a, 32, values);
    gates::lemma_computes(low, h, values);
    let h1 = h.push(Gate::Flag(false));
    gates::lemma_push(h, Gate::Flag(false), values);
    gates::lemma_wire_kept(h, h1, values, last);
    gadgets::lemma_computes_trans(low, h, h1);
    gates::lemma_computes(low, h1, values);
    gates::lemma_same(h1, last, h.len(), values);
    gates::lemma_push(h1, Gate::Same(last, h.len()), values);
    gates::lemma_continues_trans(g, low, h1);
    gates::lemma_continues_trans(g, h1, draw_positive(g, a));
    if x < width_bound() {
        lemma_modulus_bits();
        if forall|i: nat| i < 32 ==> #[trigger] bit_of(x, i) == 0 {
            lemma_no_bits(x, 32);
        }
        if x == 0 {
            assert forall|i: nat| i < 32 implies #[trigger] bit_of(x, i) == 0 by {
                lemma_pow2_pos(i);
                lemma_basic_div(0, pow2(i) as int);
            }
        }
    }
}

/// Enforces that a variable is positive and fits the width.
pub(crate) fn enforce_positive(b: &mut Builder, a: usize)
    requires
        gates::is_field(gates::recorded(*old(b)), a as nat),
        gates::fixed(gates::recorded(*old(b)), a as nat) is None,
    ensures
        gates::recorded(*final(b)) == draw_positive(gates::recorded(*old(b)), a as nat),
        gates::assigned(*final(b)) == gates::assigned(*old(b)),
{
    let ghost g = gates::recorded(*b);
    let first = match enforce_low(b, a) {
        Ok(first) => first,
        Err(_) => {
            assert(false);
            0
        },
    };
    let ghost low = gates::recorded(*b);
    proof {
        lemma_low_continues(g, a as nat);
        gates::lemma_wire_kept(g, low, Seq::empty(), a as nat);
        lemma_low_bits(g, a as nat);
    }
    let mut none = b.flag(true);
    for i in 0..MAX_BIT_WIDTH
        invariant
            first == g.len(),
            bits_at(low, first as nat, a as nat),
            gates::fixed(low, a as nat) is None,
            gates::recorded(*b) == draw_none(low, first as nat, i as nat),
            none == gates::recorded(*b).len() - 1,
            gates::assigned(*b) == gates::assigned(*old(b)),
    {
        let ghost h = gates::recorded(*b);
        proof {
            lemma_draw_none(low, first as nat, a as nat, i as nat, Seq::empty());
            lemma_bits_at(low, first as nat, a as nat, i as nat, Seq::empty());
            assert(h[(first + i) as int] == low[(first + i) as int]);
        }
        let inverted = b.not(first + i);
        none = b.and(none, inverted);
    }
    proof {
        lemma_draw_none(low, first as nat, a as nat, 32, Seq::empty());
    }
    let ghost h = gates::recorded(*b);
    let zero = b.flag(false);
    proof {
        gates::lemma_wire_kept(h, gates::recorded(*b), Seq::empty(), none as nat);
    }
    let r = b.enforce_same(none, zero);
    assert(r is Ok);
}

proof fn lemma_low_bits(g: Seq<Gate>, a: nat)
    requires
        a < g.len(),
    ensures
        bits_at(draw_low(g, a), g.len(), a),
{
    lemma_bit_gates(g, a);
    lemma_zeros_continue(g + gates::bit_gates(a), g.len(), 222);
    lemma_bits_at_kept(g + gates::bit_gates(a), draw_low(g, a), g.len(), a);
}

} // verus!
