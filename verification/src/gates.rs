//! Circuits over the scalar field.
//!
//! A [`Builder`] drives `ark_r1cs_std`'s field and Boolean variables over a
//! constraint system of `ark_relations`. What has been built is known by its
//! record: one gate for every operation, in order. A gate's place in the record
//! is the wire it drives. Two readings of a record are defined here: the value
//! that a wire has under an assignment of the allocated variables, and whether
//! an assignment meets every equality that was enforced.
use crate::field;
use crate::field::Fr;
use ark_bn254::Fr as ArkFr;
use ark_ff::{BigInt, PrimeField};
use ark_r1cs_std::alloc::AllocVar;
use ark_r1cs_std::eq::EqGadget;
use ark_r1cs_std::fields::fp::FpVar;
use ark_r1cs_std::fields::FieldVar;
use ark_r1cs_std::prelude::{Boolean, ToBitsGadget};
use ark_relations::r1cs::{ConstraintSystem, ConstraintSystemRef, SynthesisError as ArkError, SynthesisMode};
use vstd::arithmetic::power2::*;
use vstd::prelude::*;

verus! {

/// One operation on a circuit under construction. Wires are named by their
/// place in the record.
pub enum Gate {
    /// A field constant.
    Constant(nat),
    /// A public variable, with its number among all variables.
    Input(nat),
    /// A private variable, with its number among all variables.
    Witness(nat),
    /// The sum of two field wires.
    Add(nat, nat),
    /// The difference of two field wires.
    Sub(nat, nat),
    /// The product of two field wires.
    Mul(nat, nat),
    /// A bit of the representative of a field wire.
    Bit(nat, nat),
    /// The bit that tells whether two field wires are equal.
    IsEqual(nat, nat),
    /// A constant bit.
    Flag(bool),
    /// The negation of a bit.
    Not(nat),
    /// The conjunction of two bits.
    And(nat, nat),
    /// The disjunction of two bits.
    Or(nat, nat),
    /// The exclusive disjunction of two bits.
    Xor(nat, nat),
    /// The rule that two field wires are equal.
    Equal(nat, nat),
    /// The rule that two bits are equal.
    Same(nat, nat),
}

/// The number of bits of the modulus, and so of every field wire.
pub const FIELD_BITS: usize = 254;

pub open spec fn is_field_gate(g: Gate) -> bool {
    match g {
        Gate::Constant(_) | Gate::Input(_) | Gate::Witness(_) => true,
        Gate::Add(_, _) | Gate::Sub(_, _) | Gate::Mul(_, _) => true,
        _ => false,
    }
}

pub open spec fn is_bit_gate(g: Gate) -> bool {
    match g {
        Gate::Bit(_, _) | Gate::IsEqual(_, _) | Gate::Flag(_) | Gate::Not(_) => true,
        Gate::And(_, _) | Gate::Or(_, _) | Gate::Xor(_, _) => true,
        _ => false,
    }
}

pub open spec fn is_field(gates: Seq<Gate>, w: nat) -> bool {
    w < gates.len() && is_field_gate(gates[w as int])
}

pub open spec fn is_bit(gates: Seq<Gate>, w: nat) -> bool {
    w < gates.len() && is_bit_gate(gates[w as int])
}

/// The number of variables that a record allocates.
pub open spec fn allocations(gates: Seq<Gate>) -> nat
    decreases gates.len(),
{
    if gates.len() == 0 {
        0
    } else {
        allocations(gates.drop_last()) + match gates.last() {
            Gate::Input(_) | Gate::Witness(_) => 1nat,
            _ => 0nat,
        }
    }
}

pub open spec fn bit_value(b: bool) -> nat {
    if b {
        1
    } else {
        0
    }
}

/// The value of a wire when the allocated variables have the given values. A
/// bit is zero or one.
pub open spec fn wire(gates: Seq<Gate>, values: Seq<nat>, w: nat) -> nat
    decreases w,
{
    match gates[w as int] {
        Gate::Constant(c) => c,
        Gate::Input(k) => values[k as int],
        Gate::Witness(k) => values[k as int],
        Gate::Add(a, b) => if a < w && b < w {
            field::fadd(wire(gates, values, a), wire(gates, values, b))
        } else {
            0
        },
        Gate::Sub(a, b) => if a < w && b < w {
            field::fsub(wire(gates, values, a), wire(gates, values, b))
        } else {
            0
        },
        Gate::Mul(a, b) => if a < w && b < w {
            field::fmul(wire(gates, values, a), wire(gates, values, b))
        } else {
            0
        },
        Gate::Bit(a, i) => if a < w {
            (wire(gates, values, a) / pow2(i)) % 2
        } else {
            0
        },
        Gate::IsEqual(a, b) => if a < w && b < w {
            bit_value(wire(gates, values, a) == wire(gates, values, b))
        } else {
            0
        },
        Gate::Flag(f) => bit_value(f),
        Gate::Not(a) => if a < w {
            bit_value(wire(gates, values, a) == 0)
        } else {
            0
        },
        Gate::And(a, b) => if a < w && b < w {
            bit_value(wire(gates, values, a) == 1 && wire(gates, values, b) == 1)
        } else {
            0
        },
        Gate::Or(a, b) => if a < w && b < w {
            bit_value(wire(gates, values, a) == 1 || wire(gates, values, b) == 1)
        } else {
            0
        },
        Gate::Xor(a, b) => if a < w && b < w {
            bit_value(wire(gates, values, a) != wire(gates, values, b))
        } else {
            0
        },
        Gate::Equal(_, _) => 0,
        Gate::Same(_, _) => 0,
    }
}

/// The value of a wire that is a constant whatever the variables are.
pub open spec fn fixed(gates: Seq<Gate>, w: nat) -> Option<nat>
    decreases w,
{
    match gates[w as int] {
        Gate::Constant(c) => Some(c),
        Gate::Flag(f) => Some(bit_value(f)),
        Gate::Add(a, b) => if a < w && b < w {
            match (fixed(gates, a), fixed(gates, b)) {
                (Some(x), Some(y)) => Some(field::fadd(x, y)),
                _ => None,
            }
        } else {
            None
        },
        Gate::Sub(a, b) => if a < w && b < w {
            match (fixed(gates, a), fixed(gates, b)) {
                (Some(x), Some(y)) => Some(field::fsub(x, y)),
                _ => None,
            }
        } else {
            None
        },
        Gate::Mul(a, b) => if a < w && b < w {
            match (fixed(gates, a), fixed(gates, b)) {
                (Some(x), Some(y)) => Some(field::fmul(x, y)),
                _ => None,
            }
        } else {
            None
        },
        Gate::IsEqual(a, b) => if a < w && b < w {
            match (fixed(gates, a), fixed(gates, b)) {
                (Some(x), Some(y)) => Some(bit_value(x == y)),
                _ => None,
            }
        } else {
            None
        },
        Gate::Bit(a, i) => if a < w {
            match fixed(gates, a) {
                Some(x) => Some((x / pow2(i)) % 2),
                None => None,
            }
        } else {
            None
        },
        Gate::Not(a) => if a < w {
            match fixed(gates, a) {
                Some(x) => Some(bit_value(x == 0)),
                None => None,
            }
        } else {
            None
        },
        Gate::And(a, b) => if a < w && b < w {
            match (fixed(gates, a), fixed(gates, b)) {
                (Some(x), Some(y)) => Some(bit_value(x == 1 && y == 1)),
                (Some(x), None) => if x == 0 {
                    Some(0)
                } else {
                    None
                },
                (None, Some(y)) => if y == 0 {
                    Some(0)
                } else {
                    None
                },
                _ => None,
            }
        } else {
            None
        },
        Gate::Or(a, b) => if a < w && b < w {
            match (fixed(gates, a), fixed(gates, b)) {
                (Some(x), Some(y)) => Some(bit_value(x == 1 || y == 1)),
                (Some(x), None) => if x == 1 {
                    Some(1)
                } else {
                    None
                },
                (None, Some(y)) => if y == 1 {
                    Some(1)
                } else {
                    None
                },
                _ => None,
            }
        } else {
            None
        },
        Gate::Xor(a, b) => if a < w && b < w {
            match (fixed(gates, a), fixed(gates, b)) {
                (Some(x), Some(y)) => Some(bit_value(x != y)),
                _ => None,
            }
        } else {
            None
        },
        _ => None,
    }
}

/// Whether the rule at a place of the record is met. A rule between two field
/// constants is not recorded as a constraint and so is always met.
pub open spec fn rule_met(gates: Seq<Gate>, values: Seq<nat>, w: nat) -> bool {
    match gates[w as int] {
        Gate::Equal(a, b) => {
            &&& a < w
            &&& b < w
            &&& fixed(gates, a) is Some && fixed(gates, b) is Some || wire(gates, values, a)
                == wire(gates, values, b)
        },
        Gate::Same(a, b) => a < w && b < w && wire(gates, values, a) == wire(gates, values, b),
        _ => true,
    }
}

/// Whether values for the variables meet every rule of a record.
pub open spec fn holds(gates: Seq<Gate>, values: Seq<nat>) -> bool {
    forall|w: nat| w < gates.len() ==> #[trigger] rule_met(gates, values, w)
}

/// The values of the public variables, in the order of their allocation.
pub open spec fn public_values(gates: Seq<Gate>, values: Seq<nat>) -> Seq<nat>
    decreases gates.len(),
{
    if gates.len() == 0 {
        Seq::empty()
    } else {
        match gates.last() {
            Gate::Input(k) => public_values(gates.drop_last(), values).push(values[k as int]),
            _ => public_values(gates.drop_last(), values),
        }
    }
}

/// One record continues another.
pub open spec fn continues(g: Seq<Gate>, h: Seq<Gate>) -> bool {
    g.len() <= h.len() && forall|w: int| 0 <= w < g.len() ==> #[trigger] h[w] == g[w]
}

pub open spec fn is_plain_gate(g: Gate) -> bool {
    match g {
        Gate::Input(_) | Gate::Witness(_) | Gate::Equal(_, _) | Gate::Same(_, _) => false,
        _ => true,
    }
}

/// One record continues another by computations alone, without a new variable
/// and without a new rule.
pub open spec fn computes(g: Seq<Gate>, h: Seq<Gate>) -> bool {
    &&& continues(g, h)
    &&& forall|w: int| g.len() <= w < h.len() ==> is_plain_gate(#[trigger] h[w])
}

/// What one more gate does to the count of variables and to the public values.
pub proof fn lemma_push(g: Seq<Gate>, gate: Gate, values: Seq<nat>)
    ensures
        continues(g, g.push(gate)),
        allocations(g.push(gate)) == allocations(g) + match gate {
            Gate::Input(_) | Gate::Witness(_) => 1nat,
            _ => 0nat,
        },
        public_values(g.push(gate), values) == match gate {
            Gate::Input(k) => public_values(g, values).push(values[k as int]),
            _ => public_values(g, values),
        },
{
    assert(g.push(gate).drop_last() =~= g);
}

/// A wire keeps its value when the record is continued.
pub proof fn lemma_wire_kept(g: Seq<Gate>, h: Seq<Gate>, values: Seq<nat>, w: nat)
    requires
        continues(g, h),
        w < g.len(),
    ensures
        wire(h, values, w) == wire(g, values, w),
        fixed(h, w) == fixed(g, w),
    decreases w,
{
    match g[w as int] {
        Gate::Add(a, b)
        | Gate::Sub(a, b)
        | Gate::Mul(a, b)
        | Gate::IsEqual(a, b)
        | Gate::And(a, b)
        | Gate::Or(a, b)
        | Gate::Xor(a, b) => {
            if a < w && b < w {
                lemma_wire_kept(g, h, values, a);
                lemma_wire_kept(g, h, values, b);
            }
        },
        Gate::Bit(a, _) | Gate::Not(a) => {
            if a < w {
                lemma_wire_kept(g, h, values, a);
            }
        },
        _ => {},
    }
}

/// A rule is met in a continued record when it was met before.
pub proof fn lemma_rule_kept(g: Seq<Gate>, h: Seq<Gate>, values: Seq<nat>, w: nat)
    requires
        continues(g, h),
        w < g.len(),
    ensures
        rule_met(h, values, w) == rule_met(g, values, w),
{
    match g[w as int] {
        Gate::Equal(a, b) | Gate::Same(a, b) => {
            if a < w && b < w {
                lemma_wire_kept(g, h, values, a);
                lemma_wire_kept(g, h, values, b);
            }
        },
        _ => {},
    }
}

/// A continued record holds when the record did and its new rules are met.
pub proof fn lemma_holds_continued(g: Seq<Gate>, h: Seq<Gate>, values: Seq<nat>)
    requires
        continues(g, h),
    ensures
        holds(h, values) <==> holds(g, values) && (forall|w: nat|
            g.len() <= w < h.len() ==> #[trigger] rule_met(h, values, w)),
{
    assert forall|w: nat| w < g.len() implies rule_met(h, values, w) == #[trigger] rule_met(
        g,
        values,
        w,
    ) by {
        lemma_rule_kept(g, h, values, w);
    }
    if holds(h, values) {
        assert forall|w: nat| w < g.len() implies #[trigger] rule_met(g, values, w) by {
            assert(rule_met(h, values, w));
        }
    }
    if holds(g, values) && (forall|w: nat|
        g.len() <= w < h.len() ==> #[trigger] rule_met(h, values, w)) {
        assert forall|w: nat| w < h.len() implies #[trigger] rule_met(h, values, w) by {
            if w < g.len() {
                assert(rule_met(g, values, w));
            }
        }
    }
}

/// A new variable carries its value and adds no rule.
pub proof fn lemma_variable(g: Seq<Gate>, gate: Gate, values: Seq<nat>)
    requires
        gate is Input || gate is Witness,
    ensures
        ({
            let h = g.push(gate);
            &&& continues(g, h)
            &&& is_field(h, g.len())
            &&& fixed(h, g.len()) is None
            &&& gate matches Gate::Input(k) ==> wire(h, values, g.len()) == values[k as int]
            &&& gate matches Gate::Witness(k) ==> wire(h, values, g.len()) == values[k as int]
            &&& holds(h, values) == holds(g, values)
        }),
{
    let h = g.push(gate);
    lemma_holds_continued(g, h, values);
    assert forall|w: nat| g.len() <= w < h.len() implies #[trigger] rule_met(h, values, w) by {
        assert(w == g.len());
    }
}

/// A new rule between field wires.
pub proof fn lemma_equal(g: Seq<Gate>, a: nat, b: nat, values: Seq<nat>)
    requires
        a < g.len(),
        b < g.len(),
    ensures
        ({
            let h = g.push(Gate::Equal(a, b));
            &&& continues(g, h)
            &&& holds(h, values) <==> holds(g, values) && (fixed(g, a) is Some && fixed(
                g,
                b,
            ) is Some || wire(g, values, a) == wire(g, values, b))
        }),
{
    let h = g.push(Gate::Equal(a, b));
    lemma_wire_kept(g, h, values, a);
    lemma_wire_kept(g, h, values, b);
    lemma_holds_continued(g, h, values);
    if holds(h, values) {
        assert(rule_met(h, values, g.len()));
    }
    if holds(g, values) && rule_met(h, values, g.len()) {
        assert forall|w: nat| g.len() <= w < h.len() implies #[trigger] rule_met(
            h,
            values,
            w,
        ) by {
            assert(w == g.len());
        }
    }
}

/// A new rule between bits.
pub proof fn lemma_same(g: Seq<Gate>, a: nat, b: nat, values: Seq<nat>)
    requires
        a < g.len(),
        b < g.len(),
    ensures
        ({
            let h = g.push(Gate::Same(a, b));
            &&& continues(g, h)
            &&& holds(h, values) <==> holds(g, values) && wire(g, values, a) == wire(
                g,
                values,
                b,
            )
        }),
{
    let h = g.push(Gate::Same(a, b));
    lemma_wire_kept(g, h, values, a);
    lemma_wire_kept(g, h, values, b);
    lemma_holds_continued(g, h, values);
    if holds(h, values) {
        assert(rule_met(h, values, g.len()));
    }
    if holds(g, values) && rule_met(h, values, g.len()) {
        assert forall|w: nat| g.len() <= w < h.len() implies #[trigger] rule_met(
            h,
            values,
            w,
        ) by {
            assert(w == g.len());
        }
    }
}

/// The record of public variables.
pub open spec fn draw_inputs(g: Seq<Gate>, count: nat) -> Seq<Gate> {
    g + Seq::new(count, |i: int| Gate::Input((allocations(g) + i) as nat))
}

/// The record of private variables.
pub open spec fn draw_witnesses(g: Seq<Gate>, count: nat) -> Seq<Gate> {
    g + Seq::new(count, |i: int| Gate::Witness((allocations(g) + i) as nat))
}

pub proof fn lemma_draw_inputs(g: Seq<Gate>, count: nat, values: Seq<nat>)
    requires
        allocations(g) + count <= values.len(),
    ensures
        ({
            let h = draw_inputs(g, count);
            &&& continues(g, h)
            &&& h.len() == g.len() + count
            &&& allocations(h) == allocations(g) + count
            &&& public_values(h, values) == public_values(g, values) + values.subrange(
                allocations(g) as int,
                (allocations(g) + count) as int,
            )
            &&& holds(h, values) == holds(g, values)
            &&& forall|i: nat|
                i < count ==> {
                    &&& is_field(h, #[trigger] (g.len() + i))
                    &&& fixed(h, g.len() + i) is None
                    &&& wire(h, values, g.len() + i) == values[(allocations(g) + i) as int]
                }
        }),
    decreases count,
{
    let h = draw_inputs(g, count);
    if count == 0 {
        assert(h =~= g);
        assert(values.subrange(allocations(g) as int, allocations(g) as int) =~= Seq::empty());
        assert(public_values(h, values) =~= public_values(g, values) + values.subrange(
            allocations(g) as int,
            (allocations(g) + count) as int,
        ));
    } else {
        let c = (count - 1) as nat;
        let k = (allocations(g) + c) as nat;
        let h0 = draw_inputs(g, c);
        lemma_draw_inputs(g, c, values);
        assert(h =~= h0.push(Gate::Input(k)));
        lemma_push(h0, Gate::Input(k), values);
        lemma_variable(h0, Gate::Input(k), values);
        assert(values.subrange(allocations(g) as int, (k + 1) as int) =~= values.subrange(
            allocations(g) as int,
            k as int,
        ).push(values[k as int]));
        assert(public_values(h, values) =~= public_values(g, values) + values.subrange(
            allocations(g) as int,
            (allocations(g) + count) as int,
        ));
        assert forall|i: nat| i < count implies {
            &&& is_field(h, #[trigger] (g.len() + i))
            &&& fixed(h, g.len() + i) is None
            &&& wire(h, values, g.len() + i) == values[(allocations(g) + i) as int]
        } by {
            if i < c {
                lemma_wire_kept(h0, h, values, g.len() + i);
            }
        }
    }
}

pub proof fn lemma_draw_witnesses(g: Seq<Gate>, count: nat, values: Seq<nat>)
    requires
        allocations(g) + count <= values.len(),
    ensures
        ({
            let h = draw_witnesses(g, count);
            &&& continues(g, h)
            &&& h.len() == g.len() + count
            &&& allocations(h) == allocations(g) + count
            &&& public_values(h, values) == public_values(g, values)
            &&& holds(h, values) == holds(g, values)
            &&& forall|i: nat|
                i < count ==> {
                    &&& is_field(h, #[trigger] (g.len() + i))
                    &&& fixed(h, g.len() + i) is None
                    &&& wire(h, values, g.len() + i) == values[(allocations(g) + i) as int]
                }
        }),
    decreases count,
{
    let h = draw_witnesses(g, count);
    if count == 0 {
        assert(h =~= g);
    } else {
        let c = (count - 1) as nat;
        let k = (allocations(g) + c) as nat;
        let h0 = draw_witnesses(g, c);
        lemma_draw_witnesses(g, c, values);
        assert(h =~= h0.push(Gate::Witness(k)));
        lemma_push(h0, Gate::Witness(k), values);
        lemma_variable(h0, Gate::Witness(k), values);
        assert forall|i: nat| i < count implies {
            &&& is_field(h, #[trigger] (g.len() + i))
            &&& fixed(h, g.len() + i) is None
            &&& wire(h, values, g.len() + i) == values[(allocations(g) + i) as int]
        } by {
            if i < c {
                lemma_wire_kept(h0, h, values, g.len() + i);
            }
        }
    }
}

/// One more public variable.
pub proof fn lemma_inputs_step(g: Seq<Gate>, count: nat)
    ensures
        draw_inputs(g, count + 1) == draw_inputs(g, count).push(
            Gate::Input(allocations(draw_inputs(g, count))),
        ),
{
    lemma_draw_inputs(g, count, Seq::new(allocations(g) + count, |i: int| 0nat));
    assert(draw_inputs(g, count + 1) =~= draw_inputs(g, count).push(
        Gate::Input(allocations(draw_inputs(g, count))),
    ));
}

/// One more private variable.
pub proof fn lemma_witnesses_step(g: Seq<Gate>, count: nat)
    ensures
        draw_witnesses(g, count + 1) == draw_witnesses(g, count).push(
            Gate::Witness(allocations(draw_witnesses(g, count))),
        ),
{
    lemma_draw_witnesses(g, count, Seq::new(allocations(g) + count, |i: int| 0nat));
    assert(draw_witnesses(g, count + 1) =~= draw_witnesses(g, count).push(
        Gate::Witness(allocations(draw_witnesses(g, count))),
    ));
}

/// Records continue one another transitively.
pub proof fn lemma_continues_trans(g: Seq<Gate>, h: Seq<Gate>, k: Seq<Gate>)
    requires
        continues(g, h),
        continues(h, k),
    ensures
        continues(g, k),
{
    assert forall|w: int| 0 <= w < g.len() implies #[trigger] k[w] == g[w] by {
        assert(h[w] == g[w]);
    }
}

/// Computations change neither the variables nor what holds.
pub proof fn lemma_computes(g: Seq<Gate>, h: Seq<Gate>, values: Seq<nat>)
    requires
        computes(g, h),
    ensures
        allocations(h) == allocations(g),
        public_values(h, values) == public_values(g, values),
        holds(h, values) == holds(g, values),
    decreases h.len(),
{
    lemma_holds_continued(g, h, values);
    assert forall|w: nat| g.len() <= w < h.len() implies #[trigger] rule_met(h, values, w) by {
        assert(is_plain_gate(h[w as int]));
    }
    if h.len() > g.len() {
        let shorter = h.drop_last();
        assert(is_plain_gate(h[h.len() - 1]));
        assert forall|w: int| g.len() <= w < shorter.len() implies is_plain_gate(
            #[trigger] shorter[w],
        ) by {
            assert(is_plain_gate(h[w]));
        }
        lemma_computes(g, shorter, values);
    } else {
        assert(h =~= g);
    }
}

/// The gates that decompose a wire into its bits.
pub open spec fn bit_gates(a: nat) -> Seq<Gate> {
    Seq::new(FIELD_BITS as nat, |i: int| Gate::Bit(a, i as nat))
}

/// The values of the variables with that of a new variable behind them, when
/// there are values.
pub open spec fn extended(values: Option<Seq<nat>>, value: Option<Fr>) -> Option<Seq<nat>> {
    match (values, value) {
        (Some(known), Some(v)) => Some(known.push(v@)),
        _ => values,
    }
}

/// The values of the variables with further ones behind them, when there are
/// values.
pub open spec fn appended(values: Option<Seq<nat>>, more: Seq<nat>) -> Option<Seq<nat>> {
    match values {
        Some(known) => Some(known + more),
        None => None,
    }
}

/// Why a circuit could not be built, proved or verified.
#[derive(Clone, Copy, Debug, PartialEq, Eq, Structural)]
pub enum SynthesisError {
    MissingCS,
    AssignmentMissing,
    DivisionByZero,
    Unsatisfiable,
    PolynomialDegreeTooLarge,
    UnexpectedIdentity,
    MalformedVerifyingKey,
    UnconstrainedVariable,
}

/// A circuit under construction: a constraint system with the variables that
/// its wires stand for.
#[verifier::external_body]
pub struct Builder {
    pub(crate) cs: ConstraintSystemRef<ArkFr>,
    fields: Vec<Option<FpVar<ArkFr>>>,
    bits: Vec<Option<Boolean<ArkFr>>>,
}

/// The operations that a builder has taken, in order.
pub uninterp spec fn recorded(b: Builder) -> Seq<Gate>;

/// The values of the variables that a builder has allocated, in order; nothing
/// when it builds a circuit without values.
pub uninterp spec fn assigned(b: Builder) -> Option<Seq<nat>>;

/// The matrices of a rank-one constraint system: three entries of each row
/// multiply as `a * b = c`. A column is a variable, with the constant one first,
/// then the public and then the private variables.
pub struct Matrices {
    pub num_instance_variables: usize,
    pub num_witness_variables: usize,
    pub a: Vec<Vec<(Fr, usize)>>,
    pub b: Vec<Vec<(Fr, usize)>>,
    pub c: Vec<Vec<(Fr, usize)>>,
}

/// A matrix as rows of coefficients and columns.
pub open spec fn matrix_rows(m: Seq<Vec<(Fr, usize)>>) -> Seq<Seq<(nat, nat)>> {
    Seq::new(
        m.len(),
        |i: int| Seq::new(m[i]@.len(), |j: int| (m[i]@[j].0@, m[i]@[j].1 as nat)),
    )
}

impl View for Matrices {
    type V = (nat, nat, Seq<Seq<(nat, nat)>>, Seq<Seq<(nat, nat)>>, Seq<Seq<(nat, nat)>>);

    open spec fn view(&self) -> Self::V {
        (
            self.num_instance_variables as nat,
            self.num_witness_variables as nat,
            matrix_rows(self.a@),
            matrix_rows(self.b@),
            matrix_rows(self.c@),
        )
    }
}

/// The matrices of the constraint system that a record builds.
pub uninterp spec fn constraint_matrices(gates: Seq<Gate>) -> (
    nat,
    nat,
    Seq<Seq<(nat, nat)>>,
    Seq<Seq<(nat, nat)>>,
    Seq<Seq<(nat, nat)>>,
);

impl Builder {
    /// A new `ark_relations::r1cs::ConstraintSystem`, with nothing in it, in the
    /// mode for setup, where variables have no values, or in the mode for
    /// proving.
    #[verifier::external_body]
    pub(crate) fn ark_new(setup: bool) -> (r: Builder)
        ensures
            recorded(r) == Seq::<Gate>::empty(),
            assigned(r) == if setup {
                None
            } else {
                Some(Seq::<nat>::empty())
            },
    {
        let cs = ConstraintSystem::<ArkFr>::new_ref();
        cs.set_mode(match setup {
            true => SynthesisMode::Setup,
            false => SynthesisMode::Prove { construct_matrices: true },
        });
        Builder { cs, fields: Vec::new(), bits: Vec::new() }
    }

    /// `ConstraintSystemRef::is_in_setup_mode`: whether variables have no values.
    #[verifier::external_body]
    pub(crate) fn in_setup(&self) -> (r: bool)
        ensures
            r == (assigned(*self) is None),
    {
        self.cs.is_in_setup_mode()
    }

    /// `FpVar::Constant`: a wire that is the constant.
    #[verifier::external_body]
    pub(crate) fn constant(&mut self, value: &Fr) -> (w: usize)
        ensures
            w == recorded(*old(self)).len(),
            recorded(*final(self)) == recorded(*old(self)).push(Gate::Constant(value@)),
            assigned(*final(self)) == assigned(*old(self)),
    {
        self.fields.push(Some(FpVar::Constant(ArkFr::new(BigInt::new(value.limbs())))));
        self.bits.push(None);
        self.fields.len() - 1
    }

    /// `FpVar::new_input`: a new public variable. When proving it takes the given
    /// value, and there must be one: without it the constraint system would count
    /// a variable that has no value. In setup mode the value is not looked at.
    #[verifier::external_body]
    pub(crate) fn new_input(&mut self, value: Option<Fr>) -> (w: usize)
        requires
            assigned(*old(self)) is None || value is Some,
        ensures
            w == recorded(*old(self)).len(),
            recorded(*final(self)) == recorded(*old(self)).push(
                Gate::Input(allocations(recorded(*old(self)))),
            ),
            assigned(*final(self)) == extended(assigned(*old(self)), value),
    {
        let limbs = value.map(|v| v.limbs());
        let variable = FpVar::new_input(
            self.cs.clone(),
            || limbs.map(|l| ArkFr::new(BigInt::new(l))).ok_or(ArkError::AssignmentMissing),
        );
        self.fields.push(Some(variable.unwrap()));
        self.bits.push(None);
        self.fields.len() - 1
    }

    /// `FpVar::new_witness`: a new private variable. When proving it takes the given
    /// value, and there must be one: without it the constraint system would count
    /// a variable that has no value. In setup mode the value is not looked at.
    #[verifier::external_body]
    pub(crate) fn new_witness(&mut self, value: Option<Fr>) -> (w: usize)
        requires
            assigned(*old(self)) is None || value is Some,
        ensures
            w == recorded(*old(self)).len(),
            recorded(*final(self)) == recorded(*old(self)).push(
                Gate::Witness(allocations(recorded(*old(self)))),
            ),
            assigned(*final(self)) == extended(assigned(*old(self)), value),
    {
        let limbs = value.map(|v| v.limbs());
        let variable = FpVar::new_witness(
            self.cs.clone(),
            || limbs.map(|l| ArkFr::new(BigInt::new(l))).ok_or(ArkError::AssignmentMissing),
        );
        self.fields.push(Some(variable.unwrap()));
        self.bits.push(None);
        self.fields.len() - 1
    }

    /// `FpVar`'s `+`: the sum, without a constraint.
    #[verifier::external_body]
    pub(crate) fn add(&mut self, a: usize, b: usize) -> (w: usize)
        requires
            is_field(recorded(*old(self)), a as nat),
            is_field(recorded(*old(self)), b as nat),
        ensures
            w == recorded(*old(self)).len(),
            recorded(*final(self)) == recorded(*old(self)).push(Gate::Add(a as nat, b as nat)),
            assigned(*final(self)) == assigned(*old(self)),
    {
        let x = self.fields[a].clone().unwrap();
        let y = self.fields[b].clone().unwrap();
        self.fields.push(Some(&x + &y));
        self.bits.push(None);
        self.fields.len() - 1
    }

    /// `FpVar`'s `-`: the difference, without a constraint.
    #[verifier::external_body]
    pub(crate) fn sub(&mut self, a: usize, b: usize) -> (w: usize)
        requires
            is_field(recorded(*old(self)), a as nat),
            is_field(recorded(*old(self)), b as nat),
        ensures
            w == recorded(*old(self)).len(),
            recorded(*final(self)) == recorded(*old(self)).push(Gate::Sub(a as nat, b as nat)),
            assigned(*final(self)) == assigned(*old(self)),
    {
        let x = self.fields[a].clone().unwrap();
        let y = self.fields[b].clone().unwrap();
        self.fields.push(Some(&x - &y));
        self.bits.push(None);
        self.fields.len() - 1
    }

    /// `FpVar`'s `*`: the product.
    #[verifier::external_body]
    pub(crate) fn mul(&mut self, a: usize, b: usize) -> (w: usize)
        requires
            is_field(recorded(*old(self)), a as nat),
            is_field(recorded(*old(self)), b as nat),
        ensures
            w == recorded(*old(self)).len(),
            recorded(*final(self)) == recorded(*old(self)).push(Gate::Mul(a as nat, b as nat)),
            assigned(*final(self)) == assigned(*old(self)),
    {
        let x = self.fields[a].clone().unwrap();
        let y = self.fields[b].clone().unwrap();
        self.fields.push(Some(&x * &y));
        self.bits.push(None);
        self.fields.len() - 1
    }

    /// `FieldVar::square`: the product of a wire with itself.
    #[verifier::external_body]
    pub(crate) fn square(&mut self, a: usize) -> (w: usize)
        requires
            is_field(recorded(*old(self)), a as nat),
        ensures
            w == recorded(*old(self)).len(),
            recorded(*final(self)) == recorded(*old(self)).push(Gate::Mul(a as nat, a as nat)),
            assigned(*final(self)) == assigned(*old(self)),
    {
        let x = self.fields[a].clone().unwrap();
        self.fields.push(Some(x.square().unwrap()));
        self.bits.push(None);
        self.fields.len() - 1
    }

    /// `ToBitsGadget::to_bits_le`: the bits of the representative, least
    /// significant first, as many as the modulus has.
    #[verifier::external_body]
    pub(crate) fn to_bits_le(&mut self, a: usize) -> (w: usize)
        requires
            is_field(recorded(*old(self)), a as nat),
        ensures
            w == recorded(*old(self)).len(),
            recorded(*final(self)) == recorded(*old(self)) + bit_gates(a as nat),
            assigned(*final(self)) == assigned(*old(self)),
    {
        let first = self.fields.len();
        let decomposed = self.fields[a].clone().unwrap().to_bits_le().unwrap();
        self.fields.extend(decomposed.iter().map(|_| None));
        self.bits.extend(decomposed.into_iter().map(Some));
        first
    }

    /// `EqGadget::is_eq` on field variables: the bit that tells whether they are equal.
    #[verifier::external_body]
    pub(crate) fn is_eq(&mut self, a: usize, b: usize) -> (w: usize)
        requires
            is_field(recorded(*old(self)), a as nat),
            is_field(recorded(*old(self)), b as nat),
        ensures
            w == recorded(*old(self)).len(),
            recorded(*final(self)) == recorded(*old(self)).push(Gate::IsEqual(a as nat, b as nat)),
            assigned(*final(self)) == assigned(*old(self)),
    {
        let x = self.fields[a].clone().unwrap();
        let y = self.fields[b].clone().unwrap();
        self.fields.push(None);
        self.bits.push(Some(x.is_eq(&y).unwrap()));
        self.fields.len() - 1
    }

    /// `EqGadget::enforce_equal` on field variables: the rule that they are
    /// equal; nothing at all when both are constants.
    #[verifier::external_body]
    pub(crate) fn enforce_equal(&mut self, a: usize, b: usize)
        requires
            is_field(recorded(*old(self)), a as nat),
            is_field(recorded(*old(self)), b as nat),
        ensures
            recorded(*final(self)) == recorded(*old(self)).push(Gate::Equal(a as nat, b as nat)),
            assigned(*final(self)) == assigned(*old(self)),
    {
        let x = self.fields[a].clone().unwrap();
        let y = self.fields[b].clone().unwrap();
        x.enforce_equal(&y).unwrap();
        self.fields.push(None);
        self.bits.push(None);
    }

    /// `Boolean::constant`: a wire that is the constant bit.
    #[verifier::external_body]
    pub(crate) fn flag(&mut self, value: bool) -> (w: usize)
        ensures
            w == recorded(*old(self)).len(),
            recorded(*final(self)) == recorded(*old(self)).push(Gate::Flag(value)),
            assigned(*final(self)) == assigned(*old(self)),
    {
        self.fields.push(None);
        self.bits.push(Some(Boolean::constant(value)));
        self.fields.len() - 1
    }

    /// `Boolean::not`: the negated bit.
    #[verifier::external_body]
    pub(crate) fn not(&mut self, a: usize) -> (w: usize)
        requires
            is_bit(recorded(*old(self)), a as nat),
        ensures
            w == recorded(*old(self)).len(),
            recorded(*final(self)) == recorded(*old(self)).push(Gate::Not(a as nat)),
            assigned(*final(self)) == assigned(*old(self)),
    {
        let x = self.bits[a].clone().unwrap();
        self.fields.push(None);
        self.bits.push(Some(x.not()));
        self.fields.len() - 1
    }

    /// `Boolean::and`: both bits.
    #[verifier::external_body]
    pub(crate) fn and(&mut self, a: usize, b: usize) -> (w: usize)
        requires
            is_bit(recorded(*old(self)), a as nat),
            is_bit(recorded(*old(self)), b as nat),
        ensures
            w == recorded(*old(self)).len(),
            recorded(*final(self)) == recorded(*old(self)).push(Gate::And(a as nat, b as nat)),
            assigned(*final(self)) == assigned(*old(self)),
    {
        let x = self.bits[a].clone().unwrap();
        let y = self.bits[b].clone().unwrap();
        self.fields.push(None);
        self.bits.push(Some(x.and(&y).unwrap()));
        self.fields.len() - 1
    }

    /// `Boolean::or`: either bit.
    #[verifier::external_body]
    pub(crate) fn or(&mut self, a: usize, b: usize) -> (w: usize)
        requires
            is_bit(recorded(*old(self)), a as nat),
            is_bit(recorded(*old(self)), b as nat),
        ensures
            w == recorded(*old(self)).len(),
            recorded(*final(self)) == recorded(*old(self)).push(Gate::Or(a as nat, b as nat)),
            assigned(*final(self)) == assigned(*old(self)),
    {
        let x = self.bits[a].clone().unwrap();
        let y = self.bits[b].clone().unwrap();
        self.fields.push(None);
        self.bits.push(Some(x.or(&y).unwrap()));
        self.fields.len() - 1
    }

    /// `Boolean::xor`: one bit but not both.
    #[verifier::external_body]
    pub(crate) fn xor(&mut self, a: usize, b: usize) -> (w: usize)
        requires
            is_bit(recorded(*old(self)), a as nat),
            is_bit(recorded(*old(self)), b as nat),
        ensures
            w == recorded(*old(self)).len(),
            recorded(*final(self)) == recorded(*old(self)).push(Gate::Xor(a as nat, b as nat)),
            assigned(*final(self)) == assigned(*old(self)),
    {
        let x = self.bits[a].clone().unwrap();
        let y = self.bits[b].clone().unwrap();
        self.fields.push(None);
        self.bits.push(Some(x.xor(&y).unwrap()));
        self.fields.len() - 1
    }

    /// `EqGadget::enforce_equal` on Boolean variables: the rule that they are
    /// equal, or `AssignmentMissing` when they are two different constants.
    #[verifier::external_body]
    pub(crate) fn enforce_same(&mut self, a: usize, b: usize) -> (r: Result<(), SynthesisError>)
        requires
            is_bit(recorded(*old(self)), a as nat),
            is_bit(recorded(*old(self)), b as nat),
        ensures
            r is Err <==> {
                let x = fixed(recorded(*old(self)), a as nat);
                let y = fixed(recorded(*old(self)), b as nat);
                x is Some && y is Some && x != y
            },
            r matches Err(e) ==> e == SynthesisError::AssignmentMissing,
            r is Ok ==> {
                &&& recorded(*final(self)) == recorded(*old(self)).push(
                    Gate::Same(a as nat, b as nat),
                )
                &&& assigned(*final(self)) == assigned(*old(self))
            },
    {
        let x = self.bits[a].clone().unwrap();
        let y = self.bits[b].clone().unwrap();
        x.enforce_equal(&y).map_err(|_| SynthesisError::AssignmentMissing)?;
        self.fields.push(None);
        self.bits.push(None);
        Ok(())
    }

    /// `ConstraintSystemRef::to_matrices`, after `finalize`: the matrices of the
    /// constraint system, which the record determines.
    #[verifier::external_body]
    fn ark_matrices(self) -> (r: Matrices)
        ensures
            r@ == constraint_matrices(recorded(self)),
    {
        self.cs.finalize();
        let m = self.cs.to_matrices().unwrap();
        let convert = |rows: Vec<Vec<(ArkFr, usize)>>| -> Vec<Vec<(Fr, usize)>> {
            rows.into_iter().map(
                |row| row.into_iter().map(|(c, i)| (Fr::from_limbs(c.into_bigint().0), i)).collect(),
            ).collect()
        };
        Matrices {
            num_instance_variables: m.num_instance_variables,
            num_witness_variables: m.num_witness_variables,
            a: convert(m.a),
            b: convert(m.b),
            c: convert(m.c),
        }
    }

    /// `ConstraintSystemRef::is_satisfied`: whether the values of the variables
    /// meet every rule. In setup mode there is no answer.
    #[verifier::external_body]
    pub(crate) fn ark_is_satisfied(&self) -> (r: Option<bool>)
        ensures
            r is Some <==> assigned(*self) is Some,
            r matches Some(met) ==> met == holds(recorded(*self), assigned(*self)->0),
    {
        self.cs.is_satisfied().ok()
    }
}

impl Builder {
    /// A circuit without values, for setup.
    pub fn for_setup() -> (r: Builder)
        ensures
            recorded(r) == Seq::<Gate>::empty(),
            assigned(r) is None,
    {
        Builder::ark_new(true)
    }

    /// A circuit with values, for proving.
    pub fn for_proving() -> (r: Builder)
        ensures
            recorded(r) == Seq::<Gate>::empty(),
            assigned(r) == Some(Seq::<nat>::empty()),
    {
        Builder::ark_new(false)
    }

    /// Whether the values meet every rule; nothing for a circuit without values.
    pub fn is_satisfied(&self) -> (r: Option<bool>)
        ensures
            r is Some <==> assigned(*self) is Some,
            r matches Some(met) ==> met == holds(recorded(*self), assigned(*self)->0),
    {
        self.ark_is_satisfied()
    }

    /// The matrices of the constraint system.
    pub fn into_matrices(self) -> (r: Matrices)
        ensures
            r@ == constraint_matrices(recorded(self)),
    {
        self.ark_matrices()
    }
}

impl SynthesisError {
    /// The error in words.
    pub open spec fn text(self) -> Seq<char> {
        match self {
            SynthesisError::MissingCS => "the constraint system was `None`"@,
            SynthesisError::AssignmentMissing =>
                "an assignment for a variable could not be computed"@,
            SynthesisError::DivisionByZero => "division by zero"@,
            SynthesisError::Unsatisfiable => "unsatisfiable constraint system"@,
            SynthesisError::PolynomialDegreeTooLarge => "polynomial degree is too large"@,
            SynthesisError::UnexpectedIdentity => "encountered an identity element in the CRS"@,
            SynthesisError::MalformedVerifyingKey => "malformed verifying key"@,
            SynthesisError::UnconstrainedVariable => "auxiliary variable was unconstrained"@,
        }
    }

    /// The error in words.
    pub fn message(self) -> (r: String)
        ensures
            r@ == self.text(),
    {
        match self {
            SynthesisError::MissingCS => "the constraint system was `None`".to_string(),
            SynthesisError::AssignmentMissing =>
                "an assignment for a variable could not be computed".to_string(),
            SynthesisError::DivisionByZero => "division by zero".to_string(),
            SynthesisError::Unsatisfiable => "unsatisfiable constraint system".to_string(),
            SynthesisError::PolynomialDegreeTooLarge =>
                "polynomial degree is too large".to_string(),
            SynthesisError::UnexpectedIdentity =>
                "encountered an identity element in the CRS".to_string(),
            SynthesisError::MalformedVerifyingKey => "malformed verifying key".to_string(),
            SynthesisError::UnconstrainedVariable =>
                "auxiliary variable was unconstrained".to_string(),
        }
    }
}

} // verus!
