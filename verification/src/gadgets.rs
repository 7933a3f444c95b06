//! The Poseidon sponge as a circuit.
//!
//! For each computation there is the record it adds to a builder, the builder's
//! steps that add exactly this record, and a lemma that says what the record
//! computes under every assignment.
use crate::field;
use crate::field::Fr;
use crate::gates;
use crate::gates::{Builder, Gate};
use crate::permutation;
use crate::permutation::PoseidonParams;
use vstd::arithmetic::div_mod::*;
use vstd::arithmetic::mul::*;
use vstd::prelude::*;

verus! {

/// A record and the wires that a computation left its results on.
pub struct Drawn {
    pub gates: Seq<Gate>,
    pub out: Seq<nat>,
}

/// The values of wires.
pub open spec fn reads(g: Seq<Gate>, values: Seq<nat>, wires: Seq<nat>) -> Seq<nat> {
    Seq::new(wires.len(), |i: int| gates::wire(g, values, wires[i]))
}

/// Wire numbers as integers.
pub open spec fn wires(s: Seq<usize>) -> Seq<nat> {
    Seq::new(s.len(), |i: int| s[i] as nat)
}

/// Wires that carry field elements.
pub open spec fn all_fields(g: Seq<Gate>, wires: Seq<nat>) -> bool {
    forall|i: int| 0 <= i < wires.len() ==> gates::is_field(g, #[trigger] wires[i])
}

pub proof fn lemma_computes_trans(g: Seq<Gate>, h: Seq<Gate>, k: Seq<Gate>)
    requires
        gates::computes(g, h),
        gates::computes(h, k),
    ensures
        gates::computes(g, k),
{
    assert forall|w: int| 0 <= w < g.len() implies #[trigger] k[w] == g[w] by {
        assert(h[w] == g[w]);
    }
    assert forall|w: int| g.len() <= w < k.len() implies gates::is_plain_gate(#[trigger] k[w]) by {
        if w < h.len() {
            assert(k[w] == h[w]);
            assert(gates::is_plain_gate(h[w]));
        }
    }
}

/// Computations leave the values of earlier wires alone.
pub proof fn lemma_reads_kept(g: Seq<Gate>, h: Seq<Gate>, values: Seq<nat>, wires: Seq<nat>)
    requires
        gates::continues(g, h),
        all_fields(g, wires),
    ensures
        all_fields(h, wires),
        reads(h, values, wires) == reads(g, values, wires),
{
    assert forall|i: int| 0 <= i < wires.len() implies gates::is_field(h, #[trigger] wires[i])
        && gates::wire(h, values, wires[i]) == gates::wire(g, values, wires[i]) by {
        assert(gates::is_field(g, wires[i]));
        gates::lemma_wire_kept(g, h, values, wires[i]);
    }
    assert(reads(h, values, wires) =~= reads(g, values, wires));
}

pub proof fn lemma_constant(g: Seq<Gate>, c: nat, values: Seq<nat>)
    ensures
        ({
            let h = g.push(Gate::Constant(c));
            &&& gates::computes(g, h)
            &&& gates::is_field(h, g.len())
            &&& gates::wire(h, values, g.len()) == c
        }),
{
}

pub proof fn lemma_add(g: Seq<Gate>, a: nat, b: nat, values: Seq<nat>)
    requires
        a < g.len(),
        b < g.len(),
    ensures
        ({
            let h = g.push(Gate::Add(a, b));
            &&& gates::computes(g, h)
            &&& gates::is_field(h, g.len())
            &&& gates::wire(h, values, g.len()) == field::fadd(
                gates::wire(g, values, a),
                gates::wire(g, values, b),
            )
        }),
{
    let h = g.push(Gate::Add(a, b));
    gates::lemma_wire_kept(g, h, values, a);
    gates::lemma_wire_kept(g, h, values, b);
}

pub proof fn lemma_sub(g: Seq<Gate>, a: nat, b: nat, values: Seq<nat>)
    requires
        a < g.len(),
        b < g.len(),
    ensures
        ({
            let h = g.push(Gate::Sub(a, b));
            &&& gates::computes(g, h)
            &&& gates::is_field(h, g.len())
            &&& gates::wire(h, values, g.len()) == field::fsub(
                gates::wire(g, values, a),
                gates::wire(g, values, b),
            )
        }),
{
    let h = g.push(Gate::Sub(a, b));
    gates::lemma_wire_kept(g, h, values, a);
    gates::lemma_wire_kept(g, h, values, b);
}

pub proof fn lemma_mul(g: Seq<Gate>, a: nat, b: nat, values: Seq<nat>)
    requires
        a < g.len(),
        b < g.len(),
    ensures
        ({
            let h = g.push(Gate::Mul(a, b));
            &&& gates::computes(g, h)
            &&& gates::is_field(h, g.len())
            &&& gates::wire(h, values, g.len()) == field::fmul(
                gates::wire(g, values, a),
                gates::wire(g, values, b),
            )
        }),
{
    let h = g.push(Gate::Mul(a, b));
    gates::lemma_wire_kept(g, h, values, a);
    gates::lemma_wire_kept(g, h, values, b);
}

// The S-box.

pub open spec fn draw_sbox(g: Seq<Gate>, x: nat) -> Seq<Gate> {
    let n = g.len();
    g.push(Gate::Mul(x, x)).push(Gate::Mul(n, n)).push(Gate::Mul(n + 1, x))
}

proof fn lemma_draw_sbox(g: Seq<Gate>, x: nat, values: Seq<nat>)
    requires
        gates::is_field(g, x),
    ensures
        gates::computes(g, draw_sbox(g, x)),
        gates::is_field(draw_sbox(g, x), g.len() + 2),
        gates::wire(draw_sbox(g, x), values, g.len() + 2) == permutation::fifth(
            gates::wire(g, values, x),
        ),
{
    let n = g.len();
    let g1 = g.push(Gate::Mul(x, x));
    let g2 = g1.push(Gate::Mul(n, n));
    lemma_mul(g, x, x, values);
    lemma_mul(g1, n, n, values);
    lemma_mul(g2, n + 1, x, values);
    gates::lemma_wire_kept(g, g1, values, x);
    gates::lemma_wire_kept(g1, g2, values, x);
    lemma_computes_trans(g, g1, g2);
    lemma_computes_trans(g, g2, draw_sbox(g, x));
    let v = gates::wire(g, values, x);
    permutation::lemma_fifth(v);
    let f = field::fmul(field::fmul(v, v), field::fmul(v, v));
    lemma_mul_is_commutative(f as int, v as int);
}

fn sbox_circuit(b: &mut Builder, x: usize) -> (r: usize)
    requires
        gates::is_field(gates::recorded(*old(b)), x as nat),
    ensures
        gates::recorded(*final(b)) == draw_sbox(gates::recorded(*old(b)), x as nat),
        r == gates::recorded(*old(b)).len() + 2,
        gates::assigned(*final(b)) == gates::assigned(*old(b)),
{
    let x2 = b.square(x);
    let x4 = b.square(x2);
    b.mul(x4, x)
}

// Adding the round constants.

pub open spec fn draw_shift(g: Seq<Gate>, w: nat, c: nat) -> Seq<Gate> {
    g.push(Gate::Constant(c)).push(Gate::Add(w, g.len()))
}

proof fn lemma_draw_shift(g: Seq<Gate>, w: nat, c: nat, values: Seq<nat>)
    requires
        gates::is_field(g, w),
    ensures
        gates::computes(g, draw_shift(g, w, c)),
        gates::is_field(draw_shift(g, w, c), g.len() + 1),
        gates::wire(draw_shift(g, w, c), values, g.len() + 1) == field::fadd(
            gates::wire(g, values, w),
            c,
        ),
{
    let g1 = g.push(Gate::Constant(c));
    lemma_constant(g, c, values);
    lemma_add(g1, w, g.len(), values);
    gates::lemma_wire_kept(g, g1, values, w);
    lemma_computes_trans(g, g1, draw_shift(g, w, c));
}

pub open spec fn draw_add_constants(g: Seq<Gate>, s: Seq<nat>, constants: Seq<nat>) -> Drawn {
    let n = g.len();
    Drawn {
        gates: draw_shift(
            draw_shift(draw_shift(g, s[0], constants[0]), s[1], constants[1]),
            s[2],
            constants[2],
        ),
        out: seq![n + 1, n + 3, n + 5],
    }
}

proof fn lemma_draw_add_constants(
    g: Seq<Gate>,
    s: Seq<nat>,
    constants: Seq<nat>,
    values: Seq<nat>,
)
    requires
        s.len() == 3,
        all_fields(g, s),
    ensures
        ({
            let d = draw_add_constants(g, s, constants);
            &&& gates::computes(g, d.gates)
            &&& all_fields(d.gates, d.out)
            &&& reads(d.gates, values, d.out) == permutation::add_constants(
                reads(g, values, s),
                constants,
            )
        }),
{
    let n = g.len();
    assert(gates::is_field(g, s[0]) && gates::is_field(g, s[1]) && gates::is_field(g, s[2]));
    let g1 = draw_shift(g, s[0], constants[0]);
    lemma_draw_shift(g, s[0], constants[0], values);
    gates::lemma_wire_kept(g, g1, values, s[1]);
    gates::lemma_wire_kept(g, g1, values, s[2]);
    let g2 = draw_shift(g1, s[1], constants[1]);
    lemma_draw_shift(g1, s[1], constants[1], values);
    gates::lemma_wire_kept(g1, g2, values, s[2]);
    gates::lemma_wire_kept(g1, g2, values, n + 1);
    let g3 = draw_shift(g2, s[2], constants[2]);
    lemma_draw_shift(g2, s[2], constants[2], values);
    gates::lemma_wire_kept(g2, g3, values, n + 1);
    gates::lemma_wire_kept(g2, g3, values, n + 3);
    lemma_computes_trans(g, g1, g2);
    lemma_computes_trans(g, g2, g3);
    let d = draw_add_constants(g, s, constants);
    assert(reads(d.gates, values, d.out) =~= permutation::add_constants(
        reads(g, values, s),
        constants,
    ));
}

fn add_constants_circuit(b: &mut Builder, s: [usize; 3], params: &PoseidonParams, r: usize) -> (out:
    [usize; 3])
    requires
        permutation::well_formed(params@),
        r < params.constants@.len(),
        all_fields(gates::recorded(*old(b)), wires(s@)),
    ensures
        ({
            let d = draw_add_constants(
                gates::recorded(*old(b)),
                wires(s@),
                params@.constants[r as int],
            );
            &&& gates::recorded(*final(b)) == d.gates
            &&& wires(out@) == d.out
        }),
        gates::assigned(*final(b)) == gates::assigned(*old(b)),
{
    let constants = &params.constants[r];
    let ghost g = gates::recorded(*b);
    assert(params@.constants[r as int] == field::values(constants@));
    proof {
        assert(gates::is_field(g, wires(s@)[0]));
        assert(gates::is_field(g, wires(s@)[1]));
        assert(gates::is_field(g, wires(s@)[2]));
    }
    let c0 = b.constant(&constants[0]);
    let w0 = b.add(s[0], c0);
    let c1 = b.constant(&constants[1]);
    let w1 = b.add(s[1], c1);
    let c2 = b.constant(&constants[2]);
    let w2 = b.add(s[2], c2);
    let out = [w0, w1, w2];
    assert(wires(out@) =~= draw_add_constants(g, wires(s@), params@.constants[r as int]).out);
    out
}

// The S-box layers.

pub open spec fn draw_sbox_all(g: Seq<Gate>, s: Seq<nat>) -> Drawn {
    let n = g.len();
    Drawn {
        gates: draw_sbox(draw_sbox(draw_sbox(g, s[0]), s[1]), s[2]),
        out: seq![n + 2, n + 5, n + 8],
    }
}

pub open spec fn draw_sbox_first(g: Seq<Gate>, s: Seq<nat>) -> Drawn {
    Drawn { gates: draw_sbox(g, s[0]), out: seq![g.len() + 2, s[1], s[2]] }
}

proof fn lemma_draw_sbox_all(g: Seq<Gate>, s: Seq<nat>, values: Seq<nat>)
    requires
        s.len() == 3,
        all_fields(g, s),
    ensures
        ({
            let d = draw_sbox_all(g, s);
            &&& gates::computes(g, d.gates)
            &&& all_fields(d.gates, d.out)
            &&& reads(d.gates, values, d.out) == permutation::sbox_all(reads(g, values, s))
        }),
{
    let n = g.len();
    assert(gates::is_field(g, s[0]) && gates::is_field(g, s[1]) && gates::is_field(g, s[2]));
    let g1 = draw_sbox(g, s[0]);
    lemma_draw_sbox(g, s[0], values);
    gates::lemma_wire_kept(g, g1, values, s[1]);
    gates::lemma_wire_kept(g, g1, values, s[2]);
    let g2 = draw_sbox(g1, s[1]);
    lemma_draw_sbox(g1, s[1], values);
    gates::lemma_wire_kept(g1, g2, values, s[2]);
    gates::lemma_wire_kept(g1, g2, values, n + 2);
    let g3 = draw_sbox(g2, s[2]);
    lemma_draw_sbox(g2, s[2], values);
    gates::lemma_wire_kept(g2, g3, values, n + 2);
    gates::lemma_wire_kept(g2, g3, values, n + 5);
    lemma_computes_trans(g, g1, g2);
    lemma_computes_trans(g, g2, g3);
    let d = draw_sbox_all(g, s);
    assert(reads(d.gates, values, d.out) =~= permutation::sbox_all(reads(g, values, s)));
}

proof fn lemma_draw_sbox_first(g: Seq<Gate>, s: Seq<nat>, values: Seq<nat>)
    requires
        s.len() == 3,
        all_fields(g, s),
    ensures
        ({
            let d = draw_sbox_first(g, s);
            &&& gates::computes(g, d.gates)
            &&& all_fields(d.gates, d.out)
            &&& reads(d.gates, values, d.out) == permutation::sbox_first(reads(g, values, s))
        }),
{
    assert(gates::is_field(g, s[0]) && gates::is_field(g, s[1]) && gates::is_field(g, s[2]));
    let g1 = draw_sbox(g, s[0]);
    lemma_draw_sbox(g, s[0], values);
    gates::lemma_wire_kept(g, g1, values, s[1]);
    gates::lemma_wire_kept(g, g1, values, s[2]);
    let d = draw_sbox_first(g, s);
    assert(reads(d.gates, values, d.out) =~= permutation::sbox_first(reads(g, values, s)));
}

// The mixing layer.

pub open spec fn draw_row(g: Seq<Gate>, s: Seq<nat>, row: Seq<nat>) -> Seq<Gate> {
    let n = g.len();
    g.push(Gate::Constant(0)).push(Gate::Constant(row[0])).push(Gate::Mul(n + 1, s[0])).push(
        Gate::Add(n, n + 2),
    ).push(Gate::Constant(row[1])).push(Gate::Mul(n + 4, s[1])).push(Gate::Add(n + 3, n + 5)).push(
        Gate::Constant(row[2]),
    ).push(Gate::Mul(n + 7, s[2])).push(Gate::Add(n + 6, n + 8))
}

/// One product added to a sum.
proof fn lemma_draw_term(g: Seq<Gate>, sum: nat, c: nat, w: nat, values: Seq<nat>)
    requires
        gates::is_field(g, sum),
        gates::is_field(g, w),
    ensures
        ({
            let n = g.len();
            let h = g.push(Gate::Constant(c)).push(Gate::Mul(n, w)).push(Gate::Add(sum, n + 1));
            &&& gates::computes(g, h)
            &&& h.len() == n + 3
            &&& gates::is_field(h, n + 2)
            &&& gates::wire(h, values, n + 2) == field::fadd(
                gates::wire(g, values, sum),
                field::fmul(c, gates::wire(g, values, w)),
            )
        }),
{
    let n = g.len();
    let g1 = g.push(Gate::Constant(c));
    let g2 = g1.push(Gate::Mul(n, w));
    let h = g2.push(Gate::Add(sum, n + 1));
    lemma_constant(g, c, values);
    lemma_mul(g1, n, w, values);
    lemma_add(g2, sum, n + 1, values);
    gates::lemma_wire_kept(g, g1, values, w);
    gates::lemma_wire_kept(g, g2, values, sum);
    lemma_computes_trans(g, g1, g2);
    lemma_computes_trans(g, g2, h);
}

proof fn lemma_draw_row(g: Seq<Gate>, s: Seq<nat>, row: Seq<nat>, values: Seq<nat>)
    requires
        s.len() == 3,
        all_fields(g, s),
    ensures
        gates::computes(g, draw_row(g, s, row)),
        draw_row(g, s, row).len() == g.len() + 10,
        gates::is_field(draw_row(g, s, row), g.len() + 9),
        gates::wire(draw_row(g, s, row), values, g.len() + 9) == permutation::dot(
            row,
            reads(g, values, s),
        ),
{
    let n = g.len();
    assert(gates::is_field(g, s[0]) && gates::is_field(g, s[1]) && gates::is_field(g, s[2]));
    let g0 = g.push(Gate::Constant(0));
    lemma_constant(g, 0, values);
    lemma_reads_kept(g, g0, values, s);
    assert(gates::is_field(g0, s[0]) && gates::is_field(g0, s[1]) && gates::is_field(g0, s[2]));
    let g1 = g0.push(Gate::Constant(row[0])).push(Gate::Mul(n + 1, s[0])).push(
        Gate::Add(n, n + 2),
    );
    lemma_draw_term(g0, n, row[0], s[0], values);
    gates::lemma_wire_kept(g0, g1, values, s[1]);
    gates::lemma_wire_kept(g0, g1, values, s[2]);
    let g2 = g1.push(Gate::Constant(row[1])).push(Gate::Mul(n + 4, s[1])).push(
        Gate::Add(n + 3, n + 5),
    );
    lemma_draw_term(g1, n + 3, row[1], s[1], values);
    gates::lemma_wire_kept(g1, g2, values, s[2]);
    lemma_draw_term(g2, n + 6, row[2], s[2], values);
    lemma_computes_trans(g, g0, g1);
    lemma_computes_trans(g, g1, g2);
    lemma_computes_trans(g, g2, draw_row(g, s, row));
    gates::lemma_wire_kept(g, g0, values, s[0]);
    gates::lemma_wire_kept(g, g0, values, s[1]);
    gates::lemma_wire_kept(g, g0, values, s[2]);
    permutation::lemma_dot(row, reads(g, values, s));
}

pub open spec fn draw_mix(g: Seq<Gate>, s: Seq<nat>, mds: Seq<Seq<nat>>) -> Drawn {
    let n = g.len();
    Drawn {
        gates: draw_row(draw_row(draw_row(g, s, mds[0]), s, mds[1]), s, mds[2]),
        out: seq![n + 9, n + 19, n + 29],
    }
}

proof fn lemma_draw_mix(g: Seq<Gate>, s: Seq<nat>, mds: Seq<Seq<nat>>, values: Seq<nat>)
    requires
        s.len() == 3,
        all_fields(g, s),
    ensures
        ({
            let d = draw_mix(g, s, mds);
            &&& gates::computes(g, d.gates)
            &&& all_fields(d.gates, d.out)
            &&& reads(d.gates, values, d.out) == permutation::mix(mds, reads(g, values, s))
        }),
{
    let n = g.len();
    let g1 = draw_row(g, s, mds[0]);
    lemma_draw_row(g, s, mds[0], values);
    lemma_reads_kept(g, g1, values, s);
    let g2 = draw_row(g1, s, mds[1]);
    lemma_draw_row(g1, s, mds[1], values);
    lemma_reads_kept(g1, g2, values, s);
    gates::lemma_wire_kept(g1, g2, values, n + 9);
    let g3 = draw_row(g2, s, mds[2]);
    lemma_draw_row(g2, s, mds[2], values);
    gates::lemma_wire_kept(g2, g3, values, n + 9);
    gates::lemma_wire_kept(g2, g3, values, n + 19);
    lemma_computes_trans(g, g1, g2);
    lemma_computes_trans(g, g2, g3);
    let d = draw_mix(g, s, mds);
    assert(reads(d.gates, values, d.out) =~= permutation::mix(mds, reads(g, values, s)));
}

fn row_circuit(b: &mut Builder, s: [usize; 3], row: &Vec<Fr>) -> (r: usize)
    requires
        row@.len() == 3,
        all_fields(gates::recorded(*old(b)), wires(s@)),
    ensures
        gates::recorded(*final(b)) == draw_row(
            gates::recorded(*old(b)),
            wires(s@),
            field::values(row@),
        ),
        r == gates::recorded(*old(b)).len() + 9,
        gates::assigned(*final(b)) == gates::assigned(*old(b)),
{
    let ghost g = gates::recorded(*b);
    proof {
        assert(gates::is_field(g, wires(s@)[0]));
        assert(gates::is_field(g, wires(s@)[1]));
        assert(gates::is_field(g, wires(s@)[2]));
    }
    let zero = b.constant(&Fr::zero());
    let m0 = b.constant(&row[0]);
    let t0 = b.mul(m0, s[0]);
    let sum0 = b.add(zero, t0);
    let m1 = b.constant(&row[1]);
    let t1 = b.mul(m1, s[1]);
    let sum1 = b.add(sum0, t1);
    let m2 = b.constant(&row[2]);
    let t2 = b.mul(m2, s[2]);
    b.add(sum1, t2)
}

fn mix_circuit(b: &mut Builder, s: [usize; 3], params: &PoseidonParams) -> (out: [usize; 3])
    requires
        permutation::well_formed(params@),
        all_fields(gates::recorded(*old(b)), wires(s@)),
    ensures
        ({
            let d = draw_mix(gates::recorded(*old(b)), wires(s@), params@.mds);
            &&& gates::recorded(*final(b)) == d.gates
            &&& wires(out@) == d.out
        }),
        gates::assigned(*final(b)) == gates::assigned(*old(b)),
{
    let ghost g = gates::recorded(*b);
    assert(params@.mds.len() == 3);
    assert(params@.mds[0] == field::values(params.mds@[0]@));
    assert(params@.mds[1] == field::values(params.mds@[1]@));
    assert(params@.mds[2] == field::values(params.mds@[2]@));
    proof {
        lemma_draw_row(g, wires(s@), params@.mds[0], Seq::empty());
        let g1 = draw_row(g, wires(s@), params@.mds[0]);
        lemma_reads_kept(g, g1, Seq::empty(), wires(s@));
        lemma_draw_row(g1, wires(s@), params@.mds[1], Seq::empty());
        lemma_reads_kept(g1, draw_row(g1, wires(s@), params@.mds[1]), Seq::empty(), wires(s@));
    }
    let w0 = row_circuit(b, s, &params.mds[0]);
    let w1 = row_circuit(b, s, &params.mds[1]);
    let w2 = row_circuit(b, s, &params.mds[2]);
    let out = [w0, w1, w2];
    assert(wires(out@) =~= draw_mix(g, wires(s@), params@.mds).out);
    out
}

// Rounds.

pub open spec fn draw_full_step(
    p: permutation::Schedule,
    r: int,
    g: Seq<Gate>,
    s: Seq<nat>,
) -> Drawn {
    let shifted = draw_add_constants(g, s, p.constants[r]);
    let boxed = draw_sbox_all(shifted.gates, shifted.out);
    draw_mix(boxed.gates, boxed.out, p.mds)
}

pub open spec fn draw_partial_step(
    p: permutation::Schedule,
    r: int,
    g: Seq<Gate>,
    s: Seq<nat>,
) -> Drawn {
    let shifted = draw_add_constants(g, s, p.constants[r]);
    let boxed = draw_sbox_first(shifted.gates, shifted.out);
    draw_mix(boxed.gates, boxed.out, p.mds)
}

pub open spec fn draw_step(p: permutation::Schedule, r: int, g: Seq<Gate>, s: Seq<nat>) -> Drawn {
    if permutation::is_full(p, r) {
        draw_full_step(p, r, g, s)
    } else {
        draw_partial_step(p, r, g, s)
    }
}

proof fn lemma_draw_step(
    p: permutation::Schedule,
    r: int,
    g: Seq<Gate>,
    s: Seq<nat>,
    values: Seq<nat>,
)
    requires
        s.len() == 3,
        all_fields(g, s),
    ensures
        ({
            let d = draw_step(p, r, g, s);
            &&& gates::computes(g, d.gates)
            &&& d.out.len() == 3
            &&& all_fields(d.gates, d.out)
            &&& reads(d.gates, values, d.out) == permutation::step(p, r, reads(g, values, s))
        }),
{
    let shifted = draw_add_constants(g, s, p.constants[r]);
    lemma_draw_add_constants(g, s, p.constants[r], values);
    let boxed = if permutation::is_full(p, r) {
        draw_sbox_all(shifted.gates, shifted.out)
    } else {
        draw_sbox_first(shifted.gates, shifted.out)
    };
    if permutation::is_full(p, r) {
        lemma_draw_sbox_all(shifted.gates, shifted.out, values);
    } else {
        lemma_draw_sbox_first(shifted.gates, shifted.out, values);
    }
    lemma_draw_mix(boxed.gates, boxed.out, p.mds, values);
    lemma_computes_trans(g, shifted.gates, boxed.gates);
    lemma_computes_trans(g, boxed.gates, draw_step(p, r, g, s).gates);
}

fn full_round_circuit(b: &mut Builder, s: [usize; 3], r: usize, params: &PoseidonParams) -> (out: [
    usize; 3])
    requires
        permutation::well_formed(params@),
        r < params.constants@.len(),
        all_fields(gates::recorded(*old(b)), wires(s@)),
    ensures
        ({
            let d = draw_full_step(params@, r as int, gates::recorded(*old(b)), wires(s@));
            &&& gates::recorded(*final(b)) == d.gates
            &&& wires(out@) == d.out
        }),
        gates::assigned(*final(b)) == gates::assigned(*old(b)),
{
    let ghost g = gates::recorded(*b);
    proof {
        lemma_draw_add_constants(g, wires(s@), params@.constants[r as int], Seq::empty());
    }
    let shifted = add_constants_circuit(b, s, params, r);
    let ghost g1 = gates::recorded(*b);
    proof {
        assert(gates::is_field(g1, wires(shifted@)[0]));
        assert(gates::is_field(g1, wires(shifted@)[1]));
        assert(gates::is_field(g1, wires(shifted@)[2]));
        lemma_draw_sbox_all(g1, wires(shifted@), Seq::empty());
    }
    let w0 = sbox_circuit(b, shifted[0]);
    let w1 = sbox_circuit(b, shifted[1]);
    let w2 = sbox_circuit(b, shifted[2]);
    let boxed = [w0, w1, w2];
    assert(wires(boxed@) =~= draw_sbox_all(g1, wires(shifted@)).out);
    mix_circuit(b, boxed, params)
}

fn partial_round_circuit(
    b: &mut Builder,
    s: [usize; 3],
    r: usize,
    params: &PoseidonParams,
) -> (out: [usize; 3])
    requires
        permutation::well_formed(params@),
        r < params.constants@.len(),
        all_fields(gates::recorded(*old(b)), wires(s@)),
    ensures
        ({
            let d = draw_partial_step(params@, r as int, gates::recorded(*old(b)), wires(s@));
            &&& gates::recorded(*final(b)) == d.gates
            &&& wires(out@) == d.out
        }),
        gates::assigned(*final(b)) == gates::assigned(*old(b)),
{
    let ghost g = gates::recorded(*b);
    proof {
        lemma_draw_add_constants(g, wires(s@), params@.constants[r as int], Seq::empty());
    }
    let shifted = add_constants_circuit(b, s, params, r);
    let ghost g1 = gates::recorded(*b);
    proof {
        assert(gates::is_field(g1, wires(shifted@)[0]));
        lemma_draw_sbox_first(g1, wires(shifted@), Seq::empty());
    }
    let w0 = sbox_circuit(b, shifted[0]);
    let boxed = [w0, shifted[1], shifted[2]];
    assert(wires(boxed@) =~= draw_sbox_first(g1, wires(shifted@)).out);
    mix_circuit(b, boxed, params)
}

pub open spec fn draw_rounds(
    p: permutation::Schedule,
    count: nat,
    g: Seq<Gate>,
    s: Seq<nat>,
) -> Drawn
    decreases count,
{
    if count == 0 {
        Drawn { gates: g, out: s }
    } else {
        let before = draw_rounds(p, (count - 1) as nat, g, s);
        draw_step(p, count - 1, before.gates, before.out)
    }
}

proof fn lemma_draw_rounds(
    p: permutation::Schedule,
    count: nat,
    g: Seq<Gate>,
    s: Seq<nat>,
    values: Seq<nat>,
)
    requires
        s.len() == 3,
        all_fields(g, s),
    ensures
        ({
            let d = draw_rounds(p, count, g, s);
            &&& gates::computes(g, d.gates)
            &&& d.out.len() == 3
            &&& all_fields(d.gates, d.out)
            &&& reads(d.gates, values, d.out) == permutation::rounds(p, count, reads(g, values, s))
        }),
    decreases count,
{
    if count > 0 {
        let before = draw_rounds(p, (count - 1) as nat, g, s);
        lemma_draw_rounds(p, (count - 1) as nat, g, s, values);
        lemma_draw_step(p, count - 1, before.gates, before.out, values);
        lemma_computes_trans(g, before.gates, draw_rounds(p, count, g, s).gates);
    }
}

/// The permutation.
fn permutation_circuit(b: &mut Builder, s: [usize; 3], params: &PoseidonParams) -> (out: [usize; 3])
    requires
        permutation::well_formed(params@),
        all_fields(gates::recorded(*old(b)), wires(s@)),
    ensures
        ({
            let d = draw_rounds(
                params@,
                params@.constants.len(),
                gates::recorded(*old(b)),
                wires(s@),
            );
            &&& gates::recorded(*final(b)) == d.gates
            &&& wires(out@) == d.out
        }),
        gates::assigned(*final(b)) == gates::assigned(*old(b)),
{
    let count = params.constants.len();
    let mut state = s;
    let ghost g = gates::recorded(*b);
    for r in 0..count
        invariant
            permutation::well_formed(params@),
            count == params.constants@.len(),
            g == gates::recorded(*old(b)),
            all_fields(g, wires(s@)),
            gates::recorded(*b) == draw_rounds(params@, r as nat, g, wires(s@)).gates,
            wires(state@) == draw_rounds(params@, r as nat, g, wires(s@)).out,
            gates::assigned(*b) == gates::assigned(*old(b)),
    {
        proof {
            lemma_draw_rounds(params@, r as nat, g, wires(s@), Seq::empty());
        }
        if r < permutation::FULL_ROUNDS / 2 || r >= count - permutation::FULL_ROUNDS / 2 {
            state = full_round_circuit(b, state, r, params);
        } else {
            state = partial_round_circuit(b, state, r, params);
        }
    }
    state
}

// The sponge.

pub open spec fn draw_absorb(
    p: permutation::Schedule,
    g: Seq<Gate>,
    s: Seq<nat>,
    inputs: Seq<nat>,
) -> Drawn
    decreases inputs.len(),
{
    let n = g.len();
    if inputs.len() == 0 {
        Drawn { gates: g, out: s }
    } else if inputs.len() == 1 {
        draw_rounds(
            p,
            p.constants.len(),
            g.push(Gate::Add(s[0], inputs[0])),
            seq![n, s[1], s[2]],
        )
    } else {
        let d = draw_rounds(
            p,
            p.constants.len(),
            g.push(Gate::Add(s[0], inputs[0])).push(Gate::Add(s[1], inputs[1])),
            seq![n, n + 1, s[2]],
        );
        draw_absorb(p, d.gates, d.out, inputs.skip(2))
    }
}

proof fn lemma_draw_absorb(
    p: permutation::Schedule,
    g: Seq<Gate>,
    s: Seq<nat>,
    inputs: Seq<nat>,
    values: Seq<nat>,
)
    requires
        s.len() == 3,
        all_fields(g, s),
        all_fields(g, inputs),
    ensures
        ({
            let d = draw_absorb(p, g, s, inputs);
            &&& gates::computes(g, d.gates)
            &&& d.out.len() == 3
            &&& all_fields(d.gates, d.out)
            &&& reads(d.gates, values, d.out) == permutation::absorb(
                p,
                reads(g, values, s),
                reads(g, values, inputs),
            )
        }),
    decreases inputs.len(),
{
    let n = g.len();
    if inputs.len() > 0 {
        assert(gates::is_field(g, s[0]) && gates::is_field(g, s[1]) && gates::is_field(g, s[2]));
        assert(gates::is_field(g, inputs[0]));
        let g1 = g.push(Gate::Add(s[0], inputs[0]));
        lemma_add(g, s[0], inputs[0], values);
        gates::lemma_wire_kept(g, g1, values, s[1]);
        gates::lemma_wire_kept(g, g1, values, s[2]);
        if inputs.len() == 1 {
            let t = seq![n, s[1], s[2]];
            assert(reads(g1, values, t) =~= seq![
                field::fadd(reads(g, values, s)[0], reads(g, values, inputs)[0]),
                reads(g, values, s)[1],
                reads(g, values, s)[2],
            ]);
            lemma_draw_rounds(p, p.constants.len(), g1, t, values);
            lemma_computes_trans(g, g1, draw_absorb(p, g, s, inputs).gates);
        } else {
            assert(gates::is_field(g, inputs[1]));
            gates::lemma_wire_kept(g, g1, values, inputs[1]);
            let g2 = g1.push(Gate::Add(s[1], inputs[1]));
            lemma_add(g1, s[1], inputs[1], values);
            gates::lemma_wire_kept(g1, g2, values, s[2]);
            gates::lemma_wire_kept(g1, g2, values, n);
            lemma_computes_trans(g, g1, g2);
            let t = seq![n, n + 1, s[2]];
            assert(reads(g2, values, t) =~= seq![
                field::fadd(reads(g, values, s)[0], reads(g, values, inputs)[0]),
                field::fadd(reads(g, values, s)[1], reads(g, values, inputs)[1]),
                reads(g, values, s)[2],
            ]);
            let d = draw_rounds(p, p.constants.len(), g2, t);
            lemma_draw_rounds(p, p.constants.len(), g2, t, values);
            lemma_computes_trans(g, g2, d.gates);
            let rest = inputs.skip(2);
            assert forall|i: int| 0 <= i < rest.len() implies gates::is_field(
                g,
                #[trigger] rest[i],
            ) by {
                assert(rest[i] == inputs[i + 2]);
            }
            lemma_reads_kept(g, d.gates, values, rest);
            assert(reads(g, values, rest) =~= reads(g, values, inputs).skip(2));
            lemma_draw_absorb(p, d.gates, d.out, rest, values);
            lemma_computes_trans(g, d.gates, draw_absorb(p, g, s, inputs).gates);
        }
    }
}

/// The record of the sponge: a state of three zeros that absorbs the inputs.
pub open spec fn draw_sponge(p: permutation::Schedule, g: Seq<Gate>, inputs: Seq<nat>) -> Drawn {
    let n = g.len();
    draw_absorb(
        p,
        g.push(Gate::Constant(0)).push(Gate::Constant(0)).push(Gate::Constant(0)),
        seq![n, n + 1, n + 2],
        inputs,
    )
}

/// Under every assignment the circuit computes the sponge of its inputs.
pub proof fn lemma_draw_sponge(
    p: permutation::Schedule,
    g: Seq<Gate>,
    inputs: Seq<nat>,
    values: Seq<nat>,
)
    requires
        all_fields(g, inputs),
    ensures
        ({
            let d = draw_sponge(p, g, inputs);
            &&& gates::computes(g, d.gates)
            &&& d.out.len() == 3
            &&& gates::is_field(d.gates, d.out[0])
            &&& gates::wire(d.gates, values, d.out[0]) == permutation::sponge(
                p,
                reads(g, values, inputs),
            )
        }),
{
    let n = g.len();
    let g1 = g.push(Gate::Constant(0));
    let g2 = g1.push(Gate::Constant(0));
    let g3 = g2.push(Gate::Constant(0));
    lemma_constant(g, 0, values);
    lemma_constant(g1, 0, values);
    lemma_constant(g2, 0, values);
    lemma_computes_trans(g, g1, g2);
    lemma_computes_trans(g, g2, g3);
    gates::lemma_wire_kept(g1, g3, values, n);
    gates::lemma_wire_kept(g2, g3, values, n + 1);
    let s = seq![n, n + 1, n + 2];
    assert(reads(g3, values, s) =~= seq![0nat, 0nat, 0nat]);
    lemma_reads_kept(g, g3, values, inputs);
    lemma_draw_absorb(p, g3, s, inputs, values);
    let d = draw_sponge(p, g, inputs);
    lemma_computes_trans(g, g3, d.gates);
    assert(gates::is_field(d.gates, d.out[0]));
    assert(reads(d.gates, values, d.out)[0] == gates::wire(d.gates, values, d.out[0]));
}

/// The sponge over wires.
pub(crate) fn sponge_circuit(b: &mut Builder, inputs: &Vec<usize>, params: &PoseidonParams) -> (r:
    usize)
    requires
        permutation::well_formed(params@),
        all_fields(gates::recorded(*old(b)), wires(inputs@)),
    ensures
        ({
            let d = draw_sponge(params@, gates::recorded(*old(b)), wires(inputs@));
            &&& gates::recorded(*final(b)) == d.gates
            &&& r == d.out[0]
        }),
        gates::assigned(*final(b)) == gates::assigned(*old(b)),
{
    let ghost g = gates::recorded(*b);
    let ghost all = wires(inputs@);
    let ghost p = params@;
    let z0 = b.constant(&Fr::zero());
    let z1 = b.constant(&Fr::zero());
    let z2 = b.constant(&Fr::zero());
    let mut state = [z0, z1, z2];
    let mut i: usize = 0;
    proof {
        assert(wires(state@) =~= seq![g.len(), g.len() + 1, g.len() + 2]);
        assert(all.skip(0) =~= all);
        lemma_reads_kept(g, gates::recorded(*b), Seq::empty(), all);
    }
    while i < inputs.len()
        invariant
            permutation::well_formed(params@),
            p == params@,
            all == wires(inputs@),
            0 <= i <= inputs@.len(),
            all_fields(gates::recorded(*b), all),
            all_fields(gates::recorded(*b), wires(state@)),
            draw_absorb(p, gates::recorded(*b), wires(state@), all.skip(i as int)) == draw_sponge(
                p,
                g,
                all,
            ),
            gates::assigned(*b) == gates::assigned(*old(b)),
        decreases inputs@.len() - i,
    {
        let ghost h = gates::recorded(*b);
        let ghost s = wires(state@);
        let ghost rest = all.skip(i as int);
        proof {
            assert(gates::is_field(h, s[0]) && gates::is_field(h, s[1]) && gates::is_field(
                h,
                s[2],
            ));
            assert(gates::is_field(h, all[i as int]));
            assert(rest[0] == all[i as int]);
        }
        state[0] = b.add(state[0], inputs[i]);
        i += 1;
        if i < inputs.len() {
            proof {
                assert(gates::is_field(h, all[i as int]));
                assert(rest[1] == all[i as int]);
            }
            state[1] = b.add(state[1], inputs[i]);
            i += 1;
            assert(wires(state@) =~= seq![h.len(), h.len() + 1, s[2]]);
            assert(rest.skip(2) =~= all.skip(i as int));
        } else {
            assert(wires(state@) =~= seq![h.len(), s[1], s[2]]);
            assert(all.skip(i as int).len() == 0);
        }
        let ghost h1 = gates::recorded(*b);
        proof {
            lemma_reads_kept(h, h1, Seq::empty(), all);
            lemma_draw_rounds(p, p.constants.len(), h1, wires(state@), Seq::empty());
        }
        state = permutation_circuit(b, state, params);
        proof {
            lemma_reads_kept(h1, gates::recorded(*b), Seq::empty(), all);
        }
    }
    state[0]
}

} // verus!
