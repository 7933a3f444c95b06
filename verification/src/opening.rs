//! The opening of a commitment to sixteen attributes, as a circuit.
//!
//! The attributes are private variables. Those that a mask shows are tied to
//! public variables, of which there are sixteen for the attributes, one for the
//! commitment, and perhaps more.
use crate::disclosure;
use crate::disclosure::NUM_ATTRIBUTES;
use crate::field;
use crate::field::Fr;
use crate::gadgets;
use crate::gates;
use crate::gates::{Builder, Gate};
use crate::permutation;
use crate::permutation::PoseidonParams;
use crate::rules;
use vstd::prelude::*;

verus! {

/// The number of shown attributes before a place.
pub open spec fn shown_before(mask: Seq<bool>, i: nat) -> nat
    decreases i,
{
    if i == 0 {
        0
    } else {
        shown_before(mask, (i - 1) as nat) + if mask[i - 1] {
            1nat
        } else {
            0nat
        }
    }
}

/// The wire of an attribute in a record that began with `n` gates and has `q`
/// public variables.
pub open spec fn attribute_wire(n: nat, q: nat, mask: Seq<bool>, i: nat) -> nat {
    n + 1 + q + i + shown_before(mask, i)
}

/// The wires that the commitment is computed from.
pub open spec fn opening_wires(n: nat, q: nat, mask: Seq<bool>) -> Seq<nat> {
    (seq![n] + Seq::new(16, |i: int| attribute_wire(n, q, mask, i as nat))).push(
        n + 17 + q + shown_before(mask, 16),
    )
}

/// The record of private attributes, each with the rule that it is the public
/// one where the mask shows it.
pub open spec fn draw_linked(g: Seq<Gate>, n: nat, mask: Seq<bool>, i: nat) -> Seq<Gate>
    decreases i,
{
    if i == 0 {
        g
    } else {
        let h = draw_linked(g, n, mask, (i - 1) as nat);
        let w = rules::draw_witness(h);
        if mask[i - 1] {
            w.push(Gate::Equal(h.len(), n + i))
        } else {
            w
        }
    }
}

/// The record up to the rule that the commitment is the expected one.
pub open spec fn draw_opening(
    p: permutation::Schedule,
    g: Seq<Gate>,
    q: nat,
    mask: Seq<bool>,
    domain: nat,
) -> Seq<Gate> {
    let n = g.len();
    let public = gates::draw_inputs(g.push(Gate::Constant(domain)), q);
    let private = rules::draw_witness(draw_linked(public, n, mask, 16));
    let hashed = gadgets::draw_sponge(p, private, opening_wires(n, q, mask));
    hashed.gates.push(Gate::Equal(hashed.out[0], n + 17))
}

/// The first private attributes agree with the public ones that are shown.
pub open spec fn linked(mask: Seq<bool>, values: Seq<nat>, k: nat, q: nat, i: nat) -> bool {
    forall|j: nat|
        j < i && mask[j as int] ==> #[trigger] values[(k + q + j) as int] == values[(k + j) as int]
}

/// What the commitment is computed from, among the values from `k` on.
pub open spec fn opened(domain: nat, values: Seq<nat>, k: nat, q: nat) -> Seq<nat> {
    disclosure::opening(
        domain,
        values.subrange((k + q) as int, (k + q + 16) as int),
        values[(k + q + 16) as int],
    )
}

/// A wire carries a variable.
pub open spec fn carries(g: Seq<Gate>, values: Seq<nat>, w: nat, i: int) -> bool {
    gates::is_field(g, w) && gates::fixed(g, w) is None && gates::wire(g, values, w) == values[i]
}

/// A wire carries a variable also after the record is continued.
pub proof fn lemma_carries_kept(g: Seq<Gate>, h: Seq<Gate>, values: Seq<nat>, w: nat, i: int)
    requires
        gates::continues(g, h),
        carries(g, values, w, i),
    ensures
        carries(h, values, w, i),
{
    gates::lemma_wire_kept(g, h, values, w);
}

/// The wires of the first attributes carry their variables.
pub open spec fn attributes_carried(
    g: Seq<Gate>,
    values: Seq<nat>,
    n: nat,
    q: nat,
    mask: Seq<bool>,
    k: nat,
    count: nat,
) -> bool {
    forall|i: nat|
        i < count ==> carries(g, values, #[trigger] attribute_wire(n, q, mask, i), (k + q + i) as int)
}

pub proof fn lemma_attributes_kept(
    g: Seq<Gate>,
    h: Seq<Gate>,
    values: Seq<nat>,
    n: nat,
    q: nat,
    mask: Seq<bool>,
    k: nat,
    count: nat,
)
    requires
        gates::continues(g, h),
        attributes_carried(g, values, n, q, mask, k, count),
    ensures
        attributes_carried(h, values, n, q, mask, k, count),
{
    assert forall|i: nat| i < count implies carries(
        h,
        values,
        #[trigger] attribute_wire(n, q, mask, i),
        (k + q + i) as int,
    ) by {
        lemma_carries_kept(g, h, values, attribute_wire(n, q, mask, i), (k + q + i) as int);
    }
}

proof fn lemma_linked(
    g: Seq<Gate>,
    n: nat,
    q: nat,
    mask: Seq<bool>,
    k: nat,
    i: nat,
    values: Seq<nat>,
)
    requires
        q >= 16,
        g.len() == n + 1 + q,
        gates::allocations(g) == k + q,
        i <= 16,
        forall|j: nat| j < 16 ==> carries(g, values, #[trigger] (n + 1 + j), (k + j) as int),
    ensures
        ({
            let h = draw_linked(g, n, mask, i);
            &&& rules::adds(g, h, values, i, linked(mask, values, k, q, i))
            &&& h.len() == n + 1 + q + i + shown_before(mask, i)
            &&& attributes_carried(h, values, n, q, mask, k, i)
        }),
    decreases i,
{
    if i == 0 {
        gates::lemma_computes(g, g, values);
    } else {
        let j = (i - 1) as nat;
        let h = draw_linked(g, n, mask, j);
        let w = rules::draw_witness(h);
        lemma_linked(g, n, q, mask, k, j, values);
        rules::lemma_witness(h, values);
        rules::lemma_adds_trans(
            g,
            h,
            w,
            values,
            j,
            linked(mask, values, k, q, j),
            1,
            true,
        );
        lemma_attributes_kept(h, w, values, n, q, mask, k, j);
        assert(attribute_wire(n, q, mask, j) == h.len());
        assert(carries(w, values, h.len(), (k + q + j) as int));
        let last = draw_linked(g, n, mask, i);
        if mask[j as int] {
            assert(carries(g, values, n + 1 + j, (k + j) as int));
            lemma_carries_kept(g, w, values, n + 1 + j, (k + j) as int);
            rules::lemma_equal(w, h.len(), n + i, values);
            let met = values[(k + q + j) as int] == values[(k + j) as int];
            rules::lemma_adds_trans(
                g,
                w,
                last,
                values,
                i,
                linked(mask, values, k, q, j),
                0,
                met,
            );
            assert(linked(mask, values, k, q, i) == (linked(mask, values, k, q, j) && met)) by {
                if linked(mask, values, k, q, i) {
                    assert(values[(k + q + j) as int] == values[(k + j) as int]);
                }
                if linked(mask, values, k, q, j) && met {
                    assert forall|x: nat| x < i && mask[x as int] implies #[trigger] values[(k + q
                        + x) as int] == values[(k + x) as int] by {}
                }
            }
            lemma_attributes_kept(w, last, values, n, q, mask, k, j);
            lemma_carries_kept(w, last, values, h.len(), (k + q + j) as int);
        } else {
            assert(linked(mask, values, k, q, i) == linked(mask, values, k, q, j)) by {
                if linked(mask, values, k, q, j) {
                    assert forall|x: nat| x < i && mask[x as int] implies #[trigger] values[(k + q
                        + x) as int] == values[(k + x) as int] by {}
                }
            }
        }
        assert forall|x: nat| x < i implies carries(
            last,
            values,
            #[trigger] attribute_wire(n, q, mask, x),
            (k + q + x) as int,
        ) by {
            if x < j {
                assert(carries(last, values, attribute_wire(n, q, mask, x), (k + q + x) as int));
            }
        }
    }
}

/// The wires of the public variables carry them.
pub open spec fn publics_carried(
    g: Seq<Gate>,
    values: Seq<nat>,
    n: nat,
    q: nat,
    k: nat,
) -> bool {
    forall|j: nat| j < q ==> carries(g, values, #[trigger] (n + 1 + j), (k + j) as int)
}

pub proof fn lemma_publics_kept(
    g: Seq<Gate>,
    h: Seq<Gate>,
    values: Seq<nat>,
    n: nat,
    q: nat,
    k: nat,
)
    requires
        gates::continues(g, h),
        publics_carried(g, values, n, q, k),
    ensures
        publics_carried(h, values, n, q, k),
{
    assert forall|j: nat| j < q implies carries(
        h,
        values,
        #[trigger] (n + 1 + j),
        (k + j) as int,
    ) by {
        lemma_carries_kept(g, h, values, n + 1 + j, (k + j) as int);
    }
}

/// What the variables and wires are before the commitment is computed.
pub proof fn lemma_private(
    g: Seq<Gate>,
    q: nat,
    mask: Seq<bool>,
    domain: nat,
    values: Seq<nat>,
)
    requires
        q >= 17,
        gates::allocations(g) + q + 17 <= values.len(),
    ensures
        ({
            let n = g.len();
            let k = gates::allocations(g);
            let public = gates::draw_inputs(g.push(Gate::Constant(domain)), q);
            let h = rules::draw_witness(draw_linked(public, n, mask, 16));
            &&& rules::shows(
                g,
                h,
                values,
                q + 17,
                values.subrange(k as int, (k + q) as int),
                linked(mask, values, k, q, 16),
            )
            &&& publics_carried(h, values, n, q, k)
            &&& attributes_carried(h, values, n, q, mask, k, 16)
            &&& gadgets::all_fields(h, opening_wires(n, q, mask))
            &&& gadgets::reads(h, values, opening_wires(n, q, mask)) == opened(domain, values, k, q)
        }),
{
    let n = g.len();
    let k = gates::allocations(g);
    let g0 = g.push(Gate::Constant(domain));
    gadgets::lemma_constant(g, domain, values);
    gates::lemma_computes(g, g0, values);
    let g1 = gates::draw_inputs(g0, q);
    gates::lemma_draw_inputs(g0, q, values);
    assert forall|j: nat| j < q implies carries(
        g1,
        values,
        #[trigger] (n + 1 + j),
        (k + j) as int,
    ) by {
        assert(gates::is_field(g1, g0.len() + j));
    }
    gates::lemma_wire_kept(g0, g1, values, n);
    let g2 = draw_linked(g1, n, mask, 16);
    lemma_linked(g1, n, q, mask, k, 16, values);
    let h = rules::draw_witness(g2);
    rules::lemma_witness(g2, values);
    lemma_attributes_kept(g2, h, values, n, q, mask, k, 16);
    gates::lemma_continues_trans(g1, g2, h);
    gates::lemma_wire_kept(g1, h, values, n);
    lemma_publics_kept(g1, h, values, n, q, k);
    gates::lemma_continues_trans(g, g0, g1);
    rules::lemma_shows_adds(
        g,
        g1,
        g2,
        values,
        q,
        values.subrange(k as int, (k + q) as int),
        true,
        16,
        linked(mask, values, k, q, 16),
    );
    rules::lemma_shows_adds(
        g,
        g2,
        h,
        values,
        q + 16,
        values.subrange(k as int, (k + q) as int),
        linked(mask, values, k, q, 16),
        1,
        true,
    );
    let inputs = opening_wires(n, q, mask);
    assert(g2.len() == n + 17 + q + shown_before(mask, 16));
    assert forall|i: int| 0 <= i < inputs.len() implies gates::is_field(h, #[trigger] inputs[i])
        && gates::wire(h, values, inputs[i]) == opened(domain, values, k, q)[i] by {
        if 0 < i < 17 {
            assert(inputs[i] == attribute_wire(n, q, mask, (i - 1) as nat));
            assert(carries(
                h,
                values,
                attribute_wire(n, q, mask, (i - 1) as nat),
                (k + q + (i - 1)) as int,
            ));
        }
    }
    assert(gadgets::reads(h, values, inputs) =~= opened(domain, values, k, q));
}

pub proof fn lemma_opening(
    p: permutation::Schedule,
    g: Seq<Gate>,
    q: nat,
    mask: Seq<bool>,
    domain: nat,
    values: Seq<nat>,
)
    requires
        q >= 17,
        gates::allocations(g) + q + 17 <= values.len(),
    ensures
        ({
            let k = gates::allocations(g);
            let h = draw_opening(p, g, q, mask, domain);
            &&& rules::shows(
                g,
                h,
                values,
                q + 17,
                values.subrange(k as int, (k + q) as int),
                linked(mask, values, k, q, 16) && permutation::sponge(p, opened(domain, values, k, q))
                    == values[(k + 16) as int],
            )
            &&& attributes_carried(h, values, g.len(), q, mask, k, 16)
            &&& publics_carried(h, values, g.len(), q, k)
        }),
{
    let n = g.len();
    let k = gates::allocations(g);
    lemma_private(g, q, mask, domain, values);
    let public = gates::draw_inputs(g.push(Gate::Constant(domain)), q);
    let private = rules::draw_witness(draw_linked(public, n, mask, 16));
    let inputs = opening_wires(n, q, mask);
    let d = gadgets::draw_sponge(p, private, inputs);
    gadgets::lemma_draw_sponge(p, private, inputs, values);
    rules::lemma_adds_nothing(private, d.gates, values);
    assert(carries(private, values, n + 1 + 16, (k + 16) as int));
    lemma_carries_kept(private, d.gates, values, n + 17, (k + 16) as int);
    rules::lemma_equal(d.gates, d.out[0], n + 17, values);
    let h = draw_opening(p, g, q, mask, domain);
    let met = permutation::sponge(p, opened(domain, values, k, q)) == values[(k + 16) as int];
    let shown = values.subrange(k as int, (k + q) as int);
    rules::lemma_shows_adds(
        g,
        private,
        d.gates,
        values,
        q + 17,
        shown,
        linked(mask, values, k, q, 16),
        0,
        true,
    );
    rules::lemma_shows_adds(
        g,
        d.gates,
        h,
        values,
        q + 17,
        shown,
        linked(mask, values, k, q, 16),
        0,
        met,
    );
    gates::lemma_continues_trans(private, d.gates, h);
    lemma_attributes_kept(private, h, values, n, q, mask, k, 16);
    lemma_publics_kept(private, h, values, n, q, k);
}

proof fn lemma_linked_length(g: Seq<Gate>, n: nat, mask: Seq<bool>, i: nat)
    ensures
        draw_linked(g, n, mask, i).len() == g.len() + i + shown_before(mask, i),
        gates::continues(g, draw_linked(g, n, mask, i)),
    decreases i,
{
    if i > 0 {
        lemma_linked_length(g, n, mask, (i - 1) as nat);
        gates::lemma_continues_trans(
            g,
            draw_linked(g, n, mask, (i - 1) as nat),
            draw_linked(g, n, mask, i),
        );
    }
}

/// Allocates public variables with their values.
fn public_part(b: &mut Builder, public: &Vec<Fr>)
    ensures
        gates::recorded(*final(b)) == gates::draw_inputs(
            gates::recorded(*old(b)),
            public@.len(),
        ),
        gates::assigned(*final(b)) == gates::appended(
            gates::assigned(*old(b)),
            field::values(public@),
        ),
{
    let ghost base = gates::assigned(*b);
    let ghost g = gates::recorded(*b);
    let ghost all = field::values(public@);
    proof {
        assert(gates::draw_inputs(g, 0) =~= g);
        if let Some(v) = base {
            assert(v + all.take(0) =~= v);
        }
    }
    for i in 0..public.len()
        invariant
            base == gates::assigned(*old(b)),
            all == field::values(public@),
            gates::recorded(*b) == gates::draw_inputs(g, i as nat),
            gates::assigned(*b) == gates::appended(base, all.take(i as int)),
    {
        rules::input_rule(b, public[i]);
        proof {
            gates::lemma_inputs_step(g, i as nat);
            if let Some(v) = base {
                assert((v + all.take(i as int)) + seq![public@[i as int]@] =~= v + all.take(
                    i + 1,
                ));
            }
        }
    }
    assert(all.take(all.len() as int) =~= all);
}

/// Allocates the private attributes, tied to the public ones that are shown.
fn private_part(
    b: &mut Builder,
    attrs: &[Fr; NUM_ATTRIBUTES],
    mask: &[bool; NUM_ATTRIBUTES],
    domain: usize,
    Ghost(q): Ghost<nat>,
) -> (wires: Vec<usize>)
    requires
        gates::recorded(*old(b)).len() == domain + 1 + q,
        q >= 16,
        forall|j: nat|
            j < 16 ==> gates::is_field(
                gates::recorded(*old(b)),
                #[trigger] (domain as nat + 1 + j),
            ),
    ensures
        gates::recorded(*final(b)) == draw_linked(
            gates::recorded(*old(b)),
            domain as nat,
            mask@,
            16,
        ),
        gates::assigned(*final(b)) == gates::appended(
            gates::assigned(*old(b)),
            field::values(attrs@),
        ),
        gadgets::wires(wires@) == Seq::new(
            16,
            |i: int| attribute_wire(domain as nat, q, mask@, i as nat),
        ),
{
    let ghost base = gates::assigned(*b);
    let ghost g = gates::recorded(*b);
    let ghost n = domain as nat;
    let ghost all = field::values(attrs@);
    let mut wires: Vec<usize> = Vec::new();
    proof {
        assert(gadgets::wires(wires@) =~= Seq::new(
            0,
            |i: int| attribute_wire(n, q, mask@, i as nat),
        ));
        if let Some(v) = base {
            assert(v + all.take(0) =~= v);
        }
    }
    for i in 0..NUM_ATTRIBUTES
        invariant
            base == gates::assigned(*old(b)),
            g == gates::recorded(*old(b)),
            n == domain,
            q >= 16,
            all == field::values(attrs@),
            g.len() == n + 1 + q,
            forall|j: nat| j < 16 ==> gates::is_field(g, #[trigger] (n + 1 + j)),
            gates::recorded(*b) == draw_linked(g, n, mask@, i as nat),
            gates::assigned(*b) == gates::appended(base, all.take(i as int)),
            gadgets::wires(wires@) == Seq::new(
                i as nat,
                |j: int| attribute_wire(n, q, mask@, j as nat),
            ),
    {
        let ghost h = gates::recorded(*b);
        let ghost before = wires@;
        proof {
            lemma_linked_length(g, n, mask@, i as nat);
        }
        let w = rules::witness_rule(b, attrs[i]);
        if mask[i] {
            proof {
                assert(gates::is_field(g, n + 1 + i as nat));
                assert(h[(n + 1 + i) as int] == g[(n + 1 + i) as int]);
            }
            b.enforce_equal(w, domain + 1 + i);
        }
        wires.push(w);
        proof {
            assert(attribute_wire(n, q, mask@, i as nat) == w);
            assert(gadgets::wires(wires@) =~= gadgets::wires(before).push(w as nat));
            assert(Seq::new((i + 1) as nat, |j: int| attribute_wire(n, q, mask@, j as nat))
                =~= Seq::new(i as nat, |j: int| attribute_wire(n, q, mask@, j as nat)).push(
                w as nat,
            ));
            if let Some(v) = base {
                assert((v + all.take(i as int)) + seq![attrs@[i as int]@] =~= v + all.take(i + 1));
            }
        }
    }
    assert(all.take(16) =~= all);
    wires
}

/// Opens a commitment: the public values are given in order, and the seventeenth
/// of them is the commitment. The result are the wires of the attributes.
pub(crate) fn opening_circuit(
    b: &mut Builder,
    params: &PoseidonParams,
    domain_element: &Fr,
    public: &Vec<Fr>,
    attrs: &[Fr; NUM_ATTRIBUTES],
    mask: &[bool; NUM_ATTRIBUTES],
    blinding: Fr,
) -> (wires: Vec<usize>)
    requires
        permutation::well_formed(params@),
        public@.len() >= 17,
    ensures
        gates::recorded(*final(b)) == draw_opening(
            params@,
            gates::recorded(*old(b)),
            public@.len(),
            mask@,
            domain_element@,
        ),
        gates::assigned(*final(b)) == gates::appended(
            gates::assigned(*old(b)),
            (field::values(public@) + field::values(attrs@)).push(blinding@),
        ),
        gadgets::wires(wires@) == Seq::new(
            16,
            |i: int|
                attribute_wire(
                    gates::recorded(*old(b)).len(),
                    public@.len(),
                    mask@,
                    i as nat,
                ),
        ),
{
    let ghost g = gates::recorded(*b);
    let ghost n = g.len();
    let ghost q = public@.len();
    let ghost base = gates::assigned(*b);
    let ghost dummy = Seq::new(gates::allocations(g) + q + 17, |i: int| 0nat);
    let domain = b.constant(domain_element);
    let ghost g0 = gates::recorded(*b);
    public_part(b, public);
    let ghost g1 = gates::recorded(*b);
    proof {
        gadgets::lemma_constant(g, domain_element@, dummy);
        gates::lemma_computes(g, g0, dummy);
        gates::lemma_draw_inputs(g0, q, dummy);
        assert forall|j: nat| j < 16 implies gates::is_field(g1, #[trigger] (n + 1 + j)) by {
            assert(gates::is_field(g1, g0.len() + j));
        }
    }
    let wires = private_part(b, attrs, mask, domain, Ghost(q));
    let hidden = rules::witness_rule(b, blinding);
    let ghost g3 = gates::recorded(*b);
    proof {
        lemma_private(g, q, mask@, domain_element@, dummy);
        lemma_linked_length(g1, n, mask@, 16);
        let shown = field::values(public@);
        if let Some(v) = base {
            assert((v + shown + field::values(attrs@)) + seq![blinding@] =~= v + (shown
                + field::values(attrs@)).push(blinding@));
        }
    }
    let mut inputs: Vec<usize> = Vec::new();
    inputs.push(domain);
    let ghost all = gadgets::wires(wires@);
    assert(gadgets::wires(inputs@) =~= seq![n] + all.take(0));
    for i in 0..NUM_ATTRIBUTES
        invariant
            all == gadgets::wires(wires@),
            all.len() == 16,
            gadgets::wires(inputs@) == seq![n] + all.take(i as int),
    {
        let ghost before = inputs@;
        assert(wires@.len() == 16);
        inputs.push(wires[i]);
        proof {
            assert(gadgets::wires(inputs@) =~= gadgets::wires(before).push(all[i as int]));
            assert(seq![n] + all.take(i + 1) =~= (seq![n] + all.take(i as int)).push(
                all[i as int],
            ));
        }
    }
    let ghost most = inputs@;
    inputs.push(hidden);
    proof {
        assert(all.take(16) =~= all);
        assert(gadgets::wires(inputs@) =~= gadgets::wires(most).push(hidden as nat));
        assert(gadgets::wires(inputs@) =~= opening_wires(n, q, mask@));
    }
    let computed = gadgets::sponge_circuit(b, &inputs, params);
    proof {
        gadgets::lemma_draw_sponge(params@, g3, opening_wires(n, q, mask@), dummy);
        let d = gadgets::draw_sponge(params@, g3, opening_wires(n, q, mask@));
        assert(carries(g3, dummy, n + 1 + 16, (gates::allocations(g) + 16) as int));
        lemma_carries_kept(g3, d.gates, dummy, n + 17, (gates::allocations(g) + 16) as int);
    }
    b.enforce_equal(computed, domain + 17);
    wires
}

} // verus!
