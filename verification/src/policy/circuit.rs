//! The circuit of a credential under a policy.
use crate::clock;
use crate::comparison;
use crate::disclosure;
use crate::disclosure::NUM_ATTRIBUTES;
use crate::field;
use crate::field::Fr;
use crate::gadgets;
use crate::gates;
use crate::gates::{Builder, Gate, Matrices, SynthesisError};
use crate::membership;
use crate::opening;
use crate::permutation;
use crate::policy::hash;
use crate::policy::merkle::MerkleProof;
use crate::policy::predicates;
use crate::policy::types::{CredentialPolicy, Predicate, MAX_INSET};
use crate::range;
use crate::rules;
use vstd::prelude::*;

verus! {

/// What the shape of the circuit depends on: which attributes are shown, the
/// diplomas that are allowed where they matter, whether there is an expiry, a
/// nonce and a revocation root, and the further predicates.
pub struct Terms {
    pub mask: Seq<bool>,
    pub diplomas: Option<Seq<nat>>,
    pub expires: bool,
    pub has_nonce: bool,
    pub has_root: bool,
    pub predicates: Seq<Predicate>,
}

/// The wires of the attributes in a record that began with `n` gates.
pub open spec fn attribute_wires(n: nat, mask: Seq<bool>) -> Seq<nat> {
    Seq::new(16, |i: int| opening::attribute_wire(n, 22, mask, i as nat))
}

// The checks of every policy.

/// The record of the rule that a diploma is allowed, or that the selector is
/// zero.
pub open spec fn draw_diploma(g: Seq<Gate>, a: nat, selector: nat, diplomas: Seq<nat>) -> Seq<Gate> {
    let h = membership::draw_product(g, a, diplomas, diplomas.len());
    let m = h.len();
    h.push(Gate::Mul(selector, (m - 1) as nat)).push(Gate::Constant(0)).push(
        Gate::Equal(m, m + 1),
    )
}

proof fn lemma_diploma(
    g: Seq<Gate>,
    a: nat,
    selector: nat,
    diplomas: Seq<nat>,
    values: Seq<nat>,
)
    requires
        gates::is_field(g, a),
        gates::fixed(g, a) is None,
        gates::wire(g, values, a) < field::modulus(),
        gates::is_field(g, selector),
        gates::fixed(g, selector) is None,
        gates::wire(g, values, selector) < field::modulus(),
        disclosure::all_reduced(diplomas),
    ensures
        rules::adds(
            g,
            draw_diploma(g, a, selector, diplomas),
            values,
            0,
            gates::wire(g, values, selector) == 0 || diplomas.contains(gates::wire(g, values, a)),
        ),
{
    let count = diplomas.len();
    let h = membership::draw_product(g, a, diplomas, count);
    let m = h.len();
    let last = (m - 1) as nat;
    let h1 = h.push(Gate::Mul(selector, last));
    let h2 = h1.push(Gate::Constant(0));
    let x = gates::wire(g, values, a);
    let s = gates::wire(g, values, selector);
    membership::lemma_product(g, a, diplomas, count, values);
    gates::lemma_wire_kept(g, h, values, selector);
    gadgets::lemma_mul(h, selector, last, values);
    gates::lemma_wire_kept(g, h1, values, selector);
    gates::lemma_wire_kept(h, h1, values, last);
    assert(gates::fixed(h1, m) is None);
    gadgets::lemma_constant(h1, 0, values);
    gates::lemma_wire_kept(h1, h2, values, m);
    gadgets::lemma_computes_trans(g, h, h1);
    gadgets::lemma_computes_trans(g, h1, h2);
    rules::lemma_adds_nothing(g, h2, values);
    rules::lemma_equal(h2, m, m + 1, values);
    membership::lemma_membership(x, diplomas, count);
    assert(diplomas.take(count as int) =~= diplomas);
    membership::lemma_product_reduced(x, diplomas, count);
    membership::lemma_zero_product(s, membership::difference_product(x, diplomas, count));
    rules::lemma_adds_trans(
        g,
        h2,
        draw_diploma(g, a, selector, diplomas),
        values,
        0,
        true,
        0,
        s == 0 || diplomas.contains(x),
    );
}

fn diploma_rule(b: &mut Builder, a: usize, selector: usize, diplomas: &[Fr])
    requires
        gates::is_field(gates::recorded(*old(b)), a as nat),
        gates::fixed(gates::recorded(*old(b)), a as nat) is None,
        gates::is_field(gates::recorded(*old(b)), selector as nat),
    ensures
        gates::recorded(*final(b)) == draw_diploma(
            gates::recorded(*old(b)),
            a as nat,
            selector as nat,
            field::values(diplomas@),
        ),
        gates::assigned(*final(b)) == gates::assigned(*old(b)),
{
    let ghost g = gates::recorded(*b);
    let product = membership::product_circuit(b, a, diplomas);
    proof {
        membership::lemma_product(
            g,
            a as nat,
            field::values(diplomas@),
            diplomas@.len(),
            Seq::empty(),
        );
        assert(gates::recorded(*b)[selector as int] == g[selector as int]);
    }
    let selected = b.mul(selector, product);
    let zero = b.constant(&Fr::zero());
    b.enforce_equal(selected, zero);
}

/// The record of the checks.
pub open spec fn draw_checks(
    g: Seq<Gate>,
    n: nat,
    wires: Seq<nat>,
    diplomas: Option<Seq<nat>>,
) -> Seq<Gate> {
    let aged = comparison::draw_gte(g, wires[0], n + 18).push(Gate::Equal(wires[2], n + 19));
    let faced = comparison::draw_gte(aged, wires[3], n + 20);
    let live = comparison::draw_gte(faced, wires[5], n + 21);
    match diplomas {
        Some(allowed) => draw_diploma(live, wires[6], n + 22, allowed),
        None => live,
    }
}

/// The checks: the age, the face match and the liveness reach their thresholds,
/// the citizenship is the expected one, and the diploma is allowed unless the
/// selector is zero. What is public are the shown attributes, the commitment,
/// the age threshold, the citizenship, the thresholds of face match and
/// liveness, and the selector.
pub open spec fn checked(
    public: Seq<nat>,
    attrs: Seq<nat>,
    diplomas: Option<Seq<nat>>,
) -> bool {
    &&& public[17] <= attrs[0] < range::width_bound()
    &&& attrs[2] == public[18]
    &&& public[19] <= attrs[3] < range::width_bound()
    &&& public[20] <= attrs[5] < range::width_bound()
    &&& diplomas matches Some(allowed) ==> public[21] == 0 || allowed.contains(attrs[6])
}

/// The public wires are not constant.
pub open spec fn publics_free(g: Seq<Gate>, n: nat) -> bool {
    forall|j: nat|
        j < 22 ==> gates::is_field(g, #[trigger] (n + 1 + j)) && gates::fixed(g, n + 1 + j) is None
}

proof fn lemma_publics_free_kept(g: Seq<Gate>, h: Seq<Gate>, n: nat)
    requires
        gates::continues(g, h),
        publics_free(g, n),
    ensures
        publics_free(h, n),
{
    assert forall|j: nat| j < 22 implies gates::is_field(h, #[trigger] (n + 1 + j))
        && gates::fixed(h, n + 1 + j) is None by {
        assert(gates::is_field(g, n + 1 + j));
        gates::lemma_wire_kept(g, h, Seq::empty(), n + 1 + j);
    }
}

/// An attribute reaches a public threshold.
proof fn lemma_reached(
    g: Seq<Gate>,
    n: nat,
    wires: Seq<nat>,
    values: Seq<nat>,
    k: nat,
    attrs: Seq<nat>,
    i: int,
    j: nat,
)
    requires
        predicates::carried(g, values, wires, attrs),
        opening::publics_carried(g, values, n, 22, k),
        k + 22 <= values.len(),
        disclosure::all_reduced(values),
        disclosure::all_reduced(attrs),
        0 <= i < 16,
        j < 22,
    ensures
        ({
            let h = comparison::draw_gte(g, wires[i], n + 1 + j);
            &&& rules::adds(
                g,
                h,
                values,
                0,
                values.subrange(k as int, (k + 22) as int)[j as int] <= attrs[i]
                    < range::width_bound(),
            )
            &&& predicates::carried(h, values, wires, attrs)
            &&& opening::publics_carried(h, values, n, 22, k)
        }),
{
    let h = comparison::draw_gte(g, wires[i], n + 1 + j);
    assert(opening::carries(g, values, n + 1 + j, (k + j) as int));
    comparison::lemma_gte(g, wires[i], n + 1 + j, values);
    predicates::lemma_carried_kept(g, h, values, wires, attrs);
    opening::lemma_publics_kept(g, h, values, n, 22, k);
}

/// The citizenship is the public one.
proof fn lemma_matched(
    g: Seq<Gate>,
    n: nat,
    wires: Seq<nat>,
    values: Seq<nat>,
    k: nat,
    attrs: Seq<nat>,
)
    requires
        predicates::carried(g, values, wires, attrs),
        opening::publics_carried(g, values, n, 22, k),
        k + 22 <= values.len(),
    ensures
        ({
            let h = g.push(Gate::Equal(wires[2], n + 19));
            &&& rules::adds(
                g,
                h,
                values,
                0,
                attrs[2] == values.subrange(k as int, (k + 22) as int)[18],
            )
            &&& predicates::carried(h, values, wires, attrs)
            &&& opening::publics_carried(h, values, n, 22, k)
        }),
{
    let h = g.push(Gate::Equal(wires[2], n + 19));
    assert(opening::carries(g, values, n + 1 + 18, (k + 18) as int));
    rules::lemma_equal(g, wires[2], n + 19, values);
    predicates::lemma_carried_kept(g, h, values, wires, attrs);
    opening::lemma_publics_kept(g, h, values, n, 22, k);
}

proof fn lemma_checks(
    g: Seq<Gate>,
    n: nat,
    wires: Seq<nat>,
    diplomas: Option<Seq<nat>>,
    values: Seq<nat>,
    k: nat,
    attrs: Seq<nat>,
)
    requires
        predicates::carried(g, values, wires, attrs),
        opening::publics_carried(g, values, n, 22, k),
        k + 22 <= values.len(),
        disclosure::all_reduced(values),
        disclosure::all_reduced(attrs),
        diplomas matches Some(allowed) ==> disclosure::all_reduced(allowed),
    ensures
        rules::adds(
            g,
            draw_checks(g, n, wires, diplomas),
            values,
            0,
            checked(values.subrange(k as int, (k + 22) as int), attrs, diplomas),
        ),
{
    let public = values.subrange(k as int, (k + 22) as int);
    let h1 = comparison::draw_gte(g, wires[0], n + 18);
    lemma_reached(g, n, wires, values, k, attrs, 0, 17);
    let m1 = public[17] <= attrs[0] < range::width_bound();
    let h2 = h1.push(Gate::Equal(wires[2], n + 19));
    lemma_matched(h1, n, wires, values, k, attrs);
    let m2 = attrs[2] == public[18];
    rules::lemma_adds_trans(g, h1, h2, values, 0, m1, 0, m2);
    let h3 = comparison::draw_gte(h2, wires[3], n + 20);
    lemma_reached(h2, n, wires, values, k, attrs, 3, 19);
    let m3 = public[19] <= attrs[3] < range::width_bound();
    rules::lemma_adds_trans(g, h2, h3, values, 0, m1 && m2, 0, m3);
    let h4 = comparison::draw_gte(h3, wires[5], n + 21);
    lemma_reached(h3, n, wires, values, k, attrs, 5, 20);
    let m4 = public[20] <= attrs[5] < range::width_bound();
    rules::lemma_adds_trans(g, h3, h4, values, 0, m1 && m2 && m3, 0, m4);
    if let Some(allowed) = diplomas {
        assert(opening::carries(h4, values, n + 1 + 21, (k + 21) as int));
        assert(public[21] == values[(k + 21) as int]);
        lemma_diploma(h4, wires[6], n + 22, allowed, values);
        rules::lemma_adds_trans(
            g,
            h4,
            draw_checks(g, n, wires, diplomas),
            values,
            0,
            m1 && m2 && m3 && m4,
            0,
            public[21] == 0 || allowed.contains(attrs[6]),
        );
    }
}

/// Adds the checks.
fn checks_circuit(
    b: &mut Builder,
    wires: &Vec<usize>,
    domain: usize,
    selected: bool,
    diplomas: &[Fr; MAX_INSET],
)
    requires
        predicates::free(gates::recorded(*old(b)), gadgets::wires(wires@)),
        publics_free(gates::recorded(*old(b)), domain as nat),
        domain + 22 <= usize::MAX,
    ensures
        gates::recorded(*final(b)) == draw_checks(
            gates::recorded(*old(b)),
            domain as nat,
            gadgets::wires(wires@),
            if selected {
                Some(field::values(diplomas@))
            } else {
                None
            },
        ),
        gates::assigned(*final(b)) == gates::assigned(*old(b)),
{
    let ghost g = gates::recorded(*b);
    let ghost n = domain as nat;
    let ghost ws = gadgets::wires(wires@);
    assert(wires@.len() == 16);
    assert(forall|i: int| 0 <= i < 16 ==> ws[i] == wires@[i]);
    assert(gates::is_field(g, n + 1 + 17) && gates::is_field(g, ws[0]));
    let aged = comparison::enforce_gte(b, wires[0], domain + 18);
    assert(aged is Ok);
    let ghost h1 = gates::recorded(*b);
    proof {
        comparison::lemma_gte_continues(g, ws[0], n + 18);
        predicates::lemma_free_kept(g, h1, ws);
        lemma_publics_free_kept(g, h1, n);
        assert(gates::is_field(h1, n + 1 + 18) && gates::is_field(h1, ws[2]));
    }
    b.enforce_equal(wires[2], domain + 19);
    let ghost h2 = gates::recorded(*b);
    proof {
        predicates::lemma_free_kept(h1, h2, ws);
        lemma_publics_free_kept(h1, h2, n);
        assert(gates::is_field(h2, n + 1 + 19) && gates::is_field(h2, ws[3]));
    }
    let faced = comparison::enforce_gte(b, wires[3], domain + 20);
    assert(faced is Ok);
    let ghost h3 = gates::recorded(*b);
    proof {
        comparison::lemma_gte_continues(h2, ws[3], n + 20);
        predicates::lemma_free_kept(h2, h3, ws);
        lemma_publics_free_kept(h2, h3, n);
        assert(gates::is_field(h3, n + 1 + 20) && gates::is_field(h3, ws[5]));
    }
    let live = comparison::enforce_gte(b, wires[5], domain + 21);
    assert(live is Ok);
    let ghost h4 = gates::recorded(*b);
    if selected {
        proof {
            comparison::lemma_gte_continues(h3, ws[5], n + 21);
            predicates::lemma_free_kept(h3, h4, ws);
            lemma_publics_free_kept(h3, h4, n);
            assert(gates::is_field(h4, n + 1 + 21) && gates::is_field(h4, ws[6]));
        }
        diploma_rule(b, wires[6], domain + 22, diplomas.as_slice());
    }
}

// What a policy may ask besides.

/// The record of the expiry: a public time, and a private one that it is not
/// before.
pub open spec fn draw_expiry(g: Seq<Gate>, expires: bool) -> Seq<Gate> {
    if expires {
        comparison::draw_gte(
            rules::draw_witness(rules::draw_input(g)),
            g.len(),
            g.len() + 1,
        )
    } else {
        g
    }
}

/// The record of the nonce: a public one, and a private one that equals it.
pub open spec fn draw_nonce(g: Seq<Gate>, has_nonce: bool) -> Seq<Gate> {
    if has_nonce {
        rules::draw_witness(rules::draw_input(g)).push(Gate::Equal(g.len() + 1, g.len()))
    } else {
        g
    }
}

/// The record of the revocation root, which is public.
pub open spec fn draw_root(g: Seq<Gate>, has_root: bool) -> Seq<Gate> {
    if has_root {
        rules::draw_input(g)
    } else {
        g
    }
}

/// The number of variables of a public value and its private counterpart.
pub open spec fn pair_count(present: bool) -> nat {
    if present {
        2
    } else {
        0
    }
}

pub open spec fn root_count(has_root: bool) -> nat {
    if has_root {
        1
    } else {
        0
    }
}

/// The value at a place that is public, where it is present.
pub open spec fn shown_at(values: Seq<nat>, k: nat, present: bool) -> Seq<nat> {
    if present {
        seq![values[k as int]]
    } else {
        Seq::empty()
    }
}

/// The expiry is not before the time of proving.
pub open spec fn unexpired(expires: bool, values: Seq<nat>, k: nat) -> bool {
    expires ==> values[(k + 1) as int] <= values[k as int] < range::width_bound()
}

/// The nonce is the expected one.
pub open spec fn nonce_matches(has_nonce: bool, values: Seq<nat>, k: nat) -> bool {
    has_nonce ==> values[(k + 1) as int] == values[k as int]
}

/// A public variable and then a private one.
proof fn lemma_two(g: Seq<Gate>, values: Seq<nat>)
    ensures
        ({
            let k = gates::allocations(g);
            let h = rules::draw_witness(rules::draw_input(g));
            &&& rules::shows(g, h, values, 2, seq![values[k as int]], true)
            &&& opening::carries(h, values, g.len(), k as int)
            &&& opening::carries(h, values, g.len() + 1, (k + 1) as int)
        }),
{
    let k = gates::allocations(g);
    let h1 = rules::draw_input(g);
    let h = rules::draw_witness(h1);
    rules::lemma_input(g, values);
    rules::lemma_witness(h1, values);
    opening::lemma_carries_kept(h1, h, values, g.len(), k as int);
    rules::lemma_shows_adds(g, h1, h, values, 1, seq![values[k as int]], true, 1, true);
}

proof fn lemma_nothing(g: Seq<Gate>, values: Seq<nat>)
    ensures
        rules::shows(g, g, values, 0, Seq::empty(), true),
{
    gates::lemma_computes(g, g, values);
    assert(gates::public_values(g, values) + Seq::<nat>::empty() =~= gates::public_values(
        g,
        values,
    ));
}

proof fn lemma_expiry(g: Seq<Gate>, expires: bool, values: Seq<nat>)
    requires
        gates::allocations(g) + pair_count(expires) <= values.len(),
        disclosure::all_reduced(values),
    ensures
        ({
            let k = gates::allocations(g);
            rules::shows(
                g,
                draw_expiry(g, expires),
                values,
                pair_count(expires),
                shown_at(values, k, expires),
                unexpired(expires, values, k),
            )
        }),
{
    let k = gates::allocations(g);
    if expires {
        let h = rules::draw_witness(rules::draw_input(g));
        lemma_two(g, values);
        comparison::lemma_gte(h, g.len(), g.len() + 1, values);
        rules::lemma_shows_adds(
            g,
            h,
            draw_expiry(g, expires),
            values,
            2,
            seq![values[k as int]],
            true,
            0,
            unexpired(expires, values, k),
        );
    } else {
        lemma_nothing(g, values);
    }
}

proof fn lemma_nonce(g: Seq<Gate>, has_nonce: bool, values: Seq<nat>)
    ensures
        ({
            let k = gates::allocations(g);
            rules::shows(
                g,
                draw_nonce(g, has_nonce),
                values,
                pair_count(has_nonce),
                shown_at(values, k, has_nonce),
                nonce_matches(has_nonce, values, k),
            )
        }),
{
    let k = gates::allocations(g);
    if has_nonce {
        let h = rules::draw_witness(rules::draw_input(g));
        lemma_two(g, values);
        rules::lemma_equal(h, g.len() + 1, g.len(), values);
        rules::lemma_shows_adds(
            g,
            h,
            draw_nonce(g, has_nonce),
            values,
            2,
            seq![values[k as int]],
            true,
            0,
            nonce_matches(has_nonce, values, k),
        );
    } else {
        lemma_nothing(g, values);
    }
}

proof fn lemma_root(g: Seq<Gate>, has_root: bool, values: Seq<nat>)
    ensures
        ({
            let k = gates::allocations(g);
            rules::shows(
                g,
                draw_root(g, has_root),
                values,
                root_count(has_root),
                shown_at(values, k, has_root),
                true,
            )
        }),
{
    if has_root {
        rules::lemma_input(g, values);
    } else {
        lemma_nothing(g, values);
    }
}

/// The record of all three.
pub open spec fn draw_options(g: Seq<Gate>, t: Terms) -> Seq<Gate> {
    draw_root(draw_nonce(draw_expiry(g, t.expires), t.has_nonce), t.has_root)
}

/// The number of their variables.
pub open spec fn options_count(t: Terms) -> nat {
    pair_count(t.expires) + pair_count(t.has_nonce) + root_count(t.has_root)
}

/// What they enforce of the values from `k` on.
pub open spec fn options_met(t: Terms, values: Seq<nat>, k: nat) -> bool {
    unexpired(t.expires, values, k) && nonce_matches(
        t.has_nonce,
        values,
        k + pair_count(t.expires),
    )
}

/// What they show of the values from `k` on.
pub open spec fn options_shown(t: Terms, values: Seq<nat>, k: nat) -> Seq<nat> {
    shown_at(values, k, t.expires) + shown_at(values, k + pair_count(t.expires), t.has_nonce)
        + shown_at(values, k + pair_count(t.expires) + pair_count(t.has_nonce), t.has_root)
}

proof fn lemma_options(g: Seq<Gate>, t: Terms, values: Seq<nat>)
    requires
        gates::allocations(g) + options_count(t) <= values.len(),
        disclosure::all_reduced(values),
    ensures
        ({
            let k = gates::allocations(g);
            rules::shows(
                g,
                draw_options(g, t),
                values,
                options_count(t),
                options_shown(t, values, k),
                options_met(t, values, k),
            )
        }),
{
    let k = gates::allocations(g);
    let h1 = draw_expiry(g, t.expires);
    let h2 = draw_nonce(h1, t.has_nonce);
    let k1 = k + pair_count(t.expires);
    let k2 = k1 + pair_count(t.has_nonce);
    lemma_expiry(g, t.expires, values);
    lemma_nonce(h1, t.has_nonce, values);
    lemma_root(h2, t.has_root, values);
    rules::lemma_shows_trans(
        g,
        h1,
        h2,
        values,
        pair_count(t.expires),
        shown_at(values, k, t.expires),
        unexpired(t.expires, values, k),
        pair_count(t.has_nonce),
        shown_at(values, k1, t.has_nonce),
        nonce_matches(t.has_nonce, values, k1),
    );
    rules::lemma_shows_trans(
        g,
        h2,
        draw_options(g, t),
        values,
        pair_count(t.expires) + pair_count(t.has_nonce),
        shown_at(values, k, t.expires) + shown_at(values, k1, t.has_nonce),
        options_met(t, values, k),
        root_count(t.has_root),
        shown_at(values, k2, t.has_root),
        true,
    );
}

/// The values of a pair of variables, where it is present.
pub open spec fn pair_values(public: Option<nat>, private: nat) -> Seq<nat> {
    match public {
        Some(v) => seq![v, private],
        None => Seq::empty(),
    }
}

/// A value, where it is present.
pub open spec fn single(public: Option<nat>) -> Seq<nat> {
    match public {
        Some(v) => seq![v],
        None => Seq::empty(),
    }
}

/// The integer of an optional field element.
pub open spec fn element(x: Option<Fr>) -> Option<nat> {
    match x {
        Some(v) => Some(v@),
        None => None,
    }
}

/// The integer of an optional time.
pub open spec fn time(x: Option<u64>) -> Option<nat> {
    match x {
        Some(v) => Some(v as nat),
        None => None,
    }
}

/// Adds the expiry, the nonce and the revocation root.
fn options_circuit(
    b: &mut Builder,
    expiry: Option<u64>,
    now: u64,
    nonce: Option<Fr>,
    held: Fr,
    root: Option<Fr>,
)
    ensures
        gates::recorded(*final(b)) == draw_root(
            draw_nonce(
                draw_expiry(gates::recorded(*old(b)), expiry is Some),
                nonce is Some,
            ),
            root is Some,
        ),
        gates::assigned(*final(b)) == gates::appended(
            gates::assigned(*old(b)),
            pair_values(time(expiry), now as nat) + pair_values(element(nonce), held@) + single(
                element(root),
            ),
        ),
{
    let ghost base = gates::assigned(*b);
    let ghost first = pair_values(time(expiry), now as nat);
    let ghost second = pair_values(element(nonce), held@);
    let ghost third = single(element(root));
    if let Some(at) = expiry {
        let ghost g = gates::recorded(*b);
        let public = rules::input_rule(b, Fr::from_u64(at));
        let private = rules::witness_rule(b, Fr::from_u64(now));
        proof {
            lemma_two(g, Seq::empty());
        }
        let r = comparison::enforce_gte(b, public, private);
        assert(r is Ok);
    }
    proof {
        if let Some(v) = base {
            assert(v + first =~= v + seq![first[0]] + seq![first[1]] || expiry is None);
            assert(expiry is None ==> v + first =~= v);
        }
        assert(gates::assigned(*b) == gates::appended(base, first));
    }
    if let Some(expected) = nonce {
        let ghost g = gates::recorded(*b);
        let public = rules::input_rule(b, expected);
        let private = rules::witness_rule(b, held);
        proof {
            lemma_two(g, Seq::empty());
        }
        b.enforce_equal(private, public);
    }
    proof {
        if let Some(v) = base {
            assert(nonce is Some ==> v + first + seq![second[0]] + seq![second[1]] =~= v + (first
                + second));
            assert(nonce is None ==> v + first =~= v + (first + second));
        }
        assert(gates::assigned(*b) == gates::appended(base, first + second));
    }
    if let Some(r) = root {
        rules::input_rule(b, r);
    }
    proof {
        if let Some(v) = base {
            assert(root is Some ==> v + (first + second) + seq![third[0]] =~= v + (first + second
                + third));
            assert(root is None ==> v + (first + second) =~= v + (first + second + third));
        }
    }
}

// The further predicates.

/// The record of the first predicates.
pub open spec fn draw_predicates(
    g: Seq<Gate>,
    wires: Seq<nat>,
    list: Seq<Predicate>,
    count: nat,
) -> Seq<Gate>
    decreases count,
{
    if count == 0 {
        g
    } else {
        predicates::draw_predicate(
            draw_predicates(g, wires, list, (count - 1) as nat),
            wires,
            list[count - 1],
        )
    }
}

/// Why the first of the predicates that is refused is refused.
pub open spec fn first_refusal(list: Seq<Predicate>, count: nat) -> Option<SynthesisError>
    decreases count,
{
    if count == 0 {
        None
    } else {
        match first_refusal(list, (count - 1) as nat) {
            Some(e) => Some(e),
            None => predicates::refusal(list[count - 1]),
        }
    }
}

proof fn lemma_refusal_stays(list: Seq<Predicate>, i: nat, j: nat)
    requires
        i <= j,
        first_refusal(list, i) is Some,
    ensures
        first_refusal(list, j) == first_refusal(list, i),
    decreases j,
{
    if i < j {
        lemma_refusal_stays(list, i, (j - 1) as nat);
    }
}

/// The first predicates are met.
pub open spec fn all_met(list: Seq<Predicate>, attrs: Seq<nat>, count: nat) -> bool {
    forall|i: int| 0 <= i < count ==> predicates::met(#[trigger] list[i], attrs)
}

proof fn lemma_predicates(
    g: Seq<Gate>,
    wires: Seq<nat>,
    list: Seq<Predicate>,
    count: nat,
    attrs: Seq<nat>,
    values: Seq<nat>,
)
    requires
        predicates::carried(g, values, wires, attrs),
        disclosure::all_reduced(attrs),
        first_refusal(list, count) is None,
    ensures
        rules::adds(
            g,
            draw_predicates(g, wires, list, count),
            values,
            0,
            all_met(list, attrs, count),
        ),
    decreases count,
{
    if count == 0 {
        gates::lemma_computes(g, g, values);
    } else {
        let i = (count - 1) as nat;
        let h = draw_predicates(g, wires, list, i);
        lemma_predicates(g, wires, list, i, attrs, values);
        predicates::lemma_carried_kept(g, h, values, wires, attrs);
        predicates::lemma_predicate(h, wires, list[i as int], attrs, values);
        rules::lemma_adds_trans(
            g,
            h,
            draw_predicates(g, wires, list, count),
            values,
            0,
            all_met(list, attrs, i),
            0,
            predicates::met(list[i as int], attrs),
        );
        assert(all_met(list, attrs, count) == (all_met(list, attrs, i) && predicates::met(
            list[i as int],
            attrs,
        ))) by {
            if all_met(list, attrs, count) {
                assert(predicates::met(list[i as int], attrs));
            }
            if all_met(list, attrs, i) && predicates::met(list[i as int], attrs) {
                assert forall|x: int| 0 <= x < count implies predicates::met(
                    #[trigger] list[x],
                    attrs,
                ) by {}
            }
        }
    }
}

// The whole circuit.

/// The record of the whole circuit.
pub open spec fn draw_credential(
    p: permutation::Schedule,
    g: Seq<Gate>,
    t: Terms,
    domain: nat,
) -> Seq<Gate> {
    let n = g.len();
    let wires = attribute_wires(n, t.mask);
    let opened = opening::draw_opening(p, g, 22, t.mask, domain);
    draw_predicates(
        draw_options(draw_checks(opened, n, wires, t.diplomas), t),
        wires,
        t.predicates,
        t.predicates.len(),
    )
}

/// The number of its variables.
pub open spec fn variable_count(t: Terms) -> nat {
    39 + options_count(t)
}

/// What the circuit states of the values of its variables, which begin at `k`:
/// the private attributes are the public ones where they are shown, and with the
/// blinding they have the public commitment; they pass the checks; the expiry
/// and the nonce are met; and every predicate is.
pub open spec fn credential_rule(
    p: permutation::Schedule,
    t: Terms,
    domain: nat,
    values: Seq<nat>,
    k: nat,
) -> bool {
    let attrs = values.subrange((k + 22) as int, (k + 38) as int);
    &&& opening::linked(t.mask, values, k, 22, 16)
    &&& permutation::sponge(p, opening::opened(domain, values, k, 22)) == values[(k + 16) as int]
    &&& checked(values.subrange(k as int, (k + 22) as int), attrs, t.diplomas)
    &&& options_met(t, values, k + 39)
    &&& all_met(t.predicates, attrs, t.predicates.len())
}

/// The public values among those from `k` on.
pub open spec fn credential_shown(t: Terms, values: Seq<nat>, k: nat) -> Seq<nat> {
    values.subrange(k as int, (k + 22) as int) + options_shown(t, values, k + 39)
}

/// Terms that a circuit can be built for, with reduced diplomas.
pub open spec fn buildable(t: Terms) -> bool {
    &&& first_refusal(t.predicates, t.predicates.len()) is None
    &&& t.diplomas matches Some(allowed) ==> disclosure::all_reduced(allowed)
}

proof fn lemma_carried(g: Seq<Gate>, values: Seq<nat>, n: nat, mask: Seq<bool>, k: nat)
    requires
        opening::attributes_carried(g, values, n, 22, mask, k, 16),
        k + 38 <= values.len(),
    ensures
        predicates::carried(
            g,
            values,
            attribute_wires(n, mask),
            values.subrange((k + 22) as int, (k + 38) as int),
        ),
{
    let wires = attribute_wires(n, mask);
    let attrs = values.subrange((k + 22) as int, (k + 38) as int);
    assert forall|i: int| 0 <= i < 16 implies gates::is_field(g, #[trigger] wires[i])
        && gates::fixed(g, wires[i]) is None && gates::wire(g, values, wires[i]) == attrs[i] by {
        assert(opening::carries(
            g,
            values,
            opening::attribute_wire(n, 22, mask, i as nat),
            (k + 22 + i) as int,
        ));
    }
}

/// The record before the predicates.
proof fn lemma_body(
    p: permutation::Schedule,
    g: Seq<Gate>,
    t: Terms,
    domain: nat,
    values: Seq<nat>,
)
    requires
        gates::allocations(g) + variable_count(t) <= values.len(),
        disclosure::all_reduced(values),
        t.diplomas matches Some(allowed) ==> disclosure::all_reduced(allowed),
    ensures
        ({
            let n = g.len();
            let k = gates::allocations(g);
            let wires = attribute_wires(n, t.mask);
            let attrs = values.subrange((k + 22) as int, (k + 38) as int);
            let opened = opening::draw_opening(p, g, 22, t.mask, domain);
            let h = draw_options(draw_checks(opened, n, wires, t.diplomas), t);
            &&& rules::shows(
                g,
                h,
                values,
                variable_count(t),
                credential_shown(t, values, k),
                opening::linked(t.mask, values, k, 22, 16) && permutation::sponge(
                    p,
                    opening::opened(domain, values, k, 22),
                ) == values[(k + 16) as int] && checked(
                    values.subrange(k as int, (k + 22) as int),
                    attrs,
                    t.diplomas,
                ) && options_met(t, values, k + 39),
            )
            &&& predicates::carried(h, values, wires, attrs)
            &&& disclosure::all_reduced(attrs)
            &&& publics_free(opened, n)
            &&& predicates::free(opened, wires)
        }),
{
    let n = g.len();
    let k = gates::allocations(g);
    let wires = attribute_wires(n, t.mask);
    let attrs = values.subrange((k + 22) as int, (k + 38) as int);
    let public = values.subrange(k as int, (k + 22) as int);
    let h1 = opening::draw_opening(p, g, 22, t.mask, domain);
    let h2 = draw_checks(h1, n, wires, t.diplomas);
    let h3 = draw_options(h2, t);
    let m1 = opening::linked(t.mask, values, k, 22, 16) && permutation::sponge(
        p,
        opening::opened(domain, values, k, 22),
    ) == values[(k + 16) as int];
    opening::lemma_opening(p, g, 22, t.mask, domain, values);
    lemma_carried(h1, values, n, t.mask, k);
    assert forall|i: int| 0 <= i < attrs.len() implies #[trigger] attrs[i] < field::modulus() by {
        assert(attrs[i] == values[k + 22 + i]);
    }
    assert forall|j: nat| j < 22 implies gates::is_field(h1, #[trigger] (n + 1 + j))
        && gates::fixed(h1, n + 1 + j) is None by {
        assert(opening::carries(h1, values, n + 1 + j, (k + j) as int));
    }
    lemma_checks(h1, n, wires, t.diplomas, values, k, attrs);
    rules::lemma_shows_adds(
        g,
        h1,
        h2,
        values,
        39,
        public,
        m1,
        0,
        checked(public, attrs, t.diplomas),
    );
    lemma_options(h2, t, values);
    rules::lemma_shows_trans(
        g,
        h2,
        h3,
        values,
        39,
        public,
        m1 && checked(public, attrs, t.diplomas),
        options_count(t),
        options_shown(t, values, k + 39),
        options_met(t, values, k + 39),
    );
    gates::lemma_continues_trans(h1, h2, h3);
    predicates::lemma_carried_kept(h1, h3, values, wires, attrs);
}

/// Values for the variables satisfy the circuit exactly when they are what it
/// states. The public ones are the shown attributes, the commitment, the age
/// threshold, the citizenship, the thresholds of face match and liveness, the
/// selector of the diploma, and then the expiry, the nonce and the revocation
/// root, as far as there are any.
pub proof fn lemma_credential(
    p: permutation::Schedule,
    g: Seq<Gate>,
    t: Terms,
    domain: nat,
    values: Seq<nat>,
)
    requires
        buildable(t),
        gates::allocations(g) + variable_count(t) <= values.len(),
        disclosure::all_reduced(values),
    ensures
        ({
            let k = gates::allocations(g);
            rules::shows(
                g,
                draw_credential(p, g, t, domain),
                values,
                variable_count(t),
                credential_shown(t, values, k),
                credential_rule(p, t, domain, values, k),
            )
        }),
{
    let n = g.len();
    let k = gates::allocations(g);
    let wires = attribute_wires(n, t.mask);
    let attrs = values.subrange((k + 22) as int, (k + 38) as int);
    let opened = opening::draw_opening(p, g, 22, t.mask, domain);
    let h = draw_options(draw_checks(opened, n, wires, t.diplomas), t);
    lemma_body(p, g, t, domain, values);
    lemma_predicates(h, wires, t.predicates, t.predicates.len(), attrs, values);
    rules::lemma_shows_adds(
        g,
        h,
        draw_credential(p, g, t, domain),
        values,
        variable_count(t),
        credential_shown(t, values, k),
        opening::linked(t.mask, values, k, 22, 16) && permutation::sponge(
            p,
            opening::opened(domain, values, k, 22),
        ) == values[(k + 16) as int] && checked(
            values.subrange(k as int, (k + 22) as int),
            attrs,
            t.diplomas,
        ) && options_met(t, values, k + 39),
        0,
        all_met(t.predicates, attrs, t.predicates.len()),
    );
}

/// A credential with what its holder proves of it.
///
/// The attributes are, in order: the age, a reserved one, the hashed
/// citizenship, the face match, the depth variance, the liveness, the hashed
/// diploma, the nonce, one for each kind of predicate, and two reserved ones.
#[derive(Clone, Debug)]
pub struct CredentialCircuit {
    pub attrs: [Fr; NUM_ATTRIBUTES],
    pub reveals: [bool; NUM_ATTRIBUTES],
    pub blinding: Fr,
    pub commitment: Fr,
    pub age_thresh: Fr,
    pub citizenship: Fr,
    pub face_thresh: Fr,
    pub live_thresh: Fr,
    pub diploma_sel: bool,
    pub expiry_time: Option<u64>,
    pub nonce: Option<Fr>,
    pub allowed_diplomas: [Fr; MAX_INSET],
    pub merkle_proof: Option<MerkleProof>,
    pub revocation_root: Option<Fr>,
    pub additional_predicates: Vec<Predicate>,
}

/// The first diplomas that a circuit has room for, and zeros behind them.
pub open spec fn padded(diplomas: Seq<nat>) -> Seq<nat> {
    Seq::new(
        6,
        |i: int|
            if i < diplomas.len() {
                diplomas[i]
            } else {
                0
            },
    )
}

impl CredentialCircuit {
    /// The integers of the attributes.
    pub open spec fn attributes(self) -> Seq<nat> {
        field::values(self.attrs@)
    }

    /// What the shape of the circuit depends on.
    pub open spec fn terms(self) -> Terms {
        Terms {
            mask: self.reveals@,
            diplomas: if self.diploma_sel {
                Some(field::values(self.allowed_diplomas@))
            } else {
                None
            },
            expires: self.expiry_time is Some,
            has_nonce: self.nonce is Some,
            has_root: self.revocation_root is Some,
            predicates: self.additional_predicates@,
        }
    }

    /// The first public values.
    pub open spec fn statement(self) -> Seq<nat> {
        disclosure::shown_values(self.attributes(), self.reveals@, 16) + seq![
            self.commitment@,
            self.age_thresh@,
            self.citizenship@,
            self.face_thresh@,
            self.live_thresh@,
            gates::bit_value(self.diploma_sel),
        ]
    }

    /// All public values.
    pub open spec fn public_values(self) -> Seq<nat> {
        self.statement() + single(time(self.expiry_time)) + single(element(self.nonce)) + single(
            element(self.revocation_root),
        )
    }

    /// The values of the optional variables at a time.
    pub open spec fn option_values(self, now: nat) -> Seq<nat> {
        pair_values(time(self.expiry_time), now) + pair_values(
            element(self.nonce),
            self.attributes()[7],
        ) + single(element(self.revocation_root))
    }

    /// The values of all variables at a time, in order.
    pub open spec fn values_at(self, now: nat) -> Seq<nat> {
        (self.statement() + self.attributes()).push(self.blinding@) + self.option_values(now)
    }

    /// Whether the credential meets what it is to prove at a time.
    pub open spec fn provable_at(self, now: nat) -> bool {
        let attrs = self.attributes();
        &&& self.commitment@ == hash::commitment_value(attrs, self.blinding@)
        &&& self.age_thresh@ <= attrs[0] < range::width_bound()
        &&& attrs[2] == self.citizenship@
        &&& self.face_thresh@ <= attrs[3] < range::width_bound()
        &&& self.live_thresh@ <= attrs[5] < range::width_bound()
        &&& self.diploma_sel ==> field::values(self.allowed_diplomas@).contains(attrs[6])
        &&& self.expiry_time matches Some(at) ==> now <= at < range::width_bound()
        &&& self.nonce matches Some(expected) ==> attrs[7] == expected@
        &&& all_met(
            self.additional_predicates@,
            attrs,
            self.additional_predicates@.len(),
        )
    }

    /// Why the circuit cannot be built.
    pub open spec fn refused(self) -> Option<SynthesisError> {
        first_refusal(self.additional_predicates@, self.additional_predicates@.len())
    }
}

/// The values of a credential satisfy the circuit exactly when the credential
/// meets what it is to prove, and its public values come in the order of the
/// circuit's public variables.
pub proof fn lemma_assignment(c: CredentialCircuit, g: Seq<Gate>, before: Seq<nat>, now: u64)
    requires
        c.refused() is None,
        disclosure::all_reduced(before),
        gates::allocations(g) == before.len(),
    ensures
        ({
            let values = before + c.values_at(now as nat);
            let h = draw_credential(
                hash::schedule(),
                g,
                c.terms(),
                hash::commitment_domain(),
            );
            &&& gates::allocations(h) == values.len()
            &&& gates::holds(h, values) <==> gates::holds(g, values) && c.provable_at(now as nat)
            &&& gates::public_values(h, values) == gates::public_values(g, values)
                + c.public_values()
        }),
{
    let k = before.len();
    let t = c.terms();
    let p = hash::schedule();
    let domain = hash::commitment_domain();
    let attrs = c.attributes();
    let statement = c.statement();
    let options = c.option_values(now as nat);
    let own = c.values_at(now as nat);
    let values = before + own;
    assert(statement.len() == 22);
    assert(own.len() == 39 + options.len());
    assert(options.len() == options_count(t));
    predicates::lemma_values_reduced(c.attrs@);
    predicates::lemma_values_reduced(c.allowed_diplomas@);
    assert forall|i: int| 0 <= i < 22 implies #[trigger] values[k + i] == statement[i] by {}
    assert forall|i: int| 0 <= i < 16 implies #[trigger] values[k + 22 + i] == attrs[i] by {}
    assert forall|i: int| 0 <= i < options.len() implies #[trigger] values[k + 39 + i]
        == options[i] by {}
    assert(values[(k + 38) as int] == c.blinding@);
    lemma_credential_reduced(c, now);
    assert forall|i: int| 0 <= i < values.len() implies #[trigger] values[i] < field::modulus() by {
        if i < k {
            assert(values[i] == before[i]);
        } else {
            assert(values[i] == own[i - k]);
        }
    }
    lemma_credential(p, g, t, domain, values);
    assert(values.subrange((k + 22) as int, (k + 38) as int) =~= attrs);
    assert(values.subrange(k as int, (k + 22) as int) =~= statement);
    assert forall|i: nat| i < 16 && t.mask[i as int] implies #[trigger] values[(k + 22 + i) as int]
        == values[(k + i) as int] by {
        assert(values[(k + i) as int] == statement[i as int]);
        assert(values[(k + 22 + i) as int] == attrs[i as int]);
    }
    assert(opening::opened(domain, values, k, 22) == disclosure::opening(
        domain,
        attrs,
        c.blinding@,
    ));
    assert(values[(k + 16) as int] == statement[16]);
    let e = pair_count(t.expires);
    let m = pair_count(t.has_nonce);
    if t.expires {
        assert(values[(k + 39 + 0) as int] == options[0] && values[(k + 39 + 1) as int] == options[1]);
    }
    if t.has_nonce {
        assert(values[(k + 39 + e) as int] == options[e as int]);
        assert(values[(k + 39 + (e + 1)) as int] == options[(e + 1) as int]);
    }
    if t.has_root {
        assert(values[(k + 39 + (e + m)) as int] == options[(e + m) as int]);
    }
    assert(options_shown(t, values, k + 39) =~= single(time(c.expiry_time)) + single(
        element(c.nonce),
    ) + single(element(c.revocation_root)));
    assert(credential_shown(t, values, k) =~= c.public_values());
}

proof fn lemma_credential_reduced(c: CredentialCircuit, now: u64)
    ensures
        disclosure::all_reduced(c.values_at(now as nat)),
{
    let own = c.values_at(now as nat);
    let statement = c.statement();
    let options = c.option_values(now as nat);
    predicates::lemma_values_reduced(c.attrs@);
    broadcast use field::lemma_fr_bound;
    assert forall|i: int| 0 <= i < 16 implies c.attributes()[i] < field::modulus() by {
        field::lemma_values_bound(c.attrs@, i);
    }
    assert forall|i: int| 0 <= i < own.len() implies #[trigger] own[i] < field::modulus() by {
        if i < 22 {
            assert(own[i] == statement[i]);
        } else if i < 38 {
            assert(own[i] == c.attributes()[i - 22]);
        } else if i > 38 {
            assert(own[i] == options[i - 39]);
        }
    }
}

impl CredentialCircuit {
    /// A credential that proves the basic policy, with a diploma among six.
    pub fn new_prove(
        attrs: [Fr; NUM_ATTRIBUTES],
        blinding: Fr,
        reveals: [bool; NUM_ATTRIBUTES],
        age_thresh: u64,
        citizenship: Fr,
        face_thresh: u64,
        live_thresh: u64,
        allowed_diplomas: [Fr; MAX_INSET],
    ) -> (r: CredentialCircuit)
        ensures
            r.attrs == attrs,
            r.reveals == reveals,
            r.blinding == blinding,
            r.commitment@ == hash::commitment_value(field::values(attrs@), blinding@),
            r.age_thresh@ == age_thresh,
            r.citizenship == citizenship,
            r.face_thresh@ == face_thresh,
            r.live_thresh@ == live_thresh,
            r.diploma_sel,
            r.expiry_time is None,
            r.nonce is None,
            r.allowed_diplomas == allowed_diplomas,
            r.merkle_proof is None,
            r.revocation_root is None,
            r.additional_predicates@.len() == 0,
    {
        let commitment = hash::commit(&attrs, &blinding);
        CredentialCircuit {
            attrs,
            reveals,
            blinding,
            commitment,
            age_thresh: hash::u64_to_fr(age_thresh),
            citizenship,
            face_thresh: hash::u64_to_fr(face_thresh),
            live_thresh: hash::u64_to_fr(live_thresh),
            diploma_sel: true,
            expiry_time: None,
            nonce: None,
            allowed_diplomas,
            merkle_proof: None,
            revocation_root: None,
            additional_predicates: Vec::new(),
        }
    }

    /// A credential that proves a policy, with the expiry and the nonce that it
    /// asks for, a revocation root and further predicates. Diplomas matter when
    /// the policy names any; the first six of them count, with zero in the place
    /// of those that are missing.
    pub fn new_enhanced(
        attrs: [Fr; NUM_ATTRIBUTES],
        blinding: Fr,
        reveals: [bool; NUM_ATTRIBUTES],
        policy: &CredentialPolicy,
        merkle_proof: Option<MerkleProof>,
        revocation_root: Option<Fr>,
        additional_predicates: Vec<Predicate>,
    ) -> (r: CredentialCircuit)
        ensures
            r.attrs == attrs,
            r.reveals == reveals,
            r.blinding == blinding,
            r.commitment@ == hash::commitment_value(field::values(attrs@), blinding@),
            r.age_thresh@ == policy.age_threshold,
            r.citizenship == policy.citizenship,
            r.face_thresh@ == policy.face_threshold,
            r.live_thresh@ == policy.liveness_threshold,
            r.diploma_sel == (policy.allowed_diplomas@.len() > 0),
            r.expiry_time == policy.expiry_timestamp,
            r.nonce == policy.required_nonce,
            field::values(r.allowed_diplomas@) == padded(
                field::values(policy.allowed_diplomas@),
            ),
            forall|i: int|
                0 <= i < 6 ==> (#[trigger] r.allowed_diplomas@[i])@ == if i
                    < policy.allowed_diplomas@.len() {
                    policy.allowed_diplomas@[i]@
                } else {
                    0
                },
            r.merkle_proof == merkle_proof,
            r.revocation_root == revocation_root,
            r.additional_predicates == additional_predicates,
    {
        let commitment = hash::commit(&attrs, &blinding);
        let zero = Fr::zero();
        let mut allowed: [Fr; MAX_INSET] = [zero, zero, zero, zero, zero, zero];
        let ghost all = padded(field::values(policy.allowed_diplomas@));
        for i in 0..MAX_INSET
            invariant
                all == padded(field::values(policy.allowed_diplomas@)),
                forall|j: int| 0 <= j < i ==> (#[trigger] allowed@[j])@ == all[j],
                forall|j: int| i <= j < 6 ==> (#[trigger] allowed@[j])@ == 0,
        {
            if i < policy.allowed_diplomas.len() {
                allowed[i] = policy.allowed_diplomas[i];
            }
        }
        assert(field::values(allowed@) =~= all);
        CredentialCircuit {
            attrs,
            reveals,
            blinding,
            commitment,
            age_thresh: hash::u64_to_fr(policy.age_threshold),
            citizenship: policy.citizenship,
            face_thresh: hash::u64_to_fr(policy.face_threshold),
            live_thresh: hash::u64_to_fr(policy.liveness_threshold),
            diploma_sel: policy.allowed_diplomas.len() > 0,
            expiry_time: policy.expiry_timestamp,
            nonce: policy.required_nonce,
            allowed_diplomas: allowed,
            merkle_proof,
            revocation_root,
            additional_predicates,
        }
    }

    /// The first public values.
    fn public_statement(&self) -> (r: Vec<Fr>)
        ensures
            field::values(r@) == self.statement(),
    {
        let mut out = disclosure::shown_elements(&self.attrs, &self.reveals);
        let ghost shown = out@;
        let selector = if self.diploma_sel {
            Fr::one()
        } else {
            Fr::zero()
        };
        out.push(self.commitment);
        out.push(self.age_thresh);
        out.push(self.citizenship);
        out.push(self.face_thresh);
        out.push(self.live_thresh);
        out.push(selector);
        proof {
            assert(field::values(shown).len() == shown.len());
            assert(forall|i: int| 0 <= i < 16 ==> field::values(shown)[i] == out@[i]@);
            assert(field::values(out@) =~= self.statement());
        }
        out
    }

    /// The public values, in the order of the circuit's public variables.
    pub fn public_inputs(&self) -> (r: Vec<Fr>)
        ensures
            field::values(r@) == self.public_values(),
    {
        let mut out = self.public_statement();
        let ghost s0 = out@;
        if let Some(at) = self.expiry_time {
            out.push(hash::u64_to_fr(at));
        }
        let ghost s1 = out@;
        assert(field::values(s1) =~= field::values(s0) + single(time(self.expiry_time)));
        if let Some(expected) = self.nonce {
            out.push(expected);
        }
        let ghost s2 = out@;
        assert(field::values(s2) =~= field::values(s1) + single(element(self.nonce)));
        if let Some(root) = self.revocation_root {
            out.push(root);
        }
        assert(field::values(out@) =~= field::values(s2) + single(element(self.revocation_root)));
        out
    }

    /// Opens the commitment. The result are the wires of the attributes.
    fn opened_circuit(&self, b: &mut Builder) -> (wires: Vec<usize>)
        ensures
            gates::recorded(*final(b)) == opening::draw_opening(
                hash::schedule(),
                gates::recorded(*old(b)),
                22,
                self.reveals@,
                hash::commitment_domain(),
            ),
            gates::assigned(*final(b)) == gates::appended(
                gates::assigned(*old(b)),
                (self.statement() + self.attributes()).push(self.blinding@),
            ),
            gadgets::wires(wires@) == attribute_wires(
                gates::recorded(*old(b)).len(),
                self.reveals@,
            ),
            wires@.len() == 16,
            wires@[0] == gates::recorded(*old(b)).len() + 23,
            publics_free(gates::recorded(*final(b)), gates::recorded(*old(b)).len()),
            predicates::free(gates::recorded(*final(b)), gadgets::wires(wires@)),
    {
        let ghost g = gates::recorded(*b);
        let ghost n = g.len();
        let ghost k = gates::allocations(g);
        let ghost t = self.terms();
        let ghost ws = attribute_wires(n, t.mask);
        let public = self.public_statement();
        assert(field::values(public@).len() == 22);
        let params = hash::get_params();
        let domain_element = hash::domain_fr(crate::hashing::COMMITMENT_DOMAIN);
        let wires = opening::opening_circuit(
            b,
            &params,
            &domain_element,
            &public,
            &self.attrs,
            &self.reveals,
            self.blinding,
        );
        proof {
            let dummy = Seq::new(k + variable_count(t), |i: int| 0nat);
            predicates::lemma_values_reduced(self.allowed_diplomas@);
            lemma_body(hash::schedule(), g, t, domain_element@, dummy);
            assert(gadgets::wires(wires@) =~= ws);
            assert(gadgets::wires(wires@).len() == wires@.len());
            assert(gadgets::wires(wires@)[0] == wires@[0]);
            assert(opening::shown_before(t.mask, 0) == 0);
            assert(ws[0] == n + 23);
        }
        wires
    }

    /// Builds the circuit up to the further predicates. The result are the wires
    /// of the attributes.
    fn body_circuit(&self, b: &mut Builder, now: u64) -> (wires: Vec<usize>)
        ensures
            gates::recorded(*final(b)) == draw_options(
                draw_checks(
                    opening::draw_opening(
                        hash::schedule(),
                        gates::recorded(*old(b)),
                        22,
                        self.reveals@,
                        hash::commitment_domain(),
                    ),
                    gates::recorded(*old(b)).len(),
                    attribute_wires(gates::recorded(*old(b)).len(), self.reveals@),
                    self.terms().diplomas,
                ),
                self.terms(),
            ),
            gates::assigned(*final(b)) == gates::appended(
                gates::assigned(*old(b)),
                self.values_at(now as nat),
            ),
            gadgets::wires(wires@) == attribute_wires(
                gates::recorded(*old(b)).len(),
                self.reveals@,
            ),
    {
        let ghost base = gates::assigned(*b);
        let wires = self.opened_circuit(b);
        let domain = wires[0] - 23;
        checks_circuit(b, &wires, domain, self.diploma_sel, &self.allowed_diplomas);
        options_circuit(
            b,
            self.expiry_time,
            now,
            self.nonce,
            self.attrs[7],
            self.revocation_root,
        );
        proof {
            let first = (self.statement() + self.attributes()).push(self.blinding@);
            let options = self.option_values(now as nat);
            assert(self.attributes()[7] == self.attrs@[7]@);
            if let Some(v) = base {
                assert((v + first) + options =~= v + (first + options));
            }
        }
        wires
    }

    /// Builds the circuit as of a time behind what is there.
    fn extend_at(&self, b: &mut Builder, now: u64) -> (r: Result<(), SynthesisError>)
        ensures
            r matches Err(e) ==> self.refused() == Some(e),
            r is Ok ==> {
                &&& self.refused() is None
                &&& gates::recorded(*final(b)) == draw_credential(
                    hash::schedule(),
                    gates::recorded(*old(b)),
                    self.terms(),
                    hash::commitment_domain(),
                )
                &&& gates::assigned(*final(b)) == gates::appended(
                    gates::assigned(*old(b)),
                    self.values_at(now as nat),
                )
            },
    {
        let ghost g = gates::recorded(*b);
        let ghost k = gates::allocations(g);
        let ghost base = gates::assigned(*b);
        let ghost t = self.terms();
        let ghost dummy = Seq::new(k + variable_count(t), |i: int| 0nat);
        let ghost attrs = dummy.subrange((k + 22) as int, (k + 38) as int);
        let ghost ws = attribute_wires(g.len(), t.mask);
        let wires = self.body_circuit(b, now);
        let ghost body = gates::recorded(*b);
        proof {
            predicates::lemma_values_reduced(self.allowed_diplomas@);
            lemma_body(hash::schedule(), g, t, hash::commitment_domain(), dummy);
        }
        let ghost list = self.additional_predicates@;
        for i in 0..self.additional_predicates.len()
            invariant
                list == self.additional_predicates@,
                ws == gadgets::wires(wires@),
                predicates::carried(body, dummy, ws, attrs),
                disclosure::all_reduced(attrs),
                first_refusal(list, i as nat) is None,
                gates::recorded(*b) == draw_predicates(body, ws, list, i as nat),
                gates::assigned(*b) == gates::appended(base, self.values_at(now as nat)),
        {
            let ghost h = gates::recorded(*b);
            proof {
                lemma_predicates(body, ws, list, i as nat, attrs, dummy);
                predicates::lemma_carried_kept(body, h, dummy, ws, attrs);
            }
            match predicates::predicate_circuit(b, &wires, &self.additional_predicates[i]) {
                Ok(_) => {},
                Err(e) => {
                    proof {
                        assert(first_refusal(list, (i + 1) as nat) == Some(e));
                        lemma_refusal_stays(list, (i + 1) as nat, list.len());
                    }
                    return Err(e);
                },
            }
        }
        Ok(())
    }

    /// Builds the circuit as of a time. It fails for a predicate with a bound
    /// that does not fit, or that nothing could meet. What was built until then is
    /// dropped.
    pub fn generate_constraints_at(&self, b: Builder, now: u64) -> (r: Result<
        Builder,
        SynthesisError,
    >)
        ensures
            r matches Err(e) ==> self.refused() == Some(e),
            r matches Ok(c) ==> {
                &&& self.refused() is None
                &&& gates::recorded(c) == draw_credential(
                    hash::schedule(),
                    gates::recorded(b),
                    self.terms(),
                    hash::commitment_domain(),
                )
                &&& gates::assigned(c) == gates::appended(
                    gates::assigned(b),
                    self.values_at(now as nat),
                )
            },
    {
        let mut c = b;
        match self.extend_at(&mut c, now) {
            Ok(_) => Ok(c),
            Err(e) => Err(e),
        }
    }

    /// Builds the circuit as of now. The time that it takes as now is the only
    /// thing that is not determined.
    pub fn generate_constraints(&self, b: Builder) -> (r: Result<Builder, SynthesisError>)
        ensures
            r matches Err(e) ==> self.refused() == Some(e),
            r matches Ok(c) ==> {
                &&& self.refused() is None
                &&& gates::recorded(c) == draw_credential(
                    hash::schedule(),
                    gates::recorded(b),
                    self.terms(),
                    hash::commitment_domain(),
                )
                &&& exists|now: u64|
                    gates::assigned(c) == gates::appended(
                        gates::assigned(b),
                        #[trigger] self.values_at(now as nat),
                    )
            },
    {
        let now = clock::seconds_now();
        let r = self.generate_constraints_at(b, now);
        assert(self.values_at(now as nat) == self.values_at(now as nat));
        r
    }

    /// The record of the circuit on its own.
    pub open spec fn record(self) -> Seq<Gate> {
        draw_credential(
            hash::schedule(),
            Seq::empty(),
            self.terms(),
            hash::commitment_domain(),
        )
    }

    /// The matrices of the circuit, for which keys are set up.
    pub fn circuit_matrices(&self) -> (r: Result<Matrices, SynthesisError>)
        ensures
            r matches Err(e) ==> self.refused() == Some(e),
            r matches Ok(m) ==> self.refused() is None && m@ == gates::constraint_matrices(
                self.record(),
            ),
    {
        match self.generate_constraints_at(Builder::for_setup(), 0) {
            Ok(b) => Ok(b.into_matrices()),
            Err(e) => Err(e),
        }
    }
}

/// The circuit of a policy is the same for every credential: it depends on
/// neither the attributes nor the blinding, the Merkle proof or the value of the
/// revocation root.
pub proof fn lemma_same_circuit(c: CredentialCircuit, d: CredentialCircuit)
    requires
        c.reveals@ == d.reveals@,
        c.diploma_sel == d.diploma_sel,
        field::values(c.allowed_diplomas@) == field::values(d.allowed_diplomas@),
        c.expiry_time is Some == d.expiry_time is Some,
        c.nonce is Some == d.nonce is Some,
        c.revocation_root is Some == d.revocation_root is Some,
        c.additional_predicates@ == d.additional_predicates@,
    ensures
        c.record() == d.record(),
{
}

/// Whether attributes meet a policy at a time, and further predicates with it.
pub open spec fn policy_met(
    policy: CredentialPolicy,
    attrs: Seq<nat>,
    list: Seq<Predicate>,
    now: nat,
) -> bool {
    let diplomas = field::values(policy.allowed_diplomas@);
    &&& policy.age_threshold <= attrs[0] < range::width_bound()
    &&& attrs[2] == policy.citizenship@
    &&& policy.face_threshold <= attrs[3] < range::width_bound()
    &&& policy.liveness_threshold <= attrs[5] < range::width_bound()
    &&& diplomas.len() > 0 ==> padded(diplomas).contains(attrs[6])
    &&& policy.expiry_timestamp matches Some(at) ==> now <= at < range::width_bound()
    &&& policy.required_nonce matches Some(expected) ==> attrs[7] == expected@
    &&& all_met(list, attrs, list.len())
}

/// What a credential made for a policy proves is that its attributes meet the
/// policy and the predicates.
pub proof fn lemma_policy_met(
    c: CredentialCircuit,
    policy: CredentialPolicy,
    list: Seq<Predicate>,
    now: nat,
)
    requires
        c.commitment@ == hash::commitment_value(c.attributes(), c.blinding@),
        c.age_thresh@ == policy.age_threshold,
        c.citizenship == policy.citizenship,
        c.face_thresh@ == policy.face_threshold,
        c.live_thresh@ == policy.liveness_threshold,
        c.diploma_sel == (policy.allowed_diplomas@.len() > 0),
        field::values(c.allowed_diplomas@) == padded(field::values(policy.allowed_diplomas@)),
        c.expiry_time == policy.expiry_timestamp,
        c.nonce == policy.required_nonce,
        c.additional_predicates@ == list,
    ensures
        c.provable_at(now) <==> policy_met(policy, c.attributes(), list, now),
{
}

} // verus!
