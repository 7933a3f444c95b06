//! The Poseidon permutation and its sponge, over any round constants and any
//! three by three mixing matrix.
use crate::digest;
use crate::field;
use crate::field::Fr;
use vstd::arithmetic::div_mod::*;
use vstd::arithmetic::mul::*;
use vstd::arithmetic::power::*;
use vstd::prelude::*;
use vstd::utf8::*;

verus! {

/// The number of full rounds; half of them come first and half last.
pub const FULL_ROUNDS: usize = 8;

/// The number of field elements in the state.
pub const STATE_WIDTH: usize = 3;

/// The number of inputs that one permutation absorbs.
pub const RATE: usize = 2;

/// Round constants and mixing matrix as integers.
pub struct Schedule {
    pub constants: Seq<Seq<nat>>,
    pub mds: Seq<Seq<nat>>,
}

/// A schedule with three constants for each of at least eight rounds and a
/// three by three matrix.
pub open spec fn well_formed(p: Schedule) -> bool {
    &&& p.constants.len() >= 8
    &&& forall|r: int| 0 <= r < p.constants.len() ==> (#[trigger] p.constants[r]).len() == 3
    &&& p.mds.len() == 3
    &&& forall|i: int| 0 <= i < 3 ==> (#[trigger] p.mds[i]).len() == 3
}

/// The S-box: the fifth power in the field.
pub open spec fn fifth(x: nat) -> nat {
    (pow(x as int, 5) % field::modulus() as int) as nat
}

pub open spec fn add_constants(state: Seq<nat>, constants: Seq<nat>) -> Seq<nat> {
    Seq::new(3, |i: int| field::fadd(state[i], constants[i]))
}

pub open spec fn sbox_all(state: Seq<nat>) -> Seq<nat> {
    Seq::new(3, |i: int| fifth(state[i]))
}

pub open spec fn sbox_first(state: Seq<nat>) -> Seq<nat> {
    seq![fifth(state[0]), state[1], state[2]]
}

/// A row of the mixing matrix times the state.
pub open spec fn dot(row: Seq<nat>, state: Seq<nat>) -> nat {
    (row[0] * state[0] + row[1] * state[1] + row[2] * state[2]) % field::modulus()
}

/// The mixing matrix times the state.
pub open spec fn mix(mds: Seq<Seq<nat>>, state: Seq<nat>) -> Seq<nat> {
    Seq::new(3, |i: int| dot(mds[i], state))
}

/// A round with the S-box on every element.
pub open spec fn full_step(p: Schedule, r: int, state: Seq<nat>) -> Seq<nat> {
    mix(p.mds, sbox_all(add_constants(state, p.constants[r])))
}

/// A round with the S-box on the first element only.
pub open spec fn partial_step(p: Schedule, r: int, state: Seq<nat>) -> Seq<nat> {
    mix(p.mds, sbox_first(add_constants(state, p.constants[r])))
}

/// Whether a round is one of the first four or the last four.
pub open spec fn is_full(p: Schedule, r: int) -> bool {
    r < 4 || r >= p.constants.len() - 4
}

pub open spec fn step(p: Schedule, r: int, state: Seq<nat>) -> Seq<nat> {
    if is_full(p, r) {
        full_step(p, r, state)
    } else {
        partial_step(p, r, state)
    }
}

/// The state after the first `count` rounds.
pub open spec fn rounds(p: Schedule, count: nat, state: Seq<nat>) -> Seq<nat>
    decreases count,
{
    if count == 0 {
        state
    } else {
        step(p, count - 1, rounds(p, (count - 1) as nat, state))
    }
}

/// The permutation: every round in order.
pub open spec fn permute(p: Schedule, state: Seq<nat>) -> Seq<nat> {
    rounds(p, p.constants.len(), state)
}

/// Absorbs inputs two at a time, with a permutation after each pair and after a
/// last single input.
pub open spec fn absorb(p: Schedule, state: Seq<nat>, inputs: Seq<nat>) -> Seq<nat>
    decreases inputs.len(),
{
    if inputs.len() == 0 {
        state
    } else if inputs.len() == 1 {
        permute(p, seq![field::fadd(state[0], inputs[0]), state[1], state[2]])
    } else {
        absorb(
            p,
            permute(
                p,
                seq![
                    field::fadd(state[0], inputs[0]),
                    field::fadd(state[1], inputs[1]),
                    state[2],
                ],
            ),
            inputs.skip(2),
        )
    }
}

/// The sponge: the first element after absorbing everything into zeros.
pub open spec fn sponge(p: Schedule, inputs: Seq<nat>) -> nat {
    absorb(p, seq![0nat, 0nat, 0nat], inputs)[0]
}

/// The digest chain that round constants are read from: the digest of the
/// seed, then the digest of the digest, and so on.
pub open spec fn chain(seed: Seq<u8>, k: nat) -> Seq<u8>
    decreases k,
{
    if k == 0 {
        digest::sha256(seed)
    } else {
        digest::sha256(chain(seed, (k - 1) as nat))
    }
}

/// The constant with a number, counted over all rounds.
pub open spec fn chain_constant(seed: Seq<u8>, k: nat) -> nat {
    field::be_value(chain(seed, k + 1)) % field::modulus()
}

/// The constants of a number of rounds, three each.
pub open spec fn round_constants(seed: Seq<u8>, count: nat) -> Seq<Seq<nat>> {
    Seq::new(
        count,
        |r: int| Seq::new(3, |j: int| chain_constant(seed, (3 * r + j) as nat)),
    )
}

/// The seed that round constants are derived from.
pub const SEED: &'static str = "PoseidonBN254Constants";

/// A mixing matrix whose rows are rotations of one row.
pub open spec fn circulant() -> Seq<Seq<nat>> {
    seq![seq![2nat, 3nat, 1nat], seq![1nat, 2nat, 3nat], seq![3nat, 1nat, 2nat]]
}

/// A mixing matrix that is its own transpose.
pub open spec fn symmetric() -> Seq<Seq<nat>> {
    seq![seq![2nat, 3nat, 1nat], seq![3nat, 1nat, 2nat], seq![1nat, 2nat, 3nat]]
}

/// The schedule with 56 partial rounds and the circulant matrix.
pub open spec fn standard() -> Schedule {
    Schedule { constants: round_constants(encode_utf8(SEED@), 64), mds: circulant() }
}

/// What a permuted state holds is reduced.
pub proof fn lemma_permute_reduced(p: Schedule, state: Seq<nat>, i: int)
    requires
        p.constants.len() > 0,
        0 <= i < 3,
    ensures
        permute(p, state)[i] < field::modulus(),
{
}

proof fn lemma_absorb_reduced(p: Schedule, state: Seq<nat>, inputs: Seq<nat>)
    requires
        p.constants.len() > 0,
        state[0] < field::modulus(),
    ensures
        absorb(p, state, inputs)[0] < field::modulus(),
    decreases inputs.len(),
{
    if inputs.len() == 1 {
        lemma_permute_reduced(p, seq![field::fadd(state[0], inputs[0]), state[1], state[2]], 0);
    } else if inputs.len() > 1 {
        let absorbed = seq![
            field::fadd(state[0], inputs[0]),
            field::fadd(state[1], inputs[1]),
            state[2],
        ];
        lemma_permute_reduced(p, absorbed, 0);
        lemma_absorb_reduced(p, permute(p, absorbed), inputs.skip(2));
    }
}

/// A hash is a field element.
pub proof fn lemma_sponge_reduced(p: Schedule, inputs: Seq<nat>)
    requires
        p.constants.len() > 0,
    ensures
        sponge(p, inputs) < field::modulus(),
{
    lemma_absorb_reduced(p, seq![0nat, 0nat, 0nat], inputs);
}

/// The next three constants of a digest chain.
pub(crate) fn next_constants(Ghost(seed): Ghost<Seq<u8>>, link: Vec<u8>, Ghost(k): Ghost<nat>) -> (r:
    ([Fr; 3], Vec<u8>))
    requires
        link@ == chain(seed, k),
    ensures
        r.0@[0]@ == chain_constant(seed, k),
        r.0@[1]@ == chain_constant(seed, k + 1),
        r.0@[2]@ == chain_constant(seed, k + 2),
        r.1@ == chain(seed, k + 3),
{
    let first = digest::digest_bytes(link.as_slice());
    let second = digest::digest_bytes(first.as_slice());
    let third = digest::digest_bytes(second.as_slice());
    let row = [
        Fr::from_be_bytes_mod_order(first.as_slice()),
        Fr::from_be_bytes_mod_order(second.as_slice()),
        Fr::from_be_bytes_mod_order(third.as_slice()),
    ];
    (row, third)
}

/// The fifth power is the product of the element and its square's square.
pub proof fn lemma_fifth(x: nat)
    ensures
        fifth(x) == field::fmul(x, field::fmul(field::fmul(x, x), field::fmul(x, x))),
        fifth(x) < field::modulus(),
{
    let p = field::modulus() as int;
    let x2 = x * x;
    let x4 = x2 * x2;
    lemma_mul_mod_noop(x2 as int, x2 as int, p);
    lemma_mul_mod_noop_right(x as int, x4 as int, p);
    assert(pow(x as int, 5) == x * x4) by {
        reveal_with_fuel(pow, 6);
        assert(x * (x * (x * (x * (x * 1)))) == x * ((x * x) * (x * x))) by (nonlinear_arith);
    }
    lemma_mod_bound(pow(x as int, 5), p);
}

/// The S-box on a field element.
pub(crate) fn fifth_power(x: &Fr) -> (r: Fr)
    ensures
        r@ == fifth(x@),
{
    broadcast use field::lemma_fr_bound;

    let x2 = x.square();
    let x4 = x2.square();
    proof {
        lemma_fifth(x@);
    }
    x.times(x4)
}

/// Partial sums of a row modulo the field's order come to the row's value.
pub proof fn lemma_dot(row: Seq<nat>, state: Seq<nat>)
    ensures
        dot(row, state) == field::fadd(
            field::fadd(
                field::fadd(0, field::fmul(row[0], state[0])),
                field::fmul(row[1], state[1]),
            ),
            field::fmul(row[2], state[2]),
        ),
{
    let p = field::modulus() as int;
    let a = row[0] * state[0];
    let b = row[1] * state[1];
    let c = row[2] * state[2];
    lemma_mod_twice(a as int, p);
    lemma_add_mod_noop(a as int, b as int, p);
    lemma_mod_twice((a + b) as int, p);
    lemma_add_mod_noop((a + b) as int, c as int, p);
    assert(a + b + c == (a + b) + c);
}

/// One entry of the mixed state.
pub(crate) fn mix_entry(m0: &Fr, m1: &Fr, m2: &Fr, state: &[Fr; 3]) -> (r: Fr)
    ensures
        r@ == dot(seq![m0@, m1@, m2@], field::values(state@)),
{
    let mut sum = Fr::zero();
    sum = sum.plus(m0.times(state[0]));
    sum = sum.plus(m1.times(state[1]));
    sum = sum.plus(m2.times(state[2]));
    proof {
        lemma_dot(seq![m0@, m1@, m2@], field::values(state@));
    }
    sum
}

/// Round constants and mixing matrix of a permutation of width three.
pub struct PoseidonParams {
    pub constants: Vec<Vec<Fr>>,
    pub mds: Vec<Vec<Fr>>,
}

/// Rows of field elements as rows of integers.
pub open spec fn row_values(rows: Seq<Vec<Fr>>) -> Seq<Seq<nat>> {
    Seq::new(rows.len(), |r: int| field::values(rows[r]@))
}

impl View for PoseidonParams {
    type V = Schedule;

    open spec fn view(&self) -> Schedule {
        Schedule { constants: row_values(self.constants@), mds: row_values(self.mds@) }
    }
}

impl PoseidonParams {
    /// Derives the constants of a number of rounds from a seed.
    pub(crate) fn derive(seed: &[u8], count: usize, mds: Vec<Vec<Fr>>) -> (r: PoseidonParams)
        ensures
            r@.constants == round_constants(seed@, count as nat),
            r.mds == mds,
    {
        let mut constants: Vec<Vec<Fr>> = Vec::new();
        let mut link = digest::digest_bytes(seed);
        for i in 0..count
            invariant
                link@ == chain(seed@, 3 * i as nat),
                row_values(constants@) == round_constants(seed@, i as nat),
        {
            let ghost before = constants@;
            let (row, next) = next_constants(Ghost(seed@), link, Ghost(3 * i as nat));
            link = next;
            let entries = vec![row[0], row[1], row[2]];
            constants.push(entries);
            proof {
                assert(field::values(entries@) =~= Seq::new(
                    3,
                    |j: int| chain_constant(seed@, (3 * i + j) as nat),
                ));
                assert(row_values(constants@) =~= row_values(before).push(
                    field::values(entries@),
                ));
                assert(round_constants(seed@, (i + 1) as nat) =~= round_constants(
                    seed@,
                    i as nat,
                ).push(field::values(entries@)));
            }
        }
        PoseidonParams { constants, mds }
    }

    /// The parameters with 56 partial rounds and the circulant matrix.
    pub fn standard() -> (r: PoseidonParams)
        ensures
            r@ == standard(),
            well_formed(r@),
    {
        let row0 = vec![Fr::from_u64(2), Fr::from_u64(3), Fr::from_u64(1)];
        let row1 = vec![Fr::from_u64(1), Fr::from_u64(2), Fr::from_u64(3)];
        let row2 = vec![Fr::from_u64(3), Fr::from_u64(1), Fr::from_u64(2)];
        let mds = vec![row0, row1, row2];
        proof {
            assert(field::values(row0@) =~= seq![2nat, 3nat, 1nat]);
            assert(field::values(row1@) =~= seq![1nat, 2nat, 3nat]);
            assert(field::values(row2@) =~= seq![3nat, 1nat, 2nat]);
            assert(row_values(mds@) =~= circulant());
        }
        PoseidonParams::derive(SEED.as_bytes(), 64, mds)
    }

    /// The state with the constants of a round added.
    fn with_constants(&self, state: &[Fr; 3], r: usize) -> (s: [Fr; 3])
        requires
            well_formed(self@),
            r < self.constants@.len(),
        ensures
            field::values(s@) == add_constants(field::values(state@), self@.constants[r as int]),
    {
        let constants = &self.constants[r];
        assert(self@.constants[r as int] == field::values(constants@));
        let s = [
            state[0].plus(constants[0]),
            state[1].plus(constants[1]),
            state[2].plus(constants[2]),
        ];
        assert(field::values(s@) =~= add_constants(
            field::values(state@),
            self@.constants[r as int],
        ));
        s
    }

    /// The mixed state.
    fn mixed(&self, state: &[Fr; 3]) -> (s: [Fr; 3])
        requires
            well_formed(self@),
        ensures
            field::values(s@) == mix(self@.mds, field::values(state@)),
    {
        assert(self.mds@.len() == 3);
        let row0 = &self.mds[0];
        let row1 = &self.mds[1];
        let row2 = &self.mds[2];
        assert(self@.mds[0] == field::values(row0@));
        assert(self@.mds[1] == field::values(row1@));
        assert(self@.mds[2] == field::values(row2@));
        let s = [
            mix_entry(&row0[0], &row0[1], &row0[2], state),
            mix_entry(&row1[0], &row1[1], &row1[2], state),
            mix_entry(&row2[0], &row2[1], &row2[2], state),
        ];
        proof {
            assert(field::values(row0@) =~= seq![row0@[0]@, row0@[1]@, row0@[2]@]);
            assert(field::values(row1@) =~= seq![row1@[0]@, row1@[1]@, row1@[2]@]);
            assert(field::values(row2@) =~= seq![row2@[0]@, row2@[1]@, row2@[2]@]);
            assert(field::values(s@) =~= mix(self@.mds, field::values(state@)));
        }
        s
    }

    /// A round with the S-box on every element.
    pub(crate) fn full_round(&self, state: &mut [Fr; 3], r: usize)
        requires
            well_formed(self@),
            r < self.constants@.len(),
        ensures
            field::values(final(state)@) == full_step(self@, r as int, field::values(old(state)@)),
    {
        let shifted = self.with_constants(state, r);
        let boxed = [
            fifth_power(&shifted[0]),
            fifth_power(&shifted[1]),
            fifth_power(&shifted[2]),
        ];
        assert(field::values(boxed@) =~= sbox_all(field::values(shifted@)));
        *state = self.mixed(&boxed);
    }

    /// A round with the S-box on the first element only.
    pub(crate) fn partial_round(&self, state: &mut [Fr; 3], r: usize)
        requires
            well_formed(self@),
            r < self.constants@.len(),
        ensures
            field::values(final(state)@) == partial_step(
                self@,
                r as int,
                field::values(old(state)@),
            ),
    {
        let shifted = self.with_constants(state, r);
        let boxed = [fifth_power(&shifted[0]), shifted[1], shifted[2]];
        assert(field::values(boxed@) =~= sbox_first(field::values(shifted@)));
        *state = self.mixed(&boxed);
    }

    /// The permutation.
    pub fn permutation(&self, state: &mut [Fr; 3])
        requires
            well_formed(self@),
        ensures
            field::values(final(state)@) == permute(self@, field::values(old(state)@)),
    {
        let count = self.constants.len();
        for r in 0..count
            invariant
                well_formed(self@),
                count == self.constants@.len(),
                field::values(state@) == rounds(self@, r as nat, field::values(old(state)@)),
        {
            if r < FULL_ROUNDS / 2 || r >= count - FULL_ROUNDS / 2 {
                self.full_round(state, r);
            } else {
                self.partial_round(state, r);
            }
        }
    }

    /// The sponge over any number of inputs.
    pub fn sponge_hash(&self, inputs: &[Fr]) -> (r: Fr)
        requires
            well_formed(self@),
        ensures
            r@ == sponge(self@, field::values(inputs@)),
    {
        let mut state = [Fr::zero(), Fr::zero(), Fr::zero()];
        let mut i: usize = 0;
        let ghost all = field::values(inputs@);
        proof {
            assert(field::values(state@) =~= seq![0nat, 0nat, 0nat]);
            assert(all.skip(0) =~= all);
        }
        while i < inputs.len()
            invariant
                well_formed(self@),
                all == field::values(inputs@),
                0 <= i <= inputs@.len(),
                absorb(self@, field::values(state@), all.skip(i as int)) == absorb(
                    self@,
                    seq![0nat, 0nat, 0nat],
                    all,
                ),
            decreases inputs@.len() - i,
        {
            let ghost before = field::values(state@);
            let ghost rest = all.skip(i as int);
            state[0] = state[0].plus(inputs[i]);
            i += 1;
            if i < inputs.len() {
                state[1] = state[1].plus(inputs[i]);
                i += 1;
                assert(field::values(state@) =~= seq![
                    field::fadd(before[0], rest[0]),
                    field::fadd(before[1], rest[1]),
                    before[2],
                ]);
                assert(rest.skip(2) =~= all.skip(i as int));
            } else {
                assert(field::values(state@) =~= seq![
                    field::fadd(before[0], rest[0]),
                    before[1],
                    before[2],
                ]);
            }
            self.permutation(&mut state);
        }
        assert(all.skip(i as int).len() == 0);
        state[0]
    }
}

/// What a round does to each element: the round's constant is added, the fifth
/// power is taken in the first four and the last four rounds of every element and
/// in the others of the first one, and the result is the product with a row of the
/// matrix. The permutation is all rounds in turn.
pub proof fn lemma_round(p: Schedule, r: nat, state: Seq<nat>, i: int)
    requires
        well_formed(p),
        r < p.constants.len(),
        0 <= i < 3,
        state.len() == 3,
    ensures
        ({
            let m = field::modulus();
            let before = rounds(p, r, state);
            let entry = |j: int|
                {
                    let x = (before[j] + p.constants[r as int][j]) % m;
                    if r < 4 || r + 4 >= p.constants.len() || j == 0 {
                        (pow(x as int, 5) % m as int) as nat
                    } else {
                        x
                    }
                };
            &&& rounds(p, 0, state) == state
            &&& rounds(p, r + 1, state).len() == 3
            &&& rounds(p, r + 1, state)[i] == (p.mds[i][0] * entry(0) + p.mds[i][1] * entry(1)
                + p.mds[i][2] * entry(2)) % m
            &&& permute(p, state) == rounds(p, p.constants.len(), state)
        }),
{
}

/// Absorbing inputs in two parts, of which the first has whole pairs, is absorbing
/// them at once.
pub proof fn lemma_absorb_in_turn(p: Schedule, state: Seq<nat>, first: Seq<nat>, rest: Seq<nat>)
    requires
        first.len() % 2 == 0,
    ensures
        absorb(p, state, first + rest) == absorb(p, absorb(p, state, first), rest),
    decreases first.len(),
{
    if first.len() == 0 {
        assert(first + rest =~= rest);
    } else {
        let taken = seq![
            field::fadd(state[0], first[0]),
            field::fadd(state[1], first[1]),
            state[2],
        ];
        let all = first + rest;
        assert(all.skip(2) =~= first.skip(2) + rest);
        assert(all[0] == first[0] && all[1] == first[1]);
        lemma_absorb_in_turn(p, permute(p, taken), first.skip(2), rest);
    }
}

/// A pair, or a last single input, is added to the state before a permutation, and
/// nothing at all changes nothing. A hash is the first element after absorbing into
/// zeros.
pub proof fn lemma_absorb_block(p: Schedule, state: Seq<nat>, a: nat, b: nat, inputs: Seq<nat>)
    ensures
        absorb(p, state, Seq::empty()) == state,
        absorb(p, state, seq![a]) == permute(
            p,
            seq![(state[0] + a) % field::modulus(), state[1], state[2]],
        ),
        absorb(p, state, seq![a, b]) == permute(
            p,
            seq![(state[0] + a) % field::modulus(), (state[1] + b) % field::modulus(), state[2]],
        ),
        sponge(p, inputs) == absorb(p, seq![0nat, 0nat, 0nat], inputs)[0],
{
    let taken = seq![field::fadd(state[0], a), field::fadd(state[1], b), state[2]];
    let rest = seq![a, b].skip(2);
    assert(rest.len() == 0);
    assert(absorb(p, permute(p, taken), rest) == permute(p, taken));
}

/// Where round constants come from: digests in a chain that begins with that of
/// the seed, each of them reduced, three to a round.
pub proof fn lemma_constants(seed: Seq<u8>, count: nat) -> (links: Seq<Seq<u8>>)
    ensures
        links.len() == 3 * count + 1,
        links[0] == digest::sha256(seed),
        forall|k: int|
            0 <= k < 3 * count ==> #[trigger] links[k + 1] == digest::sha256(links[k]),
        round_constants(seed, count).len() == count,
        forall|r: int, j: int|
            0 <= r < count && 0 <= j < 3 ==> #[trigger] round_constants(seed, count)[r][j]
                == field::be_value(links[3 * r + j + 1]) % field::modulus(),
{
    Seq::new(3 * count + 1, |k: int| chain(seed, k as nat))
}

/// The schedule of 64 rounds and small entries.
pub proof fn lemma_standard()
    ensures
        standard().constants == round_constants(encode_utf8("PoseidonBN254Constants"@), 64),
        standard().mds == seq![
            seq![2nat, 3nat, 1nat],
            seq![1nat, 2nat, 3nat],
            seq![3nat, 1nat, 2nat],
        ],
{
}

} // verus!
