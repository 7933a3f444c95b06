//! The Poseidon hash with domain separation, and a step-by-step account of how a
//! hash comes about.
use crate::bijection;
use crate::digest;
use crate::field;
use crate::field::Fr;
use crate::hashing;
use crate::permutation;
use crate::text;
use vstd::arithmetic::div_mod::*;
use vstd::arithmetic::power::*;
use vstd::prelude::*;
use vstd::utf8::*;

pub use crate::hashing::{ATTRIBUTE_HASH_DOMAIN, BLINDING_DERIVATION, COMMITMENT_DOMAIN};

verus! {

/// The text that every digest begins with.
pub const DOMAIN_SEP: &'static str = "DataIntegrityGroth16Proof2026::v1.0::";

/// The tag of proofs.
pub const PROOF_DOMAIN: &'static str = "ProofDomain";

/// The number of full rounds, half of them first and half last.
pub const FULL_ROUNDS: usize = 8;

/// The number of partial rounds.
pub const PARTIAL_ROUNDS: usize = 56;

/// The number of rounds.
pub const TOTAL_ROUNDS: usize = 64;

/// The number of elements of the state.
pub const STATE_WIDTH: usize = 3;

/// The number of elements that a permutation absorbs.
pub const RATE: usize = 2;

/// The number of elements that inputs are never added to.
pub const CAPACITY: usize = 1;

/// The exponent of the S-box.
pub const ALPHA: u64 = 5;

/// The security level in bits.
pub const SECURITY_LEVEL: usize = 128;

/// The mixing matrix: symmetric, with small entries, and every square part of it
/// invertible.
pub const MDS_MATRIX: [[u64; 3]; 3] = [[2, 3, 1], [3, 1, 2], [1, 2, 3]];

/// Round constants and mixing matrix.
pub struct PoseidonParams {
    pub round_constants: Vec<[Fr; 3]>,
    pub mds_matrix: [[Fr; 3]; 3],
}

/// Rows of three field elements as rows of integers.
pub open spec fn rows(s: Seq<[Fr; 3]>) -> Seq<Seq<nat>> {
    Seq::new(s.len(), |r: int| field::values(s[r]@))
}

impl View for PoseidonParams {
    type V = permutation::Schedule;

    open spec fn view(&self) -> permutation::Schedule {
        permutation::Schedule {
            constants: rows(self.round_constants@),
            mds: rows(self.mds_matrix@),
        }
    }
}

/// The determinant of a three by three matrix.
pub open spec fn determinant(m: Seq<Seq<nat>>) -> int {
    m[0][0] * (m[1][1] * m[2][2] - m[1][2] * m[2][1]) - m[0][1] * (m[1][0] * m[2][2] - m[1][2]
        * m[2][0]) + m[0][2] * (m[1][0] * m[2][1] - m[1][1] * m[2][0])
}

/// A two by two determinant in the field.
fn minor(a: Fr, b: Fr, c: Fr, d: Fr) -> (r: Fr)
    ensures
        r@ == field::reduced(a@ * d@ - b@ * c@),
{
    broadcast use field::lemma_fr_bound;

    proof {
        lemma_small_mod(a@, field::modulus());
        lemma_small_mod(b@, field::modulus());
        lemma_small_mod(c@, field::modulus());
        lemma_small_mod(d@, field::modulus());
        field::lemma_reduced(a@ as int, d@ as int);
        field::lemma_reduced(b@ as int, c@ as int);
        field::lemma_reduced((a@ * d@) as int, (b@ * c@) as int);
    }
    a.times(d).minus(b.times(c))
}

impl PoseidonParams {
    /// Derives the round constants from a seed.
    pub fn new(seed: &[u8]) -> (r: PoseidonParams)
        ensures
            r@.constants == permutation::round_constants(seed@, 64),
            r@.mds == permutation::symmetric(),
    {
        let mut round_constants: Vec<[Fr; 3]> = Vec::new();
        let mut link = digest::digest_bytes(seed);
        for i in 0..TOTAL_ROUNDS
            invariant
                link@ == permutation::chain(seed@, 3 * i as nat),
                rows(round_constants@) == permutation::round_constants(seed@, i as nat),
        {
            let ghost before = round_constants@;
            let (row, next) = permutation::next_constants(
                Ghost(seed@),
                link,
                Ghost(3 * i as nat),
            );
            link = next;
            round_constants.push(row);
            proof {
                assert(field::values(row@) =~= Seq::new(
                    3,
                    |j: int| permutation::chain_constant(seed@, (3 * i + j) as nat),
                ));
                assert(rows(round_constants@) =~= rows(before).push(field::values(row@)));
                assert(permutation::round_constants(seed@, (i + 1) as nat)
                    =~= permutation::round_constants(seed@, i as nat).push(field::values(row@)));
            }
        }
        let row0 = [
            Fr::from_u64(MDS_MATRIX[0][0]),
            Fr::from_u64(MDS_MATRIX[0][1]),
            Fr::from_u64(MDS_MATRIX[0][2]),
        ];
        let row1 = [
            Fr::from_u64(MDS_MATRIX[1][0]),
            Fr::from_u64(MDS_MATRIX[1][1]),
            Fr::from_u64(MDS_MATRIX[1][2]),
        ];
        let row2 = [
            Fr::from_u64(MDS_MATRIX[2][0]),
            Fr::from_u64(MDS_MATRIX[2][1]),
            Fr::from_u64(MDS_MATRIX[2][2]),
        ];
        let mds_matrix = [row0, row1, row2];
        proof {
            assert(field::values(row0@) =~= seq![2nat, 3nat, 1nat]);
            assert(field::values(row1@) =~= seq![3nat, 1nat, 2nat]);
            assert(field::values(row2@) =~= seq![1nat, 2nat, 3nat]);
            assert(rows(mds_matrix@) =~= permutation::symmetric());
        }
        PoseidonParams { round_constants, mds_matrix }
    }

    /// Whether the mixing matrix is invertible.
    pub fn verify_mds_properties(&self) -> (r: bool)
        ensures
            r == (determinant(self@.mds) % field::modulus() as int != 0),
    {
        broadcast use field::lemma_fr_bound;

        let m = &self.mds_matrix;
        let a = minor(m[1][1], m[1][2], m[2][1], m[2][2]);
        let b = minor(m[1][0], m[1][2], m[2][0], m[2][2]);
        let c = minor(m[1][0], m[1][1], m[2][0], m[2][1]);
        proof {
            let s = self@.mds;
            let x = s[1][1] * s[2][2] - s[1][2] * s[2][1];
            let y = s[1][0] * s[2][2] - s[1][2] * s[2][0];
            let z = s[1][0] * s[2][1] - s[1][1] * s[2][0];
            lemma_small_mod(s[0][0], field::modulus());
            lemma_small_mod(s[0][1], field::modulus());
            lemma_small_mod(s[0][2], field::modulus());
            field::lemma_reduced(s[0][0] as int, x);
            field::lemma_reduced(s[0][1] as int, y);
            field::lemma_reduced(s[0][2] as int, z);
            field::lemma_reduced(s[0][0] * x, s[0][1] * y);
            field::lemma_reduced(s[0][0] * x - s[0][1] * y, s[0][2] * z);
        }
        let det = m[0][0].times(a).minus(m[0][1].times(b)).plus(m[0][2].times(c));
        !det.is_zero()
    }

    /// Whether no round has three zeros for constants.
    pub fn verify_constants(&self) -> (r: bool)
        ensures
            r == forall|i: int|
                0 <= i < self@.constants.len() ==> (#[trigger] self@.constants[i]) != seq![
                    0nat,
                    0nat,
                    0nat,
                ],
    {
        for i in 0..self.round_constants.len()
            invariant
                forall|j: int|
                    0 <= j < i ==> (#[trigger] self@.constants[j]) != seq![0nat, 0nat, 0nat],
        {
            let round = &self.round_constants[i];
            assert(self@.constants[i as int] == field::values(round@));
            if round[0].is_zero() && round[1].is_zero() && round[2].is_zero() {
                assert(self@.constants[i as int] =~= seq![0nat, 0nat, 0nat]);
                return false;
            }
            assert(self@.constants[i as int][0] != 0 || self@.constants[i as int][1] != 0
                || self@.constants[i as int][2] != 0);
        }
        true
    }
}

/// The schedule of the hash.
pub open spec fn schedule() -> permutation::Schedule {
    permutation::Schedule {
        constants: permutation::round_constants(encode_utf8(permutation::SEED@), 64),
        mds: permutation::symmetric(),
    }
}

/// The parameters of the hash.
pub fn get_params() -> (r: PoseidonParams)
    ensures
        r@ == schedule(),
        r.round_constants@.len() == 64,
{
    let r = PoseidonParams::new(permutation::SEED.as_bytes());
    assert(r@.constants.len() == 64);
    r
}

/// The S-box: the fifth power.
pub fn sbox(x: &Fr) -> (r: Fr)
    ensures
        r@ == permutation::fifth(x@),
{
    permutation::fifth_power(x)
}

/// The inverse of the S-box: the element whose fifth power is given.
pub fn inverse_sbox(x: &Fr) -> (r: Fr)
    ensures
        r@ == bijection::fifth_root(x@),
        permutation::fifth(r@) == x@,
{
    broadcast use field::lemma_fr_bound;

    proof {
        bijection::lemma_fifth_root(x@);
    }
    x.pow(
        [
            14981214993055009997,
            6006880321387387405,
            10624953561019755799,
            2789598613442376532,
        ],
    )
}

/// The state with the constants of a round added.
fn shifted(state: &[Fr; 3], round_idx: usize, params: &PoseidonParams) -> (s: [Fr; 3])
    requires
        round_idx < params.round_constants@.len(),
    ensures
        field::values(s@) == permutation::add_constants(
            field::values(state@),
            params@.constants[round_idx as int],
        ),
{
    let rc = &params.round_constants[round_idx];
    assert(params@.constants[round_idx as int] == field::values(rc@));
    let s = [state[0].plus(rc[0]), state[1].plus(rc[1]), state[2].plus(rc[2])];
    assert(field::values(s@) =~= permutation::add_constants(
        field::values(state@),
        params@.constants[round_idx as int],
    ));
    s
}

/// The S-box on every element.
fn boxed(state: &[Fr; 3]) -> (s: [Fr; 3])
    ensures
        field::values(s@) == permutation::sbox_all(field::values(state@)),
{
    let s = [sbox(&state[0]), sbox(&state[1]), sbox(&state[2])];
    assert(field::values(s@) =~= permutation::sbox_all(field::values(state@)));
    s
}

/// The S-box on the first element.
fn boxed_first(state: &[Fr; 3]) -> (s: [Fr; 3])
    ensures
        field::values(s@) == permutation::sbox_first(field::values(state@)),
{
    let s = [sbox(&state[0]), state[1], state[2]];
    assert(field::values(s@) =~= permutation::sbox_first(field::values(state@)));
    s
}

/// The mixed state.
fn mixed(state: &[Fr; 3], params: &PoseidonParams) -> (s: [Fr; 3])
    ensures
        field::values(s@) == permutation::mix(params@.mds, field::values(state@)),
{
    let m = &params.mds_matrix;
    let row0 = &m[0];
    let row1 = &m[1];
    let row2 = &m[2];
    let s = [
        permutation::mix_entry(&row0[0], &row0[1], &row0[2], state),
        permutation::mix_entry(&row1[0], &row1[1], &row1[2], state),
        permutation::mix_entry(&row2[0], &row2[1], &row2[2], state),
    ];
    proof {
        assert(params@.mds[0] =~= seq![row0@[0]@, row0@[1]@, row0@[2]@]);
        assert(params@.mds[1] =~= seq![row1@[0]@, row1@[1]@, row1@[2]@]);
        assert(params@.mds[2] =~= seq![row2@[0]@, row2@[1]@, row2@[2]@]);
        assert(field::values(s@) =~= permutation::mix(params@.mds, field::values(state@)));
    }
    s
}

/// A round with the S-box on every element.
pub fn full_round(state: &mut [Fr; 3], round_idx: usize, params: &PoseidonParams)
    requires
        round_idx < params.round_constants@.len(),
    ensures
        field::values(final(state)@) == permutation::full_step(
            params@,
            round_idx as int,
            field::values(old(state)@),
        ),
{
    let after_sbox = boxed(&shifted(state, round_idx, params));
    *state = mixed(&after_sbox, params);
}

/// A round with the S-box on the first element only.
pub fn partial_round(state: &mut [Fr; 3], round_idx: usize, params: &PoseidonParams)
    requires
        round_idx < params.round_constants@.len(),
    ensures
        field::values(final(state)@) == permutation::partial_step(
            params@,
            round_idx as int,
            field::values(old(state)@),
        ),
{
    let after_sbox = boxed_first(&shifted(state, round_idx, params));
    *state = mixed(&after_sbox, params);
}

/// Permutes a state with parameters at hand.
fn permute_with(state: &mut [Fr; 3], params: &PoseidonParams)
    requires
        params.round_constants@.len() == 64,
    ensures
        field::values(final(state)@) == permutation::permute(params@, field::values(old(state)@)),
{
    let ghost first = field::values(state@);
    for i in 0..FULL_ROUNDS / 2
        invariant
            params.round_constants@.len() == 64,
            field::values(state@) == permutation::rounds(params@, i as nat, first),
    {
        full_round(state, i, params);
    }
    for i in 0..PARTIAL_ROUNDS
        invariant
            params.round_constants@.len() == 64,
            field::values(state@) == permutation::rounds(params@, (4 + i) as nat, first),
    {
        partial_round(state, FULL_ROUNDS / 2 + i, params);
    }
    for i in 0..FULL_ROUNDS / 2
        invariant
            params.round_constants@.len() == 64,
            field::values(state@) == permutation::rounds(params@, (60 + i) as nat, first),
    {
        full_round(state, FULL_ROUNDS / 2 + PARTIAL_ROUNDS + i, params);
    }
}

/// The permutation: four full rounds, 56 partial ones and four full ones.
pub fn poseidon_permutation(state: &mut [Fr; 3])
    ensures
        field::values(final(state)@) == permutation::permute(
            schedule(),
            field::values(old(state)@),
        ),
{
    permute_with(state, &get_params());
}

/// The sponge over any number of inputs.
pub fn poseidon_sponge_hash(inputs: &[Fr]) -> (r: Fr)
    ensures
        r@ == permutation::sponge(schedule(), field::values(inputs@)),
{
    let params = get_params();
    let mut state = [Fr::zero(), Fr::zero(), Fr::zero()];
    let mut i: usize = 0;
    let ghost all = field::values(inputs@);
    proof {
        assert(field::values(state@) =~= seq![0nat, 0nat, 0nat]);
        assert(all.skip(0) =~= all);
    }
    while i < inputs.len()
        invariant
            params@ == schedule(),
            params.round_constants@.len() == 64,
            all == field::values(inputs@),
            0 <= i <= inputs@.len(),
            permutation::absorb(schedule(), field::values(state@), all.skip(i as int))
                == permutation::absorb(schedule(), seq![0nat, 0nat, 0nat], all),
        decreases inputs@.len() - i,
    {
        let next = take_in(&mut state, inputs, i);
        permute_with(&mut state, &params);
        i = next;
    }
    assert(all.skip(i as int).len() == 0);
    state[0]
}

/// The state that the next permutation starts from: one or two inputs added.
pub open spec fn taken_in(state: Seq<nat>, rest: Seq<nat>) -> Seq<nat> {
    if rest.len() >= 2 {
        seq![field::fadd(state[0], rest[0]), field::fadd(state[1], rest[1]), state[2]]
    } else {
        seq![field::fadd(state[0], rest[0]), state[1], state[2]]
    }
}

/// Adds the next one or two inputs to the state, and gives the place after them.
fn take_in(state: &mut [Fr; 3], inputs: &[Fr], from: usize) -> (next: usize)
    requires
        from < inputs@.len(),
    ensures
        field::values(final(state)@) == taken_in(
            field::values(old(state)@),
            field::values(inputs@).skip(from as int),
        ),
        from < next <= inputs@.len(),
        inputs@.len() - from == 1 ==> next == inputs@.len(),
        inputs@.len() - from >= 2 ==> next == from + 2,
        field::values(inputs@).skip(next as int) == field::values(inputs@).skip(from as int).skip(
            if inputs@.len() - from >= 2 {
                2
            } else {
                1
            },
        ),
{
    let ghost before = field::values(state@);
    let ghost rest = field::values(inputs@).skip(from as int);
    let mut i = from;
    state[0] = state[0].plus(inputs[i]);
    i += 1;
    if i < inputs.len() {
        state[1] = state[1].plus(inputs[i]);
        i += 1;
    }
    proof {
        assert(field::values(state@) =~= taken_in(before, rest));
        assert(field::values(inputs@).skip(i as int) =~= rest.skip(i - from));
    }
    i
}

/// Which elements the S-box of a round is applied to.
#[derive(Debug, Clone, PartialEq)]
pub enum RoundType {
    /// All three elements.
    Full,
    /// The first element only.
    Partial,
}

/// The states of one round.
#[derive(Debug, Clone)]
pub struct RoundSnapshot {
    pub round_number: usize,
    pub round_type: RoundType,
    pub before_constants: [Fr; 3],
    pub after_constants: [Fr; 3],
    pub after_sbox: [Fr; 3],
    pub after_matrix: [Fr; 3],
}

/// The rounds of a hash, with the state before and after the last permutation.
#[derive(Debug, Clone)]
pub struct RoundTrace {
    pub initial_state: [Fr; 3],
    pub rounds: Vec<RoundSnapshot>,
    pub final_state: [Fr; 3],
}

/// The states of one round as integers.
pub struct Snapshot {
    pub number: nat,
    pub full: bool,
    pub before: Seq<nat>,
    pub shifted: Seq<nat>,
    pub boxed: Seq<nat>,
    pub mixed: Seq<nat>,
}

impl View for RoundSnapshot {
    type V = Snapshot;

    open spec fn view(&self) -> Snapshot {
        Snapshot {
            number: self.round_number as nat,
            full: self.round_type is Full,
            before: field::values(self.before_constants@),
            shifted: field::values(self.after_constants@),
            boxed: field::values(self.after_sbox@),
            mixed: field::values(self.after_matrix@),
        }
    }
}

/// Recorded rounds as integers.
pub open spec fn snapshots(s: Seq<RoundSnapshot>) -> Seq<Snapshot> {
    Seq::new(s.len(), |i: int| s[i]@)
}

/// The record of a round, full or partial, on a state.
pub open spec fn recorded_round(
    p: permutation::Schedule,
    r: int,
    full: bool,
    state: Seq<nat>,
) -> Snapshot {
    let shifted = permutation::add_constants(state, p.constants[r]);
    let boxed = if full {
        permutation::sbox_all(shifted)
    } else {
        permutation::sbox_first(shifted)
    };
    Snapshot {
        number: r as nat,
        full,
        before: state,
        shifted,
        boxed,
        mixed: permutation::mix(p.mds, boxed),
    }
}

/// Puts a round behind the record.
fn record(trace: &mut RoundTrace, snapshot: RoundSnapshot)
    ensures
        final(trace).initial_state == old(trace).initial_state,
        final(trace).final_state == old(trace).final_state,
        snapshots(final(trace).rounds@) == snapshots(old(trace).rounds@).push(snapshot@),
{
    trace.rounds.push(snapshot);
    assert(snapshots(trace.rounds@) =~= snapshots(old(trace).rounds@).push(snapshot@));
}

/// A full round that is recorded.
pub fn full_round_traced(
    state: &mut [Fr; 3],
    round_idx: usize,
    params: &PoseidonParams,
    trace: &mut RoundTrace,
)
    requires
        round_idx < params.round_constants@.len(),
    ensures
        field::values(final(state)@) == permutation::full_step(
            params@,
            round_idx as int,
            field::values(old(state)@),
        ),
        final(trace).initial_state == old(trace).initial_state,
        final(trace).final_state == old(trace).final_state,
        snapshots(final(trace).rounds@) == snapshots(old(trace).rounds@).push(
            recorded_round(params@, round_idx as int, true, field::values(old(state)@)),
        ),
{
    let before_constants = *state;
    let after_constants = shifted(state, round_idx, params);
    let after_sbox = boxed(&after_constants);
    let after_matrix = mixed(&after_sbox, params);
    *state = after_matrix;
    record(
        trace,
        RoundSnapshot {
            round_number: round_idx,
            round_type: RoundType::Full,
            before_constants,
            after_constants,
            after_sbox,
            after_matrix,
        },
    );
}

/// A partial round that is recorded.
pub fn partial_round_traced(
    state: &mut [Fr; 3],
    round_idx: usize,
    params: &PoseidonParams,
    trace: &mut RoundTrace,
)
    requires
        round_idx < params.round_constants@.len(),
    ensures
        field::values(final(state)@) == permutation::partial_step(
            params@,
            round_idx as int,
            field::values(old(state)@),
        ),
        final(trace).initial_state == old(trace).initial_state,
        final(trace).final_state == old(trace).final_state,
        snapshots(final(trace).rounds@) == snapshots(old(trace).rounds@).push(
            recorded_round(params@, round_idx as int, false, field::values(old(state)@)),
        ),
{
    let before_constants = *state;
    let after_constants = shifted(state, round_idx, params);
    let after_sbox = boxed_first(&after_constants);
    let after_matrix = mixed(&after_sbox, params);
    *state = after_matrix;
    record(
        trace,
        RoundSnapshot {
            round_number: round_idx,
            round_type: RoundType::Partial,
            before_constants,
            after_constants,
            after_sbox,
            after_matrix,
        },
    );
}

/// The record of the first rounds of a permutation.
pub open spec fn recorded_rounds(
    p: permutation::Schedule,
    count: nat,
    state: Seq<nat>,
) -> Seq<Snapshot> {
    Seq::new(
        count,
        |r: int|
            recorded_round(
                p,
                r,
                permutation::is_full(p, r),
                permutation::rounds(p, r as nat, state),
            ),
    )
}

proof fn lemma_next_round(p: permutation::Schedule, count: nat, state: Seq<nat>)
    ensures
        recorded_rounds(p, count + 1, state) == recorded_rounds(p, count, state).push(
            recorded_round(
                p,
                count as int,
                permutation::is_full(p, count as int),
                permutation::rounds(p, count, state),
            ),
        ),
{
    assert(recorded_rounds(p, count + 1, state) =~= recorded_rounds(p, count, state).push(
        recorded_round(
            p,
            count as int,
            permutation::is_full(p, count as int),
            permutation::rounds(p, count, state),
        ),
    ));
}

/// Permutes a state with parameters at hand and records every round.
fn permute_traced(state: &mut [Fr; 3], params: &PoseidonParams, trace: &mut RoundTrace)
    requires
        params.round_constants@.len() == 64,
    ensures
        field::values(final(state)@) == permutation::permute(params@, field::values(old(state)@)),
        final(trace).initial_state == *old(state),
        final(trace).final_state == *final(state),
        snapshots(final(trace).rounds@) == snapshots(old(trace).rounds@) + recorded_rounds(
            params@,
            64,
            field::values(old(state)@),
        ),
{
    let ghost first = field::values(state@);
    let ghost earlier = snapshots(trace.rounds@);
    trace.initial_state = *state;
    assert(earlier + recorded_rounds(params@, 0, first) =~= earlier);
    for i in 0..FULL_ROUNDS / 2
        invariant
            params.round_constants@.len() == 64,
            field::values(state@) == permutation::rounds(params@, i as nat, first),
            trace.initial_state == *old(state),
            snapshots(trace.rounds@) == earlier + recorded_rounds(params@, i as nat, first),
    {
        full_round_traced(state, i, params, trace);
        proof {
            lemma_next_round(params@, i as nat, first);
            assert(snapshots(trace.rounds@) =~= earlier + recorded_rounds(
                params@,
                (i + 1) as nat,
                first,
            ));
        }
    }
    for i in 0..PARTIAL_ROUNDS
        invariant
            params.round_constants@.len() == 64,
            field::values(state@) == permutation::rounds(params@, (4 + i) as nat, first),
            trace.initial_state == *old(state),
            snapshots(trace.rounds@) == earlier + recorded_rounds(params@, (4 + i) as nat, first),
    {
        partial_round_traced(state, FULL_ROUNDS / 2 + i, params, trace);
        proof {
            lemma_next_round(params@, (4 + i) as nat, first);
            assert(snapshots(trace.rounds@) =~= earlier + recorded_rounds(
                params@,
                (5 + i) as nat,
                first,
            ));
        }
    }
    for i in 0..FULL_ROUNDS / 2
        invariant
            params.round_constants@.len() == 64,
            field::values(state@) == permutation::rounds(params@, (60 + i) as nat, first),
            trace.initial_state == *old(state),
            snapshots(trace.rounds@) == earlier + recorded_rounds(
                params@,
                (60 + i) as nat,
                first,
            ),
    {
        full_round_traced(state, FULL_ROUNDS / 2 + PARTIAL_ROUNDS + i, params, trace);
        proof {
            lemma_next_round(params@, (60 + i) as nat, first);
            assert(snapshots(trace.rounds@) =~= earlier + recorded_rounds(
                params@,
                (61 + i) as nat,
                first,
            ));
        }
    }
    trace.final_state = *state;
}

/// The permutation with every round recorded, and the state before and after.
pub fn poseidon_permutation_traced(state: &mut [Fr; 3], trace: &mut RoundTrace)
    ensures
        field::values(final(state)@) == permutation::permute(
            schedule(),
            field::values(old(state)@),
        ),
        final(trace).initial_state == *old(state),
        final(trace).final_state == *final(state),
        snapshots(final(trace).rounds@) == snapshots(old(trace).rounds@) + recorded_rounds(
            schedule(),
            64,
            field::values(old(state)@),
        ),
{
    permute_traced(state, &get_params(), trace);
}

/// The record of absorbing inputs: that of every permutation, in order.
pub open spec fn recorded_absorption(
    p: permutation::Schedule,
    state: Seq<nat>,
    inputs: Seq<nat>,
) -> Seq<Snapshot>
    decreases inputs.len(),
{
    if inputs.len() == 0 {
        Seq::empty()
    } else {
        let taken = taken_in(state, inputs);
        recorded_rounds(p, 64, taken) + recorded_absorption(
            p,
            permutation::permute(p, taken),
            inputs.skip(
                if inputs.len() >= 2 {
                    2
                } else {
                    1
                },
            ),
        )
    }
}

/// The state before the last permutation of absorbing inputs.
pub open spec fn last_taken_in(
    p: permutation::Schedule,
    state: Seq<nat>,
    inputs: Seq<nat>,
) -> Seq<nat>
    decreases inputs.len(),
{
    let taken = taken_in(state, inputs);
    if inputs.len() <= 2 {
        taken
    } else {
        last_taken_in(p, permutation::permute(p, taken), inputs.skip(2))
    }
}

/// The sponge with every round recorded.
pub fn poseidon_sponge_hash_traced(inputs: &[Fr], trace: &mut RoundTrace) -> (r: Fr)
    ensures
        r@ == permutation::sponge(schedule(), field::values(inputs@)),
        snapshots(final(trace).rounds@) == snapshots(old(trace).rounds@) + recorded_absorption(
            schedule(),
            seq![0nat, 0nat, 0nat],
            field::values(inputs@),
        ),
        inputs@.len() == 0 ==> final(trace).initial_state == old(trace).initial_state
            && final(trace).final_state == old(trace).final_state,
        inputs@.len() > 0 ==> field::values(final(trace).initial_state@) == last_taken_in(
            schedule(),
            seq![0nat, 0nat, 0nat],
            field::values(inputs@),
        ) && field::values(final(trace).final_state@) == permutation::absorb(
            schedule(),
            seq![0nat, 0nat, 0nat],
            field::values(inputs@),
        ),
{
    let params = get_params();
    let mut state = [Fr::zero(), Fr::zero(), Fr::zero()];
    let mut i: usize = 0;
    let ghost all = field::values(inputs@);
    let ghost zeros = seq![0nat, 0nat, 0nat];
    let ghost earlier = snapshots(trace.rounds@);
    proof {
        assert(field::values(state@) =~= zeros);
        assert(all.skip(0) =~= all);
    }
    while i < inputs.len()
        invariant
            params@ == schedule(),
            params.round_constants@.len() == 64,
            all == field::values(inputs@),
            0 <= i <= inputs@.len(),
            zeros == seq![0nat, 0nat, 0nat],
            permutation::absorb(schedule(), field::values(state@), all.skip(i as int))
                == permutation::absorb(schedule(), zeros, all),
            snapshots(trace.rounds@) + recorded_absorption(
                schedule(),
                field::values(state@),
                all.skip(i as int),
            ) == earlier + recorded_absorption(schedule(), zeros, all),
            i == 0 ==> trace.initial_state == old(trace).initial_state && trace.final_state
                == old(trace).final_state,
            i > 0 ==> trace.final_state == state,
            i < inputs@.len() ==> last_taken_in(
                schedule(),
                field::values(state@),
                all.skip(i as int),
            ) == last_taken_in(schedule(), zeros, all),
            0 < i && i == inputs@.len() ==> field::values(trace.initial_state@) == last_taken_in(
                schedule(),
                zeros,
                all,
            ),
        decreases inputs@.len() - i,
    {
        let ghost before = field::values(state@);
        let ghost rest = all.skip(i as int);
        let ghost done = snapshots(trace.rounds@);
        let next = take_in(&mut state, inputs, i);
        permute_traced(&mut state, &params, trace);
        proof {
            let more = recorded_rounds(schedule(), 64, taken_in(before, rest));
            let later = recorded_absorption(
                schedule(),
                field::values(state@),
                all.skip(next as int),
            );
            assert((done + more) + later =~= done + (more + later));
        }
        i = next;
    }
    proof {
        assert(all.skip(i as int).len() == 0);
        let none = recorded_absorption(schedule(), field::values(state@), all.skip(i as int));
        assert(snapshots(trace.rounds@) + none =~= snapshots(trace.rounds@));
    }
    state[0]
}

/// The field element of bytes.
pub open spec fn bytes_value(data: Seq<u8>) -> nat {
    hashing::tag_value(DOMAIN_SEP@, data)
}

/// Hashes bytes to a field element with SHA-256.
pub fn hash_to_field(data: &[u8]) -> (r: Fr)
    ensures
        r@ == bytes_value(data@),
{
    hashing::tag_element(DOMAIN_SEP, data)
}

/// The hash of field elements under a tag.
pub open spec fn hash_value(inputs: Seq<nat>, tag: Seq<u8>) -> nat {
    hashing::domain_hash(schedule(), bytes_value(tag), inputs)
}

/// Hashes field elements under a tag.
pub fn poseidon_hash(inputs: &[Fr], domain_tag: &[u8]) -> (r: Fr)
    ensures
        r@ == hash_value(field::values(inputs@), domain_tag@),
{
    let all = hashing::prepend(hash_to_field(domain_tag), inputs);
    poseidon_sponge_hash(all.as_slice())
}

/// Hashes field elements under a tag, with every round recorded.
pub fn poseidon_hash_traced(inputs: &[Fr], domain_tag: &[u8], trace: &mut RoundTrace) -> (r: Fr)
    ensures
        r@ == hash_value(field::values(inputs@), domain_tag@),
        snapshots(final(trace).rounds@) == snapshots(old(trace).rounds@) + recorded_hash(
            field::values(inputs@),
            domain_tag@,
        ),
        field::values(final(trace).initial_state@) == last_taken_in(
            schedule(),
            seq![0nat, 0nat, 0nat],
            seq![bytes_value(domain_tag@)] + field::values(inputs@),
        ),
        final(trace).final_state@[0]@ == r@,
        field::values(final(trace).final_state@) == permutation::absorb(
            schedule(),
            seq![0nat, 0nat, 0nat],
            seq![bytes_value(domain_tag@)] + field::values(inputs@),
        ),
{
    let all = hashing::prepend(hash_to_field(domain_tag), inputs);
    let r = poseidon_sponge_hash_traced(all.as_slice(), trace);
    assert(field::values(trace.final_state@)[0] == trace.final_state@[0]@);
    r
}

/// The record of hashing field elements under a tag.
pub open spec fn recorded_hash(inputs: Seq<nat>, tag: Seq<u8>) -> Seq<Snapshot> {
    recorded_absorption(schedule(), seq![0nat, 0nat, 0nat], seq![bytes_value(tag)] + inputs)
}

/// The field element of an attribute's text.
pub open spec fn attribute_value(value: Seq<char>) -> nat {
    bytes_value(
        encode_utf8(DOMAIN_SEP@) + encode_utf8(ATTRIBUTE_HASH_DOMAIN@) + encode_utf8(value),
    )
}

/// Hashes the text of an attribute.
pub fn hash_attribute(value: &str) -> (r: Fr)
    ensures
        r@ == attribute_value(value@),
{
    let mut data = digest::concat(DOMAIN_SEP.as_bytes(), ATTRIBUTE_HASH_DOMAIN.as_bytes());
    digest::append(&mut data, value.as_bytes());
    hash_to_field(data.as_slice())
}

/// The commitment to attributes under a blinding factor.
pub open spec fn commitment_value(attrs: Seq<nat>, blinding: nat) -> nat {
    hash_value(attrs.push(blinding), encode_utf8(COMMITMENT_DOMAIN@))
}

/// Commits to attributes.
pub fn create_commitment(attrs: &[Fr], blinding: &Fr) -> (r: Fr)
    ensures
        r@ == commitment_value(field::values(attrs@), blinding@),
{
    let inputs = hashing::with_blinding(attrs, blinding);
    poseidon_hash(inputs.as_slice(), COMMITMENT_DOMAIN.as_bytes())
}

/// Derives the blinding factor of an attribute of a credential from a secret.
/// The attribute's number goes in as eight bytes.
pub fn derive_blinding(
    master_secret: &[u8; 32],
    credential_id: &str,
    attribute_index: usize,
) -> (r: Fr)
    ensures
        r@ == hashing::blinding_value(
            DOMAIN_SEP@,
            master_secret@,
            encode_utf8(credential_id@) + digest::le_bytes(attribute_index as nat),
        ),
{
    let data = digest::concat(
        credential_id.as_bytes(),
        digest::le_bytes_of(attribute_index as u64).as_slice(),
    );
    hashing::blinding_element(DOMAIN_SEP, master_secret, data.as_slice())
}

/// Counts of what a hash takes.
#[derive(Debug, Clone)]
pub struct HashStatistics {
    pub total_rounds: usize,
    pub full_rounds: usize,
    pub partial_rounds: usize,
    pub sbox_operations: usize,
    pub multiplications: usize,
    pub additions: usize,
}

/// A hash with the record of its rounds and their counts.
#[derive(Debug, Clone)]
pub struct PoseidonExplainer {
    pub rounds: RoundTrace,
    pub statistics: HashStatistics,
}

/// The number of full rounds in a record.
pub open spec fn full_count(s: Seq<Snapshot>) -> nat
    decreases s.len(),
{
    if s.len() == 0 {
        0
    } else {
        full_count(s.drop_last()) + if s.last().full {
            1nat
        } else {
            0
        }
    }
}

proof fn lemma_full_count_add(s: Seq<Snapshot>, t: Seq<Snapshot>)
    ensures
        full_count(s + t) == full_count(s) + full_count(t),
    decreases t.len(),
{
    if t.len() == 0 {
        assert(s + t =~= s);
    } else {
        assert((s + t).drop_last() =~= s + t.drop_last());
        lemma_full_count_add(s, t.drop_last());
    }
}

/// A permutation has eight full rounds.
proof fn lemma_full_count_rounds(p: permutation::Schedule, count: nat, state: Seq<nat>)
    requires
        p.constants.len() == 64,
        count <= 64,
    ensures
        full_count(recorded_rounds(p, count, state)) == if count <= 4 {
            count as int
        } else if count <= 60 {
            4
        } else {
            count - 56
        },
    decreases count,
{
    if count > 0 {
        let before = (count - 1) as nat;
        lemma_next_round(p, before, state);
        lemma_full_count_rounds(p, before, state);
        let s = recorded_rounds(p, count, state);
        assert(s.drop_last() =~= recorded_rounds(p, before, state));
    }
}

/// The number of permutations that absorb a number of inputs.
pub open spec fn permutation_count(inputs: nat) -> nat {
    (inputs + 1) / 2
}

/// Every permutation of a hash has 64 rounds, eight of them full.
proof fn lemma_absorption_counts(p: permutation::Schedule, state: Seq<nat>, inputs: Seq<nat>)
    requires
        p.constants.len() == 64,
    ensures
        recorded_absorption(p, state, inputs).len() == 64 * permutation_count(inputs.len()),
        full_count(recorded_absorption(p, state, inputs)) == 8 * permutation_count(inputs.len()),
    decreases inputs.len(),
{
    if inputs.len() > 0 {
        let taken = taken_in(state, inputs);
        let n: int = if inputs.len() >= 2 {
            2
        } else {
            1
        };
        lemma_full_count_rounds(p, 64, taken);
        lemma_absorption_counts(p, permutation::permute(p, taken), inputs.skip(n));
        lemma_full_count_add(
            recorded_rounds(p, 64, taken),
            recorded_absorption(p, permutation::permute(p, taken), inputs.skip(n)),
        );
    }
}

/// Counts the full rounds of a record.
fn count_full(rounds: &Vec<RoundSnapshot>) -> (r: usize)
    ensures
        r == full_count(snapshots(rounds@)),
        r <= rounds@.len(),
{
    let mut n: usize = 0;
    for i in 0..rounds.len()
        invariant
            n == full_count(snapshots(rounds@).take(i as int)),
            n <= i,
    {
        proof {
            let s = snapshots(rounds@);
            assert(s.take(i + 1).drop_last() =~= s.take(i as int));
            assert(s.take(i + 1).last() == rounds@[i as int]@);
        }
        match rounds[i].round_type {
            RoundType::Full => {
                n += 1;
            },
            RoundType::Partial => {},
        }
    }
    assert(snapshots(rounds@).take(rounds@.len() as int) =~= snapshots(rounds@));
    n
}

impl PoseidonExplainer {
    /// Hashes field elements under a tag and keeps an account of it.
    pub fn explain_hash(inputs: &[Fr], domain_tag: &[u8]) -> (r: PoseidonExplainer)
        requires
            576 * permutation_count(inputs@.len() + 1) <= usize::MAX,
        ensures
            snapshots(r.rounds.rounds@) == recorded_hash(field::values(inputs@), domain_tag@),
            r.rounds.final_state@[0]@ == hash_value(field::values(inputs@), domain_tag@),
            field::values(r.rounds.initial_state@) == last_taken_in(
                schedule(),
                seq![0nat, 0nat, 0nat],
                seq![bytes_value(domain_tag@)] + field::values(inputs@),
            ),
            field::values(r.rounds.final_state@) == permutation::absorb(
                schedule(),
                seq![0nat, 0nat, 0nat],
                seq![bytes_value(domain_tag@)] + field::values(inputs@),
            ),
            r.statistics.total_rounds == 64 * permutation_count(inputs@.len() + 1),
            r.statistics.full_rounds == 8 * permutation_count(inputs@.len() + 1),
            r.statistics.partial_rounds == 56 * permutation_count(inputs@.len() + 1),
            r.statistics.sbox_operations == 80 * permutation_count(inputs@.len() + 1),
            r.statistics.multiplications == 576 * permutation_count(inputs@.len() + 1),
            r.statistics.additions == 576 * permutation_count(inputs@.len() + 1),
            r.statistics.total_rounds == r.rounds.rounds@.len(),
            r.statistics.total_rounds == 64 * ((inputs@.len() + 2) / 2),
            r.statistics.full_rounds + r.statistics.partial_rounds == r.statistics.total_rounds,
            8 * r.statistics.full_rounds == r.statistics.total_rounds,
            r.statistics.sbox_operations == 3 * r.statistics.full_rounds
                + r.statistics.partial_rounds,
            r.statistics.multiplications == 9 * r.statistics.total_rounds,
            r.statistics.additions == 9 * r.statistics.total_rounds,
    {
        let mut trace = RoundTrace {
            initial_state: [Fr::zero(), Fr::zero(), Fr::zero()],
            rounds: Vec::new(),
            final_state: [Fr::zero(), Fr::zero(), Fr::zero()],
        };
        assert(snapshots(trace.rounds@) =~= Seq::<Snapshot>::empty());
        let _hash = poseidon_hash_traced(inputs, domain_tag, &mut trace);
        proof {
            assert(snapshots(trace.rounds@) =~= recorded_hash(
                field::values(inputs@),
                domain_tag@,
            ));
            lemma_absorption_counts(
                schedule(),
                seq![0nat, 0nat, 0nat],
                seq![bytes_value(domain_tag@)] + field::values(inputs@),
            );
        }
        assert(snapshots(trace.rounds@).len() == trace.rounds@.len());
        let total_rounds = trace.rounds.len();
        let full_rounds = count_full(&trace.rounds);
        let partial_rounds = total_rounds - full_rounds;
        let statistics = HashStatistics {
            total_rounds,
            full_rounds,
            partial_rounds,
            sbox_operations: 3 * full_rounds + partial_rounds,
            multiplications: total_rounds * 9,
            additions: total_rounds * (3 + 6),
        };
        PoseidonExplainer { rounds: trace, statistics }
    }
}

/// The two lowest bytes of an integer in hexadecimal, lowest first.
pub open spec fn short_hex(value: nat) -> Seq<char> {
    "0x"@ + text::hex(seq![(value % 256) as u8, (value / 256 % 256) as u8]) + "..."@
}

/// The two lowest bytes of a field element in hexadecimal, lowest first.
pub fn hex_fr(f: &Fr) -> (r: String)
    ensures
        r@ == short_hex(f@),
{
    let bytes = f.to_bytes_be();
    proof {
        let high = bytes@.drop_last();
        assert(field::be_value(bytes@) == field::be_value(high) * 256 + bytes@[31]);
        assert(field::be_value(high) == field::be_value(high.drop_last()) * 256 + bytes@[30]);
        assert(f@ % 256 == bytes@[31]);
        assert(f@ / 256 == field::be_value(high));
        assert(f@ / 256 % 256 == bytes@[30]);
    }
    let mut out = "0x".to_string();
    let low = vec![bytes[31], bytes[30]];
    assert(low@ =~= seq![(f@ % 256) as u8, (f@ / 256 % 256) as u8]);
    out.push_str(text::hex_text(low.as_slice()).as_str());
    out.push_str("...");
    out
}

/// The 32 bytes of an integer in hexadecimal, highest first.
pub open spec fn full_hex(value: nat) -> Seq<char> {
    text::hex(field::be_bytes(value, 32))
}

/// The 32 bytes of a field element in hexadecimal, highest first.
pub fn full_hex_fr(f: &Fr) -> (r: String)
    ensures
        r@ == full_hex(f@),
{
    let bytes = f.to_bytes_be();
    proof {
        field::lemma_be_bytes(bytes@);
    }
    text::hex_text(bytes.as_slice())
}

/// Zero and one are their own fifth powers.
pub proof fn lemma_sbox_fixed_points()
    ensures
        permutation::fifth(0) == 0,
        permutation::fifth(1) == 1,
{
    lemma0_pow(5);
    lemma1_pow(5);
    lemma_small_mod(0, field::modulus());
    lemma_small_mod(1, field::modulus());
}

/// The S-box is one to one, and the inverse S-box undoes it.
pub proof fn lemma_sbox_bijective(x: nat, y: nat)
    requires
        x < field::modulus(),
        y < field::modulus(),
    ensures
        permutation::fifth(x) == permutation::fifth(y) ==> x == y,
        bijection::fifth_root(permutation::fifth(x)) == x,
        permutation::fifth(bijection::fifth_root(x)) == x,
{
    bijection::lemma_fifth_root(x);
    bijection::lemma_fifth_root(y);
}

/// A two by two determinant of a matrix, by its rows and columns.
pub open spec fn minor_value(m: Seq<Seq<nat>>, i: int, j: int, k: int, l: int) -> int {
    m[i][k] * m[j][l] - m[i][l] * m[j][k]
}

/// The mixing matrix is symmetric, invertible, and so is every square part of
/// it, which is what gives the best diffusion.
pub proof fn lemma_matrix_properties()
    ensures
        forall|i: int, j: int|
            0 <= i < 3 && 0 <= j < 3 ==> #[trigger] schedule().mds[i][j] == schedule().mds[j][i],
        forall|i: int, j: int|
            0 <= i < 3 && 0 <= j < 3 ==> 1 <= #[trigger] schedule().mds[i][j] <= 3,
        determinant(schedule().mds) % field::modulus() as int != 0,
        forall|i: int, j: int, k: int, l: int|
            0 <= i < j < 3 && 0 <= k < l < 3 ==> #[trigger] minor_value(
                schedule().mds,
                i,
                j,
                k,
                l,
            ) % field::modulus() as int != 0,
{
    let p = field::modulus();
    let m = schedule().mds;
    assert(m[0] == seq![2nat, 3nat, 1nat]);
    assert(m[1] == seq![3nat, 1nat, 2nat]);
    assert(m[2] == seq![1nat, 2nat, 3nat]);
    assert(determinant(m) == -18);
    lemma_small_mod((p - 18) as nat, p);
    lemma_mod_add_multiples_vanish(-18, p as int);
    assert forall|i: int, j: int, k: int, l: int|
        0 <= i < j < 3 && 0 <= k < l < 3 implies #[trigger] minor_value(m, i, j, k, l)
        % field::modulus() as int != 0 by {
        let d = minor_value(m, i, j, k, l);
        assert(minor_value(m, 0, 1, 0, 1) == -7);
        assert(minor_value(m, 0, 1, 0, 2) == 1);
        assert(minor_value(m, 0, 1, 1, 2) == 5);
        assert(minor_value(m, 0, 2, 0, 1) == 1);
        assert(minor_value(m, 0, 2, 0, 2) == 5);
        assert(minor_value(m, 0, 2, 1, 2) == 7);
        assert(minor_value(m, 1, 2, 0, 1) == 5);
        assert(minor_value(m, 1, 2, 0, 2) == 7);
        assert(minor_value(m, 1, 2, 1, 2) == -1);
        assert((i == 0 && j == 1) || (i == 0 && j == 2) || (i == 1 && j == 2));
        assert((k == 0 && l == 1) || (k == 0 && l == 2) || (k == 1 && l == 2));
        assert(-7 <= d <= 7 && d != 0);
        if d > 0 {
            lemma_small_mod(d as nat, p);
        } else {
            lemma_small_mod((p + d) as nat, p);
            lemma_mod_add_multiples_vanish(d, p as int);
        }
    }
}

/// What the hashes are digests of: an attribute of its text behind the name, which
/// stands twice, and a tag, a blinding factor of the secret, the credential's name
/// and the attribute's number, and a tag of its bytes. A commitment is the sponge of
/// the tag's element, the attributes in their order and the blinding.
pub proof fn lemma_recipes(
    value: Seq<char>,
    secret: Seq<u8>,
    data: Seq<u8>,
    attrs: Seq<nat>,
    blinding: nat,
)
    ensures
        attribute_value(value) == field::be_value(
            digest::sha256(
                encode_utf8(
                    "DataIntegrityGroth16Proof2026::v1.0::DataIntegrityGroth16Proof2026::v1.0::AttributeHash"@
                        + value,
                ),
            ),
        ) % field::modulus(),
        hashing::blinding_value(DOMAIN_SEP@, secret, data) == field::be_value(
            digest::sha256(
                encode_utf8("DataIntegrityGroth16Proof2026::v1.0::BlindingDerivation"@) + secret
                    + data,
            ),
        ) % field::modulus(),
        bytes_value(data) == field::be_value(
            digest::sha256(encode_utf8("DataIntegrityGroth16Proof2026::v1.0::"@) + data),
        ) % field::modulus(),
        hash_value(attrs, data) == permutation::sponge(
            schedule(),
            seq![bytes_value(data)] + attrs,
        ),
        commitment_value(attrs, blinding) == permutation::sponge(
            schedule(),
            seq![
                field::be_value(
                    digest::sha256(
                        encode_utf8("DataIntegrityGroth16Proof2026::v1.0::Commitment"@),
                    ),
                ) % field::modulus(),
            ] + attrs + seq![blinding],
        ),
        schedule().constants == permutation::round_constants(
            encode_utf8("PoseidonBN254Constants"@),
            64,
        ),
{
    reveal_strlit("DataIntegrityGroth16Proof2026::v1.0::");
    reveal_strlit("AttributeHash");
    reveal_strlit("BlindingDerivation");
    reveal_strlit("Commitment");
    reveal_strlit(
        "DataIntegrityGroth16Proof2026::v1.0::DataIntegrityGroth16Proof2026::v1.0::AttributeHash",
    );
    reveal_strlit("DataIntegrityGroth16Proof2026::v1.0::BlindingDerivation");
    reveal_strlit("DataIntegrityGroth16Proof2026::v1.0::Commitment");
    let name = "DataIntegrityGroth16Proof2026::v1.0::"@;
    let tag = "AttributeHash"@;
    assert("DataIntegrityGroth16Proof2026::v1.0::DataIntegrityGroth16Proof2026::v1.0::AttributeHash"@
        =~= name + (name + tag));
    assert("DataIntegrityGroth16Proof2026::v1.0::BlindingDerivation"@ =~= name
        + "BlindingDerivation"@);
    assert("DataIntegrityGroth16Proof2026::v1.0::Commitment"@ =~= name + "Commitment"@);
    hashing::lemma_bytes_of_both(name, tag);
    hashing::lemma_bytes_of_both(name, name + tag);
    hashing::lemma_bytes_of_both(name + (name + tag), value);
    hashing::lemma_bytes_of_both(name, "BlindingDerivation"@);
    hashing::lemma_bytes_of_both(name, "Commitment"@);
    let n = encode_utf8(name);
    let t = encode_utf8(tag);
    let v = encode_utf8(value);
    assert(n + (n + t + v) =~= n + (n + t) + v);
    assert(seq![bytes_value(encode_utf8("Commitment"@))] + attrs.push(blinding) =~= seq![
        bytes_value(encode_utf8("Commitment"@)),
    ] + attrs + seq![blinding]);
}

/// What the record of a round says: the state that the round found, that state with
/// the constants, with fifth powers of all elements or of the first one, and the
/// product with the matrix, which is what the next round finds.
pub proof fn lemma_trace(p: permutation::Schedule, count: nat, state: Seq<nat>, r: int, i: int)
    requires
        permutation::well_formed(p),
        state.len() == 3,
        0 <= r < count <= p.constants.len(),
        0 <= i < 3,
    ensures
        ({
            let all = recorded_rounds(p, count, state);
            let m = field::modulus();
            let one = all[r];
            &&& all.len() == count
            &&& all[0].before == state
            &&& one.number == r
            &&& one.full <==> r < 4 || r + 4 >= p.constants.len()
            &&& one.shifted[i] == (one.before[i] + p.constants[r][i]) % m
            &&& one.boxed[i] == if one.full || i == 0 {
                (pow(one.shifted[i] as int, 5) % m as int) as nat
            } else {
                one.shifted[i]
            }
            &&& one.mixed[i] == (p.mds[i][0] * one.boxed[0] + p.mds[i][1] * one.boxed[1]
                + p.mds[i][2] * one.boxed[2]) % m
            &&& r + 1 < count ==> all[r + 1].before == one.mixed
            &&& r + 1 == p.constants.len() ==> one.mixed == permutation::permute(p, state)
        }),
{
}

/// The record of a hash in two parts, of which the first has whole pairs, is the
/// record of the first and then that of the second, which goes on from the state
/// that the first left. The last state before a permutation is what the inputs
/// before the last ones left, with the last ones added.
pub proof fn lemma_trace_in_turn(
    p: permutation::Schedule,
    state: Seq<nat>,
    first: Seq<nat>,
    rest: Seq<nat>,
)
    requires
        first.len() % 2 == 0,
    ensures
        recorded_absorption(p, state, first + rest) == recorded_absorption(p, state, first)
            + recorded_absorption(p, permutation::absorb(p, state, first), rest),
        rest.len() > 0 ==> last_taken_in(p, state, first + rest) == last_taken_in(
            p,
            permutation::absorb(p, state, first),
            rest,
        ),
    decreases first.len(),
{
    let all = first + rest;
    if first.len() == 0 {
        assert(all =~= rest);
        assert(recorded_absorption(p, state, first) + recorded_absorption(p, state, rest)
            =~= recorded_absorption(p, state, rest));
    } else {
        let taken = taken_in(state, all);
        assert(all[0] == first[0] && all[1] == first[1]);
        assert(taken =~= taken_in(state, first));
        assert(all.skip(2) =~= first.skip(2) + rest);
        lemma_trace_in_turn(p, permutation::permute(p, taken), first.skip(2), rest);
        assert(recorded_absorption(p, state, all) =~= recorded_absorption(p, state, first)
            + recorded_absorption(p, permutation::absorb(p, state, first), rest));
    }
}

/// The record of one or two inputs is that of one permutation of the state with
/// the inputs added.
pub proof fn lemma_trace_block(p: permutation::Schedule, state: Seq<nat>, a: nat, b: nat)
    ensures
        ({
            let m = field::modulus();
            let one = seq![(state[0] + a) % m, state[1], state[2]];
            let two = seq![(state[0] + a) % m, (state[1] + b) % m, state[2]];
            &&& recorded_absorption(p, state, seq![a]) == recorded_rounds(p, 64, one)
            &&& recorded_absorption(p, state, seq![a, b]) == recorded_rounds(p, 64, two)
            &&& last_taken_in(p, state, seq![a]) == one
            &&& last_taken_in(p, state, seq![a, b]) == two
        }),
{
    let m = field::modulus();
    let one = seq![(state[0] + a) % m, state[1], state[2]];
    let two = seq![(state[0] + a) % m, (state[1] + b) % m, state[2]];
    let none = Seq::<Snapshot>::empty();
    let r1 = seq![a].skip(1);
    let r2 = seq![a, b].skip(2);
    assert(r1.len() == 0 && r2.len() == 0);
    assert(recorded_absorption(p, permutation::permute(p, one), r1) == none);
    assert(recorded_absorption(p, permutation::permute(p, two), r2) == none);
    assert(recorded_rounds(p, 64, one) + none =~= recorded_rounds(p, 64, one));
    assert(recorded_rounds(p, 64, two) + none =~= recorded_rounds(p, 64, two));
}

/// The determinant is the sum of the three products along the diagonals that fall, less
/// the three along those that rise.
pub proof fn lemma_determinant(m: Seq<Seq<nat>>)
    ensures
        determinant(m) == m[0][0] * m[1][1] * m[2][2] + m[0][1] * m[1][2] * m[2][0] + m[0][2]
            * m[1][0] * m[2][1] - m[0][2] * m[1][1] * m[2][0] - m[0][1] * m[1][0] * m[2][2]
            - m[0][0] * m[1][2] * m[2][1],
{
    lemma_term(m[0][0] as int, m[1][1] as int, m[2][2] as int, m[1][2] as int, m[2][1] as int);
    lemma_term(m[0][1] as int, m[1][0] as int, m[2][2] as int, m[1][2] as int, m[2][0] as int);
    lemma_term(m[0][2] as int, m[1][0] as int, m[2][1] as int, m[1][1] as int, m[2][0] as int);
}

proof fn lemma_term(a: int, b: int, c: int, d: int, e: int)
    by (nonlinear_arith)
    ensures
        a * (b * c - d * e) == a * b * c - a * d * e,
{
}

/// The hash has 64 rounds, and its matrix is the symmetric one whose rows are 2, 3, 1 and
/// the same moved on by one place and by two.
pub proof fn lemma_schedule()
    ensures
        schedule().constants.len() == 64,
        permutation::well_formed(schedule()),
        schedule().mds.len() == 3,
        schedule().mds[0] == seq![2nat, 3, 1],
        schedule().mds[1] == seq![3nat, 1, 2],
        schedule().mds[2] == seq![1nat, 2, 3],
{
}

} // verus!
