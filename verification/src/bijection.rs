//! The S-box and the permutation can be undone.
use crate::field;
use crate::modulus;
use crate::permutation;
use crate::primes;
use vstd::arithmetic::div_mod::*;
use vstd::arithmetic::mul::*;
use vstd::arithmetic::power::*;
use vstd::prelude::*;

verus! {

/// The exponent that undoes the fifth power: five times it is one more than four
/// times the order of the multiplicative group.
pub open spec fn root_exponent() -> nat {
    17510594297471420177797124596205820070838691520332827474958563349260646796493nat
}

/// The fifth root in the field.
pub open spec fn fifth_root(x: nat) -> nat {
    (pow(x as int, root_exponent()) % field::modulus() as int) as nat
}

/// Raising to the fifth power and to the root's exponent, in either order, gives
/// the element again.
proof fn lemma_power_cycle(x: nat)
    requires
        x < field::modulus(),
    ensures
        pow(x as int, root_exponent() * 5) % field::modulus() as int == x,
{
    let p = field::modulus();
    let d = root_exponent();
    assert(d * 5 == 1 + (p - 1) as nat * 4);
    if x == 0 {
        lemma0_pow(d * 5);
        lemma_small_mod(0, p);
    } else {
        modulus::lemma_modulus_prime();
        lemma_small_mod(x, p);
        primes::lemma_fermat(p, x);
        let v = pow(x as int, (p - 1) as nat);
        lemma_pow_adds(x as int, 1, (p - 1) as nat * 4);
        lemma_pow1(x as int);
        lemma_pow_multiplies(x as int, (p - 1) as nat, 4);
        lemma_pow_mod_noop(v, 4, p as int);
        lemma1_pow(4);
        lemma_small_mod(1, p);
        lemma_mul_mod_noop_right(x as int, pow(v, 4), p as int);
        assert(pow(v, 4) % p as int == 1);
        assert(pow(x as int, d * 5) == x * pow(v, 4));
        assert((x * pow(v, 4)) % p as int == x as int % p as int);
    }
}

/// The fifth power and the fifth root undo each other.
pub proof fn lemma_fifth_root(x: nat)
    requires
        x < field::modulus(),
    ensures
        permutation::fifth(fifth_root(x)) == x,
        fifth_root(permutation::fifth(x)) == x,
        fifth_root(x) < field::modulus(),
{
    let p = field::modulus() as int;
    let d = root_exponent();
    lemma_power_cycle(x);
    lemma_mod_bound(pow(x as int, d), p);
    lemma_mod_bound(pow(x as int, 5), p);
    lemma_pow_mod_noop(pow(x as int, d), 5, p);
    lemma_pow_multiplies(x as int, d, 5);
    lemma_pow_mod_noop(pow(x as int, 5), d, p);
    lemma_pow_multiplies(x as int, 5, d);
    assert(d * 5 == 5 * d);
}

/// A state of three reduced elements.
pub open spec fn is_state(s: Seq<nat>) -> bool {
    s.len() == 3 && s[0] < field::modulus() && s[1] < field::modulus() && s[2] < field::modulus()
}

/// Remainders are equal exactly when the difference is a multiple.
proof fn lemma_equal_remainders(a: int, b: int)
    requires
        a % field::modulus() as int == b % field::modulus() as int,
    ensures
        (a - b) % field::modulus() as int == 0,
{
    let p = field::modulus() as int;
    lemma_sub_mod_noop(a, b, p);
    lemma_small_mod(0, field::modulus());
}

/// Reduced elements whose difference is a multiple of the modulus are equal.
proof fn lemma_reduced_equal(a: nat, b: nat)
    requires
        a < field::modulus(),
        b < field::modulus(),
        (a - b) % field::modulus() as int == 0,
    ensures
        a == b,
{
    let p = field::modulus() as int;
    if a >= b {
        lemma_small_mod((a - b) as nat, field::modulus());
    } else {
        lemma_small_mod((a - b + p) as nat, field::modulus());
        lemma_mod_add_multiples_vanish(a - b, p);
    }
}

/// Adding the same constant keeps reduced elements apart.
proof fn lemma_fadd_injective(a: nat, b: nat, c: nat)
    requires
        a < field::modulus(),
        b < field::modulus(),
        field::fadd(a, c) == field::fadd(b, c),
    ensures
        a == b,
{
    lemma_equal_remainders((a + c) as int, (b + c) as int);
    lemma_reduced_equal(a, b);
}

/// Combinations of multiples of the modulus are multiples.
proof fn lemma_combination(a: int, x: int, b: int, y: int, c: int, z: int)
    requires
        x % field::modulus() as int == 0,
        y % field::modulus() as int == 0,
        z % field::modulus() as int == 0,
    ensures
        (a * x + b * y + c * z) % field::modulus() as int == 0,
{
    let p = field::modulus() as int;
    lemma_mul_mod_noop_right(a, x, p);
    lemma_mul_mod_noop_right(b, y, p);
    lemma_mul_mod_noop_right(c, z, p);
    assert(a * 0 == 0 && b * 0 == 0 && c * 0 == 0);
    lemma_small_mod(0, field::modulus());
    lemma_add_mod_noop(a * x, b * y, p);
    lemma_add_mod_noop(a * x + b * y, c * z, p);
}

/// What eighteen times a difference says of it.
proof fn lemma_eighteenth(a: nat, b: nat)
    requires
        a < field::modulus(),
        b < field::modulus(),
        (-18 * (a - b)) % field::modulus() as int == 0,
    ensures
        a == b,
{
    let p = field::modulus();
    modulus::lemma_modulus_prime();
    primes::lemma_euclid(p, -18, a - b);
    assert((-18int) % p as int != 0) by {
        lemma_small_mod((p - 18) as nat, p);
        lemma_mod_add_multiples_vanish(-18, p as int);
    }
    lemma_reduced_equal(a, b);
}

/// Mixing with the symmetric matrix keeps states apart.
pub proof fn lemma_mix_injective(s: Seq<nat>, t: Seq<nat>)
    requires
        is_state(s),
        is_state(t),
        permutation::mix(permutation::symmetric(), s) == permutation::mix(
            permutation::symmetric(),
            t,
        ),
    ensures
        s == t,
{
    let m = permutation::symmetric();
    assert(permutation::mix(m, s)[0] == permutation::mix(m, t)[0]);
    assert(permutation::mix(m, s)[1] == permutation::mix(m, t)[1]);
    assert(permutation::mix(m, s)[2] == permutation::mix(m, t)[2]);
    let d0 = s[0] - t[0];
    let d1 = s[1] - t[1];
    let d2 = s[2] - t[2];
    let x = 2 * d0 + 3 * d1 + d2;
    let y = 3 * d0 + d1 + 2 * d2;
    let z = d0 + 2 * d1 + 3 * d2;
    lemma_equal_remainders(
        (2 * s[0] + 3 * s[1] + 1 * s[2]) as int,
        (2 * t[0] + 3 * t[1] + 1 * t[2]) as int,
    );
    lemma_equal_remainders(
        (3 * s[0] + 1 * s[1] + 2 * s[2]) as int,
        (3 * t[0] + 1 * t[1] + 2 * t[2]) as int,
    );
    lemma_equal_remainders(
        (1 * s[0] + 2 * s[1] + 3 * s[2]) as int,
        (1 * t[0] + 2 * t[1] + 3 * t[2]) as int,
    );
    lemma_combination(-1, x, -7, y, 5, z);
    lemma_combination(-7, x, 5, y, -1, z);
    lemma_combination(5, x, -1, y, -7, z);
    assert(-x - 7 * y + 5 * z == -18 * d0);
    assert(-7 * x + 5 * y - z == -18 * d1);
    assert(5 * x - y - 7 * z == -18 * d2);
    lemma_eighteenth(s[0], t[0]);
    lemma_eighteenth(s[1], t[1]);
    lemma_eighteenth(s[2], t[2]);
    assert(s =~= t);
}

/// One round gives a state and keeps states apart.
proof fn lemma_step_injective(p: permutation::Schedule, r: int, s: Seq<nat>, t: Seq<nat>)
    requires
        p.mds == permutation::symmetric(),
        is_state(s),
        is_state(t),
    ensures
        is_state(permutation::step(p, r, s)),
        permutation::step(p, r, s) == permutation::step(p, r, t) ==> s == t,
{
    if permutation::step(p, r, s) == permutation::step(p, r, t) {
        let a = permutation::add_constants(s, p.constants[r]);
        let b = permutation::add_constants(t, p.constants[r]);
        assert forall|x: nat| #[trigger] permutation::fifth(x) < field::modulus() by {
            permutation::lemma_fifth(x);
        }
        if permutation::is_full(p, r) {
            lemma_mix_injective(permutation::sbox_all(a), permutation::sbox_all(b));
            assert(permutation::sbox_all(a)[1] == permutation::fifth(a[1]));
            assert(permutation::sbox_all(b)[1] == permutation::fifth(b[1]));
            assert(permutation::sbox_all(a)[2] == permutation::fifth(a[2]));
            assert(permutation::sbox_all(b)[2] == permutation::fifth(b[2]));
            assert(permutation::sbox_all(a)[0] == permutation::fifth(a[0]));
            assert(permutation::sbox_all(b)[0] == permutation::fifth(b[0]));
        } else {
            lemma_mix_injective(permutation::sbox_first(a), permutation::sbox_first(b));
            assert(permutation::sbox_first(a)[0] == permutation::fifth(a[0]));
            assert(permutation::sbox_first(b)[0] == permutation::fifth(b[0]));
            assert(permutation::sbox_first(a)[1] == permutation::sbox_first(b)[1]);
            assert(permutation::sbox_first(a)[2] == permutation::sbox_first(b)[2]);
        }
        lemma_fifth_root(a[0]);
        lemma_fifth_root(b[0]);
        lemma_fifth_root(a[1]);
        lemma_fifth_root(b[1]);
        lemma_fifth_root(a[2]);
        lemma_fifth_root(b[2]);
        lemma_fadd_injective(s[0], t[0], p.constants[r][0]);
        lemma_fadd_injective(s[1], t[1], p.constants[r][1]);
        lemma_fadd_injective(s[2], t[2], p.constants[r][2]);
        assert(s =~= t);
    }
}

proof fn lemma_rounds_injective(
    p: permutation::Schedule,
    count: nat,
    s: Seq<nat>,
    t: Seq<nat>,
)
    requires
        p.mds == permutation::symmetric(),
        is_state(s),
        is_state(t),
    ensures
        is_state(permutation::rounds(p, count, s)),
        is_state(permutation::rounds(p, count, t)),
        permutation::rounds(p, count, s) == permutation::rounds(p, count, t) ==> s == t,
    decreases count,
{
    if count > 0 {
        let before = (count - 1) as nat;
        lemma_rounds_injective(p, before, s, t);
        let a = permutation::rounds(p, before, s);
        let b = permutation::rounds(p, before, t);
        lemma_step_injective(p, before as int, a, b);
        lemma_step_injective(p, before as int, b, a);
    }
}

/// The permutation with the symmetric matrix is one: states that differ are
/// permuted to states that differ, whatever the round constants.
pub proof fn lemma_permutation_injective(p: permutation::Schedule, s: Seq<nat>, t: Seq<nat>)
    requires
        p.mds == permutation::symmetric(),
        is_state(s),
        is_state(t),
        s != t,
    ensures
        is_state(permutation::permute(p, s)),
        permutation::permute(p, s) != permutation::permute(p, t),
{
    lemma_rounds_injective(p, p.constants.len(), s, t);
}

} // verus!
