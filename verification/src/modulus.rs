//! The order of the scalar field is prime.
//!
//! The proof is a chain of Pocklington certificates: each prime rests on prime
//! factors of its predecessor, down to primes small enough for trial division.
//! Powers are followed two bits of the exponent at a time.
use crate::field;
use crate::primes;
use vstd::arithmetic::div_mod::*;
use vstd::arithmetic::mul::*;
use vstd::arithmetic::power::*;
use vstd::prelude::*;

verus! {

/// Nothing between one and `d` divides `n`.
spec fn undivided(n: nat, d: nat) -> bool {
    forall|c: nat| 1 < c < d ==> #[trigger] (n % c) != 0
}

proof fn exclude(n: nat, d: nat)
    requires
        undivided(n, d),
        n % d != 0,
    ensures
        undivided(n, d + 1),
{
}

/// A number that nothing up to its root divides is prime.
proof fn lemma_trial(n: nat, d: nat)
    requires
        n > 1,
        d * d > n,
        undivided(n, d),
    ensures
        primes::is_prime(n),
{
    let r = primes::lemma_prime_divisor(n);
    if r != n {
        assert(r < d) by (nonlinear_arith)
            requires
                r * r <= n,
                d * d > n,
        ;
        assert(n % r != 0);
    }
}

/// A power with an exponent below four.
spec fn small_power(a: int, d: nat) -> int {
    if d == 0 {
        1
    } else if d == 1 {
        a
    } else if d == 2 {
        a * a
    } else {
        a * a * a
    }
}

proof fn lemma_small_power(a: int, d: nat)
    requires
        d < 4,
    ensures
        pow(a, d) == small_power(a, d),
{
    reveal_with_fuel(pow, 5);
    assert(a * (a * (a * 1)) == a * a * a) by (nonlinear_arith);
}

/// The power at the leading digit of an exponent.
proof fn start(a: int, n: int, d: nat)
    requires
        d < 4,
    ensures
        pow(a, d) % n == small_power(a, d) % n,
{
    lemma_small_power(a, d);
}

/// Appending a digit in base four to the exponent.
proof fn lemma_advance(a: int, n: int, e: nat, v: int, d: nat, w: int)
    requires
        n > 0,
        d < 4,
        pow(a, e) % n == v,
        (v * v * v * v * small_power(a, d)) % n == w,
    ensures
        pow(a, 4 * e + d) % n == w,
{
    let u = pow(a, e);
    let s = small_power(a, d);
    lemma_pow_multiplies(a, e, 4);
    lemma_mul_is_commutative(e as int, 4);
    lemma_pow_adds(a, 4 * e, d);
    lemma_small_power(a, d);
    assert(pow(u, 4) == u * u * u * u) by {
        reveal_with_fuel(pow, 5);
        assert(u * (u * (u * (u * 1))) == u * u * u * u) by (nonlinear_arith);
    }
    assert(v * v * v * v == pow(v, 4)) by {
        reveal_with_fuel(pow, 5);
        assert(v * (v * (v * (v * 1))) == v * v * v * v) by (nonlinear_arith);
    }
    lemma_pow_mod_noop(u, 4, n);
    lemma_mul_mod_noop_left(pow(u, 4), s, n);
    lemma_mul_mod_noop_left(pow(v, 4), s, n);
}

proof fn advance_0(a: int, n: int, e: nat, v: int, w: int)
    requires
        n > 0,
        pow(a, e) % n == v,
        (v * v * v * v) % n == w,
    ensures
        pow(a, 4 * e + 0) % n == w,
{
    assert(v * v * v * v == v * v * v * v * small_power(a, 0)) by (nonlinear_arith);
    lemma_advance(a, n, e, v, 0, w);
}

proof fn advance_1(a: int, n: int, e: nat, v: int, w: int)
    requires
        n > 0,
        pow(a, e) % n == v,
        (v * v * v * v * a) % n == w,
    ensures
        pow(a, 4 * e + 1) % n == w,
{
    assert(v * v * v * v * a == v * v * v * v * small_power(a, 1)) by (nonlinear_arith);
    lemma_advance(a, n, e, v, 1, w);
}

proof fn advance_2(a: int, n: int, e: nat, v: int, w: int)
    requires
        n > 0,
        pow(a, e) % n == v,
        (v * v * v * v * a * a) % n == w,
    ensures
        pow(a, 4 * e + 2) % n == w,
{
    assert(v * v * v * v * a * a == v * v * v * v * small_power(a, 2)) by (nonlinear_arith);
    lemma_advance(a, n, e, v, 2, w);
}

proof fn advance_3(a: int, n: int, e: nat, v: int, w: int)
    requires
        n > 0,
        pow(a, e) % n == v,
        (v * v * v * v * a * a * a) % n == w,
    ensures
        pow(a, 4 * e + 3) % n == w,
{
    assert(v * v * v * v * a * a * a == v * v * v * v * small_power(a, 3)) by (nonlinear_arith);
    lemma_advance(a, n, e, v, 3, w);
}

/// A power of a power.
proof fn compose(a: int, n: int, m: nat, c: int, q: nat, w: int)
    requires
        n > 0,
        pow(a, m) % n == c,
        pow(c, q) % n == w,
    ensures
        pow(a, m * q) % n == w,
{
    lemma_pow_multiplies(a, m, q);
    lemma_pow_mod_noop(pow(a, m), q, n);
}

/// An inverse of the predecessor of a power.
proof fn certify(a: int, n: int, m: nat, c: int, inv: int)
    requires
        n > 0,
        pow(a, m) % n == c,
        (inv * (c - 1)) % n == 1,
    ensures
        (inv * (pow(a, m) - 1)) % n == 1,
{
    let v = pow(a, m) - 1;
    lemma_sub_mod_noop(pow(a, m), 1, n);
    lemma_sub_mod_noop(c, 1, n);
    lemma_mod_twice(pow(a, m), n);
    assert(v % n == (c - 1) % n);
    lemma_mul_mod_noop_right(inv, v, n);
    lemma_mul_mod_noop_right(inv, c - 1, n);
}

/// 661 is prime, by trial division.
proof fn lemma_prime_661()
    ensures
        primes::is_prime(661nat),
{
    assert(undivided(661nat, 2nat));
    exclude(661nat, 2nat);
    exclude(661nat, 3nat);
    exclude(661nat, 4nat);
    exclude(661nat, 5nat);
    exclude(661nat, 6nat);
    exclude(661nat, 7nat);
    exclude(661nat, 8nat);
    exclude(661nat, 9nat);
    exclude(661nat, 10nat);
    exclude(661nat, 11nat);
    exclude(661nat, 12nat);
    exclude(661nat, 13nat);
    exclude(661nat, 14nat);
    exclude(661nat, 15nat);
    exclude(661nat, 16nat);
    exclude(661nat, 17nat);
    exclude(661nat, 18nat);
    exclude(661nat, 19nat);
    exclude(661nat, 20nat);
    exclude(661nat, 21nat);
    exclude(661nat, 22nat);
    exclude(661nat, 23nat);
    exclude(661nat, 24nat);
    exclude(661nat, 25nat);
    lemma_trial(661nat, 26nat);
}

/// 853 is prime, by trial division.
proof fn lemma_prime_853()
    ensures
        primes::is_prime(853nat),
{
    assert(undivided(853nat, 2nat));
    exclude(853nat, 2nat);
    exclude(853nat, 3nat);
    exclude(853nat, 4nat);
    exclude(853nat, 5nat);
    exclude(853nat, 6nat);
    exclude(853nat, 7nat);
    exclude(853nat, 8nat);
    exclude(853nat, 9nat);
    exclude(853nat, 10nat);
    exclude(853nat, 11nat);
    exclude(853nat, 12nat);
    exclude(853nat, 13nat);
    exclude(853nat, 14nat);
    exclude(853nat, 15nat);
    exclude(853nat, 16nat);
    exclude(853nat, 17nat);
    exclude(853nat, 18nat);
    exclude(853nat, 19nat);
    exclude(853nat, 20nat);
    exclude(853nat, 21nat);
    exclude(853nat, 22nat);
    exclude(853nat, 23nat);
    exclude(853nat, 24nat);
    exclude(853nat, 25nat);
    exclude(853nat, 26nat);
    exclude(853nat, 27nat);
    exclude(853nat, 28nat);
    exclude(853nat, 29nat);
    lemma_trial(853nat, 30nat);
}

/// 1637 is prime, by trial division.
proof fn lemma_prime_1637()
    ensures
        primes::is_prime(1637nat),
{
    assert(undivided(1637nat, 2nat));
    exclude(1637nat, 2nat);
    exclude(1637nat, 3nat);
    exclude(1637nat, 4nat);
    exclude(1637nat, 5nat);
    exclude(1637nat, 6nat);
    exclude(1637nat, 7nat);
    exclude(1637nat, 8nat);
    exclude(1637nat, 9nat);
    exclude(1637nat, 10nat);
    exclude(1637nat, 11nat);
    exclude(1637nat, 12nat);
    exclude(1637nat, 13nat);
    exclude(1637nat, 14nat);
    exclude(1637nat, 15nat);
    exclude(1637nat, 16nat);
    exclude(1637nat, 17nat);
    exclude(1637nat, 18nat);
    exclude(1637nat, 19nat);
    exclude(1637nat, 20nat);
    exclude(1637nat, 21nat);
    exclude(1637nat, 22nat);
    exclude(1637nat, 23nat);
    exclude(1637nat, 24nat);
    exclude(1637nat, 25nat);
    exclude(1637nat, 26nat);
    exclude(1637nat, 27nat);
    exclude(1637nat, 28nat);
    exclude(1637nat, 29nat);
    exclude(1637nat, 30nat);
    exclude(1637nat, 31nat);
    exclude(1637nat, 32nat);
    exclude(1637nat, 33nat);
    exclude(1637nat, 34nat);
    exclude(1637nat, 35nat);
    exclude(1637nat, 36nat);
    exclude(1637nat, 37nat);
    exclude(1637nat, 38nat);
    exclude(1637nat, 39nat);
    exclude(1637nat, 40nat);
    lemma_trial(1637nat, 41nat);
}

proof fn exclude_93001_1()
    requires
        undivided(93001nat, 2nat),
    ensures
        undivided(93001nat, 82nat),
{
    exclude(93001nat, 2nat);
    exclude(93001nat, 3nat);
    exclude(93001nat, 4nat);
    exclude(93001nat, 5nat);
    exclude(93001nat, 6nat);
    exclude(93001nat, 7nat);
    exclude(93001nat, 8nat);
    exclude(93001nat, 9nat);
    exclude(93001nat, 10nat);
    exclude(93001nat, 11nat);
    exclude(93001nat, 12nat);
    exclude(93001nat, 13nat);
    exclude(93001nat, 14nat);
    exclude(93001nat, 15nat);
    exclude(93001nat, 16nat);
    exclude(93001nat, 17nat);
    exclude(93001nat, 18nat);
    exclude(93001nat, 19nat);
    exclude(93001nat, 20nat);
    exclude(93001nat, 21nat);
    exclude(93001nat, 22nat);
    exclude(93001nat, 23nat);
    exclude(93001nat, 24nat);
    exclude(93001nat, 25nat);
    exclude(93001nat, 26nat);
    exclude(93001nat, 27nat);
    exclude(93001nat, 28nat);
    exclude(93001nat, 29nat);
    exclude(93001nat, 30nat);
    exclude(93001nat, 31nat);
    exclude(93001nat, 32nat);
    exclude(93001nat, 33nat);
    exclude(93001nat, 34nat);
    exclude(93001nat, 35nat);
    exclude(93001nat, 36nat);
    exclude(93001nat, 37nat);
    exclude(93001nat, 38nat);
    exclude(93001nat, 39nat);
    exclude(93001nat, 40nat);
    exclude(93001nat, 41nat);
    exclude(93001nat, 42nat);
    exclude(93001nat, 43nat);
    exclude(93001nat, 44nat);
    exclude(93001nat, 45nat);
    exclude(93001nat, 46nat);
    exclude(93001nat, 47nat);
    exclude(93001nat, 48nat);
    exclude(93001nat, 49nat);
    exclude(93001nat, 50nat);
    exclude(93001nat, 51nat);
    exclude(93001nat, 52nat);
    exclude(93001nat, 53nat);
    exclude(93001nat, 54nat);
    exclude(93001nat, 55nat);
    exclude(93001nat, 56nat);
    exclude(93001nat, 57nat);
    exclude(93001nat, 58nat);
    exclude(93001nat, 59nat);
    exclude(93001nat, 60nat);
    exclude(93001nat, 61nat);
    exclude(93001nat, 62nat);
    exclude(93001nat, 63nat);
    exclude(93001nat, 64nat);
    exclude(93001nat, 65nat);
    exclude(93001nat, 66nat);
    exclude(93001nat, 67nat);
    exclude(93001nat, 68nat);
    exclude(93001nat, 69nat);
    exclude(93001nat, 70nat);
    exclude(93001nat, 71nat);
    exclude(93001nat, 72nat);
    exclude(93001nat, 73nat);
    exclude(93001nat, 74nat);
    exclude(93001nat, 75nat);
    exclude(93001nat, 76nat);
    exclude(93001nat, 77nat);
    exclude(93001nat, 78nat);
    exclude(93001nat, 79nat);
    exclude(93001nat, 80nat);
    exclude(93001nat, 81nat);
}

proof fn exclude_93001_2()
    requires
        undivided(93001nat, 82nat),
    ensures
        undivided(93001nat, 162nat),
{
    exclude(93001nat, 82nat);
    exclude(93001nat, 83nat);
    exclude(93001nat, 84nat);
    exclude(93001nat, 85nat);
    exclude(93001nat, 86nat);
    exclude(93001nat, 87nat);
    exclude(93001nat, 88nat);
    exclude(93001nat, 89nat);
    exclude(93001nat, 90nat);
    exclude(93001nat, 91nat);
    exclude(93001nat, 92nat);
    exclude(93001nat, 93nat);
    exclude(93001nat, 94nat);
    exclude(93001nat, 95nat);
    exclude(93001nat, 96nat);
    exclude(93001nat, 97nat);
    exclude(93001nat, 98nat);
    exclude(93001nat, 99nat);
    exclude(93001nat, 100nat);
    exclude(93001nat, 101nat);
    exclude(93001nat, 102nat);
    exclude(93001nat, 103nat);
    exclude(93001nat, 104nat);
    exclude(93001nat, 105nat);
    exclude(93001nat, 106nat);
    exclude(93001nat, 107nat);
    exclude(93001nat, 108nat);
    exclude(93001nat, 109nat);
    exclude(93001nat, 110nat);
    exclude(93001nat, 111nat);
    exclude(93001nat, 112nat);
    exclude(93001nat, 113nat);
    exclude(93001nat, 114nat);
    exclude(93001nat, 115nat);
    exclude(93001nat, 116nat);
    exclude(93001nat, 117nat);
    exclude(93001nat, 118nat);
    exclude(93001nat, 119nat);
    exclude(93001nat, 120nat);
    exclude(93001nat, 121nat);
    exclude(93001nat, 122nat);
    exclude(93001nat, 123nat);
    exclude(93001nat, 124nat);
    exclude(93001nat, 125nat);
    exclude(93001nat, 126nat);
    exclude(93001nat, 127nat);
    exclude(93001nat, 128nat);
    exclude(93001nat, 129nat);
    exclude(93001nat, 130nat);
    exclude(93001nat, 131nat);
    exclude(93001nat, 132nat);
    exclude(93001nat, 133nat);
    exclude(93001nat, 134nat);
    exclude(93001nat, 135nat);
    exclude(93001nat, 136nat);
    exclude(93001nat, 137nat);
    exclude(93001nat, 138nat);
    exclude(93001nat, 139nat);
    exclude(93001nat, 140nat);
    exclude(93001nat, 141nat);
    exclude(93001nat, 142nat);
    exclude(93001nat, 143nat);
    exclude(93001nat, 144nat);
    exclude(93001nat, 145nat);
    exclude(93001nat, 146nat);
    exclude(93001nat, 147nat);
    exclude(93001nat, 148nat);
    exclude(93001nat, 149nat);
    exclude(93001nat, 150nat);
    exclude(93001nat, 151nat);
    exclude(93001nat, 152nat);
    exclude(93001nat, 153nat);
    exclude(93001nat, 154nat);
    exclude(93001nat, 155nat);
    exclude(93001nat, 156nat);
    exclude(93001nat, 157nat);
    exclude(93001nat, 158nat);
    exclude(93001nat, 159nat);
    exclude(93001nat, 160nat);
    exclude(93001nat, 161nat);
}

proof fn exclude_93001_3()
    requires
        undivided(93001nat, 162nat),
    ensures
        undivided(93001nat, 242nat),
{
    exclude(93001nat, 162nat);
    exclude(93001nat, 163nat);
    exclude(93001nat, 164nat);
    exclude(93001nat, 165nat);
    exclude(93001nat, 166nat);
    exclude(93001nat, 167nat);
    exclude(93001nat, 168nat);
    exclude(93001nat, 169nat);
    exclude(93001nat, 170nat);
    exclude(93001nat, 171nat);
    exclude(93001nat, 172nat);
    exclude(93001nat, 173nat);
    exclude(93001nat, 174nat);
    exclude(93001nat, 175nat);
    exclude(93001nat, 176nat);
    exclude(93001nat, 177nat);
    exclude(93001nat, 178nat);
    exclude(93001nat, 179nat);
    exclude(93001nat, 180nat);
    exclude(93001nat, 181nat);
    exclude(93001nat, 182nat);
    exclude(93001nat, 183nat);
    exclude(93001nat, 184nat);
    exclude(93001nat, 185nat);
    exclude(93001nat, 186nat);
    exclude(93001nat, 187nat);
    exclude(93001nat, 188nat);
    exclude(93001nat, 189nat);
    exclude(93001nat, 190nat);
    exclude(93001nat, 191nat);
    exclude(93001nat, 192nat);
    exclude(93001nat, 193nat);
    exclude(93001nat, 194nat);
    exclude(93001nat, 195nat);
    exclude(93001nat, 196nat);
    exclude(93001nat, 197nat);
    exclude(93001nat, 198nat);
    exclude(93001nat, 199nat);
    exclude(93001nat, 200nat);
    exclude(93001nat, 201nat);
    exclude(93001nat, 202nat);
    exclude(93001nat, 203nat);
    exclude(93001nat, 204nat);
    exclude(93001nat, 205nat);
    exclude(93001nat, 206nat);
    exclude(93001nat, 207nat);
    exclude(93001nat, 208nat);
    exclude(93001nat, 209nat);
    exclude(93001nat, 210nat);
    exclude(93001nat, 211nat);
    exclude(93001nat, 212nat);
    exclude(93001nat, 213nat);
    exclude(93001nat, 214nat);
    exclude(93001nat, 215nat);
    exclude(93001nat, 216nat);
    exclude(93001nat, 217nat);
    exclude(93001nat, 218nat);
    exclude(93001nat, 219nat);
    exclude(93001nat, 220nat);
    exclude(93001nat, 221nat);
    exclude(93001nat, 222nat);
    exclude(93001nat, 223nat);
    exclude(93001nat, 224nat);
    exclude(93001nat, 225nat);
    exclude(93001nat, 226nat);
    exclude(93001nat, 227nat);
    exclude(93001nat, 228nat);
    exclude(93001nat, 229nat);
    exclude(93001nat, 230nat);
    exclude(93001nat, 231nat);
    exclude(93001nat, 232nat);
    exclude(93001nat, 233nat);
    exclude(93001nat, 234nat);
    exclude(93001nat, 235nat);
    exclude(93001nat, 236nat);
    exclude(93001nat, 237nat);
    exclude(93001nat, 238nat);
    exclude(93001nat, 239nat);
    exclude(93001nat, 240nat);
    exclude(93001nat, 241nat);
}

proof fn exclude_93001_4()
    requires
        undivided(93001nat, 242nat),
    ensures
        undivided(93001nat, 305nat),
{
    exclude(93001nat, 242nat);
    exclude(93001nat, 243nat);
    exclude(93001nat, 244nat);
    exclude(93001nat, 245nat);
    exclude(93001nat, 246nat);
    exclude(93001nat, 247nat);
    exclude(93001nat, 248nat);
    exclude(93001nat, 249nat);
    exclude(93001nat, 250nat);
    exclude(93001nat, 251nat);
    exclude(93001nat, 252nat);
    exclude(93001nat, 253nat);
    exclude(93001nat, 254nat);
    exclude(93001nat, 255nat);
    exclude(93001nat, 256nat);
    exclude(93001nat, 257nat);
    exclude(93001nat, 258nat);
    exclude(93001nat, 259nat);
    exclude(93001nat, 260nat);
    exclude(93001nat, 261nat);
    exclude(93001nat, 262nat);
    exclude(93001nat, 263nat);
    exclude(93001nat, 264nat);
    exclude(93001nat, 265nat);
    exclude(93001nat, 266nat);
    exclude(93001nat, 267nat);
    exclude(93001nat, 268nat);
    exclude(93001nat, 269nat);
    exclude(93001nat, 270nat);
    exclude(93001nat, 271nat);
    exclude(93001nat, 272nat);
    exclude(93001nat, 273nat);
    exclude(93001nat, 274nat);
    exclude(93001nat, 275nat);
    exclude(93001nat, 276nat);
    exclude(93001nat, 277nat);
    exclude(93001nat, 278nat);
    exclude(93001nat, 279nat);
    exclude(93001nat, 280nat);
    exclude(93001nat, 281nat);
    exclude(93001nat, 282nat);
    exclude(93001nat, 283nat);
    exclude(93001nat, 284nat);
    exclude(93001nat, 285nat);
    exclude(93001nat, 286nat);
    exclude(93001nat, 287nat);
    exclude(93001nat, 288nat);
    exclude(93001nat, 289nat);
    exclude(93001nat, 290nat);
    exclude(93001nat, 291nat);
    exclude(93001nat, 292nat);
    exclude(93001nat, 293nat);
    exclude(93001nat, 294nat);
    exclude(93001nat, 295nat);
    exclude(93001nat, 296nat);
    exclude(93001nat, 297nat);
    exclude(93001nat, 298nat);
    exclude(93001nat, 299nat);
    exclude(93001nat, 300nat);
    exclude(93001nat, 301nat);
    exclude(93001nat, 302nat);
    exclude(93001nat, 303nat);
    exclude(93001nat, 304nat);
}

/// 93001 is prime, by trial division.
proof fn lemma_prime_93001()
    ensures
        primes::is_prime(93001nat),
{
    assert(undivided(93001nat, 2nat));
    exclude_93001_1();
    exclude_93001_2();
    exclude_93001_3();
    exclude_93001_4();
    lemma_trial(93001nat, 305nat);
}

/// A power of 2 modulo 639533339.
proof fn power_639533339_cofactor()
    ensures
        pow(2int, 458nat) % 639533339int == 569936353int,
{
    start(2int, 639533339int, 1nat);
    advance_3(2int, 639533339int, 1nat, 2int, 128int);
    advance_0(2int, 639533339int, 7nat, 128int, 268435456int);
    advance_2(2int, 639533339int, 28nat, 268435456int, 381214812int);
    advance_2(2int, 639533339int, 114nat, 381214812int, 569936353int);
}

/// A further power modulo 639533339.
proof fn power_639533339_second()
    ensures
        pow(569936353int, 853nat) % 639533339int == 248876995int,
{
    start(569936353int, 639533339int, 3nat);
    advance_1(569936353int, 639533339int, 3nat, 576757596int, 580870054int);
    advance_1(569936353int, 639533339int, 13nat, 580870054int, 48885504int);
    advance_1(569936353int, 639533339int, 53nat, 48885504int, 315972641int);
    advance_1(569936353int, 639533339int, 213nat, 315972641int, 248876995int);
}

/// A further power modulo 639533339.
proof fn power_639533339_first()
    ensures
        pow(569936353int, 1637nat) % 639533339int == 256057581int,
{
    start(569936353int, 639533339int, 1nat);
    advance_2(569936353int, 639533339int, 1nat, 569936353int, 346350812int);
    advance_1(569936353int, 639533339int, 6nat, 346350812int, 282182576int);
    advance_2(569936353int, 639533339int, 25nat, 282182576int, 306995837int);
    advance_1(569936353int, 639533339int, 102nat, 306995837int, 148227881int);
    advance_1(569936353int, 639533339int, 409nat, 148227881int, 256057581int);
}

/// A further power modulo 639533339.
proof fn power_639533339_both()
    ensures
        pow(248876995int, 1637nat) % 639533339int == 1int,
{
    start(248876995int, 639533339int, 1nat);
    advance_2(248876995int, 639533339int, 1nat, 248876995int, 448608357int);
    advance_1(248876995int, 639533339int, 6nat, 448608357int, 605154259int);
    advance_2(248876995int, 639533339int, 25nat, 605154259int, 181348006int);
    advance_1(248876995int, 639533339int, 102nat, 181348006int, 147059079int);
    advance_1(248876995int, 639533339int, 409nat, 147059079int, 1int);
}

/// 639533339 is prime, by the prime factors 1637 and
/// 853 of its predecessor.
proof fn lemma_prime_639533339()
    ensures
        primes::is_prime(639533339nat),
{
    lemma_prime_1637();
    lemma_prime_853();
    power_639533339_cofactor();
    power_639533339_second();
    power_639533339_first();
    power_639533339_both();
    compose(2int, 639533339int, 458nat, 569936353int, 853nat, 248876995int);
    compose(2int, 639533339int, 458nat, 569936353int, 1637nat, 256057581int);
    compose(2int, 639533339int, 390674nat, 248876995int, 1637nat, 1);
    certify(2int, 639533339int, 390674nat, 248876995int, 296391531int);
    certify(2int, 639533339int, 749746nat, 256057581int, 303978671int);
    primes::lemma_pocklington_two(
        639533339nat,
        1637nat,
        390674nat,
        296391531int,
        853nat,
        749746nat,
        303978671int,
        2nat,
        1396361nat,
    );
}

/// A power of 2 modulo 65865678001877903.
proof fn power_65865678001877903_cofactor()
    ensures
        pow(2int, 102990218nat) % 65865678001877903int == 8595199928015311int,
{
    start(2int, 65865678001877903int, 1nat);
    advance_2(2int, 65865678001877903int, 1nat, 2int, 64int);
    advance_0(2int, 65865678001877903int, 6nat, 64int, 16777216int);
    advance_2(2int, 65865678001877903int, 24nat, 16777216int, 33669438334804592int);
    advance_0(2int, 65865678001877903int, 98nat, 33669438334804592int, 29525774262854301int);
    advance_3(2int, 65865678001877903int, 392nat, 29525774262854301int, 59236409187319396int);
    advance_2(2int, 65865678001877903int, 1571nat, 59236409187319396int, 36599328655427822int);
    advance_0(2int, 65865678001877903int, 6286nat, 36599328655427822int, 24290170823953961int);
    advance_0(2int, 65865678001877903int, 25144nat, 24290170823953961int, 3469598488387767int);
    advance_1(2int, 65865678001877903int, 100576nat, 3469598488387767int, 38057013584529261int);
    advance_2(2int, 65865678001877903int, 402305nat, 38057013584529261int, 54636828819129795int);
    advance_0(2int, 65865678001877903int, 1609222nat, 54636828819129795int, 44900285821727216int);
    advance_2(2int, 65865678001877903int, 6436888nat, 44900285821727216int, 11626112380210856int);
    advance_2(2int, 65865678001877903int, 25747554nat, 11626112380210856int, 8595199928015311int);
}

/// A further power modulo 65865678001877903.
proof fn power_65865678001877903_factor()
    ensures
        pow(8595199928015311int, 639533339nat) % 65865678001877903int == 1int,
{
    start(8595199928015311int, 65865678001877903int, 2nat);
    advance_1(8595199928015311int, 65865678001877903int, 2nat, 19226070235069677int, 18611656393288241int);
    advance_2(8595199928015311int, 65865678001877903int, 9nat, 18611656393288241int, 48447415136911303int);
    advance_0(8595199928015311int, 65865678001877903int, 38nat, 48447415136911303int, 51329992322973469int);
    advance_1(8595199928015311int, 65865678001877903int, 152nat, 51329992322973469int, 58465146411114843int);
    advance_3(8595199928015311int, 65865678001877903int, 609nat, 58465146411114843int, 43282835694537230int);
    advance_2(8595199928015311int, 65865678001877903int, 2439nat, 43282835694537230int, 55317398354378580int);
    advance_2(8595199928015311int, 65865678001877903int, 9758nat, 55317398354378580int, 12272844760177368int);
    advance_0(8595199928015311int, 65865678001877903int, 39034nat, 12272844760177368int, 51365274646233044int);
    advance_0(8595199928015311int, 65865678001877903int, 156136nat, 51365274646233044int, 41777112883480135int);
    advance_1(8595199928015311int, 65865678001877903int, 624544nat, 41777112883480135int, 34048583907657784int);
    advance_0(8595199928015311int, 65865678001877903int, 2498177nat, 34048583907657784int, 7159896889705541int);
    advance_1(8595199928015311int, 65865678001877903int, 9992708nat, 7159896889705541int, 45545585862734603int);
    advance_2(8595199928015311int, 65865678001877903int, 39970833nat, 45545585862734603int, 57018535114983506int);
    advance_3(8595199928015311int, 65865678001877903int, 159883334nat, 57018535114983506int, 1int);
}

/// 65865678001877903 is prime, by the prime factor 639533339 of its predecessor.
proof fn lemma_prime_65865678001877903()
    ensures
        primes::is_prime(65865678001877903nat),
{
    lemma_prime_639533339();
    power_65865678001877903_cofactor();
    power_65865678001877903_factor();
    compose(2int, 65865678001877903int, 102990218nat, 8595199928015311int, 639533339nat, 1);
    certify(2int, 65865678001877903int, 102990218nat, 8595199928015311int, 39033286818209505int);
    primes::lemma_pocklington(65865678001877903nat, 639533339nat, 102990218nat, 2nat, 39033286818209505int);
}

/// A power of 2 modulo 13818364434197438864469338081.
proof fn power_13818364434197438864469338081_cofactor()
    ensures
        pow(2int, 209796131360nat) % 13818364434197438864469338081int == 7935281130018080704632618576int,
{
    start(2int, 13818364434197438864469338081int, 3nat);
    advance_0(2int, 13818364434197438864469338081int, 3nat, 8int, 4096int);
    advance_0(2int, 13818364434197438864469338081int, 12nat, 4096int, 281474976710656int);
    advance_3(2int, 13818364434197438864469338081int, 48nat, 281474976710656int, 3495777377331334031211076330int);
    advance_1(2int, 13818364434197438864469338081int, 195nat, 3495777377331334031211076330int, 3033976872573099009872716038int);
    advance_2(2int, 13818364434197438864469338081int, 781nat, 3033976872573099009872716038int, 2529445442512532155623637994int);
    advance_0(2int, 13818364434197438864469338081int, 3126nat, 2529445442512532155623637994int, 3112286383224838334422801731int);
    advance_3(2int, 13818364434197438864469338081int, 12504nat, 3112286383224838334422801731int, 1565875933293083035397743092int);
    advance_1(2int, 13818364434197438864469338081int, 50019nat, 1565875933293083035397743092int, 3614946713776805242456025115int);
    advance_0(2int, 13818364434197438864469338081int, 200077nat, 3614946713776805242456025115int, 6696758088301655987143847572int);
    advance_2(2int, 13818364434197438864469338081int, 800308nat, 6696758088301655987143847572int, 10070268653200299995843475387int);
    advance_3(2int, 13818364434197438864469338081int, 3201234nat, 10070268653200299995843475387int, 10583777458174873562128618897int);
    advance_2(2int, 13818364434197438864469338081int, 12804939nat, 10583777458174873562128618897int, 13703444609288914443892883008int);
    advance_2(2int, 13818364434197438864469338081int, 51219758nat, 13703444609288914443892883008int, 6696750377520025105869736712int);
    advance_2(2int, 13818364434197438864469338081int, 204879034nat, 6696750377520025105869736712int, 7993853100498013929712605736int);
    advance_0(2int, 13818364434197438864469338081int, 819516138nat, 7993853100498013929712605736int, 776611901396362500027549364int);
    advance_2(2int, 13818364434197438864469338081int, 3278064552nat, 776611901396362500027549364int, 9108418817094604941133376915int);
    advance_0(2int, 13818364434197438864469338081int, 13112258210nat, 9108418817094604941133376915int, 9851413725777882755728564398int);
    advance_0(2int, 13818364434197438864469338081int, 52449032840nat, 9851413725777882755728564398int, 7935281130018080704632618576int);
}

proof fn power_13818364434197438864469338081_factor_1()
    requires
        pow(7935281130018080704632618576int, 3nat) % 13818364434197438864469338081int == 6024626098376368604520791548int,
    ensures
        pow(7935281130018080704632618576int, 1029151218779342nat) % 13818364434197438864469338081int == 3859583265371772333019919582int,
{
    advance_2(7935281130018080704632618576int, 13818364434197438864469338081int, 3nat, 6024626098376368604520791548int, 13033178315209579486208481915int);
    advance_2(7935281130018080704632618576int, 13818364434197438864469338081int, 14nat, 13033178315209579486208481915int, 3487141057479528001213568715int);
    advance_2(7935281130018080704632618576int, 13818364434197438864469338081int, 58nat, 3487141057479528001213568715int, 13047074007182443388793947416int);
    advance_0(7935281130018080704632618576int, 13818364434197438864469338081int, 234nat, 13047074007182443388793947416int, 2277860932176299701036661121int);
    advance_0(7935281130018080704632618576int, 13818364434197438864469338081int, 936nat, 2277860932176299701036661121int, 11582084072275290222046741408int);
    advance_0(7935281130018080704632618576int, 13818364434197438864469338081int, 3744nat, 11582084072275290222046741408int, 8368951715619670804580817870int);
    advance_0(7935281130018080704632618576int, 13818364434197438864469338081int, 14976nat, 8368951715619670804580817870int, 10413093752592839881829586129int);
    advance_1(7935281130018080704632618576int, 13818364434197438864469338081int, 59904nat, 10413093752592839881829586129int, 4089172793395676412059969189int);
    advance_3(7935281130018080704632618576int, 13818364434197438864469338081int, 239617nat, 4089172793395676412059969189int, 3995911146589813549241500956int);
    advance_3(7935281130018080704632618576int, 13818364434197438864469338081int, 958471nat, 3995911146589813549241500956int, 3274665168306567780251474939int);
    advance_0(7935281130018080704632618576int, 13818364434197438864469338081int, 3833887nat, 3274665168306567780251474939int, 12137052172119357729802499609int);
    advance_0(7935281130018080704632618576int, 13818364434197438864469338081int, 15335548nat, 12137052172119357729802499609int, 9480013504884722808418395875int);
    advance_3(7935281130018080704632618576int, 13818364434197438864469338081int, 61342192nat, 9480013504884722808418395875int, 3138503201478530464709256003int);
    advance_1(7935281130018080704632618576int, 13818364434197438864469338081int, 245368771nat, 3138503201478530464709256003int, 2281409498763660828057122321int);
    advance_0(7935281130018080704632618576int, 13818364434197438864469338081int, 981475085nat, 2281409498763660828057122321int, 9286782187083334098797683226int);
    advance_0(7935281130018080704632618576int, 13818364434197438864469338081int, 3925900340nat, 9286782187083334098797683226int, 11241010701785258861774228018int);
    advance_3(7935281130018080704632618576int, 13818364434197438864469338081int, 15703601360nat, 11241010701785258861774228018int, 1878424754868214010089219927int);
    advance_0(7935281130018080704632618576int, 13818364434197438864469338081int, 62814405443nat, 1878424754868214010089219927int, 8378849114816027470545259614int);
    advance_1(7935281130018080704632618576int, 13818364434197438864469338081int, 251257621772nat, 8378849114816027470545259614int, 10620567016425678254099014230int);
    advance_0(7935281130018080704632618576int, 13818364434197438864469338081int, 1005030487089nat, 10620567016425678254099014230int, 93879213923488799007543223int);
    advance_3(7935281130018080704632618576int, 13818364434197438864469338081int, 4020121948356nat, 93879213923488799007543223int, 5715998367833451257024545553int);
    advance_0(7935281130018080704632618576int, 13818364434197438864469338081int, 16080487793427nat, 5715998367833451257024545553int, 6932638189365131593329946845int);
    advance_3(7935281130018080704632618576int, 13818364434197438864469338081int, 64321951173708nat, 6932638189365131593329946845int, 3124199797785987746960266099int);
    advance_2(7935281130018080704632618576int, 13818364434197438864469338081int, 257287804694835nat, 3124199797785987746960266099int, 3859583265371772333019919582int);
}

proof fn power_13818364434197438864469338081_factor_2()
    requires
        pow(7935281130018080704632618576int, 1029151218779342nat) % 13818364434197438864469338081int == 3859583265371772333019919582int,
    ensures
        pow(7935281130018080704632618576int, 65865678001877903nat) % 13818364434197438864469338081int == 1int,
{
    advance_0(7935281130018080704632618576int, 13818364434197438864469338081int, 1029151218779342nat, 3859583265371772333019919582int, 7624688656232388209735739235int);
    advance_3(7935281130018080704632618576int, 13818364434197438864469338081int, 4116604875117368nat, 7624688656232388209735739235int, 9228697715789270620358885072int);
    advance_3(7935281130018080704632618576int, 13818364434197438864469338081int, 16466419500469475nat, 9228697715789270620358885072int, 1int);
}

/// A further power modulo 13818364434197438864469338081.
proof fn power_13818364434197438864469338081_factor()
    ensures
        pow(7935281130018080704632618576int, 65865678001877903nat) % 13818364434197438864469338081int == 1int,
{
    start(7935281130018080704632618576int, 13818364434197438864469338081int, 3nat);
    power_13818364434197438864469338081_factor_1();
    power_13818364434197438864469338081_factor_2();
}

/// 13818364434197438864469338081 is prime, by the prime factor 65865678001877903 of its predecessor.
proof fn lemma_prime_13818364434197438864469338081()
    ensures
        primes::is_prime(13818364434197438864469338081nat),
{
    lemma_prime_65865678001877903();
    power_13818364434197438864469338081_cofactor();
    power_13818364434197438864469338081_factor();
    compose(2int, 13818364434197438864469338081int, 209796131360nat, 7935281130018080704632618576int, 65865678001877903nat, 1);
    certify(2int, 13818364434197438864469338081int, 209796131360nat, 7935281130018080704632618576int, 12281824895882260584345986666int);
    primes::lemma_pocklington(13818364434197438864469338081nat, 65865678001877903nat, 209796131360nat, 2nat, 12281824895882260584345986666int);
}

/// A power of 2 modulo 12048837557.
proof fn power_12048837557_cofactor()
    ensures
        pow(2int, 196nat) % 12048837557int == 9314271357int,
{
    start(2int, 12048837557int, 3nat);
    advance_0(2int, 12048837557int, 3nat, 8int, 4096int);
    advance_1(2int, 12048837557int, 12nat, 4096int, 4165083158int);
    advance_0(2int, 12048837557int, 49nat, 4165083158int, 9314271357int);
}

/// A further power modulo 12048837557.
proof fn power_12048837557_second()
    ensures
        pow(9314271357int, 661nat) % 12048837557int == 4746995210int,
{
    start(9314271357int, 12048837557int, 2nat);
    advance_2(9314271357int, 12048837557int, 2nat, 9168089018int, 9046522363int);
    advance_1(9314271357int, 12048837557int, 10nat, 9046522363int, 5082060440int);
    advance_1(9314271357int, 12048837557int, 41nat, 5082060440int, 8433024288int);
    advance_1(9314271357int, 12048837557int, 165nat, 8433024288int, 4746995210int);
}

/// A further power modulo 12048837557.
proof fn power_12048837557_first()
    ensures
        pow(9314271357int, 93001nat) % 12048837557int == 8877273464int,
{
    start(9314271357int, 12048837557int, 1nat);
    advance_1(9314271357int, 12048837557int, 1nat, 9314271357int, 4061668814int);
    advance_2(9314271357int, 12048837557int, 5nat, 4061668814int, 234144577int);
    advance_2(9314271357int, 12048837557int, 22nat, 234144577int, 6628019596int);
    advance_3(9314271357int, 12048837557int, 90nat, 6628019596int, 347048005int);
    advance_1(9314271357int, 12048837557int, 363nat, 347048005int, 10782540533int);
    advance_0(9314271357int, 12048837557int, 1453nat, 10782540533int, 11866516789int);
    advance_2(9314271357int, 12048837557int, 5812nat, 11866516789int, 10078003434int);
    advance_1(9314271357int, 12048837557int, 23250nat, 10078003434int, 8877273464int);
}

/// A further power modulo 12048837557.
proof fn power_12048837557_both()
    ensures
        pow(4746995210int, 93001nat) % 12048837557int == 1int,
{
    start(4746995210int, 12048837557int, 1nat);
    advance_1(4746995210int, 12048837557int, 1nat, 4746995210int, 2981714033int);
    advance_2(4746995210int, 12048837557int, 5nat, 2981714033int, 6023560310int);
    advance_2(4746995210int, 12048837557int, 22nat, 6023560310int, 10390882295int);
    advance_3(4746995210int, 12048837557int, 90nat, 10390882295int, 6776742415int);
    advance_1(4746995210int, 12048837557int, 363nat, 6776742415int, 5748487736int);
    advance_0(4746995210int, 12048837557int, 1453nat, 5748487736int, 7776442859int);
    advance_2(4746995210int, 12048837557int, 5812nat, 7776442859int, 1421815290int);
    advance_1(4746995210int, 12048837557int, 23250nat, 1421815290int, 1int);
}

/// 12048837557 is prime, by the prime factors 93001 and
/// 661 of its predecessor.
proof fn lemma_prime_12048837557()
    ensures
        primes::is_prime(12048837557nat),
{
    lemma_prime_93001();
    lemma_prime_661();
    power_12048837557_cofactor();
    power_12048837557_second();
    power_12048837557_first();
    power_12048837557_both();
    compose(2int, 12048837557int, 196nat, 9314271357int, 661nat, 4746995210int);
    compose(2int, 12048837557int, 196nat, 9314271357int, 93001nat, 8877273464int);
    compose(2int, 12048837557int, 129556nat, 4746995210int, 93001nat, 1);
    certify(2int, 12048837557int, 129556nat, 4746995210int, 10304344409int);
    certify(2int, 12048837557int, 18228196nat, 8877273464int, 1826643224int);
    primes::lemma_pocklington_two(
        12048837557nat,
        93001nat,
        129556nat,
        10304344409int,
        661nat,
        18228196nat,
        1826643224int,
        2nat,
        61473661nat,
    );
}

/// A power of 2 modulo 5156902474397.
proof fn power_5156902474397_cofactor()
    ensures
        pow(2int, 428nat) % 5156902474397int == 4746712836098int,
{
    start(2int, 5156902474397int, 1nat);
    advance_2(2int, 5156902474397int, 1nat, 2int, 64int);
    advance_2(2int, 5156902474397int, 6nat, 64int, 67108864int);
    advance_3(2int, 5156902474397int, 26nat, 67108864int, 3848293325051int);
    advance_0(2int, 5156902474397int, 107nat, 3848293325051int, 4746712836098int);
}

/// A further power modulo 5156902474397.
proof fn power_5156902474397_factor()
    ensures
        pow(4746712836098int, 12048837557nat) % 5156902474397int == 1int,
{
    start(4746712836098int, 5156902474397int, 2nat);
    advance_3(4746712836098int, 5156902474397int, 2nat, 4873537632190int, 1512708647324int);
    advance_0(4746712836098int, 5156902474397int, 11nat, 1512708647324int, 1372198352576int);
    advance_3(4746712836098int, 5156902474397int, 44nat, 1372198352576int, 3534033127334int);
    advance_2(4746712836098int, 5156902474397int, 179nat, 3534033127334int, 3949638834514int);
    advance_0(4746712836098int, 5156902474397int, 718nat, 3949638834514int, 4889216364411int);
    advance_2(4746712836098int, 5156902474397int, 2872nat, 4889216364411int, 4863306363187int);
    advance_2(4746712836098int, 5156902474397int, 11490nat, 4863306363187int, 569229458997int);
    advance_2(4746712836098int, 5156902474397int, 45962nat, 569229458997int, 1056634934969int);
    advance_2(4746712836098int, 5156902474397int, 183850nat, 1056634934969int, 4214317258230int);
    advance_2(4746712836098int, 5156902474397int, 735402nat, 4214317258230int, 2188467409472int);
    advance_2(4746712836098int, 5156902474397int, 2941610nat, 2188467409472int, 4903139152562int);
    advance_3(4746712836098int, 5156902474397int, 11766442nat, 4903139152562int, 4488210961748int);
    advance_2(4746712836098int, 5156902474397int, 47065771nat, 4488210961748int, 2260607923718int);
    advance_3(4746712836098int, 5156902474397int, 188263086nat, 2260607923718int, 1513905999439int);
    advance_1(4746712836098int, 5156902474397int, 753052347nat, 1513905999439int, 4570632802352int);
    advance_1(4746712836098int, 5156902474397int, 3012209389nat, 4570632802352int, 1int);
}

/// 5156902474397 is prime, by the prime factor 12048837557 of its predecessor.
proof fn lemma_prime_5156902474397()
    ensures
        primes::is_prime(5156902474397nat),
{
    lemma_prime_12048837557();
    power_5156902474397_cofactor();
    power_5156902474397_factor();
    compose(2int, 5156902474397int, 428nat, 4746712836098int, 12048837557nat, 1);
    certify(2int, 5156902474397int, 428nat, 4746712836098int, 5089286551700int);
    primes::lemma_pocklington(5156902474397nat, 12048837557nat, 428nat, 2nat, 5089286551700int);
}

/// A power of 2 modulo 1670836401704629.
proof fn power_1670836401704629_cofactor()
    ensures
        pow(2int, 324nat) % 1670836401704629int == 11046204280772int,
{
    start(2int, 1670836401704629int, 1nat);
    advance_1(2int, 1670836401704629int, 1nat, 2int, 32int);
    advance_0(2int, 1670836401704629int, 5nat, 32int, 1048576int);
    advance_1(2int, 1670836401704629int, 20nat, 1048576int, 1551356960661984int);
    advance_0(2int, 1670836401704629int, 81nat, 1551356960661984int, 11046204280772int);
}

/// A further power modulo 1670836401704629.
proof fn power_1670836401704629_factor()
    ensures
        pow(11046204280772int, 5156902474397nat) % 1670836401704629int == 1int,
{
    start(11046204280772int, 1670836401704629int, 1nat);
    advance_0(11046204280772int, 1670836401704629int, 1nat, 11046204280772int, 243335622413464int);
    advance_2(11046204280772int, 1670836401704629int, 4nat, 243335622413464int, 824118890218688int);
    advance_3(11046204280772int, 1670836401704629int, 18nat, 824118890218688int, 49492090486633int);
    advance_0(11046204280772int, 1670836401704629int, 75nat, 49492090486633int, 142460584602657int);
    advance_0(11046204280772int, 1670836401704629int, 300nat, 142460584602657int, 1080461158659793int);
    advance_2(11046204280772int, 1670836401704629int, 1200nat, 1080461158659793int, 811442543936487int);
    advance_2(11046204280772int, 1670836401704629int, 4802nat, 811442543936487int, 1113683759450937int);
    advance_3(11046204280772int, 1670836401704629int, 19210nat, 1113683759450937int, 1470387515290701int);
    advance_3(11046204280772int, 1670836401704629int, 76843nat, 1470387515290701int, 1364249210607750int);
    advance_1(11046204280772int, 1670836401704629int, 307375nat, 1364249210607750int, 185921603602951int);
    advance_1(11046204280772int, 1670836401704629int, 1229501nat, 185921603602951int, 31384141629922int);
    advance_1(11046204280772int, 1670836401704629int, 4918005nat, 31384141629922int, 338760206885147int);
    advance_3(11046204280772int, 1670836401704629int, 19672021nat, 338760206885147int, 566863234295377int);
    advance_0(11046204280772int, 1670836401704629int, 78688087nat, 566863234295377int, 1651831741258945int);
    advance_1(11046204280772int, 1670836401704629int, 314752348nat, 1651831741258945int, 498053521471380int);
    advance_0(11046204280772int, 1670836401704629int, 1259009393nat, 498053521471380int, 865056267209583int);
    advance_2(11046204280772int, 1670836401704629int, 5036037572nat, 865056267209583int, 337174974857465int);
    advance_2(11046204280772int, 1670836401704629int, 20144150290nat, 337174974857465int, 1504549373680653int);
    advance_1(11046204280772int, 1670836401704629int, 80576601162nat, 1504549373680653int, 585835722703625int);
    advance_3(11046204280772int, 1670836401704629int, 322306404649nat, 585835722703625int, 1670143628958792int);
    advance_1(11046204280772int, 1670836401704629int, 1289225618599nat, 1670143628958792int, 1int);
}

/// 1670836401704629 is prime, by the prime factor 5156902474397 of its predecessor.
proof fn lemma_prime_1670836401704629()
    ensures
        primes::is_prime(1670836401704629nat),
{
    lemma_prime_5156902474397();
    power_1670836401704629_cofactor();
    power_1670836401704629_factor();
    compose(2int, 1670836401704629int, 324nat, 11046204280772int, 5156902474397nat, 1);
    certify(2int, 1670836401704629int, 324nat, 11046204280772int, 735766788910399int);
    primes::lemma_pocklington(1670836401704629nat, 5156902474397nat, 324nat, 2nat, 735766788910399int);
}

proof fn power_modulus_cofactor_1()
    requires
        pow(2int, 2nat) % 21888242871839275222246405745257275088548364400416034343698204186575808495617int == 4int,
    ensures
        pow(2int, 822281630689634nat) % 21888242871839275222246405745257275088548364400416034343698204186575808495617int == 6273129052205839970545164780466481252413500430122694314768516248080968574080int,
{
    advance_3(2int, 21888242871839275222246405745257275088548364400416034343698204186575808495617int, 2nat, 4int, 2048int);
    advance_2(2int, 21888242871839275222246405745257275088548364400416034343698204186575808495617int, 11nat, 2048int, 70368744177664int);
    advance_2(2int, 21888242871839275222246405745257275088548364400416034343698204186575808495617int, 46nat, 70368744177664int, 98079714615416886934934209737619787751599303819750539264int);
    advance_3(2int, 21888242871839275222246405745257275088548364400416034343698204186575808495617int, 186nat, 98079714615416886934934209737619787751599303819750539264int, 683342410971454129789421161102464845105246981569358911197049191567214980518int);
    advance_3(2int, 21888242871839275222246405745257275088548364400416034343698204186575808495617int, 747nat, 683342410971454129789421161102464845105246981569358911197049191567214980518int, 6128442394084188246909100226493096989092498916230794309779919028327380626102int);
    advance_1(2int, 21888242871839275222246405745257275088548364400416034343698204186575808495617int, 2991nat, 6128442394084188246909100226493096989092498916230794309779919028327380626102int, 19945044536827874730278953709984777836565870148438674734439854367975384274895int);
    advance_3(2int, 21888242871839275222246405745257275088548364400416034343698204186575808495617int, 11965nat, 19945044536827874730278953709984777836565870148438674734439854367975384274895int, 7643061562245303834495276336375976521239212221038662742386636091263831788984int);
    advance_0(2int, 21888242871839275222246405745257275088548364400416034343698204186575808495617int, 47863nat, 7643061562245303834495276336375976521239212221038662742386636091263831788984int, 7659209643241512122484122752557507234176540586377996843157824907879398290786int);
    advance_1(2int, 21888242871839275222246405745257275088548364400416034343698204186575808495617int, 191452nat, 7659209643241512122484122752557507234176540586377996843157824907879398290786int, 7949816904728894883241313797041558719925313413050338621190488762467193648727int);
    advance_1(2int, 21888242871839275222246405745257275088548364400416034343698204186575808495617int, 765809nat, 7949816904728894883241313797041558719925313413050338621190488762467193648727int, 19493374781035531509946759367953420075077720681377220355569585979969883532877int);
    advance_3(2int, 21888242871839275222246405745257275088548364400416034343698204186575808495617int, 3063237nat, 19493374781035531509946759367953420075077720681377220355569585979969883532877int, 5548464012629041747726572071680392311003330784785643055223681250209281582042int);
    advance_0(2int, 21888242871839275222246405745257275088548364400416034343698204186575808495617int, 12252951nat, 5548464012629041747726572071680392311003330784785643055223681250209281582042int, 20555666703154621662406606000502778881715961068649092935860302326390045167500int);
    advance_2(2int, 21888242871839275222246405745257275088548364400416034343698204186575808495617int, 49011804nat, 20555666703154621662406606000502778881715961068649092935860302326390045167500int, 11768990373502581538584047052080502866335057946401807821350748120492836012155int);
    advance_0(2int, 21888242871839275222246405745257275088548364400416034343698204186575808495617int, 196047218nat, 11768990373502581538584047052080502866335057946401807821350748120492836012155int, 16115522174536389911339361639573658843816537878090415721063258294031486998371int);
    advance_0(2int, 21888242871839275222246405745257275088548364400416034343698204186575808495617int, 784188872nat, 16115522174536389911339361639573658843816537878090415721063258294031486998371int, 237301912525965044288198485723843006707600638750601599556766158988129731438int);
    advance_0(2int, 21888242871839275222246405745257275088548364400416034343698204186575808495617int, 3136755488nat, 237301912525965044288198485723843006707600638750601599556766158988129731438int, 14601459963791567925085585239001409144125276168500395333304014495767789645402int);
    advance_2(2int, 21888242871839275222246405745257275088548364400416034343698204186575808495617int, 12547021952nat, 14601459963791567925085585239001409144125276168500395333304014495767789645402int, 18830315893338309055384746006909453708403419219060320622636976353996598938572int);
    advance_2(2int, 21888242871839275222246405745257275088548364400416034343698204186575808495617int, 50188087810nat, 18830315893338309055384746006909453708403419219060320622636976353996598938572int, 615863375158791046479295267329411045726487295432201979146755512006040680428int);
    advance_2(2int, 21888242871839275222246405745257275088548364400416034343698204186575808495617int, 200752351242nat, 615863375158791046479295267329411045726487295432201979146755512006040680428int, 2881846776870378446252739677444854675296576879709586516852528277723308776573int);
    advance_1(2int, 21888242871839275222246405745257275088548364400416034343698204186575808495617int, 803009404970nat, 2881846776870378446252739677444854675296576879709586516852528277723308776573int, 10776130714936673121847152943034932551548514383908132918775987195292463804921int);
    advance_1(2int, 21888242871839275222246405745257275088548364400416034343698204186575808495617int, 3212037619881nat, 10776130714936673121847152943034932551548514383908132918775987195292463804921int, 13448424318156089466239541067763103799885243270638594103324139200620026940023int);
    advance_2(2int, 21888242871839275222246405745257275088548364400416034343698204186575808495617int, 12848150479525nat, 13448424318156089466239541067763103799885243270638594103324139200620026940023int, 3831165978040204488067319906145412081708929870816627290265247926304057320850int);
    advance_0(2int, 21888242871839275222246405745257275088548364400416034343698204186575808495617int, 51392601918102nat, 3831165978040204488067319906145412081708929870816627290265247926304057320850int, 6833087307797491816167125196435315447238093280456905846939843903850147497448int);
    advance_2(2int, 21888242871839275222246405745257275088548364400416034343698204186575808495617int, 205570407672408nat, 6833087307797491816167125196435315447238093280456905846939843903850147497448int, 6273129052205839970545164780466481252413500430122694314768516248080968574080int);
}

proof fn power_modulus_cofactor_2()
    requires
        pow(2int, 822281630689634nat) % 21888242871839275222246405745257275088548364400416034343698204186575808495617int == 6273129052205839970545164780466481252413500430122694314768516248080968574080int,
    ensures
        pow(2int, 231451702847965153741762658304nat) % 21888242871839275222246405745257275088548364400416034343698204186575808495617int == 13398049774576265121776226031696507244231951467966789327619461861234582477336int,
{
    advance_2(2int, 21888242871839275222246405745257275088548364400416034343698204186575808495617int, 822281630689634nat, 6273129052205839970545164780466481252413500430122694314768516248080968574080int, 18334341469890741274937013769744110410820127855328678913321315621749944966985int);
    advance_2(2int, 21888242871839275222246405745257275088548364400416034343698204186575808495617int, 3289126522758538nat, 18334341469890741274937013769744110410820127855328678913321315621749944966985int, 3121946003212659093068080819325630801594182645828112676265997023472460346825int);
    advance_2(2int, 21888242871839275222246405745257275088548364400416034343698204186575808495617int, 13156506091034154nat, 3121946003212659093068080819325630801594182645828112676265997023472460346825int, 16680539197315292238669132393735601779340948210924412072708912534003079304216int);
    advance_0(2int, 21888242871839275222246405745257275088548364400416034343698204186575808495617int, 52626024364136618nat, 16680539197315292238669132393735601779340948210924412072708912534003079304216int, 10197565499360844294221463076383361342550683510436045892384485447267239098222int);
    advance_3(2int, 21888242871839275222246405745257275088548364400416034343698204186575808495617int, 210504097456546472nat, 10197565499360844294221463076383361342550683510436045892384485447267239098222int, 9615858408683405198197151680671129955789313064786180126066582650909477306971int);
    advance_0(2int, 21888242871839275222246405745257275088548364400416034343698204186575808495617int, 842016389826185891nat, 9615858408683405198197151680671129955789313064786180126066582650909477306971int, 11005831895682292616874623241127081979034209184058250271500995095251917767923int);
    advance_3(2int, 21888242871839275222246405745257275088548364400416034343698204186575808495617int, 3368065559304743564nat, 11005831895682292616874623241127081979034209184058250271500995095251917767923int, 20958131683518074203341184186626145426344209056491932222329891275714389900927int);
    advance_2(2int, 21888242871839275222246405745257275088548364400416034343698204186575808495617int, 13472262237218974259nat, 20958131683518074203341184186626145426344209056491932222329891275714389900927int, 13417584175630685511682788580360605484988539702517985764054206291413765466035int);
    advance_0(2int, 21888242871839275222246405745257275088548364400416034343698204186575808495617int, 53889048948875897038nat, 13417584175630685511682788580360605484988539702517985764054206291413765466035int, 9667532089774494009061619432635606227742254320759412545224038700569997092489int);
    advance_3(2int, 21888242871839275222246405745257275088548364400416034343698204186575808495617int, 215556195795503588152nat, 9667532089774494009061619432635606227742254320759412545224038700569997092489int, 4998755320182284204689067065847150105674725960292378345315704547477701871666int);
    advance_1(2int, 21888242871839275222246405745257275088548364400416034343698204186575808495617int, 862224783182014352611nat, 4998755320182284204689067065847150105674725960292378345315704547477701871666int, 653303007241731512796586821163761525798825065657732063651183085957381037173int);
    advance_1(2int, 21888242871839275222246405745257275088548364400416034343698204186575808495617int, 3448899132728057410445nat, 653303007241731512796586821163761525798825065657732063651183085957381037173int, 15745267001599969865780052382846235557376723581615501627813198049607326788057int);
    advance_0(2int, 21888242871839275222246405745257275088548364400416034343698204186575808495617int, 13795596530912229641781nat, 15745267001599969865780052382846235557376723581615501627813198049607326788057int, 21683234898089000903237043869030906439642099879054012436225660003973813222615int);
    advance_0(2int, 21888242871839275222246405745257275088548364400416034343698204186575808495617int, 55182386123648918567124nat, 21683234898089000903237043869030906439642099879054012436225660003973813222615int, 17242717454821934955789451689723350474215049300956985455238483018179966587196int);
    advance_0(2int, 21888242871839275222246405745257275088548364400416034343698204186575808495617int, 220729544494595674268496nat, 17242717454821934955789451689723350474215049300956985455238483018179966587196int, 15982174973343244604919164814271745824743303672742305589233964279099940213021int);
    advance_3(2int, 21888242871839275222246405745257275088548364400416034343698204186575808495617int, 882918177978382697073984nat, 15982174973343244604919164814271745824743303672742305589233964279099940213021int, 11945868222316804880392745220810750588513885904109248741549072835227521884524int);
    advance_0(2int, 21888242871839275222246405745257275088548364400416034343698204186575808495617int, 3531672711913530788295939nat, 11945868222316804880392745220810750588513885904109248741549072835227521884524int, 3248337901750163290226300140871615234990176503775455595544337043403165044849int);
    advance_0(2int, 21888242871839275222246405745257275088548364400416034343698204186575808495617int, 14126690847654123153183756nat, 3248337901750163290226300140871615234990176503775455595544337043403165044849int, 5913974528731395704055590681857956724009853598974884908819574694993566820917int);
    advance_0(2int, 21888242871839275222246405745257275088548364400416034343698204186575808495617int, 56506763390616492612735024nat, 5913974528731395704055590681857956724009853598974884908819574694993566820917int, 10839653678352608288574077155794139931985331812076842920454576538625137236287int);
    advance_0(2int, 21888242871839275222246405745257275088548364400416034343698204186575808495617int, 226027053562465970450940096nat, 10839653678352608288574077155794139931985331812076842920454576538625137236287int, 16111008459028796491357257069247621992653499540979973157550853407109493280547int);
    advance_0(2int, 21888242871839275222246405745257275088548364400416034343698204186575808495617int, 904108214249863881803760384nat, 16111008459028796491357257069247621992653499540979973157550853407109493280547int, 10513002122215437020565315871481284487610256077402723252469598904339673518651int);
    advance_0(2int, 21888242871839275222246405745257275088548364400416034343698204186575808495617int, 3616432856999455527215041536nat, 10513002122215437020565315871481284487610256077402723252469598904339673518651int, 13999309723704896655093909720466623897887431451786101092779649805378195241726int);
    advance_0(2int, 21888242871839275222246405745257275088548364400416034343698204186575808495617int, 14465731427997822108860166144nat, 13999309723704896655093909720466623897887431451786101092779649805378195241726int, 10005690243391103465823861620864416769189617702240363279543358135518111101018int);
    advance_0(2int, 21888242871839275222246405745257275088548364400416034343698204186575808495617int, 57862925711991288435440664576nat, 10005690243391103465823861620864416769189617702240363279543358135518111101018int, 13398049774576265121776226031696507244231951467966789327619461861234582477336int);
}

proof fn power_modulus_cofactor_3()
    requires
        pow(2int, 231451702847965153741762658304nat) % 21888242871839275222246405745257275088548364400416034343698204186575808495617int == 13398049774576265121776226031696507244231951467966789327619461861234582477336int,
    ensures
        pow(2int, 948026174865265269726259848413184nat) % 21888242871839275222246405745257275088548364400416034343698204186575808495617int == 4067217240286848671452265983065331897323918408910809300406102239489012348584int,
{
    advance_0(2int, 21888242871839275222246405745257275088548364400416034343698204186575808495617int, 231451702847965153741762658304nat, 13398049774576265121776226031696507244231951467966789327619461861234582477336int, 12471946223622596903652224200655951809960424341965718686258418838648530619466int);
    advance_0(2int, 21888242871839275222246405745257275088548364400416034343698204186575808495617int, 925806811391860614967050633216nat, 12471946223622596903652224200655951809960424341965718686258418838648530619466int, 3448705218317408161449204634518925392994915746829930127077269264410066469874int);
    advance_0(2int, 21888242871839275222246405745257275088548364400416034343698204186575808495617int, 3703227245567442459868202532864nat, 3448705218317408161449204634518925392994915746829930127077269264410066469874int, 6064349947684875415109668276131994854241967342142240807603972595444590220725int);
    advance_0(2int, 21888242871839275222246405745257275088548364400416034343698204186575808495617int, 14812908982269769839472810131456nat, 6064349947684875415109668276131994854241967342142240807603972595444590220725int, 6759105087829623030394333892647320251163831514879915362135960632262716527630int);
    advance_0(2int, 21888242871839275222246405745257275088548364400416034343698204186575808495617int, 59251635929079079357891240525824nat, 6759105087829623030394333892647320251163831514879915362135960632262716527630int, 8903078699255337328499361019425491072382086563893157380695674794362281202370int);
    advance_0(2int, 21888242871839275222246405745257275088548364400416034343698204186575808495617int, 237006543716316317431564962103296nat, 8903078699255337328499361019425491072382086563893157380695674794362281202370int, 4067217240286848671452265983065331897323918408910809300406102239489012348584int);
}

/// A power of 2 modulo 21888242871839275222246405745257275088548364400416034343698204186575808495617.
proof fn power_modulus_cofactor()
    ensures
        pow(2int, 948026174865265269726259848413184nat) % 21888242871839275222246405745257275088548364400416034343698204186575808495617int == 4067217240286848671452265983065331897323918408910809300406102239489012348584int,
{
    start(2int, 21888242871839275222246405745257275088548364400416034343698204186575808495617int, 2nat);
    power_modulus_cofactor_1();
    power_modulus_cofactor_2();
    power_modulus_cofactor_3();
}

proof fn power_modulus_second_1()
    requires
        pow(4067217240286848671452265983065331897323918408910809300406102239489012348584int, 1nat) % 21888242871839275222246405745257275088548364400416034343698204186575808495617int == 4067217240286848671452265983065331897323918408910809300406102239489012348584int,
    ensures
        pow(4067217240286848671452265983065331897323918408910809300406102239489012348584int, 417709100426157nat) % 21888242871839275222246405745257275088548364400416034343698204186575808495617int == 15165691769186097806534371376426457177378415567585007363103853162798591647034int,
{
    advance_1(4067217240286848671452265983065331897323918408910809300406102239489012348584int, 21888242871839275222246405745257275088548364400416034343698204186575808495617int, 1nat, 4067217240286848671452265983065331897323918408910809300406102239489012348584int, 13238749333881657106705305701460976550231994495162614680963707438086684607956int);
    advance_3(4067217240286848671452265983065331897323918408910809300406102239489012348584int, 21888242871839275222246405745257275088548364400416034343698204186575808495617int, 5nat, 13238749333881657106705305701460976550231994495162614680963707438086684607956int, 5721131295557846781104367113352519192469116605711557781285702042069833871793int);
    advance_2(4067217240286848671452265983065331897323918408910809300406102239489012348584int, 21888242871839275222246405745257275088548364400416034343698204186575808495617int, 23nat, 5721131295557846781104367113352519192469116605711557781285702042069833871793int, 15521610032794111276804907384116859780422607459397412237403815305009698800648int);
    advance_3(4067217240286848671452265983065331897323918408910809300406102239489012348584int, 21888242871839275222246405745257275088548364400416034343698204186575808495617int, 94nat, 15521610032794111276804907384116859780422607459397412237403815305009698800648int, 2325033620393259197726907208139781713137842775629757278593502222859102667422int);
    advance_3(4067217240286848671452265983065331897323918408910809300406102239489012348584int, 21888242871839275222246405745257275088548364400416034343698204186575808495617int, 379nat, 2325033620393259197726907208139781713137842775629757278593502222859102667422int, 5305523791343338888340056854512443001811805487901587631041101707290939404956int);
    advance_2(4067217240286848671452265983065331897323918408910809300406102239489012348584int, 21888242871839275222246405745257275088548364400416034343698204186575808495617int, 1519nat, 5305523791343338888340056854512443001811805487901587631041101707290939404956int, 13735901650901636859524824971859910367121242378529385750786171991516679521694int);
    advance_1(4067217240286848671452265983065331897323918408910809300406102239489012348584int, 21888242871839275222246405745257275088548364400416034343698204186575808495617int, 6078nat, 13735901650901636859524824971859910367121242378529385750786171991516679521694int, 9518441876853481861736351359352991275527267624348828572263517916303564912401int);
    advance_3(4067217240286848671452265983065331897323918408910809300406102239489012348584int, 21888242871839275222246405745257275088548364400416034343698204186575808495617int, 24313nat, 9518441876853481861736351359352991275527267624348828572263517916303564912401int, 6707506584316207971952693228392950314584709399326875711445791268897704110998int);
    advance_1(4067217240286848671452265983065331897323918408910809300406102239489012348584int, 21888242871839275222246405745257275088548364400416034343698204186575808495617int, 97255nat, 6707506584316207971952693228392950314584709399326875711445791268897704110998int, 17875055090506025240356370126492227312793770017793380228434757736587311268860int);
    advance_3(4067217240286848671452265983065331897323918408910809300406102239489012348584int, 21888242871839275222246405745257275088548364400416034343698204186575808495617int, 389021nat, 17875055090506025240356370126492227312793770017793380228434757736587311268860int, 7606880730808735089449470056962104616761148653896049807680072281808978620232int);
    advance_2(4067217240286848671452265983065331897323918408910809300406102239489012348584int, 21888242871839275222246405745257275088548364400416034343698204186575808495617int, 1556087nat, 7606880730808735089449470056962104616761148653896049807680072281808978620232int, 8679339286862363761504163591784019976629085217846334212063598421905203773607int);
    advance_2(4067217240286848671452265983065331897323918408910809300406102239489012348584int, 21888242871839275222246405745257275088548364400416034343698204186575808495617int, 6224350nat, 8679339286862363761504163591784019976629085217846334212063598421905203773607int, 20044427735584441310161981030940585478683319332165119004897426775409179126663int);
    advance_2(4067217240286848671452265983065331897323918408910809300406102239489012348584int, 21888242871839275222246405745257275088548364400416034343698204186575808495617int, 24897402nat, 20044427735584441310161981030940585478683319332165119004897426775409179126663int, 8629976415322310111913236549513323322989871275047921905490991820742268879913int);
    advance_0(4067217240286848671452265983065331897323918408910809300406102239489012348584int, 21888242871839275222246405745257275088548364400416034343698204186575808495617int, 99589610nat, 8629976415322310111913236549513323322989871275047921905490991820742268879913int, 11007829547199563644351345885759890439753192393307999906038004399823998109294int);
    advance_3(4067217240286848671452265983065331897323918408910809300406102239489012348584int, 21888242871839275222246405745257275088548364400416034343698204186575808495617int, 398358440nat, 11007829547199563644351345885759890439753192393307999906038004399823998109294int, 13768756505859399311183560326960825250207199533332247115294768620812113250806int);
    advance_0(4067217240286848671452265983065331897323918408910809300406102239489012348584int, 21888242871839275222246405745257275088548364400416034343698204186575808495617int, 1593433763nat, 13768756505859399311183560326960825250207199533332247115294768620812113250806int, 15210807959392480672518527411770725120669757686839245514064083362806434615262int);
    advance_3(4067217240286848671452265983065331897323918408910809300406102239489012348584int, 21888242871839275222246405745257275088548364400416034343698204186575808495617int, 6373735052nat, 15210807959392480672518527411770725120669757686839245514064083362806434615262int, 11420482190816822151268568602146673094208033372034080010015365028613068075075int);
    advance_2(4067217240286848671452265983065331897323918408910809300406102239489012348584int, 21888242871839275222246405745257275088548364400416034343698204186575808495617int, 25494940211nat, 11420482190816822151268568602146673094208033372034080010015365028613068075075int, 2237019093751528618639042543825848412579754333004986349879865178964098782587int);
    advance_0(4067217240286848671452265983065331897323918408910809300406102239489012348584int, 21888242871839275222246405745257275088548364400416034343698204186575808495617int, 101979760846nat, 2237019093751528618639042543825848412579754333004986349879865178964098782587int, 1464631871477221700669242018938431796734818078948907931300166732432337750916int);
    advance_3(4067217240286848671452265983065331897323918408910809300406102239489012348584int, 21888242871839275222246405745257275088548364400416034343698204186575808495617int, 407919043384nat, 1464631871477221700669242018938431796734818078948907931300166732432337750916int, 21756547853927553624072612132636775815183179770725354197889403544432143667480int);
    advance_2(4067217240286848671452265983065331897323918408910809300406102239489012348584int, 21888242871839275222246405745257275088548364400416034343698204186575808495617int, 1631676173539nat, 21756547853927553624072612132636775815183179770725354197889403544432143667480int, 17392445159704734836218738035517339578644351879633222452304609351608971145196int);
    advance_2(4067217240286848671452265983065331897323918408910809300406102239489012348584int, 21888242871839275222246405745257275088548364400416034343698204186575808495617int, 6526704694158nat, 17392445159704734836218738035517339578644351879633222452304609351608971145196int, 18639383403526593858239452369786134210325304972954169196132663352242470919596int);
    advance_3(4067217240286848671452265983065331897323918408910809300406102239489012348584int, 21888242871839275222246405745257275088548364400416034343698204186575808495617int, 26106818776634nat, 18639383403526593858239452369786134210325304972954169196132663352242470919596int, 4035495348016154172729634820634689062113386583787331187457720384514718685134int);
    advance_1(4067217240286848671452265983065331897323918408910809300406102239489012348584int, 21888242871839275222246405745257275088548364400416034343698204186575808495617int, 104427275106539nat, 4035495348016154172729634820634689062113386583787331187457720384514718685134int, 15165691769186097806534371376426457177378415567585007363103853162798591647034int);
}

proof fn power_modulus_second_2()
    requires
        pow(4067217240286848671452265983065331897323918408910809300406102239489012348584int, 417709100426157nat) % 21888242871839275222246405745257275088548364400416034343698204186575808495617int == 15165691769186097806534371376426457177378415567585007363103853162798591647034int,
    ensures
        pow(4067217240286848671452265983065331897323918408910809300406102239489012348584int, 1670836401704629nat) % 21888242871839275222246405745257275088548364400416034343698204186575808495617int == 18810536960267738281623319138564098156538132287104634306360290224932305588168int,
{
    advance_1(4067217240286848671452265983065331897323918408910809300406102239489012348584int, 21888242871839275222246405745257275088548364400416034343698204186575808495617int, 417709100426157nat, 15165691769186097806534371376426457177378415567585007363103853162798591647034int, 18810536960267738281623319138564098156538132287104634306360290224932305588168int);
}

/// A further power modulo 21888242871839275222246405745257275088548364400416034343698204186575808495617.
proof fn power_modulus_second()
    ensures
        pow(4067217240286848671452265983065331897323918408910809300406102239489012348584int, 1670836401704629nat) % 21888242871839275222246405745257275088548364400416034343698204186575808495617int == 18810536960267738281623319138564098156538132287104634306360290224932305588168int,
{
    start(4067217240286848671452265983065331897323918408910809300406102239489012348584int, 21888242871839275222246405745257275088548364400416034343698204186575808495617int, 1nat);
    power_modulus_second_1();
    power_modulus_second_2();
}

proof fn power_modulus_first_1()
    requires
        pow(4067217240286848671452265983065331897323918408910809300406102239489012348584int, 2nat) % 21888242871839275222246405745257275088548364400416034343698204186575808495617int == 6386128151552337324797274583854449461328952692055052099188299042347749289856int,
    ensures
        pow(4067217240286848671452265983065331897323918408910809300406102239489012348584int, 785483077504377nat) % 21888242871839275222246405745257275088548364400416034343698204186575808495617int == 15822093576658666881427783006931272225564788928357168789168489701542569875099int,
{
    advance_3(4067217240286848671452265983065331897323918408910809300406102239489012348584int, 21888242871839275222246405745257275088548364400416034343698204186575808495617int, 2nat, 6386128151552337324797274583854449461328952692055052099188299042347749289856int, 18235214667583589543951801634235952074735239039809855166216398886623174770170int);
    advance_0(4067217240286848671452265983065331897323918408910809300406102239489012348584int, 21888242871839275222246405745257275088548364400416034343698204186575808495617int, 11nat, 18235214667583589543951801634235952074735239039809855166216398886623174770170int, 15690779842328926225178139205895459096464320036664936154393060137259290834393int);
    advance_2(4067217240286848671452265983065331897323918408910809300406102239489012348584int, 21888242871839275222246405745257275088548364400416034343698204186575808495617int, 44nat, 15690779842328926225178139205895459096464320036664936154393060137259290834393int, 322279440271549901376250450420437350979799894640243819907063974485294944136int);
    advance_2(4067217240286848671452265983065331897323918408910809300406102239489012348584int, 21888242871839275222246405745257275088548364400416034343698204186575808495617int, 178nat, 322279440271549901376250450420437350979799894640243819907063974485294944136int, 8331070091348222178773989349913912596977031367117088757543672891609074423287int);
    advance_1(4067217240286848671452265983065331897323918408910809300406102239489012348584int, 21888242871839275222246405745257275088548364400416034343698204186575808495617int, 714nat, 8331070091348222178773989349913912596977031367117088757543672891609074423287int, 15827951676866950978480705088063065647227592502537696711884223207658011461825int);
    advance_2(4067217240286848671452265983065331897323918408910809300406102239489012348584int, 21888242871839275222246405745257275088548364400416034343698204186575808495617int, 2857nat, 15827951676866950978480705088063065647227592502537696711884223207658011461825int, 10458104519330016722831481621403436636955250855373893914012587466407818324273int);
    advance_1(4067217240286848671452265983065331897323918408910809300406102239489012348584int, 21888242871839275222246405745257275088548364400416034343698204186575808495617int, 11430nat, 10458104519330016722831481621403436636955250855373893914012587466407818324273int, 16756864658871320450095273195180880641604926711322431787730799836997373410354int);
    advance_0(4067217240286848671452265983065331897323918408910809300406102239489012348584int, 21888242871839275222246405745257275088548364400416034343698204186575808495617int, 45721nat, 16756864658871320450095273195180880641604926711322431787730799836997373410354int, 8991047338903701344465700219764455985598459812798333318036451612940826546584int);
    advance_2(4067217240286848671452265983065331897323918408910809300406102239489012348584int, 21888242871839275222246405745257275088548364400416034343698204186575808495617int, 182884nat, 8991047338903701344465700219764455985598459812798333318036451612940826546584int, 12883796233184062843736358331100949234592082913561501216067886227392315875192int);
    advance_0(4067217240286848671452265983065331897323918408910809300406102239489012348584int, 21888242871839275222246405745257275088548364400416034343698204186575808495617int, 731538nat, 12883796233184062843736358331100949234592082913561501216067886227392315875192int, 12095636939347330833732765030336417394965874111430562556378896893108398454119int);
    advance_1(4067217240286848671452265983065331897323918408910809300406102239489012348584int, 21888242871839275222246405745257275088548364400416034343698204186575808495617int, 2926152nat, 12095636939347330833732765030336417394965874111430562556378896893108398454119int, 17932252103664813779789761201706523010451593166390460567050985375098762470480int);
    advance_3(4067217240286848671452265983065331897323918408910809300406102239489012348584int, 21888242871839275222246405745257275088548364400416034343698204186575808495617int, 11704609nat, 17932252103664813779789761201706523010451593166390460567050985375098762470480int, 6397909464072761120344264436936460029626824980159215597280672028817779616915int);
    advance_3(4067217240286848671452265983065331897323918408910809300406102239489012348584int, 21888242871839275222246405745257275088548364400416034343698204186575808495617int, 46818439nat, 6397909464072761120344264436936460029626824980159215597280672028817779616915int, 6985301711244392811534689828185490242462090338917601161141202278988258793136int);
    advance_0(4067217240286848671452265983065331897323918408910809300406102239489012348584int, 21888242871839275222246405745257275088548364400416034343698204186575808495617int, 187273759nat, 6985301711244392811534689828185490242462090338917601161141202278988258793136int, 10313897862990299760702963901803177025774364084358126394163006552579881462819int);
    advance_3(4067217240286848671452265983065331897323918408910809300406102239489012348584int, 21888242871839275222246405745257275088548364400416034343698204186575808495617int, 749095036nat, 10313897862990299760702963901803177025774364084358126394163006552579881462819int, 15163491663097307426775935029443471516423968862012532239894848497372879771217int);
    advance_3(4067217240286848671452265983065331897323918408910809300406102239489012348584int, 21888242871839275222246405745257275088548364400416034343698204186575808495617int, 2996380147nat, 15163491663097307426775935029443471516423968862012532239894848497372879771217int, 4360106451514481464721713496424723400798790380683325742569740933810930518178int);
    advance_3(4067217240286848671452265983065331897323918408910809300406102239489012348584int, 21888242871839275222246405745257275088548364400416034343698204186575808495617int, 11985520591nat, 4360106451514481464721713496424723400798790380683325742569740933810930518178int, 12908843361958514409970798626683577113045421806131553996538402805853312669057int);
    advance_0(4067217240286848671452265983065331897323918408910809300406102239489012348584int, 21888242871839275222246405745257275088548364400416034343698204186575808495617int, 47942082367nat, 12908843361958514409970798626683577113045421806131553996538402805853312669057int, 5942717412744519372674371151679237225322652170292377397675585158938566471780int);
    advance_3(4067217240286848671452265983065331897323918408910809300406102239489012348584int, 21888242871839275222246405745257275088548364400416034343698204186575808495617int, 191768329468nat, 5942717412744519372674371151679237225322652170292377397675585158938566471780int, 8933294398425247314210147661629234955545203082959819655240752488267388538944int);
    advance_1(4067217240286848671452265983065331897323918408910809300406102239489012348584int, 21888242871839275222246405745257275088548364400416034343698204186575808495617int, 767073317875nat, 8933294398425247314210147661629234955545203082959819655240752488267388538944int, 8418233930617165357431503676748888633218726706654762616692112999670484591013int);
    advance_1(4067217240286848671452265983065331897323918408910809300406102239489012348584int, 21888242871839275222246405745257275088548364400416034343698204186575808495617int, 3068293271501nat, 8418233930617165357431503676748888633218726706654762616692112999670484591013int, 9632572101324037071725150039192784219590497799446190285410544024774523080908int);
    advance_3(4067217240286848671452265983065331897323918408910809300406102239489012348584int, 21888242871839275222246405745257275088548364400416034343698204186575808495617int, 12273173086005nat, 9632572101324037071725150039192784219590497799446190285410544024774523080908int, 9433521811091422581917263520702365715911069060317711582080456248494772571446int);
    advance_2(4067217240286848671452265983065331897323918408910809300406102239489012348584int, 21888242871839275222246405745257275088548364400416034343698204186575808495617int, 49092692344023nat, 9433521811091422581917263520702365715911069060317711582080456248494772571446int, 4750830227225810007906518413343663643318915987128822730455329789502939495942int);
    advance_1(4067217240286848671452265983065331897323918408910809300406102239489012348584int, 21888242871839275222246405745257275088548364400416034343698204186575808495617int, 196370769376094nat, 4750830227225810007906518413343663643318915987128822730455329789502939495942int, 15822093576658666881427783006931272225564788928357168789168489701542569875099int);
}

proof fn power_modulus_first_2()
    requires
        pow(4067217240286848671452265983065331897323918408910809300406102239489012348584int, 785483077504377nat) % 21888242871839275222246405745257275088548364400416034343698204186575808495617int == 15822093576658666881427783006931272225564788928357168789168489701542569875099int,
    ensures
        pow(4067217240286848671452265983065331897323918408910809300406102239489012348584int, 13818364434197438864469338081nat) % 21888242871839275222246405745257275088548364400416034343698204186575808495617int == 15379204794002667769298530452756604474647348591674452342013272253614090326003int,
{
    advance_1(4067217240286848671452265983065331897323918408910809300406102239489012348584int, 21888242871839275222246405745257275088548364400416034343698204186575808495617int, 785483077504377nat, 15822093576658666881427783006931272225564788928357168789168489701542569875099int, 16488772292108595495196916561729099074282002522665119535106490879714874084163int);
    advance_1(4067217240286848671452265983065331897323918408910809300406102239489012348584int, 21888242871839275222246405745257275088548364400416034343698204186575808495617int, 3141932310017509nat, 16488772292108595495196916561729099074282002522665119535106490879714874084163int, 1315841031531098173455288590474915687435097755906924751602998016417667498287int);
    advance_3(4067217240286848671452265983065331897323918408910809300406102239489012348584int, 21888242871839275222246405745257275088548364400416034343698204186575808495617int, 12567729240070037nat, 1315841031531098173455288590474915687435097755906924751602998016417667498287int, 19203033309775340860165864868710163867300644892515281368802815574887290727192int);
    advance_2(4067217240286848671452265983065331897323918408910809300406102239489012348584int, 21888242871839275222246405745257275088548364400416034343698204186575808495617int, 50270916960280151nat, 19203033309775340860165864868710163867300644892515281368802815574887290727192int, 2553140948483930812412285981849370959439675767789630126167664254901483265300int);
    advance_2(4067217240286848671452265983065331897323918408910809300406102239489012348584int, 21888242871839275222246405745257275088548364400416034343698204186575808495617int, 201083667841120606nat, 2553140948483930812412285981849370959439675767789630126167664254901483265300int, 3735539871592816921233875031721838089614317682464056078135447190026190839187int);
    advance_0(4067217240286848671452265983065331897323918408910809300406102239489012348584int, 21888242871839275222246405745257275088548364400416034343698204186575808495617int, 804334671364482426nat, 3735539871592816921233875031721838089614317682464056078135447190026190839187int, 18844765288437987799138213223672211085117726746507232125190001470484912400462int);
    advance_1(4067217240286848671452265983065331897323918408910809300406102239489012348584int, 21888242871839275222246405745257275088548364400416034343698204186575808495617int, 3217338685457929704nat, 18844765288437987799138213223672211085117726746507232125190001470484912400462int, 8448855219633365442930076917076713833781771384361585343893523329149156935516int);
    advance_3(4067217240286848671452265983065331897323918408910809300406102239489012348584int, 21888242871839275222246405745257275088548364400416034343698204186575808495617int, 12869354741831718817nat, 8448855219633365442930076917076713833781771384361585343893523329149156935516int, 1763832830497479334436111597000920668523750036536595945067692152000206613291int);
    advance_0(4067217240286848671452265983065331897323918408910809300406102239489012348584int, 21888242871839275222246405745257275088548364400416034343698204186575808495617int, 51477418967326875271nat, 1763832830497479334436111597000920668523750036536595945067692152000206613291int, 20695525597621049728423917252705535360718712876837599263275890881026111584040int);
    advance_2(4067217240286848671452265983065331897323918408910809300406102239489012348584int, 21888242871839275222246405745257275088548364400416034343698204186575808495617int, 205909675869307501084nat, 20695525597621049728423917252705535360718712876837599263275890881026111584040int, 10639978108994546607145882244949613283667110026118833070157686786853029213187int);
    advance_2(4067217240286848671452265983065331897323918408910809300406102239489012348584int, 21888242871839275222246405745257275088548364400416034343698204186575808495617int, 823638703477230004338nat, 10639978108994546607145882244949613283667110026118833070157686786853029213187int, 1478584894689212060068135389439125610477393433539067448973187960356152469803int);
    advance_1(4067217240286848671452265983065331897323918408910809300406102239489012348584int, 21888242871839275222246405745257275088548364400416034343698204186575808495617int, 3294554813908920017354nat, 1478584894689212060068135389439125610477393433539067448973187960356152469803int, 6519667857248721620883404089629190453555380526572180117778616129766941648535int);
    advance_1(4067217240286848671452265983065331897323918408910809300406102239489012348584int, 21888242871839275222246405745257275088548364400416034343698204186575808495617int, 13178219255635680069417nat, 6519667857248721620883404089629190453555380526572180117778616129766941648535int, 4886056033106486036989241819198674686430448265622916628618894665609786197276int);
    advance_1(4067217240286848671452265983065331897323918408910809300406102239489012348584int, 21888242871839275222246405745257275088548364400416034343698204186575808495617int, 52712877022542720277669nat, 4886056033106486036989241819198674686430448265622916628618894665609786197276int, 6240833133448105338207581245949004484552400747577623356912084461759335556916int);
    advance_0(4067217240286848671452265983065331897323918408910809300406102239489012348584int, 21888242871839275222246405745257275088548364400416034343698204186575808495617int, 210851508090170881110677nat, 6240833133448105338207581245949004484552400747577623356912084461759335556916int, 13752811589034656140198374221163509499005731150836489101685730465413837061152int);
    advance_2(4067217240286848671452265983065331897323918408910809300406102239489012348584int, 21888242871839275222246405745257275088548364400416034343698204186575808495617int, 843406032360683524442708nat, 13752811589034656140198374221163509499005731150836489101685730465413837061152int, 9975287918602860911580010553136500836149672040675543073036316873641214829324int);
    advance_1(4067217240286848671452265983065331897323918408910809300406102239489012348584int, 21888242871839275222246405745257275088548364400416034343698204186575808495617int, 3373624129442734097770834nat, 9975287918602860911580010553136500836149672040675543073036316873641214829324int, 17139637903830095634697455424442797323363989037643635193072045733059952354744int);
    advance_3(4067217240286848671452265983065331897323918408910809300406102239489012348584int, 21888242871839275222246405745257275088548364400416034343698204186575808495617int, 13494496517770936391083337nat, 17139637903830095634697455424442797323363989037643635193072045733059952354744int, 5734933231541450750267406738314736704308586995611790329229868807038284262457int);
    advance_3(4067217240286848671452265983065331897323918408910809300406102239489012348584int, 21888242871839275222246405745257275088548364400416034343698204186575808495617int, 53977986071083745564333351nat, 5734933231541450750267406738314736704308586995611790329229868807038284262457int, 15263095476177339472893572712441658830053824967875597941275658689623180726528int);
    advance_2(4067217240286848671452265983065331897323918408910809300406102239489012348584int, 21888242871839275222246405745257275088548364400416034343698204186575808495617int, 215911944284334982257333407nat, 15263095476177339472893572712441658830053824967875597941275658689623180726528int, 10843790727256262470749371154007731033265095714211366053529959999110654158998int);
    advance_0(4067217240286848671452265983065331897323918408910809300406102239489012348584int, 21888242871839275222246405745257275088548364400416034343698204186575808495617int, 863647777137339929029333630nat, 10843790727256262470749371154007731033265095714211366053529959999110654158998int, 3719498549793441748256527655810202249197363423147539062687900885823491432443int);
    advance_1(4067217240286848671452265983065331897323918408910809300406102239489012348584int, 21888242871839275222246405745257275088548364400416034343698204186575808495617int, 3454591108549359716117334520nat, 3719498549793441748256527655810202249197363423147539062687900885823491432443int, 15379204794002667769298530452756604474647348591674452342013272253614090326003int);
}

/// A further power modulo 21888242871839275222246405745257275088548364400416034343698204186575808495617.
proof fn power_modulus_first()
    ensures
        pow(4067217240286848671452265983065331897323918408910809300406102239489012348584int, 13818364434197438864469338081nat) % 21888242871839275222246405745257275088548364400416034343698204186575808495617int == 15379204794002667769298530452756604474647348591674452342013272253614090326003int,
{
    start(4067217240286848671452265983065331897323918408910809300406102239489012348584int, 21888242871839275222246405745257275088548364400416034343698204186575808495617int, 2nat);
    power_modulus_first_1();
    power_modulus_first_2();
}

proof fn power_modulus_both_1()
    requires
        pow(18810536960267738281623319138564098156538132287104634306360290224932305588168int, 2nat) % 21888242871839275222246405745257275088548364400416034343698204186575808495617int == 9085659581505268874132837132958025132643965648321324883040022263071236657138int,
    ensures
        pow(18810536960267738281623319138564098156538132287104634306360290224932305588168int, 785483077504377nat) % 21888242871839275222246405745257275088548364400416034343698204186575808495617int == 8129968201598656851592208720796621944808002439398315183288286272752000075225int,
{
    advance_3(18810536960267738281623319138564098156538132287104634306360290224932305588168int, 21888242871839275222246405745257275088548364400416034343698204186575808495617int, 2nat, 9085659581505268874132837132958025132643965648321324883040022263071236657138int, 7288300720531034751599205128989304360084109032148697596779139568504645333596int);
    advance_0(18810536960267738281623319138564098156538132287104634306360290224932305588168int, 21888242871839275222246405745257275088548364400416034343698204186575808495617int, 11nat, 7288300720531034751599205128989304360084109032148697596779139568504645333596int, 18590281345771589829705208461446723116458331097009764652595938196069863742739int);
    advance_2(18810536960267738281623319138564098156538132287104634306360290224932305588168int, 21888242871839275222246405745257275088548364400416034343698204186575808495617int, 44nat, 18590281345771589829705208461446723116458331097009764652595938196069863742739int, 21829522974866090339915079862768997321167101142097465178168028730712625951784int);
    advance_2(18810536960267738281623319138564098156538132287104634306360290224932305588168int, 21888242871839275222246405745257275088548364400416034343698204186575808495617int, 178nat, 21829522974866090339915079862768997321167101142097465178168028730712625951784int, 12477635325971618052354191063038058034114302262450087294479249184382785493277int);
    advance_1(18810536960267738281623319138564098156538132287104634306360290224932305588168int, 21888242871839275222246405745257275088548364400416034343698204186575808495617int, 714nat, 12477635325971618052354191063038058034114302262450087294479249184382785493277int, 18104796406065173190581331151014028290209456347151045762255637259888157688897int);
    advance_2(18810536960267738281623319138564098156538132287104634306360290224932305588168int, 21888242871839275222246405745257275088548364400416034343698204186575808495617int, 2857nat, 18104796406065173190581331151014028290209456347151045762255637259888157688897int, 12325038706389038246381761560710519680448258137532050165000737203053309415406int);
    advance_1(18810536960267738281623319138564098156538132287104634306360290224932305588168int, 21888242871839275222246405745257275088548364400416034343698204186575808495617int, 11430nat, 12325038706389038246381761560710519680448258137532050165000737203053309415406int, 18921630943640514451582930610101292463930579998447765112770252449495126884321int);
    advance_0(18810536960267738281623319138564098156538132287104634306360290224932305588168int, 21888242871839275222246405745257275088548364400416034343698204186575808495617int, 45721nat, 18921630943640514451582930610101292463930579998447765112770252449495126884321int, 2547026407088552763619132692430582443971622840468111866157668238232522507159int);
    advance_2(18810536960267738281623319138564098156538132287104634306360290224932305588168int, 21888242871839275222246405745257275088548364400416034343698204186575808495617int, 182884nat, 2547026407088552763619132692430582443971622840468111866157668238232522507159int, 9244098531050843115431558922832011640495424303933370476466228638133601123068int);
    advance_0(18810536960267738281623319138564098156538132287104634306360290224932305588168int, 21888242871839275222246405745257275088548364400416034343698204186575808495617int, 731538nat, 9244098531050843115431558922832011640495424303933370476466228638133601123068int, 15966198756527207259064101724824575278782181261157583397480959684222876843270int);
    advance_1(18810536960267738281623319138564098156538132287104634306360290224932305588168int, 21888242871839275222246405745257275088548364400416034343698204186575808495617int, 2926152nat, 15966198756527207259064101724824575278782181261157583397480959684222876843270int, 1865602758692113732805214818701321192943896161784096184444957995389216886377int);
    advance_3(18810536960267738281623319138564098156538132287104634306360290224932305588168int, 21888242871839275222246405745257275088548364400416034343698204186575808495617int, 11704609nat, 1865602758692113732805214818701321192943896161784096184444957995389216886377int, 11352974430176251988274592823686855960615703494006315686385524761056335374967int);
    advance_3(18810536960267738281623319138564098156538132287104634306360290224932305588168int, 21888242871839275222246405745257275088548364400416034343698204186575808495617int, 46818439nat, 11352974430176251988274592823686855960615703494006315686385524761056335374967int, 5235611639036356051571388123590467036095675066045520218683930058073520986590int);
    advance_0(18810536960267738281623319138564098156538132287104634306360290224932305588168int, 21888242871839275222246405745257275088548364400416034343698204186575808495617int, 187273759nat, 5235611639036356051571388123590467036095675066045520218683930058073520986590int, 4083747225853724754498470886113141075487032758838686420768356563111061876420int);
    advance_3(18810536960267738281623319138564098156538132287104634306360290224932305588168int, 21888242871839275222246405745257275088548364400416034343698204186575808495617int, 749095036nat, 4083747225853724754498470886113141075487032758838686420768356563111061876420int, 7805783671712377205947414579185362746751821306153595115022089496570147857233int);
    advance_3(18810536960267738281623319138564098156538132287104634306360290224932305588168int, 21888242871839275222246405745257275088548364400416034343698204186575808495617int, 2996380147nat, 7805783671712377205947414579185362746751821306153595115022089496570147857233int, 14291071267091833532622934897584375489779684593470876605643369722443630539261int);
    advance_3(18810536960267738281623319138564098156538132287104634306360290224932305588168int, 21888242871839275222246405745257275088548364400416034343698204186575808495617int, 11985520591nat, 14291071267091833532622934897584375489779684593470876605643369722443630539261int, 14160780287424993058179533925391007393737551198520438908212350126558230710206int);
    advance_0(18810536960267738281623319138564098156538132287104634306360290224932305588168int, 21888242871839275222246405745257275088548364400416034343698204186575808495617int, 47942082367nat, 14160780287424993058179533925391007393737551198520438908212350126558230710206int, 21888083174864775917490206954690418891250255562899195060460029488001577172032int);
    advance_3(18810536960267738281623319138564098156538132287104634306360290224932305588168int, 21888242871839275222246405745257275088548364400416034343698204186575808495617int, 191768329468nat, 21888083174864775917490206954690418891250255562899195060460029488001577172032int, 11551868642195457728186667163980936391958467963780365631879832845526240571883int);
    advance_1(18810536960267738281623319138564098156538132287104634306360290224932305588168int, 21888242871839275222246405745257275088548364400416034343698204186575808495617int, 767073317875nat, 11551868642195457728186667163980936391958467963780365631879832845526240571883int, 2997221858682788751599940192357292234087461306149729300991070253952314231254int);
    advance_1(18810536960267738281623319138564098156538132287104634306360290224932305588168int, 21888242871839275222246405745257275088548364400416034343698204186575808495617int, 3068293271501nat, 2997221858682788751599940192357292234087461306149729300991070253952314231254int, 15566378383776961216865706945531494628949601736459385930311934560917077513735int);
    advance_3(18810536960267738281623319138564098156538132287104634306360290224932305588168int, 21888242871839275222246405745257275088548364400416034343698204186575808495617int, 12273173086005nat, 15566378383776961216865706945531494628949601736459385930311934560917077513735int, 15903511685131771000602742684788932040607655047184374341105948884848526712673int);
    advance_2(18810536960267738281623319138564098156538132287104634306360290224932305588168int, 21888242871839275222246405745257275088548364400416034343698204186575808495617int, 49092692344023nat, 15903511685131771000602742684788932040607655047184374341105948884848526712673int, 520670192713106747870622642634890534021981560750617004091071789459310697773int);
    advance_1(18810536960267738281623319138564098156538132287104634306360290224932305588168int, 21888242871839275222246405745257275088548364400416034343698204186575808495617int, 196370769376094nat, 520670192713106747870622642634890534021981560750617004091071789459310697773int, 8129968201598656851592208720796621944808002439398315183288286272752000075225int);
}

proof fn power_modulus_both_2()
    requires
        pow(18810536960267738281623319138564098156538132287104634306360290224932305588168int, 785483077504377nat) % 21888242871839275222246405745257275088548364400416034343698204186575808495617int == 8129968201598656851592208720796621944808002439398315183288286272752000075225int,
    ensures
        pow(18810536960267738281623319138564098156538132287104634306360290224932305588168int, 13818364434197438864469338081nat) % 21888242871839275222246405745257275088548364400416034343698204186575808495617int == 1int,
{
    advance_1(18810536960267738281623319138564098156538132287104634306360290224932305588168int, 21888242871839275222246405745257275088548364400416034343698204186575808495617int, 785483077504377nat, 8129968201598656851592208720796621944808002439398315183288286272752000075225int, 18608707035443471719479351587612093902144147197957025806185680077526416433516int);
    advance_1(18810536960267738281623319138564098156538132287104634306360290224932305588168int, 21888242871839275222246405745257275088548364400416034343698204186575808495617int, 3141932310017509nat, 18608707035443471719479351587612093902144147197957025806185680077526416433516int, 11991398248557761076576074912237961339677140950692999944567175016655509006028int);
    advance_3(18810536960267738281623319138564098156538132287104634306360290224932305588168int, 21888242871839275222246405745257275088548364400416034343698204186575808495617int, 12567729240070037nat, 11991398248557761076576074912237961339677140950692999944567175016655509006028int, 18674051693854597106953944099734278061281140733400162433184210360638373519951int);
    advance_2(18810536960267738281623319138564098156538132287104634306360290224932305588168int, 21888242871839275222246405745257275088548364400416034343698204186575808495617int, 50270916960280151nat, 18674051693854597106953944099734278061281140733400162433184210360638373519951int, 12662760479978724940456761403186740738757421394625625088634522967936944012285int);
    advance_2(18810536960267738281623319138564098156538132287104634306360290224932305588168int, 21888242871839275222246405745257275088548364400416034343698204186575808495617int, 201083667841120606nat, 12662760479978724940456761403186740738757421394625625088634522967936944012285int, 10946981634193614234692100782334946631921196237632139169335881613768693038112int);
    advance_0(18810536960267738281623319138564098156538132287104634306360290224932305588168int, 21888242871839275222246405745257275088548364400416034343698204186575808495617int, 804334671364482426nat, 10946981634193614234692100782334946631921196237632139169335881613768693038112int, 17224479003740889929597626164679110020845864689862344246795218051695496997324int);
    advance_1(18810536960267738281623319138564098156538132287104634306360290224932305588168int, 21888242871839275222246405745257275088548364400416034343698204186575808495617int, 3217338685457929704nat, 17224479003740889929597626164679110020845864689862344246795218051695496997324int, 1159180082875925122827335883339934335939152625220166251884665097731990128470int);
    advance_3(18810536960267738281623319138564098156538132287104634306360290224932305588168int, 21888242871839275222246405745257275088548364400416034343698204186575808495617int, 12869354741831718817nat, 1159180082875925122827335883339934335939152625220166251884665097731990128470int, 20748328098757622418291772732695551281914218386325608670585682747967881737090int);
    advance_0(18810536960267738281623319138564098156538132287104634306360290224932305588168int, 21888242871839275222246405745257275088548364400416034343698204186575808495617int, 51477418967326875271nat, 20748328098757622418291772732695551281914218386325608670585682747967881737090int, 1362416418440406086413331222786475724659009543357076720037856262648810310977int);
    advance_2(18810536960267738281623319138564098156538132287104634306360290224932305588168int, 21888242871839275222246405745257275088548364400416034343698204186575808495617int, 205909675869307501084nat, 1362416418440406086413331222786475724659009543357076720037856262648810310977int, 6129120106040914264701755088205265463004300204702402440068300487064967395199int);
    advance_2(18810536960267738281623319138564098156538132287104634306360290224932305588168int, 21888242871839275222246405745257275088548364400416034343698204186575808495617int, 823638703477230004338nat, 6129120106040914264701755088205265463004300204702402440068300487064967395199int, 748198730681821824699967142710170379147745904555839701630231878411276176935int);
    advance_1(18810536960267738281623319138564098156538132287104634306360290224932305588168int, 21888242871839275222246405745257275088548364400416034343698204186575808495617int, 3294554813908920017354nat, 748198730681821824699967142710170379147745904555839701630231878411276176935int, 5943997453117762920024847409610815971305710943922462566915468061023111475281int);
    advance_1(18810536960267738281623319138564098156538132287104634306360290224932305588168int, 21888242871839275222246405745257275088548364400416034343698204186575808495617int, 13178219255635680069417nat, 5943997453117762920024847409610815971305710943922462566915468061023111475281int, 35480399837086862129637879782351874411581913777821865934806477562408620480int);
    advance_1(18810536960267738281623319138564098156538132287104634306360290224932305588168int, 21888242871839275222246405745257275088548364400416034343698204186575808495617int, 52712877022542720277669nat, 35480399837086862129637879782351874411581913777821865934806477562408620480int, 14337504746119573765144800791177244516868470958644802944561545161865381338284int);
    advance_0(18810536960267738281623319138564098156538132287104634306360290224932305588168int, 21888242871839275222246405745257275088548364400416034343698204186575808495617int, 210851508090170881110677nat, 14337504746119573765144800791177244516868470958644802944561545161865381338284int, 9760920215680297146059253198399333521919235335198974561423145160153593888083int);
    advance_2(18810536960267738281623319138564098156538132287104634306360290224932305588168int, 21888242871839275222246405745257275088548364400416034343698204186575808495617int, 843406032360683524442708nat, 9760920215680297146059253198399333521919235335198974561423145160153593888083int, 7926872813574266968519796821085798303575980410316129517763023745426956278320int);
    advance_1(18810536960267738281623319138564098156538132287104634306360290224932305588168int, 21888242871839275222246405745257275088548364400416034343698204186575808495617int, 3373624129442734097770834nat, 7926872813574266968519796821085798303575980410316129517763023745426956278320int, 1775808659149033796638210575042676873349222963059477345204705082856148946641int);
    advance_3(18810536960267738281623319138564098156538132287104634306360290224932305588168int, 21888242871839275222246405745257275088548364400416034343698204186575808495617int, 13494496517770936391083337nat, 1775808659149033796638210575042676873349222963059477345204705082856148946641int, 14974999839874456328590897189858885730068432349123283257802303814525268530220int);
    advance_3(18810536960267738281623319138564098156538132287104634306360290224932305588168int, 21888242871839275222246405745257275088548364400416034343698204186575808495617int, 53977986071083745564333351nat, 14974999839874456328590897189858885730068432349123283257802303814525268530220int, 418491876119612320199549799003946826589192696758148245949586195888070785974int);
    advance_2(18810536960267738281623319138564098156538132287104634306360290224932305588168int, 21888242871839275222246405745257275088548364400416034343698204186575808495617int, 215911944284334982257333407nat, 418491876119612320199549799003946826589192696758148245949586195888070785974int, 5904975488750705822419790192543269790937947462625134358776240734420189087100int);
    advance_0(18810536960267738281623319138564098156538132287104634306360290224932305588168int, 21888242871839275222246405745257275088548364400416034343698204186575808495617int, 863647777137339929029333630nat, 5904975488750705822419790192543269790937947462625134358776240734420189087100int, 1696488863363841938624296900991001125297705731460619987529339102338474266011int);
    advance_1(18810536960267738281623319138564098156538132287104634306360290224932305588168int, 21888242871839275222246405745257275088548364400416034343698204186575808495617int, 3454591108549359716117334520nat, 1696488863363841938624296900991001125297705731460619987529339102338474266011int, 1int);
}

/// A further power modulo 21888242871839275222246405745257275088548364400416034343698204186575808495617.
proof fn power_modulus_both()
    ensures
        pow(18810536960267738281623319138564098156538132287104634306360290224932305588168int, 13818364434197438864469338081nat) % 21888242871839275222246405745257275088548364400416034343698204186575808495617int == 1int,
{
    start(18810536960267738281623319138564098156538132287104634306360290224932305588168int, 21888242871839275222246405745257275088548364400416034343698204186575808495617int, 2nat);
    power_modulus_both_1();
    power_modulus_both_2();
}

/// The order of the scalar field is prime.
pub proof fn lemma_modulus_prime()
    ensures
        primes::is_prime(field::modulus()),
{
    lemma_prime_13818364434197438864469338081();
    lemma_prime_1670836401704629();
    power_modulus_cofactor();
    power_modulus_second();
    power_modulus_first();
    power_modulus_both();
    compose(2int, 21888242871839275222246405745257275088548364400416034343698204186575808495617int, 948026174865265269726259848413184nat, 4067217240286848671452265983065331897323918408910809300406102239489012348584int, 1670836401704629nat, 18810536960267738281623319138564098156538132287104634306360290224932305588168int);
    compose(2int, 21888242871839275222246405745257275088548364400416034343698204186575808495617int, 948026174865265269726259848413184nat, 4067217240286848671452265983065331897323918408910809300406102239489012348584int, 13818364434197438864469338081nat, 15379204794002667769298530452756604474647348591674452342013272253614090326003int);
    compose(2int, 21888242871839275222246405745257275088548364400416034343698204186575808495617int, 1583996642733683218748855262055434666238317428736nat, 18810536960267738281623319138564098156538132287104634306360290224932305588168int, 13818364434197438864469338081nat, 1);
    certify(2int, 21888242871839275222246405745257275088548364400416034343698204186575808495617int, 1583996642733683218748855262055434666238317428736nat, 18810536960267738281623319138564098156538132287104634306360290224932305588168int, 18830771696733986827343121108258373716716634563029220880262390084180817631389int);
    certify(2int, 21888242871839275222246405745257275088548364400416034343698204186575808495617int, 13100171177446423556613374118717413492986637444144570673659904nat, 15379204794002667769298530452756604474647348591674452342013272253614090326003int, 86052601511993865195709936845511121156384965108811623497653747272590813794int);
    primes::lemma_pocklington_two(
        21888242871839275222246405745257275088548364400416034343698204186575808495617nat,
        13818364434197438864469338081nat,
        1583996642733683218748855262055434666238317428736nat,
        18830771696733986827343121108258373716716634563029220880262390084180817631389int,
        1670836401704629nat,
        13100171177446423556613374118717413492986637444144570673659904nat,
        86052601511993865195709936845511121156384965108811623497653747272590813794int,
        2nat,
        23088226308677670388631582763742451703676949nat,
    );
}

} // verus!
