//! Elementary number theory: Euclid's lemma, Fermat's little theorem and
//! Pocklington's criterion.
use vstd::arithmetic::div_mod::*;
use vstd::arithmetic::mul::*;
use vstd::arithmetic::power::*;
use vstd::prelude::*;

verus! {

/// A number above one that nothing between one and itself divides.
pub open spec fn is_prime(p: nat) -> bool {
    p > 1 && forall|d: nat| 1 < d < p ==> #[trigger] (p % d) != 0
}

/// A multiple of `m` times anything is a multiple of `m`.
proof fn lemma_multiple_mul(x: int, y: int, m: int)
    requires
        m > 0,
        x % m == 0,
    ensures
        (x * y) % m == 0,
        (y * x) % m == 0,
{
    lemma_mul_mod_noop_left(x, y, m);
    lemma_mul_is_commutative(x, y);
    lemma_small_mod(0, m as nat);
    assert(0 * y == 0);
}

/// Multiples of `m` are closed under differences and sums.
proof fn lemma_multiple_sub(x: int, y: int, m: int)
    requires
        m > 0,
        x % m == 0,
        y % m == 0,
    ensures
        (x - y) % m == 0,
        (x + y) % m == 0,
{
    lemma_sub_mod_noop(x, y, m);
    lemma_add_mod_noop(x, y, m);
    lemma_small_mod(0, m as nat);
}

/// Euclid's lemma for a factor below the prime.
proof fn lemma_euclid_below(p: nat, a: nat, b: int)
    requires
        is_prime(p),
        0 < a < p,
        (a * b) % p as int == 0,
    ensures
        b % p as int == 0,
    decreases a,
{
    if a > 1 {
        let q = p / a;
        let r = p % a;
        assert(r != 0);
        lemma_fundamental_div_mod(p as int, a as int);
        assert(r * b == p * b - q * (a * b)) by (nonlinear_arith)
            requires
                p == a * q + r,
        ;
        lemma_multiple_mul(p as int, b, p as int);
        lemma_multiple_mul(a * b, q as int, p as int);
        lemma_multiple_sub(p * b, q * (a * b), p as int);
        lemma_euclid_below(p, r, b);
    } else {
        assert(a * b == b) by (nonlinear_arith)
            requires
                a == 1,
        ;
    }
}

/// A prime that divides a product divides one of the factors.
pub proof fn lemma_euclid(p: nat, a: int, b: int)
    requires
        is_prime(p),
        (a * b) % p as int == 0,
    ensures
        a % p as int == 0 || b % p as int == 0,
{
    let r = a % p as int;
    lemma_mod_bound(a, p as int);
    if r != 0 {
        lemma_mul_mod_noop_left(a, b, p as int);
        lemma_euclid_below(p, r as nat, b);
    }
}

/// Binomial coefficients by Pascal's rule.
spec fn binomial(n: nat, k: nat) -> nat
    decreases n,
{
    if k == 0 {
        1
    } else if n == 0 {
        0
    } else {
        binomial((n - 1) as nat, k) + binomial((n - 1) as nat, (k - 1) as nat)
    }
}

proof fn lemma_binomial_edge(n: nat, k: nat)
    requires
        k >= n,
    ensures
        binomial(n, k) == if k == n {
            1nat
        } else {
            0nat
        },
    decreases n,
{
    if n > 0 {
        lemma_binomial_edge((n - 1) as nat, k);
        lemma_binomial_edge((n - 1) as nat, (k - 1) as nat);
    }
}

proof fn lemma_binomial_absorb(n: nat, k: nat)
    requires
        n > 0,
        k > 0,
    ensures
        k * binomial(n, k) == n * binomial((n - 1) as nat, (k - 1) as nat),
    decreases n,
{
    let c = binomial((n - 1) as nat, (k - 1) as nat);
    if n == 1 {
        assert(binomial(0, k) == 0);
        if k == 1 {
            assert(binomial(1, 1) == binomial(0, 1) + binomial(0, 0));
        } else {
            assert(binomial(0, (k - 1) as nat) == 0);
        }
        assert(k * binomial(1, k) == 1 * c) by (nonlinear_arith)
            requires
                binomial(1, k) == c,
                c == 0 || k == 1,
        ;
    } else {
        lemma_binomial_absorb((n - 1) as nat, k);
        let x = binomial((n - 1) as nat, k);
        let y = binomial((n - 2) as nat, (k - 1) as nat);
        if k == 1 {
            assert(k * (x + c) == n * c) by (nonlinear_arith)
                requires
                    k == 1,
                    k * x == (n - 1) * y,
                    y == 1,
                    c == 1,
            ;
        } else {
            lemma_binomial_absorb((n - 1) as nat, (k - 1) as nat);
            let z = binomial((n - 2) as nat, (k - 2) as nat);
            assert(c == y + z);
            assert(k * (x + c) == n * c) by (nonlinear_arith)
                requires
                    k * x == (n - 1) * y,
                    (k - 1) * c == (n - 1) * z,
                    c == y + z,
            ;
        }
    }
}

/// The first terms of the binomial expansion of `(a + 1)^n`.
spec fn expansion(a: int, n: nat, m: nat) -> int
    decreases m,
{
    binomial(n, m) * pow(a, m) + if m == 0 {
        0
    } else {
        expansion(a, n, (m - 1) as nat)
    }
}

proof fn lemma_expansion_step(a: int, n: nat, m: nat)
    requires
        m > 0,
    ensures
        expansion(a, n + 1, m) == expansion(a, n, m) + a * expansion(a, n, (m - 1) as nat),
    decreases m,
{
    let c1 = binomial(n, m) as int;
    let c0 = binomial(n, (m - 1) as nat) as int;
    assert(binomial(n + 1, m) == c1 + c0);
    let v = pow(a, (m - 1) as nat);
    assert(pow(a, m) == a * v) by {
        reveal(pow);
    }
    let w = pow(a, m);
    assert((c1 + c0) * w == c1 * w + c0 * (a * v)) by (nonlinear_arith)
        requires
            w == a * v,
    ;
    if m == 1 {
        lemma_pow0(a);
        assert(binomial(n + 1, 0) == 1 && binomial(n, 0) == 1);
        assert(expansion(a, n + 1, 0) == 1 * pow(a, 0) + 0);
        assert(expansion(a, n, 0) == 1 * pow(a, 0) + 0);
        assert(c0 * (a * v) == a * 1) by (nonlinear_arith)
            requires
                c0 == 1,
                v == 1,
        ;
    } else {
        lemma_expansion_step(a, n, (m - 1) as nat);
        let e1 = expansion(a, n, (m - 1) as nat);
        let e2 = expansion(a, n, (m - 2) as nat);
        assert(e1 == c0 * v + e2);
        assert(c0 * (a * v) + a * e2 == a * e1) by (nonlinear_arith)
            requires
                e1 == c0 * v + e2,
        ;
    }
}

proof fn lemma_binomial_theorem(a: int, n: nat)
    ensures
        expansion(a, n, n) == pow(a + 1, n),
    decreases n,
{
    if n == 0 {
        lemma_pow0(a);
        lemma_pow0(a + 1);
    } else {
        let m = (n - 1) as nat;
        lemma_binomial_theorem(a, m);
        lemma_expansion_step(a, m, n);
        lemma_binomial_edge(m, n);
        assert(expansion(a, m, n) == 0 * pow(a, n) + expansion(a, m, m));
        let e = expansion(a, m, m);
        assert(pow(a + 1, n) == (a + 1) * e) by {
            reveal(pow);
        }
        assert((a + 1) * e == e + a * e) by (nonlinear_arith);
    }
}

/// Below the last term the expansion with a prime exponent is one.
proof fn lemma_expansion_prime(a: int, p: nat, m: nat)
    requires
        is_prime(p),
        m < p,
    ensures
        (expansion(a, p, m) - 1) % p as int == 0,
    decreases m,
{
    if m == 0 {
        lemma_pow0(a);
        assert(expansion(a, p, 0) == 1 * 1 + 0);
    } else {
        lemma_expansion_prime(a, p, (m - 1) as nat);
        lemma_binomial_absorb(p, m);
        let c = binomial(p, m) as int;
        lemma_mod_multiples_basic(binomial((p - 1) as nat, (m - 1) as nat) as int, p as int);
        lemma_mul_is_commutative(p as int, binomial((p - 1) as nat, (m - 1) as nat) as int);
        lemma_euclid(p, m as int, c);
        lemma_small_mod(m, p);
        assert(c % p as int == 0);
        lemma_multiple_mul(c, pow(a, m), p as int);
        lemma_multiple_sub(
            c * pow(a, m),
            expansion(a, p, (m - 1) as nat) - 1,
            p as int,
        );
    }
}

proof fn lemma_fermat_step(p: nat, a: nat)
    requires
        is_prime(p),
    ensures
        (pow(a as int, p) - a) % p as int == 0,
    decreases a,
{
    if a == 0 {
        lemma0_pow(p);
        lemma_small_mod(0, p);
    } else {
        let b = (a - 1) as nat;
        lemma_fermat_step(p, b);
        lemma_binomial_theorem(b as int, p);
        lemma_expansion_prime(b as int, p, (p - 1) as nat);
        lemma_binomial_edge(p, p);
        let e = expansion(b as int, p, (p - 1) as nat);
        assert(pow(a as int, p) == 1 * pow(b as int, p) + e);
        lemma_multiple_sub(pow(b as int, p) - b, e - 1, p as int);
        assert(pow(a as int, p) - a == (pow(b as int, p) - b) + (e - 1));
    }
}

/// Fermat's little theorem: what a prime does not divide has power one at the
/// prime's predecessor.
pub proof fn lemma_fermat(p: nat, a: nat)
    requires
        is_prime(p),
        a % p != 0,
    ensures
        pow(a as int, (p - 1) as nat) % p as int == 1,
{
    lemma_fermat_step(p, a);
    let v = pow(a as int, (p - 1) as nat);
    assert(pow(a as int, p) == a * v) by {
        reveal(pow);
    }
    assert(a * v - a == a * (v - 1)) by (nonlinear_arith);
    lemma_euclid(p, a as int, v - 1);
    lemma_one_mod(v, p);
}

/// A number whose predecessor is a multiple of `p` leaves the remainder one.
proof fn lemma_one_mod(v: int, p: nat)
    requires
        p > 1,
        (v - 1) % p as int == 0,
    ensures
        v % p as int == 1,
{
    lemma_add_mod_noop(v - 1, 1, p as int);
    lemma_small_mod(1, p);
}

/// A number that leaves the remainder one keeps it under powers.
proof fn lemma_one_pow(v: int, e: nat, m: nat)
    requires
        m > 1,
        v % m as int == 1,
    ensures
        pow(v, e) % m as int == 1,
{
    lemma_pow_mod_noop(v, e, m as int);
    lemma1_pow(e);
    lemma_small_mod(1, m);
}

/// If two powers of `b` are one, so is the power at the remainder of the
/// exponents.
proof fn lemma_power_remainder(b: int, m: nat, x: nat, y: nat)
    requires
        m > 1,
        y > 0,
        pow(b, x) % m as int == 1,
        pow(b, y) % m as int == 1,
    ensures
        pow(b, x % y) % m as int == 1,
{
    let q = x / y;
    let r = x % y;
    lemma_fundamental_div_mod(x as int, y as int);
    lemma_pow_multiplies(b, y, q);
    lemma_pow_adds(b, y * q, r);
    lemma_one_pow(pow(b, y), q, m);
    let u = pow(b, y * q);
    let w = pow(b, r);
    assert(pow(b, x) == u * w);
    lemma_mul_mod_noop_left(u, w, m as int);
}

/// If the powers of `b` at a prime and at a smaller number are one, so is `b`.
proof fn lemma_power_descent(b: int, m: nat, q: nat, y: nat)
    requires
        m > 1,
        is_prime(q),
        0 < y < q,
        pow(b, q) % m as int == 1,
        pow(b, y) % m as int == 1,
    ensures
        b % m as int == 1,
    decreases y,
{
    if y == 1 {
        lemma_pow1(b);
    } else {
        lemma_power_remainder(b, m, q, y);
        assert(q % y != 0);
        lemma_power_descent(b, m, q, q % y);
    }
}

/// The least divisor above one, searched from `d` on.
spec fn least_divisor(n: nat, d: nat) -> nat
    decreases n - d,
{
    if d >= n || n % d == 0 {
        d
    } else {
        least_divisor(n, d + 1)
    }
}

proof fn lemma_least_divisor(n: nat, d: nat)
    requires
        1 < d <= n,
        forall|c: nat| 1 < c < d ==> #[trigger] (n % c) != 0,
    ensures
        d <= least_divisor(n, d) <= n,
        n % least_divisor(n, d) == 0,
        forall|c: nat| 1 < c < least_divisor(n, d) ==> #[trigger] (n % c) != 0,
    decreases n - d,
{
    if d >= n {
        lemma_mod_self_0(n as int);
    } else if n % d != 0 {
        lemma_least_divisor(n, d + 1);
    }
}

/// A composite number has a prime divisor at most as large as its root.
pub(crate) proof fn lemma_prime_divisor(n: nat) -> (r: nat)
    requires
        n > 1,
    ensures
        is_prime(r),
        n % r == 0,
        r == n || r * r <= n,
{
    let r = least_divisor(n, 2);
    lemma_least_divisor(n, 2);
    assert forall|d: nat| 1 < d < r implies #[trigger] (r % d) != 0 by {
        if r % d == 0 {
            lemma_divides_chain(n, r, d);
        }
    }
    if r != n {
        let c = n / r;
        lemma_fundamental_div_mod(n as int, r as int);
        assert(n == r * c);
        assert(c > 1) by (nonlinear_arith)
            requires
                n == r * c,
                r != n,
                n > 1,
                c >= 0,
        ;
        if c < r {
            lemma_mod_multiples_basic(r as int, c as int);
            assert(n % c == 0);
            assert(false);
        }
        assert(r * r <= n) by (nonlinear_arith)
            requires
                n == r * c,
                c >= r,
        ;
    }
    r
}

proof fn lemma_divides_chain(n: nat, r: nat, d: nat)
    requires
        r > 0,
        d > 0,
        n % r == 0,
        r % d == 0,
    ensures
        n % d == 0,
{
    lemma_fundamental_div_mod(n as int, r as int);
    lemma_multiple_mul(r as int, (n / r) as int, d as int);
}

/// A congruence modulo `n` holds modulo a divisor of `n`.
proof fn lemma_mod_divisor(v: int, n: nat, r: nat)
    requires
        r > 1,
        n > 1,
        n % r == 0,
        v % n as int == 1,
    ensures
        v % r as int == 1,
{
    lemma_fundamental_div_mod(v, n as int);
    let k = v / n as int;
    lemma_multiple_mul(n as int, k, r as int);
    assert(v - 1 == n * k);
    lemma_one_mod(v, r);
}

/// One step of Pocklington's criterion: a prime factor `q` of `n - 1` whose
/// certificate holds divides the predecessor of every prime divisor of `n`.
proof fn lemma_pocklington_factor(n: nat, q: nat, m: nat, a: nat, inv: int, r: nat)
    requires
        n > 1,
        is_prime(q),
        is_prime(r),
        n % r == 0,
        n - 1 == q * m,
        pow(a as int, (n - 1) as nat) % n as int == 1,
        (inv * (pow(a as int, m) - 1)) % n as int == 1,
    ensures
        (r - 1) % q as int == 0,
{
    let b = pow(a as int, m);
    lemma_pow_multiplies(a as int, m, q);
    lemma_mul_is_commutative(m as int, q as int);
    assert(pow(b, q) == pow(a as int, (n - 1) as nat));
    lemma_mod_divisor(pow(b, q), n, r);
    lemma_mod_divisor(inv * (b - 1), n, r);
    if b % r as int == 1 {
        assert((b - 1) % r as int == 0) by {
            lemma_sub_mod_noop(b, 1, r as int);
            lemma_small_mod(1, r);
            lemma_small_mod(0, r);
        }
        lemma_multiple_mul(b - 1, inv, r as int);
        assert(false);
    }
    if b % r as int == 0 {
        lemma_pow_mod_noop(b, q, r as int);
        lemma0_pow(q);
        lemma_small_mod(0, r);
        assert(false);
    }
    let y = ((r - 1) as nat) % q;
    if y != 0 {
        let c = (b % r as int) as nat;
        lemma_mod_bound(b, r as int);
        lemma_small_mod(c, r);
        lemma_fermat(r, c);
        lemma_pow_mod_noop(b, (r - 1) as nat, r as int);
        lemma_power_remainder(b, r, (r - 1) as nat, q);
        lemma_power_descent(b, r, q, y);
        assert(false);
    }
}

/// A multiple of `q` above zero is at least `q`.
proof fn lemma_multiple_at_least(x: nat, q: nat)
    requires
        x > 0,
        q > 0,
        x % q == 0,
    ensures
        x >= q,
{
    if x < q {
        lemma_small_mod(x, q);
    }
}

/// Pocklington's criterion with one prime factor of `n - 1`.
pub(crate) proof fn lemma_pocklington(n: nat, q: nat, m: nat, a: nat, inv: int)
    requires
        n > 1,
        is_prime(q),
        n - 1 == q * m,
        q * q >= n,
        pow(a as int, (n - 1) as nat) % n as int == 1,
        (inv * (pow(a as int, m) - 1)) % n as int == 1,
    ensures
        is_prime(n),
{
    let r = lemma_prime_divisor(n);
    if r != n {
        lemma_pocklington_factor(n, q, m, a, inv, r);
        lemma_multiple_at_least((r - 1) as nat, q);
        assert(r * r > n) by (nonlinear_arith)
            requires
                r - 1 >= q,
                q * q >= n,
        ;
    }
}

/// Pocklington's criterion with two different prime factors of `n - 1`.
pub(crate) proof fn lemma_pocklington_two(
    n: nat,
    q1: nat,
    m1: nat,
    inv1: int,
    q2: nat,
    m2: nat,
    inv2: int,
    a: nat,
    f: nat,
)
    requires
        n > 1,
        is_prime(q1),
        is_prime(q2),
        q2 < q1,
        n - 1 == q1 * m1,
        n - 1 == q2 * m2,
        f == q1 * q2,
        f * f >= n,
        pow(a as int, (n - 1) as nat) % n as int == 1,
        (inv1 * (pow(a as int, m1) - 1)) % n as int == 1,
        (inv2 * (pow(a as int, m2) - 1)) % n as int == 1,
    ensures
        is_prime(n),
{
    let r = lemma_prime_divisor(n);
    if r != n {
        lemma_pocklington_factor(n, q1, m1, a, inv1, r);
        lemma_pocklington_factor(n, q2, m2, a, inv2, r);
        let s = (r - 1) as nat;
        let k = s / q1;
        lemma_fundamental_div_mod(s as int, q1 as int);
        lemma_euclid(q2, q1 as int, k as int);
        assert(q1 % q2 != 0);
        assert(k > 0) by (nonlinear_arith)
            requires
                s == q1 * k,
                s > 0,
                k >= 0,
        ;
        lemma_multiple_at_least(k, q2);
        assert(r * r > n) by (nonlinear_arith)
            requires
                r - 1 == q1 * k,
                k >= q2,
                f == q1 * q2,
                f * f >= n,
        {
            assert(q1 * k >= q1 * q2);
            assert(r > f);
            assert(r * r > f * f);
        }
    }
}

} // verus!
