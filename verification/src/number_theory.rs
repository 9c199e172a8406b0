//! The number theory under raw RSA: greatest common divisors, Euclid's
//! lemma, binomial coefficients and Fermat's little theorem.

use vstd::arithmetic::div_mod::{
    lemma_add_mod_noop, lemma_fundamental_div_mod, lemma_mod_multiples_basic,
    lemma_mod_multiples_vanish, lemma_mod_self_0, lemma_mul_mod_noop_left, lemma_small_mod,
};
use vstd::arithmetic::power::{lemma0_pow, lemma_pow1, lemma_pow_adds, pow};
use vstd::prelude::*;

verus! {

/// Whether `p` is a prime number.
pub open spec fn is_prime(p: nat) -> bool {
    p >= 2 && forall|k: nat| 1 < k < p ==> #[trigger] (p % k) != 0
}

/// The greatest common divisor, by Euclid's algorithm.
pub open spec fn gcd(a: nat, b: nat) -> nat
    decreases b,
{
    if b == 0 {
        a
    } else {
        gcd(b, a % b)
    }
}

/// A number that leaves no remainder is the divisor times the quotient.
pub proof fn lemma_multiple_of_divisor(x: int, d: int)
    requires
        d > 0,
        x % d == 0,
    ensures
        x == d * (x / d),
{
    lemma_fundamental_div_mod(x, d);
}

/// A product with `d` leaves no remainder on division by `d`.
pub proof fn lemma_product_is_multiple(d: int, k: int)
    requires
        d > 0,
    ensures
        (d * k) % d == 0,
        (k * d) % d == 0,
{
    lemma_mod_multiples_basic(k, d);
    assert(d * k == k * d) by (nonlinear_arith);
}

/// The greatest common divisor is positive unless both numbers are zero.
pub proof fn lemma_gcd_positive(a: nat, b: nat)
    requires
        a > 0 || b > 0,
    ensures
        gcd(a, b) > 0,
    decreases b,
{
    if b != 0 {
        lemma_gcd_positive(b, a % b);
    }
}

/// The greatest common divisor divides both numbers.
pub proof fn lemma_gcd_divides(a: nat, b: nat)
    requires
        a > 0 || b > 0,
    ensures
        gcd(a, b) > 0,
        a % gcd(a, b) == 0,
        b % gcd(a, b) == 0,
    decreases b,
{
    lemma_gcd_positive(a, b);
    let g = gcd(a, b) as int;
    if b == 0 {
        lemma_mod_self_0(a as int);
    } else {
        let r = a % b;
        lemma_gcd_divides(b, r);
        lemma_multiple_of_divisor(b as int, g);
        lemma_multiple_of_divisor(r as int, g);
        lemma_fundamental_div_mod(a as int, b as int);
        let kb = b as int / g;
        let kr = r as int / g;
        let q = a as int / (b as int);
        assert(a as int == g * (kb * q + kr)) by (nonlinear_arith)
            requires
                a as int == (b as int) * q + r as int,
                b as int == g * kb,
                r as int == g * kr,
        ;
        lemma_product_is_multiple(g, kb * q + kr);
    }
}

/// Bezout's identity: the greatest common divisor is a combination of the
/// two numbers with integer coefficients, which this proof hands back.
pub proof fn lemma_bezout(a: nat, b: nat) -> (c: (int, int))
    ensures
        a * c.0 + b * c.1 == gcd(a, b),
    decreases b,
{
    if b == 0 {
        (1, 0)
    } else {
        let r = a % b;
        let (x, y) = lemma_bezout(b, r);
        let q = a as int / (b as int);
        lemma_fundamental_div_mod(a as int, b as int);
        let g = gcd(a, b) as int;
        assert(a * y + b * (x - q * y) == g) by (nonlinear_arith)
            requires
                a as int == (b as int) * q + r as int,
                b * x + r * y == g,
        ;
        (y, x - q * y)
    }
}

/// Euclid's lemma: a prime that divides a product divides one of the
/// factors.
pub proof fn lemma_prime_divides_factor(p: nat, a: nat, b: nat)
    requires
        is_prime(p),
        (a * b) % p == 0,
        a % p != 0,
    ensures
        b % p == 0,
{
    let g = gcd(a, p);
    lemma_gcd_divides(a, p);
    lemma_multiple_of_divisor(p as int, g as int);
    let k = p as int / (g as int);
    assert(g <= p) by (nonlinear_arith)
        requires
            p as int == (g as int) * k,
            g > 0,
            p >= 2,
    ;
    if g == p {
        assert(false);
    }
    if 1 < g {
        assert(p % g != 0);
    }
    assert(g == 1);
    let (x, y) = lemma_bezout(a, p);
    lemma_multiple_of_divisor((a * b) as int, p as int);
    let w = (a * b) as int / (p as int);
    assert(b as int == (p as int) * (w * x + b * y)) by (nonlinear_arith)
        requires
            a * x + p * y == 1,
            (a * b) as int == (p as int) * w,
    ;
    lemma_product_is_multiple(p as int, w * x + b * y);
}

/// A prime does not divide another prime.
pub proof fn lemma_distinct_primes(p: nat, q: nat)
    requires
        is_prime(p),
        is_prime(q),
        p != q,
    ensures
        p % q != 0,
{
    if q < p {
        assert(p % q != 0);
    } else {
        lemma_small_mod(p, q);
    }
}

/// A number that two distinct primes divide is divided by their product.
pub proof fn lemma_two_primes_divide(p: nat, q: nat, x: nat)
    requires
        is_prime(p),
        is_prime(q),
        p != q,
        x % p == 0,
        x % q == 0,
    ensures
        p * q > 0,
        x % (p * q) == 0,
{
    lemma_multiple_of_divisor(x as int, p as int);
    let u = x / p;
    assert(p * u == x);
    lemma_distinct_primes(p, q);
    lemma_prime_divides_factor(q, p, u);
    lemma_multiple_of_divisor(u as int, q as int);
    let w = u as int / (q as int);
    assert(x as int == (p * q) * w && p * q > 0) by (nonlinear_arith)
        requires
            x as int == (p as int) * (u as int),
            u as int == (q as int) * w,
            p >= 2,
            q >= 2,
    ;
    lemma_product_is_multiple((p * q) as int, w);
}

/// The binomial coefficient: in how many ways `k` things are picked out of
/// `n`, by Pascal's rule.
pub open spec fn binomial(n: nat, k: nat) -> nat
    decreases n,
{
    if k == 0 {
        1
    } else if n == 0 {
        0
    } else {
        binomial((n - 1) as nat, (k - 1) as nat) + binomial((n - 1) as nat, k)
    }
}

/// Nothing is picked in more ways than none when more is asked than there
/// is, and everything is picked in one way.
pub proof fn lemma_binomial_edges(n: nat, k: nat)
    ensures
        k > n ==> binomial(n, k) == 0,
        binomial(n, n) == 1,
    decreases n,
{
    if n > 0 {
        lemma_binomial_edges((n - 1) as nat, (n - 1) as nat);
        lemma_binomial_edges((n - 1) as nat, n);
        if k > 0 {
            lemma_binomial_edges((n - 1) as nat, (k - 1) as nat);
            lemma_binomial_edges((n - 1) as nat, k);
        }
    }
}

/// The absorption rule: `k * binomial(n, k) == n * binomial(n - 1, k - 1)`.
pub proof fn lemma_binomial_absorbs(n: nat, k: nat)
    requires
        n >= 1,
        k >= 1,
    ensures
        k * binomial(n, k) == n * binomial((n - 1) as nat, (k - 1) as nat),
    decreases n,
{
    let n1 = (n - 1) as nat;
    let k1 = (k - 1) as nat;
    if n == 1 {
        lemma_binomial_edges(0, k1);
        lemma_binomial_edges(0, k);
        if k == 1 {
            assert(binomial(1, 1) == 1);
        } else {
            assert(binomial(1, k) == 0);
            assert(binomial(0, k1) == 0);
        }
        assert(k * binomial(n, k) == n * binomial(n1, k1)) by (nonlinear_arith)
            requires
                n == 1,
                (k == 1 && binomial(n, k) == 1 && binomial(n1, k1) == 1) || (binomial(n, k) == 0
                    && binomial(n1, k1) == 0),
        ;
    } else {
        let n2 = (n - 2) as nat;
        lemma_binomial_absorbs(n1, k);
        assert(binomial(n, k) == binomial(n1, k1) + binomial(n1, k));
        if k == 1 {
            assert(binomial(n1, 0) == 1);
            assert(binomial(n2, 0) == 1);
            assert(k * binomial(n, k) == n * binomial(n1, k1)) by (nonlinear_arith)
                requires
                    k == 1,
                    n >= 2,
                    binomial(n1, k1) == 1,
                    binomial(n, k) == 1 + binomial(n1, k),
                    k * binomial(n1, k) == (n - 1) * 1,
            ;
        } else {
            let k2 = (k - 2) as nat;
            lemma_binomial_absorbs(n1, k1);
            assert(binomial(n1, k1) == binomial(n2, k2) + binomial(n2, k1));
            assert(k * binomial(n, k) == n * binomial(n1, k1)) by (nonlinear_arith)
                requires
                    k >= 2,
                    n >= 2,
                    binomial(n, k) == binomial(n1, k1) + binomial(n1, k),
                    binomial(n1, k1) == binomial(n2, k2) + binomial(n2, k1),
                    k * binomial(n1, k) == (n - 1) * binomial(n2, k1),
                    (k - 1) * binomial(n1, k1) == (n - 1) * binomial(n2, k2),
            ;
        }
    }
}

/// A prime divides each of its binomial coefficients but the first and the
/// last.
pub proof fn lemma_prime_divides_binomial(p: nat, k: nat)
    requires
        is_prime(p),
        0 < k < p,
    ensures
        binomial(p, k) % p == 0,
{
    lemma_binomial_absorbs(p, k);
    lemma_product_is_multiple(p as int, binomial((p - 1) as nat, (k - 1) as nat) as int);
    lemma_small_mod(k, p);
    lemma_prime_divides_factor(p, k, binomial(p, k));
}

/// The first `j + 1` terms of the binomial expansion of `(a + 1)^n`.
pub open spec fn binomial_sum(a: int, n: nat, j: nat) -> int
    decreases j,
{
    if j == 0 {
        binomial(n, 0) * pow(a, 0)
    } else {
        binomial(n, j) * pow(a, j) + binomial_sum(a, n, (j - 1) as nat)
    }
}

/// Multiplying a partial expansion by `a + 1` gives the partial expansion
/// for the next power, and one term that spills over.
pub proof fn lemma_binomial_step(a: int, n: nat, j: nat)
    ensures
        (a + 1) * binomial_sum(a, n, j) == binomial_sum(a, n + 1, j) + binomial(n, j) * pow(
            a,
            j + 1,
        ),
    decreases j,
{
    reveal(pow);
    if j == 0 {
        assert(pow(a, 0) == 1);
        assert(pow(a, 1) == a * pow(a, 0));
        assert(binomial(n, 0) == 1);
        assert(binomial(n + 1, 0) == 1);
        assert((a + 1) * (1 * 1) == 1 * 1 + 1 * (a * 1)) by (nonlinear_arith);
    } else {
        let j1 = (j - 1) as nat;
        lemma_binomial_step(a, n, j1);
        let s = binomial_sum(a, n, j1);
        let s_next = binomial_sum(a, n + 1, j1);
        let c_low = binomial(n, j1) as int;
        let c_here = binomial(n, j) as int;
        let x_here = pow(a, j);
        let x_next = pow(a, j + 1);
        assert(x_next == a * x_here);
        assert(binomial(n + 1, j) == c_low + c_here);
        assert((a + 1) * (c_here * x_here + s) == ((c_low + c_here) * x_here + s_next) + c_here
            * x_next) by (nonlinear_arith)
            requires
                (a + 1) * s == s_next + c_low * x_here,
                x_next == a * x_here,
        ;
    }
}

/// The binomial theorem for `(a + 1)^n`.
pub proof fn lemma_binomial_theorem(a: int, n: nat)
    ensures
        pow(a + 1, n) == binomial_sum(a, n, n),
    decreases n,
{
    reveal(pow);
    if n == 0 {
        assert(pow(a + 1, 0) == 1);
        assert(pow(a, 0) == 1);
        assert(binomial(0, 0) == 1);
    } else {
        let n1 = (n - 1) as nat;
        lemma_binomial_theorem(a, n1);
        lemma_binomial_step(a, n1, n1);
        lemma_binomial_edges(n1, n1);
        lemma_binomial_edges(n, n);
        assert(pow(a + 1, n) == (a + 1) * pow(a + 1, n1));
        assert(binomial_sum(a, n, n) == binomial(n, n) * pow(a, n) + binomial_sum(a, n, n1));
        assert(1 * pow(a, n) == pow(a, n));
    }
}

/// Modulo a prime `p`, every partial expansion of `(a + 1)^p` short of the
/// last term is 1.
pub proof fn lemma_binomial_sum_mod_prime(a: int, p: nat, j: nat)
    requires
        is_prime(p),
        j < p,
    ensures
        binomial_sum(a, p, j) % (p as int) == 1,
    decreases j,
{
    reveal(pow);
    if j == 0 {
        assert(pow(a, 0) == 1);
        assert(binomial(p, 0) == 1);
        assert(binomial_sum(a, p, 0) == 1) by (nonlinear_arith)
            requires
                binomial_sum(a, p, 0) == binomial(p, 0) * pow(a, 0),
                binomial(p, 0) == 1,
                pow(a, 0) == 1,
        ;
        lemma_small_mod(1, p);
    } else {
        let j1 = (j - 1) as nat;
        lemma_binomial_sum_mod_prime(a, p, j1);
        lemma_prime_divides_binomial(p, j);
        lemma_multiple_of_divisor(binomial(p, j) as int, p as int);
        let c = binomial(p, j) as int / (p as int);
        let term = binomial(p, j) * pow(a, j);
        assert(term == (p as int) * (c * pow(a, j))) by (nonlinear_arith)
            requires
                term == binomial(p, j) * pow(a, j),
                binomial(p, j) as int == (p as int) * c,
        ;
        lemma_mod_multiples_vanish(c * pow(a, j), binomial_sum(a, p, j1), p as int);
    }
}

/// Fermat's little theorem: `a^p` and `a` leave the same remainder on
/// division by a prime `p`.
pub proof fn lemma_fermat_little(a: nat, p: nat)
    requires
        is_prime(p),
    ensures
        pow(a as int, p) % (p as int) == a % p,
    decreases a,
{
    let m = p as int;
    if a == 0 {
        lemma0_pow(p);
    } else {
        let b = (a - 1) as nat;
        lemma_fermat_little(b, p);
        lemma_binomial_theorem(b as int, p);
        lemma_binomial_sum_mod_prime(b as int, p, (p - 1) as nat);
        lemma_binomial_edges(p, p);
        let rest = binomial_sum(b as int, p, (p - 1) as nat);
        let top = pow(b as int, p);
        assert(binomial_sum(b as int, p, p) == binomial(p, p) * top + rest);
        assert(1 * top == top);
        assert(pow(a as int, p) == top + rest);
        lemma_add_mod_noop(top, rest, m);
        lemma_add_mod_noop(b as int, 1, m);
        lemma_small_mod(1, p);
    }
}

/// A power whose exponent is one more than a multiple of `p - 1` leaves the
/// same remainder on division by the prime `p` as its base.
pub proof fn lemma_power_cycle(a: nat, p: nat, rounds: nat)
    requires
        is_prime(p),
    ensures
        pow(a as int, 1 + rounds * (p - 1) as nat) % (p as int) == a % p,
    decreases rounds,
{
    let m = p as int;
    let step = (p - 1) as nat;
    if rounds == 0 {
        assert(0 * step == 0);
        lemma_pow1(a as int);
    } else {
        let before = (rounds - 1) as nat;
        lemma_power_cycle(a, p, before);
        let low = 1 + before * step;
        assert(1 + rounds * step == low + step) by (nonlinear_arith)
            requires
                before == rounds - 1,
                low == 1 + before * step,
        ;
        lemma_pow_adds(a as int, low as nat, step);
        lemma_pow_adds(a as int, 1, step);
        lemma_pow1(a as int);
        let x = pow(a as int, low as nat);
        let y = pow(a as int, step);
        lemma_mul_mod_noop_left(x, y, m);
        lemma_mul_mod_noop_left(a as int, y, m);
        lemma_fermat_little(a, p);
        assert(1 + step == p);
    }
}

} // verus!
