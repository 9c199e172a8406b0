//! What makes two exponents a key pair for a modulus.

use crate::bignum::mod_exp;
use crate::number_theory::{is_prime, lemma_power_cycle, lemma_two_primes_divide};
use vstd::arithmetic::div_mod::{
    lemma_fundamental_div_mod, lemma_mod_bound, lemma_mod_equivalence, lemma_small_mod,
};
use vstd::arithmetic::mul::lemma_mul_is_commutative;
use vstd::arithmetic::power::{
    lemma0_pow, lemma_pow1, lemma_pow_increases, lemma_pow_mod_noop, lemma_pow_multiplies, pow,
};
use vstd::prelude::*;

verus! {

/// Whether `e` and `d` undo each other modulo `n`: no component is zero, and
/// raising any number below `n` to the power `e * d` gives that number back.
pub open spec fn is_key_pair(n: nat, e: nat, d: nat) -> bool {
    &&& n > 0
    &&& e > 0
    &&& d > 0
    &&& forall|m: nat| m < n ==> #[trigger] mod_exp(m, e * d, n) == m
}

/// Whether `e` and `d` are the exponents of a two-prime RSA key with the
/// primes `p` and `q`: the primes differ, and `e * d` leaves the remainder 1
/// on division by `p - 1` and by `q - 1`.
pub open spec fn is_two_prime_key(p: nat, q: nat, e: nat, d: nat) -> bool {
    &&& is_prime(p)
    &&& is_prime(q)
    &&& p != q
    &&& (e * d) % ((p - 1) as nat) == 1
    &&& (e * d) % ((q - 1) as nat) == 1
}

/// Raising to a power that is one more than a multiple of `p - 1` keeps the
/// remainder on division by the prime `p`, and the power is no smaller than
/// its base.
proof fn lemma_power_keeps_remainder(m: nat, p: nat, t: nat)
    requires
        is_prime(p),
        t % ((p - 1) as nat) == 1,
    ensures
        pow(m as int, t) >= m,
        (pow(m as int, t) - m) % (p as int) == 0,
{
    let step = (p - 1) as nat;
    let rounds = t / step;
    lemma_fundamental_div_mod(t as int, step as int);
    assert(t == 1 + rounds * step) by (nonlinear_arith)
        requires
            t as int == (step as int) * (rounds as int) + 1,
    ;
    lemma_power_cycle(m, p, rounds);
    lemma_mod_equivalence(pow(m as int, t), m as int, p as int);
    if m == 0 {
        lemma0_pow(t);
    } else {
        lemma_pow1(m as int);
        lemma_pow_increases(m, 1, t);
    }
}

/// RSA works: the exponents of a two-prime key undo each other modulo the
/// product of the primes.
pub proof fn lemma_two_prime_key_is_key_pair(p: nat, q: nat, e: nat, d: nat)
    requires
        is_two_prime_key(p, q, e, d),
    ensures
        is_key_pair(p * q, e, d),
{
    let n = p * q;
    let t = e * d;
    assert(n > 0 && (t == 0 ==> e == 0 || d == 0) && (e == 0 || d == 0 ==> t == 0))
        by (nonlinear_arith)
        requires
            n == p * q,
            t == e * d,
            p >= 2,
            q >= 2,
    ;
    assert(0nat % ((p - 1) as nat) == 0);
    assert forall|m: nat| m < n implies #[trigger] mod_exp(m, e * d, n) == m by {
        let power = pow(m as int, t);
        lemma_power_keeps_remainder(m, p, t);
        lemma_power_keeps_remainder(m, q, t);
        lemma_two_primes_divide(p, q, (power - m) as nat);
        lemma_mod_equivalence(power, m as int, n as int);
        lemma_small_mod(m, n);
    }
}

/// Transforming with one exponent and then with another is one transform
/// with their product.
pub proof fn lemma_transform_twice(m: nat, first: nat, second: nat, n: nat)
    requires
        n > 0,
    ensures
        mod_exp(mod_exp(m, first, n), second, n) == mod_exp(m, first * second, n),
{
    let once = pow(m as int, first);
    lemma_mod_bound(once, n as int);
    lemma_pow_mod_noop(once, second, n as int);
    lemma_pow_multiplies(m as int, first, second);
    lemma_mod_bound(pow(once % (n as int), second), n as int);
}

/// With a key pair, transforming a number below the modulus with one
/// exponent and then with the other gives the number back, in either order.
pub proof fn lemma_key_pair_round_trip(m: nat, n: nat, e: nat, d: nat)
    requires
        is_key_pair(n, e, d),
        m < n,
    ensures
        mod_exp(mod_exp(m, e, n), d, n) == m,
        mod_exp(mod_exp(m, d, n), e, n) == m,
{
    lemma_transform_twice(m, e, d, n);
    lemma_transform_twice(m, d, e, n);
    lemma_mul_is_commutative(e as int, d as int);
    assert(mod_exp(m, e * d, n) == m);
}

} // verus!
