//! Number theory behind the field: primality of the modulus, existence of
//! multiplicative inverses, and the zero-product property.
//!
//! These facts are what make the zero-test gadget sound: an identity
//! `v * z = 0` forces `z = 0` for nonzero `v` only because the modulus is
//! prime, and the witnessed inverse the gadget relies on exists for the same
//! reason.

use vstd::prelude::*;
use vstd::arithmetic::div_mod::*;
use crate::field::P;

verus! {

/// `d` divides `n` (for positive `d`).
pub open spec fn divides(d: int, n: int) -> bool
    recommends
        d >= 1,
{
    n % d == 0
}

/// The greatest common divisor, by the Euclidean recurrence.
pub open spec fn gcd(a: nat, b: nat) -> nat
    decreases b,
{
    if b == 0 {
        a
    } else {
        gcd(b, a % b)
    }
}

/// The gcd of two numbers, the first positive, is positive.
pub proof fn lemma_gcd_pos(a: nat, b: nat)
    requires
        a >= 1,
    ensures
        gcd(a, b) >= 1,
    decreases b,
{
    if b != 0 {
        lemma_gcd_pos(b, a % b);
    }
}

/// The gcd divides both of its arguments.
pub proof fn lemma_gcd_divides(a: nat, b: nat)
    requires
        a >= 1,
    ensures
        gcd(a, b) >= 1,
        divides(gcd(a, b) as int, a as int),
        divides(gcd(a, b) as int, b as int),
    decreases b,
{
    lemma_gcd_pos(a, b);
    let g = gcd(a, b) as int;
    if b == 0 {
        lemma_mod_self_0(a as int);
        lemma_small_mod(0, a);
    } else {
        lemma_gcd_divides(b, a % b);
        lemma_fundamental_div_mod(a as int, b as int);
        let q = a as int / b as int;
        let r = (a % b) as int;
        // b and r are multiples of g, hence so is a == b * q + r.
        assert(divides(g, b as int));
        lemma_mul_mod_noop_left(b as int, q, g);
        assert((b as int % g) * q == 0) by (nonlinear_arith)
            requires
                (b as int) % g == 0,
        ;
        lemma_small_mod(0, gcd(a, b));
        assert((b as int * q) % g == 0);
        lemma_add_mod_noop(b as int * q, r, g);
        assert((a as int) % g == ((b as int * q) % g + r % g) % g);
    }
}

/// Witness predicate for Bezout coefficients of `a` and `b`.
pub open spec fn is_bezout(a: nat, b: nat, x: int, y: int) -> bool {
    a * x + b * y == gcd(a, b)
}

/// Bezout's identity: the gcd is an integer combination of its arguments.
pub proof fn lemma_bezout(a: nat, b: nat)
    ensures
        exists|x: int, y: int| is_bezout(a, b, x, y),
    decreases b,
{
    if b == 0 {
        assert(a * 1 + b * 0 == gcd(a, b)) by {
            assert(a * 1 == a) by (nonlinear_arith);
            assert(b * 0 == 0) by (nonlinear_arith);
        }
        assert(is_bezout(a, b, 1, 0));
    } else {
        let m: nat = a % b;
        lemma_bezout(b, m);
        let (x, y) = choose|x: int, y: int| is_bezout(b, m, x, y);
        lemma_fundamental_div_mod(a as int, b as int);
        let q = a as int / b as int;
        assert(a as int * y + b as int * (x - q * y) == b as int * x + (a as int - b as int * q)
            * y) by (nonlinear_arith);
        assert(is_bezout(a, b, y, x - q * y));
    }
}

/// Trial division bounded by `d`.
pub open spec fn no_divisor_upto(p: int, d: nat) -> bool
    decreases d,
{
    d <= 1 || (p % (d as int) != 0 && no_divisor_upto(p, (d - 1) as nat))
}

proof fn lemma_no_divisor_upto_spread(p: int, d: nat)
    requires
        no_divisor_upto(p, d),
    ensures
        forall|e: int| 2 <= e <= d ==> !divides(e, p),
    decreases d,
{
    if d > 1 {
        lemma_no_divisor_upto_spread(p, (d - 1) as nat);
    }
}

/// The modulus has no divisor between 2 and `P - 1`: it is prime.
///
/// Trial division up to 64 suffices because any factorization of `P` has a
/// factor of at most `sqrt(P) < 65`.
pub proof fn lemma_modulus_prime()
    ensures
        forall|d: int| 2 <= d < P ==> !divides(d, P as int),
{
    assert(no_divisor_upto(P as int, 1));
    assert(no_divisor_upto(P as int, 2));
    assert(no_divisor_upto(P as int, 3));
    assert(no_divisor_upto(P as int, 4));
    assert(no_divisor_upto(P as int, 5));
    assert(no_divisor_upto(P as int, 6));
    assert(no_divisor_upto(P as int, 7));
    assert(no_divisor_upto(P as int, 8));
    assert(no_divisor_upto(P as int, 9));
    assert(no_divisor_upto(P as int, 10));
    assert(no_divisor_upto(P as int, 11));
    assert(no_divisor_upto(P as int, 12));
    assert(no_divisor_upto(P as int, 13));
    assert(no_divisor_upto(P as int, 14));
    assert(no_divisor_upto(P as int, 15));
    assert(no_divisor_upto(P as int, 16));
    assert(no_divisor_upto(P as int, 17));
    assert(no_divisor_upto(P as int, 18));
    assert(no_divisor_upto(P as int, 19));
    assert(no_divisor_upto(P as int, 20));
    assert(no_divisor_upto(P as int, 21));
    assert(no_divisor_upto(P as int, 22));
    assert(no_divisor_upto(P as int, 23));
    assert(no_divisor_upto(P as int, 24));
    assert(no_divisor_upto(P as int, 25));
    assert(no_divisor_upto(P as int, 26));
    assert(no_divisor_upto(P as int, 27));
    assert(no_divisor_upto(P as int, 28));
    assert(no_divisor_upto(P as int, 29));
    assert(no_divisor_upto(P as int, 30));
    assert(no_divisor_upto(P as int, 31));
    assert(no_divisor_upto(P as int, 32));
    assert(no_divisor_upto(P as int, 33));
    assert(no_divisor_upto(P as int, 34));
    assert(no_divisor_upto(P as int, 35));
    assert(no_divisor_upto(P as int, 36));
    assert(no_divisor_upto(P as int, 37));
    assert(no_divisor_upto(P as int, 38));
    assert(no_divisor_upto(P as int, 39));
    assert(no_divisor_upto(P as int, 40));
    assert(no_divisor_upto(P as int, 41));
    assert(no_divisor_upto(P as int, 42));
    assert(no_divisor_upto(P as int, 43));
    assert(no_divisor_upto(P as int, 44));
    assert(no_divisor_upto(P as int, 45));
    assert(no_divisor_upto(P as int, 46));
    assert(no_divisor_upto(P as int, 47));
    assert(no_divisor_upto(P as int, 48));
    assert(no_divisor_upto(P as int, 49));
    assert(no_divisor_upto(P as int, 50));
    assert(no_divisor_upto(P as int, 51));
    assert(no_divisor_upto(P as int, 52));
    assert(no_divisor_upto(P as int, 53));
    assert(no_divisor_upto(P as int, 54));
    assert(no_divisor_upto(P as int, 55));
    assert(no_divisor_upto(P as int, 56));
    assert(no_divisor_upto(P as int, 57));
    assert(no_divisor_upto(P as int, 58));
    assert(no_divisor_upto(P as int, 59));
    assert(no_divisor_upto(P as int, 60));
    assert(no_divisor_upto(P as int, 61));
    assert(no_divisor_upto(P as int, 62));
    assert(no_divisor_upto(P as int, 63));
    assert(no_divisor_upto(P as int, 64));
    lemma_no_divisor_upto_spread(P as int, 64);
    assert forall|d: int| 2 <= d < P implies !divides(d, P as int) by {
        if divides(d, P as int) && d > 64 {
            lemma_fundamental_div_mod(P as int, d);
            let q = P as int / d;
            assert(P as int == d * q);
            assert(2 <= q <= 64) by (nonlinear_arith)
                requires
                    P as int == d * q,
                    64 < d < P,
                    P == 4099,
            ;
            lemma_mod_multiples_basic(d, q);
            assert((q * d) % q == 0);
            assert(q * d == d * q) by (nonlinear_arith);
            assert(divides(q, P as int));
        }
    }
}

/// `x` is the multiplicative inverse of `a` modulo `P`.
pub open spec fn is_inverse(a: u64, x: u64) -> bool {
    x < P && (a * x) % (P as int) == 1
}

/// Every nonzero residue has a multiplicative inverse modulo the prime `P`.
pub proof fn lemma_inverse_exists(a: u64)
    requires
        1 <= a < P,
    ensures
        exists|x: u64| is_inverse(a, x),
{
    lemma_gcd_divides(P as nat, a as nat);
    let g = gcd(P as nat, a as nat);
    // g divides a and 1 <= a, so g <= a < P.
    if g > a {
        lemma_small_mod(a as nat, g);
        assert(false);
    }
    // A divisor of P that is at least 2 contradicts primality, so g == 1.
    lemma_modulus_prime();
    assert(g == 1);
    lemma_bezout(P as nat, a as nat);
    let (x, y) = choose|x: int, y: int| is_bezout(P as nat, a as nat, x, y);
    assert(P as int * x + a as int * y == 1);
    let r = y % (P as int);
    lemma_mod_division_less_than_divisor(y, P as int);
    lemma_mul_mod_noop_right(a as int, y, P as int);
    assert((a as int * r) % (P as int) == (a as int * y) % (P as int));
    lemma_mod_multiples_vanish(-x, 1, P as int);
    assert((P as int) * (-x) + 1 == a as int * y) by (nonlinear_arith)
        requires
            P as int * x + a as int * y == 1,
    ;
    lemma_small_mod(1, P as nat);
    assert((a as int * y) % (P as int) == 1);
    assert(is_inverse(a, r as u64));
}

/// The zero-product property of the prime field: a product of residues is
/// zero only if one of the factors is.
pub proof fn lemma_zero_product(a: u64, b: u64)
    requires
        a < P,
        b < P,
        (a * b) % (P as int) == 0,
    ensures
        a == 0 || b == 0,
{
    if a != 0 && b != 0 {
        lemma_inverse_exists(a);
        let x = choose|x: u64| is_inverse(a, x);
        // b == b * (a * x) == x * (a * b) modulo P, and a * b is 0 modulo P.
        assert(b as int * (a as int * x as int) == x as int * (a as int * b as int))
            by (nonlinear_arith);
        lemma_mul_mod_noop_right(b as int, a as int * x as int, P as int);
        lemma_mul_mod_noop_right(x as int, a as int * b as int, P as int);
        assert((x as int * ((a as int * b as int) % (P as int))) % (P as int) == (x as int * (
        a as int * b as int)) % (P as int));
        assert(x as int * 0 == 0) by (nonlinear_arith);
        lemma_small_mod(0, P as nat);
        assert((b as int * ((a as int * x as int) % (P as int))) % (P as int) == (b as int * (
        a as int * x as int)) % (P as int));
        assert(b as int * 1 == b as int) by (nonlinear_arith);
        lemma_small_mod(b as nat, P as nat);
        assert(false);
    }
}

} // verus!
