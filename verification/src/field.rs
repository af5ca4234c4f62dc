//! The prime field the circuit is defined over.
//!
//! Field elements are residues modulo the prime `P = 4099`.  The modulus is
//! large enough that the running index column never wraps for any supported
//! row capacity (up to `2^12` rows), so distinct indices stay distinct as
//! field elements.

use vstd::prelude::*;
use crate::algebra::{is_inverse, lemma_inverse_exists};

verus! {

/// The field modulus.  Prime, and larger than the largest index value any
/// supported circuit size can reach.
pub const P: u64 = 4099;

/// An element of the field: a residue in `[0, P)`.
#[derive(Clone, Copy, PartialEq, Eq, Structural, Debug)]
pub struct Fe {
    pub v: u64,
}

/// `(a + b) mod P` as a mathematical integer.
pub open spec fn s_add(a: int, b: int) -> int {
    (a + b) % (P as int)
}

/// `(a - b) mod P` for residues `a, b` in `[0, P)`, kept non-negative.
pub open spec fn s_sub(a: int, b: int) -> int {
    (a + P - b) % (P as int)
}

/// `(a * b) mod P` as a mathematical integer.
pub open spec fn s_mul(a: int, b: int) -> int {
    (a * b) % (P as int)
}

/// Residues modulo `P` lie in `[0, P)`.
pub proof fn lemma_s_range(x: int)
    ensures
        0 <= x % (P as int) < P,
{
    vstd::arithmetic::div_mod::lemma_mod_division_less_than_divisor(x, P as int);
}

/// Multiplying by one on the left is the identity on residues.
pub proof fn lemma_s_mul_one_left(y: int)
    requires
        0 <= y < P,
    ensures
        s_mul(1, y) == y,
{
    vstd::arithmetic::div_mod::lemma_small_mod(y as nat, P as nat);
}

/// Multiplying by one on the right is the identity on residues.
pub proof fn lemma_s_mul_one_right(x: int)
    requires
        0 <= x < P,
    ensures
        s_mul(x, 1) == x,
{
    assert(x * 1 == x) by (nonlinear_arith);
    vstd::arithmetic::div_mod::lemma_small_mod(x as nat, P as nat);
}

/// Multiplying by zero on the left gives zero.
pub proof fn lemma_s_mul_zero_left(y: int)
    ensures
        s_mul(0, y) == 0,
{
    assert(0 * y == 0) by (nonlinear_arith);
    vstd::arithmetic::div_mod::lemma_small_mod(0, P as nat);
}

/// Multiplying by zero on the right gives zero.
pub proof fn lemma_s_mul_zero_right(x: int)
    ensures
        s_mul(x, 0) == 0,
{
    assert(x * 0 == 0) by (nonlinear_arith);
    vstd::arithmetic::div_mod::lemma_small_mod(0, P as nat);
}

/// For residues with `b <= a`, subtraction is the plain difference.
pub proof fn lemma_s_sub_small(a: int, b: int)
    requires
        0 <= b <= a < P,
    ensures
        s_sub(a, b) == a - b,
{
    vstd::arithmetic::div_mod::lemma_mod_multiples_vanish(1, a - b, P as int);
    vstd::arithmetic::div_mod::lemma_small_mod((a - b) as nat, P as nat);
}

/// Subtraction of residues vanishes exactly on equal arguments.
pub proof fn lemma_s_sub_zero_iff(a: int, b: int)
    requires
        0 <= a < P,
        0 <= b < P,
    ensures
        s_sub(a, b) == 0 <==> a == b,
{
    if a >= b {
        lemma_s_sub_small(a, b);
    } else {
        vstd::arithmetic::div_mod::lemma_small_mod((a + P - b) as nat, P as nat);
    }
}

impl Fe {
    /// A well-formed element is a reduced residue.
    pub open spec fn wf(self) -> bool {
        self.v < P
    }

    /// The additive identity.
    pub fn zero() -> (r: Fe)
        ensures
            r.wf(),
            r.v == 0,
    {
        Fe { v: 0 }
    }

    /// The multiplicative identity.
    pub fn one() -> (r: Fe)
        ensures
            r.wf(),
            r.v == 1,
    {
        Fe { v: 1 }
    }

    /// The canonical embedding of a machine integer, reduced modulo `P`.
    pub fn from_u64(x: u64) -> (r: Fe)
        ensures
            r.wf(),
            r.v == x % P,
    {
        Fe { v: x % P }
    }

    /// Field addition.
    pub fn add(self, o: Fe) -> (r: Fe)
        requires
            self.wf(),
            o.wf(),
        ensures
            r.wf(),
            r.v == s_add(self.v as int, o.v as int),
    {
        Fe { v: (self.v + o.v) % P }
    }

    /// Field subtraction.
    pub fn sub(self, o: Fe) -> (r: Fe)
        requires
            self.wf(),
            o.wf(),
        ensures
            r.wf(),
            r.v == s_sub(self.v as int, o.v as int),
    {
        Fe { v: (self.v + P - o.v) % P }
    }

    /// Field multiplication.
    pub fn mul(self, o: Fe) -> (r: Fe)
        requires
            self.wf(),
            o.wf(),
        ensures
            r.wf(),
            r.v == s_mul(self.v as int, o.v as int),
    {
        proof {
            assert(self.v * o.v < P * P) by (nonlinear_arith)
                requires
                    self.v < P,
                    o.v < P,
            ;
        }
        Fe { v: (self.v * o.v) % P }
    }

    /// The multiplicative inverse of a nonzero element, by exhaustive search.
    ///
    /// The search always succeeds: the modulus is prime, so every nonzero
    /// residue has an inverse.
    pub fn inverse(self) -> (r: Fe)
        requires
            self.wf(),
            self.v != 0,
        ensures
            r.wf(),
            s_mul(self.v as int, r.v as int) == 1,
    {
        let a = self.v;
        proof {
            lemma_inverse_exists(a);
            assert forall|w: u64| w < 1 implies !is_inverse(a, w) by {
                assert(a * w == 0) by (nonlinear_arith)
                    requires
                        w == 0,
                ;
            }
        }
        let mut x: u64 = 1;
        loop
            invariant
                a == self.v,
                1 <= a < P,
                1 <= x < P,
                exists|w: u64| is_inverse(a, w),
                forall|w: u64| w < x ==> !is_inverse(a, w),
            decreases P - x,
        {
            proof {
                assert(a * x < P * P) by (nonlinear_arith)
                    requires
                        a < P,
                        x < P,
                ;
            }
            if (a * x) % P == 1 {
                proof {
                    assert(s_mul(a as int, x as int) == 1);
                }
                return Fe { v: x };
            }
            x = x + 1;
            if x == P {
                proof {
                    let w = choose|w: u64| is_inverse(a, w);
                    assert(!is_inverse(a, w));
                    assert(false);
                }
            }
        }
    }
}

} // verus!
