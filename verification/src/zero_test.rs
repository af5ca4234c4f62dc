//! The zero-test gadget.
//!
//! Given a field value `v` and one auxiliary witness cell `w` (intended to
//! hold the inverse of `v` when `v` is nonzero), the gadget exposes the
//! indicator expression `z = 1 - v * w` and enforces the single polynomial
//! identity `v * z = 0`.  Together these force `z = 1` exactly when `v = 0`
//! and `z = 0` otherwise, provided `w` is witnessed correctly; a wrong
//! witness for nonzero `v` makes the identity itself fail.

use vstd::prelude::*;
use vstd::arithmetic::div_mod::*;
use crate::algebra::lemma_zero_product;
use crate::field::{Fe, P, s_mul, s_sub};

verus! {

/// What the assignment phase writes into the auxiliary cell: the inverse of
/// `v` when `v` is nonzero, and zero otherwise.
pub open spec fn good_inverse(v: int, w: int) -> bool {
    if v == 0 {
        w == 0
    } else {
        s_mul(v, w) == 1
    }
}

/// The indicator expression `1 - v * w`.
pub open spec fn s_indicator(v: int, w: int) -> int {
    s_sub(1, s_mul(v, w))
}

/// The gadget's polynomial identity `v * (1 - v * w)`, which a satisfying
/// witness must make zero.
pub open spec fn s_identity(v: int, w: int) -> int {
    s_mul(v, s_indicator(v, w))
}

/// Computes the auxiliary witness for value `v`.
pub fn assign(v: Fe) -> (w: Fe)
    requires
        v.wf(),
    ensures
        w.wf(),
        good_inverse(v.v as int, w.v as int),
{
    if v.v == 0 {
        Fe::zero()
    } else {
        v.inverse()
    }
}

/// Evaluates the indicator expression for one row.
pub fn indicator(v: Fe, w: Fe) -> (z: Fe)
    requires
        v.wf(),
        w.wf(),
    ensures
        z.wf(),
        z.v == s_indicator(v.v as int, w.v as int),
{
    Fe::one().sub(v.mul(w))
}

/// Evaluates the gadget's identity polynomial for one row.
pub fn identity_value(v: Fe, w: Fe) -> (r: Fe)
    requires
        v.wf(),
        w.wf(),
    ensures
        r.wf(),
        r.v == s_identity(v.v as int, w.v as int),
{
    v.mul(indicator(v, w))
}

/// With a correctly witnessed inverse the indicator is exactly the zero
/// test of `v`, and the gadget's identity holds.
pub proof fn lemma_round_trip(v: int, w: int)
    requires
        0 <= v < P,
        0 <= w < P,
        good_inverse(v, w),
    ensures
        s_indicator(v, w) == if v == 0 {
            1int
        } else {
            0int
        },
        s_identity(v, w) == 0,
{
    if v == 0 {
        assert(v * w == 0) by (nonlinear_arith)
            requires
                v == 0,
        ;
        lemma_small_mod(0, P as nat);
        // indicator = (1 + P - 0) % P == 1
        lemma_mod_multiples_vanish(1, 1, P as int);
        lemma_small_mod(1, P as nat);
        assert(s_indicator(v, w) == 1);
        assert(0 * 1 == 0) by (nonlinear_arith);
        assert(s_identity(v, w) == 0);
    } else {
        // indicator = (1 + P - 1) % P == 0
        lemma_mod_self_0(P as int);
        assert(s_indicator(v, w) == 0);
        assert(v * 0 == 0) by (nonlinear_arith);
        lemma_small_mod(0, P as nat);
        assert(s_identity(v, w) == 0);
    }
}

/// The gadget's contract: whenever its identity holds — however the
/// auxiliary cell was chosen — the indicator is exactly the zero test of
/// `v`: one when `v = 0` and zero otherwise.
pub proof fn lemma_identity_sound(v: int, w: int)
    requires
        0 <= v < P,
        0 <= w < P,
        s_identity(v, w) == 0,
    ensures
        s_indicator(v, w) == if v == 0 {
            1int
        } else {
            0int
        },
{
    let z = s_indicator(v, w);
    lemma_mod_division_less_than_divisor(v * w, P as int);
    lemma_mod_division_less_than_divisor(1 + P - s_mul(v, w), P as int);
    if v == 0 {
        assert(v * w == 0) by (nonlinear_arith)
            requires
                v == 0,
        ;
        lemma_small_mod(0, P as nat);
        lemma_mod_multiples_vanish(1, 1, P as int);
        lemma_small_mod(1, P as nat);
    } else if z != 0 {
        lemma_zero_product(v as u64, z as u64);
        assert(false);
    }
}

/// For nonzero `v`, a witness that is not the inverse makes the gadget's
/// identity fail.
pub proof fn lemma_wrong_witness(v: int, w: int)
    requires
        0 < v < P,
        0 <= w < P,
        s_mul(v, w) != 1,
    ensures
        s_identity(v, w) != 0,
{
    let m = s_mul(v, w);
    lemma_mod_division_less_than_divisor(v * w, P as int);
    let z = s_indicator(v, w);
    // z is nonzero: for m == 0 it is 1, and otherwise it is 1 + P - m,
    // which lies strictly between 0 and P.
    if m == 0 {
        lemma_mod_multiples_vanish(1, 1, P as int);
        lemma_small_mod(1, P as nat);
        assert(z == 1);
    } else {
        lemma_small_mod((1 + P - m) as nat, P as nat);
        assert(z == 1 + P - m);
    }
    lemma_mod_division_less_than_divisor(1 + P - m, P as int);
    if s_identity(v, w) == 0 {
        lemma_zero_product(v as u64, z as u64);
        assert(false);
    }
}

} // verus!
