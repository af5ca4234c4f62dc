//! Helpers for building gate polynomials and reading field values.
//!
//! The combinators phrase constraints as polynomials: `and` is a product,
//! `eq` a difference, `not` the complement against one, `xif` the
//! one-directional implication `a * (1 - b)`, and `is_bool` the
//! booleanness polynomial `e * (e - 1)`.  A gate built from them is
//! satisfied on a row exactly when the polynomial evaluates to zero.

use vstd::prelude::*;
use vstd::arithmetic::div_mod::*;
use vstd::string::StringExecFns;
use crate::field::{Fe, P, s_add, s_sub, s_mul, lemma_s_range};

verus! {

/// A polynomial expression over field constants: the evaluable fragment of
/// a gate polynomial, once every cell query has been replaced by the
/// concrete value it takes on a row.
#[derive(Debug)]
pub enum Expr {
    Constant(Fe),
    Negated(Box<Expr>),
    Sum(Box<Expr>, Box<Expr>),
    Product(Box<Expr>, Box<Expr>),
    Scaled(Box<Expr>, Fe),
}

/// Every constant of the expression is a reduced residue.
pub open spec fn expr_wf(e: Expr) -> bool
    decreases e,
{
    match e {
        Expr::Constant(f) => f.wf(),
        Expr::Negated(x) => expr_wf(*x),
        Expr::Sum(x, y) => expr_wf(*x) && expr_wf(*y),
        Expr::Product(x, y) => expr_wf(*x) && expr_wf(*y),
        Expr::Scaled(x, f) => expr_wf(*x) && f.wf(),
    }
}

/// The value of an expression.
pub open spec fn s_eval(e: Expr) -> int
    decreases e,
{
    match e {
        Expr::Constant(f) => f.v as int,
        Expr::Negated(x) => s_sub(0, s_eval(*x)),
        Expr::Sum(x, y) => s_add(s_eval(*x), s_eval(*y)),
        Expr::Product(x, y) => s_mul(s_eval(*x), s_eval(*y)),
        Expr::Scaled(x, f) => s_mul(s_eval(*x), f.v as int),
    }
}

/// Expression values are residues.
pub proof fn lemma_eval_range(e: Expr)
    requires
        expr_wf(e),
    ensures
        0 <= s_eval(e) < P,
    decreases e,
{
    match e {
        Expr::Constant(f) => {},
        Expr::Negated(x) => {
            lemma_eval_range(*x);
            lemma_s_range(0 + P - s_eval(*x));
        },
        Expr::Sum(x, y) => {
            lemma_eval_range(*x);
            lemma_eval_range(*y);
            lemma_s_range(s_eval(*x) + s_eval(*y));
        },
        Expr::Product(x, y) => {
            lemma_eval_range(*x);
            lemma_eval_range(*y);
            lemma_s_range(s_eval(*x) * s_eval(*y));
        },
        Expr::Scaled(x, f) => {
            lemma_eval_range(*x);
            lemma_s_range(s_eval(*x) * f.v);
        },
    }
}

/// Evaluates an expression to a field element.
pub fn eval_expr(expr: &Expr) -> (r: Fe)
    requires
        expr_wf(*expr),
    ensures
        r.wf(),
        r.v == s_eval(*expr),
    decreases *expr,
{
    match expr {
        Expr::Constant(f) => *f,
        Expr::Negated(x) => Fe::zero().sub(eval_expr(&**x)),
        Expr::Sum(x, y) => eval_expr(&**x).add(eval_expr(&**y)),
        Expr::Product(x, y) => eval_expr(&**x).mul(eval_expr(&**y)),
        Expr::Scaled(x, f) => eval_expr(&**x).mul(*f),
    }
}

/// A deep copy of an expression.
pub fn clone_expr(e: &Expr) -> (r: Expr)
    ensures
        r == *e,
    decreases *e,
{
    match e {
        Expr::Constant(f) => Expr::Constant(*f),
        Expr::Negated(x) => Expr::Negated(Box::new(clone_expr(&**x))),
        Expr::Sum(x, y) => Expr::Sum(Box::new(clone_expr(&**x)), Box::new(clone_expr(&**y))),
        Expr::Product(x, y) => Expr::Product(
            Box::new(clone_expr(&**x)),
            Box::new(clone_expr(&**y)),
        ),
        Expr::Scaled(x, f) => Expr::Scaled(Box::new(clone_expr(&**x)), *f),
    }
}

/// Conjunction of two constraints under a common selector: the product.
pub fn and(lhe: Expr, rhe: Expr) -> (r: Expr)
    ensures
        expr_wf(lhe) && expr_wf(rhe) ==> expr_wf(r),
        s_eval(r) == s_mul(s_eval(lhe), s_eval(rhe)),
{
    Expr::Product(Box::new(lhe), Box::new(rhe))
}

/// The identity `lhe = rhe`, as the polynomial `lhe - rhe`.
pub fn eq(lhe: Expr, rhe: Expr) -> (r: Expr)
    requires
        expr_wf(lhe),
        expr_wf(rhe),
    ensures
        expr_wf(r),
        s_eval(r) == s_sub(s_eval(lhe), s_eval(rhe)),
{
    proof {
        reveal_with_fuel(s_eval, 3);
        reveal_with_fuel(expr_wf, 3);
        lemma_eval_range(lhe);
        lemma_eval_range(rhe);
        let l = s_eval(lhe);
        let m = s_eval(rhe);
        if m == 0 {
            lemma_small_mod(0, P as nat);
            lemma_mod_self_0(P as int);
            lemma_small_mod(l as nat, P as nat);
            lemma_mod_multiples_vanish(1, l, P as int);
            assert(s_add(l, s_sub(0, m)) == s_sub(l, m));
        } else {
            lemma_small_mod((P - m) as nat, P as nat);
            assert(s_add(l, s_sub(0, m)) == s_sub(l, m));
        }
    }
    Expr::Sum(Box::new(lhe), Box::new(Expr::Negated(Box::new(rhe))))
}

/// The complement of an indicator: `1 - e`.
pub fn not(e: Expr) -> (r: Expr)
    requires
        expr_wf(e),
    ensures
        expr_wf(r),
        s_eval(r) == s_sub(1, s_eval(e)),
{
    eq(Expr::Constant(Fe::one()), e)
}

/// The booleanness identity `e * (e - 1)`: zero exactly on indicator
/// values.
pub fn is_bool(e: Expr) -> (r: Expr)
    requires
        expr_wf(e),
    ensures
        expr_wf(r),
        s_eval(r) == s_mul(s_eval(e), s_sub(s_eval(e), 1)),
{
    let copy = clone_expr(&e);
    and(copy, eq(e, Expr::Constant(Fe::one())))
}

/// The one-directional implication `a ==> b` of indicators, as the
/// polynomial `a * (1 - b)`: it vanishes unless `a` holds and `b` fails.
pub fn xif(a: Expr, b: Expr) -> (r: Expr)
    requires
        expr_wf(a),
        expr_wf(b),
    ensures
        expr_wf(r),
        s_eval(r) == s_mul(s_eval(a), s_sub(1, s_eval(b))),
{
    and(a, not(b))
}

/// The decimal digits of `n`.
pub open spec fn dec_str(n: nat) -> Seq<char>
    decreases n,
{
    if n < 10 {
        seq![digit_char(n as int)]
    } else {
        dec_str(n / 10) + seq![digit_char((n % 10) as int)]
    }
}

/// The character for one decimal digit.
pub open spec fn digit_char(d: int) -> char {
    if d == 0 {
        '0'
    } else if d == 1 {
        '1'
    } else if d == 2 {
        '2'
    } else if d == 3 {
        '3'
    } else if d == 4 {
        '4'
    } else if d == 5 {
        '5'
    } else if d == 6 {
        '6'
    } else if d == 7 {
        '7'
    } else if d == 8 {
        '8'
    } else {
        '9'
    }
}

/// One decimal digit as a string slice.
fn digit_str(d: u64) -> (s: &'static str)
    requires
        d < 10,
    ensures
        s@ == seq![digit_char(d as int)],
{
    proof {
        reveal_strlit("0");
        reveal_strlit("1");
        reveal_strlit("2");
        reveal_strlit("3");
        reveal_strlit("4");
        reveal_strlit("5");
        reveal_strlit("6");
        reveal_strlit("7");
        reveal_strlit("8");
        reveal_strlit("9");
    }
    match d {
        0 => "0",
        1 => "1",
        2 => "2",
        3 => "3",
        4 => "4",
        5 => "5",
        6 => "6",
        7 => "7",
        8 => "8",
        _ => "9",
    }
}

fn dec_str_exec(x: u64) -> (s: String)
    ensures
        s@ == dec_str(x as nat),
    decreases x,
{
    let d = digit_str(x % 10);
    if x < 10 {
        String::from_str(d)
    } else {
        let hi = dec_str_exec(x / 10);
        hi.concat(d)
    }
}

/// Renders a field element, as its decimal digits.
pub fn fstr(n: &Fe) -> (s: String)
    ensures
        s@ == dec_str(n.v as nat),
{
    dec_str_exec(n.v)
}

} // verus!
