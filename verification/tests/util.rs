use fib_circuit::field::{Fe, P};
use fib_circuit::util::{and, eq, eval_expr, fstr, is_bool, not, xif, Expr};

fn c(v: u64) -> Expr {
    Expr::Constant(Fe::from_u64(v))
}

#[test]
fn test_eval_expr() {
    assert_eq!(eval_expr(&c(7)).v, 7);
    assert_eq!(eval_expr(&Expr::Negated(Box::new(c(1)))).v, P - 1);
    assert_eq!(eval_expr(&Expr::Sum(Box::new(c(4098)), Box::new(c(5)))).v, 4);
    assert_eq!(eval_expr(&Expr::Product(Box::new(c(100)), Box::new(c(41)))).v, 1);
    assert_eq!(eval_expr(&Expr::Scaled(Box::new(c(2)), Fe::from_u64(3))).v, 6);
}

#[test]
fn test_and() {
    assert_eq!(eval_expr(&and(c(6), c(7))).v, 42);
    assert_eq!(eval_expr(&and(c(0), c(7))).v, 0);
}

#[test]
fn test_eq() {
    assert_eq!(eval_expr(&eq(c(9), c(9))).v, 0);
    assert_eq!(eval_expr(&eq(c(9), c(4))).v, 5);
    assert_eq!(eval_expr(&eq(c(4), c(9))).v, P - 5);
}

#[test]
fn test_not() {
    assert_eq!(eval_expr(&not(c(1))).v, 0);
    assert_eq!(eval_expr(&not(c(0))).v, 1);
    assert_eq!(eval_expr(&not(c(5))).v, P - 4);
}

#[test]
fn test_is_bool() {
    assert_eq!(eval_expr(&is_bool(c(0))).v, 0);
    assert_eq!(eval_expr(&is_bool(c(1))).v, 0);
    assert_eq!(eval_expr(&is_bool(c(2))).v, 2);
}

#[test]
fn test_xif() {
    // a implies b, as a * (1 - b): only a = 1, b = 0 is a violation.
    assert_eq!(eval_expr(&xif(c(1), c(0))).v, 1);
    assert_eq!(eval_expr(&xif(c(1), c(1))).v, 0);
    assert_eq!(eval_expr(&xif(c(0), c(0))).v, 0);
    assert_eq!(eval_expr(&xif(c(0), c(1))).v, 0);
}

#[test]
fn test_fstr() {
    assert_eq!(fstr(&Fe::from_u64(0)), "0");
    assert_eq!(fstr(&Fe::from_u64(7)), "7");
    assert_eq!(fstr(&Fe::from_u64(123)), "123");
    assert_eq!(fstr(&Fe::from_u64(4098)), "4098");
}
