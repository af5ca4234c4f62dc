//! A bounded Fibonacci-index relation arithmetized as polynomial constraints
//! over a prime field.
//!
//! Given public values `n` and `fib`, the constraint system is satisfiable
//! exactly when `fib` is the Fibonacci value at index `n` (seed `a = b = 1`,
//! base index 3) and `n` lies within the row capacity of the circuit.
//! The crate covers the constraint side of the relation and proves both
//! directions: a table filled for a true claim passes every check, and a
//! table filled for a false one is always caught by some gate.

pub mod algebra;
pub mod circuit;
pub mod field;
pub mod util;
pub mod zero_test;
