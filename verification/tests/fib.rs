use fib_circuit::circuit::check_constraints;
use fib_circuit::circuit::FibCircuit;
use fib_circuit::circuit::Row;
use fib_circuit::field::Fe;
use fib_circuit::zero_test;

fn do_test(n: u64, fib: u64, k: u32) -> bool {
    let circuit = FibCircuit {
        k,
        n: Fe::from_u64(n),
        fib: Fe::from_u64(fib),
    };
    circuit.validate()
}

#[test]
fn test_fib() {
    assert!(do_test(6, 8, 4), "fib(6)=8 is ok");
    assert!(do_test(5, 5, 10), "fib(5)=5 is ok");
    assert!(!do_test(4, 5, 4), "invalid fibonacci");
    assert!(!do_test(1, 5, 4), "n=1 is not generated");
    assert!(!do_test(10001, 5, 4), "n=10001 is not generated");
}

#[test]
fn test_base_index_is_reachable() {
    // The first row carries index 3 and value 2.
    assert!(do_test(3, 2, 3));
    assert!(!do_test(3, 1, 3));
}

#[test]
fn test_sequence_prefix() {
    // Indices 3, 4, 5, 6, 7, 8 carry 2, 3, 5, 8, 13, 21.
    assert!(do_test(4, 3, 4));
    assert!(do_test(5, 5, 4));
    assert!(do_test(7, 13, 4));
    assert!(do_test(8, 21, 4));
    assert!(!do_test(8, 20, 4));
}

#[test]
fn test_capacity_edge() {
    // At k = 3 the table holds rows 0..=3, so the largest reachable index
    // is 6; one past it must be rejected even with a correct value.
    assert!(do_test(6, 8, 3));
    assert!(!do_test(7, 13, 3));
    assert!(do_test(7, 13, 4));
}

#[test]
fn test_below_base_rejected() {
    // Rejection does not depend on the claimed value.
    assert!(!do_test(0, 1, 4));
    assert!(!do_test(2, 1, 4));
    assert!(!do_test(2, 3, 10));
}

#[test]
fn test_beyond_capacity_rejected() {
    // Any claim at an unreachable index fails, true sequence value or not.
    assert!(!do_test(20, 0, 3));
    assert!(!do_test(20, 6765, 3));
}

#[test]
fn test_synthesize_shape() {
    let circuit = FibCircuit {
        k: 4,
        n: Fe::from_u64(6),
        fib: Fe::from_u64(8),
    };
    let rows = circuit.synthesize();
    // 2^4 - 6 + 1 usable rows, plus the last row.
    assert_eq!(rows.len(), 12);
    assert_eq!(rows[0].index.v, 3);
    assert_eq!(rows[0].a.v, 1);
    assert_eq!(rows[0].b.v, 1);
    assert_eq!(rows[0].c.v, 2);
    assert_eq!(rows[11].index.v, 14);
    assert!(rows[0].sel_not_last_row);
    assert!(!rows[11].sel_not_last_row);
    // The replicated candidates.
    for r in rows.iter() {
        assert_eq!(r.input_n.v, 6);
        assert_eq!(r.input_fib.v, 8);
        assert!(r.sel_all_rows);
    }
}

#[test]
fn test_tampered_witness_fails() {
    let circuit = FibCircuit {
        k: 4,
        n: Fe::from_u64(6),
        fib: Fe::from_u64(8),
    };
    let mut rows = circuit.synthesize();
    assert!(check_constraints(&rows, circuit.n, circuit.fib));
    // Breaking the recurrence on one row must be caught.
    rows[5].c = Fe::from_u64(7);
    assert!(!check_constraints(&rows, circuit.n, circuit.fib));
}

#[test]
fn test_seed_is_not_constrained() {
    // The gates tie consecutive rows together but do not pin the first
    // row's accumulators: a table grown from another seed satisfies every
    // constraint for the value that seed produces at the claimed index.
    // Soundness is therefore stated relative to the seed, and the
    // assignment procedure always starts from 1, 1.
    let n = Fe::from_u64(6);
    let fib = Fe::from_u64(11); // the value at index 6 when seeded 2, 1
    let mut rows = Vec::new();
    let mut a = Fe::from_u64(2);
    let mut b = Fe::from_u64(1);
    let last: u64 = 11;
    for t in 0..=last {
        let c = a.add(b);
        let index = Fe::from_u64(3 + t);
        let index_diff = index.sub(n);
        let value_diff = c.sub(fib);
        rows.push(Row {
            a,
            b,
            c,
            input_n: n,
            input_fib: fib,
            index,
            inv_index_diff: zero_test::assign(index_diff),
            inv_value_diff: zero_test::assign(value_diff),
            sel_all_rows: true,
            sel_not_last_row: t < last,
        });
        a = b;
        b = c;
    }
    assert!(check_constraints(&rows, n, fib));
    // With the fixed seed 1, 1 the same claim is rejected.
    assert!(!do_test(6, 11, 4));
}

#[test]
fn test_instance_binding() {
    let circuit = FibCircuit {
        k: 4,
        n: Fe::from_u64(6),
        fib: Fe::from_u64(8),
    };
    let rows = circuit.synthesize();
    // The same table does not satisfy a different public input vector.
    assert!(!check_constraints(&rows, Fe::from_u64(7), circuit.fib));
    assert!(!check_constraints(&rows, circuit.n, Fe::from_u64(13)));
}
