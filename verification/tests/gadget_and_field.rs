use fib_circuit::field::{Fe, P};
use fib_circuit::zero_test;

#[test]
fn test_field_ops() {
    let a = Fe::from_u64(4098);
    let b = Fe::from_u64(2);
    assert_eq!(a.add(b).v, 1);
    assert_eq!(b.sub(a).v, 3);
    assert_eq!(a.mul(a).v, 1); // (-1) * (-1)
    assert_eq!(Fe::from_u64(P).v, 0);
    assert_eq!(Fe::from_u64(10001).v, 1803);
}

#[test]
fn test_field_inverse() {
    assert_eq!(Fe::from_u64(1).inverse().v, 1);
    assert_eq!(Fe::from_u64(P - 1).inverse().v, P - 1);
    for x in [2u64, 3, 17, 1803, 4097] {
        let e = Fe::from_u64(x);
        assert_eq!(e.mul(e.inverse()).v, 1);
    }
}

#[test]
fn test_zero_test_round_trip() {
    // v = 0: the witness is zero and the indicator is one.
    let v = Fe::from_u64(0);
    let w = zero_test::assign(v);
    assert_eq!(w.v, 0);
    assert_eq!(zero_test::indicator(v, w).v, 1);
    assert_eq!(zero_test::identity_value(v, w).v, 0);
    // v != 0: the witness is the inverse and the indicator is zero.
    let v = Fe::from_u64(123);
    let w = zero_test::assign(v);
    assert_eq!(v.mul(w).v, 1);
    assert_eq!(zero_test::indicator(v, w).v, 0);
    assert_eq!(zero_test::identity_value(v, w).v, 0);
}

#[test]
fn test_zero_test_wrong_witness_fails() {
    // For nonzero v, a wrong witness breaks the gadget's own identity.
    let v = Fe::from_u64(2);
    let wrong = Fe::from_u64(3);
    assert_ne!(v.mul(wrong).v, 1);
    assert_ne!(zero_test::identity_value(v, wrong).v, 0);
}
