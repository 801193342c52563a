use stark_vm::field::{fadd, finv, fmul, fpow, fsub, reduce, MODULUS};
use stark_vm::poly::{eval, interpolate, powers, root_of_unity};

#[test]
fn field_add_wraps_around_modulus() {
    assert_eq!(fadd(MODULUS - 1, 2), 1);
    assert_eq!(fadd(3, 4), 7);
}

#[test]
fn field_sub_below_zero() {
    assert_eq!(fsub(0, 1), MODULUS - 1);
    assert_eq!(fsub(10, 4), 6);
}

#[test]
fn field_mul_reduces_exactly() {
    assert_eq!(fmul(MODULUS - 1, MODULUS - 1), 1);
    // 2^64 is congruent to 2^32 - 1
    assert_eq!(fmul(1u64 << 32, 1u64 << 32), (1u64 << 32) - 1);
    assert_eq!(fmul(6, 7), 42);
}

#[test]
fn field_pow_and_inverse() {
    assert_eq!(fpow(2, 10), 1024);
    assert_eq!(fpow(5, 0), 1);
    for a in [1u64, 2, 3, 7, 12345, MODULUS - 1] {
        assert_eq!(fmul(finv(a), a), 1);
    }
}

#[test]
fn reduce_maps_words_into_field() {
    assert_eq!(reduce(MODULUS), 0);
    assert_eq!(reduce(u64::MAX), u64::MAX - MODULUS);
    assert_eq!(reduce(5), 5);
}

#[test]
fn root_of_unity_has_exact_order() {
    let r = root_of_unity(4);
    assert_eq!(fpow(r, 4), 1);
    assert_ne!(fpow(r, 2), 1);
    let r64 = root_of_unity(64);
    assert_eq!(fpow(r64, 64), 1);
    assert_ne!(fpow(r64, 32), 1);
}

#[test]
fn horner_evaluation() {
    assert_eq!(eval(&vec![1, 2, 3], 2), 17);
    assert_eq!(eval(&vec![], 9), 0);
    assert_eq!(eval(&vec![5], 123), 5);
}

#[test]
fn powers_of_element() {
    assert_eq!(powers(3, 5), vec![1, 3, 9, 27, 81]);
    assert_eq!(powers(3, 0), Vec::<u64>::new());
}

#[test]
fn interpolation_reproduces_values() {
    let n = 4u64;
    let g = root_of_unity(n);
    let points = powers(g, 4);
    let inv_points = powers(finv(g), 4);
    let vals = vec![5, 0, 11, 3];
    let c = interpolate(&vals, &inv_points);
    for i in 0..4 {
        assert_eq!(eval(&c, points[i]), vals[i]);
    }
}
