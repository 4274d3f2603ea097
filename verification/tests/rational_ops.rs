use unstake::rational::Rational;

#[test]
fn new_rejects_zero_denominator() {
    assert_eq!(Rational::new(1, 0), None);
    assert_eq!(Rational::new(3, 7), Some(Rational { num: 3, den: 7 }));
}

#[test]
fn add_is_exact() {
    let a = Rational { num: 1, den: 2 };
    let b = Rational { num: 1, den: 3 };
    assert_eq!(a.checked_add(&b), Some(Rational { num: 5, den: 6 }));
}

#[test]
fn add_overflows() {
    let a = Rational { num: u64::MAX, den: 1 };
    let b = Rational { num: u64::MAX, den: 1 };
    assert_eq!(a.checked_add(&b), None);
}

#[test]
fn sub_is_exact() {
    let a = Rational { num: 1, den: 2 };
    let b = Rational { num: 1, den: 10 };
    // 1/2 - 1/10 = (10 - 2) / 20
    assert_eq!(a.checked_sub(&b), Some(Rational { num: 8, den: 20 }));
}

#[test]
fn sub_rejects_negative() {
    let a = Rational { num: 1, den: 10 };
    let b = Rational { num: 1, den: 2 };
    assert_eq!(a.checked_sub(&b), None);
}

#[test]
fn mul_is_exact() {
    let a = Rational { num: 3, den: 4 };
    let b = Rational { num: 2, den: 5 };
    assert_eq!(a.checked_mul(&b), Some(Rational { num: 6, den: 20 }));
}

#[test]
fn mul_overflows() {
    let a = Rational { num: u64::MAX, den: 1 };
    let b = Rational { num: 2, den: 1 };
    assert_eq!(a.checked_mul(&b), None);
}

#[test]
fn le_compares_by_cross_multiplication() {
    let third = Rational { num: 1, den: 3 };
    let half = Rational { num: 1, den: 2 };
    let also_half = Rational { num: 2, den: 4 };
    assert!(third.le(&half));
    assert!(!half.le(&third));
    assert!(half.le(&also_half));
    assert!(also_half.le(&half));
}

#[test]
fn floor_mul_rounds_down() {
    let r = Rational { num: 1, den: 3 };
    assert_eq!(r.floor_mul(10), Some(3));
    assert_eq!(r.floor_mul(9), Some(3));
}

#[test]
fn ceil_mul_rounds_up() {
    let r = Rational { num: 1, den: 3 };
    assert_eq!(r.ceil_mul(10), Some(4));
    assert_eq!(r.ceil_mul(9), Some(3));
}

#[test]
fn floor_and_ceil_mul_overflow() {
    let r = Rational { num: u64::MAX, den: 1 };
    assert_eq!(r.floor_mul(2), None);
    assert_eq!(r.ceil_mul(2), None);
}

#[test]
fn ceil_mul_of_exact_multiple_adds_nothing() {
    let r = Rational { num: 3, den: 1000 };
    // 100_000 * 3 / 1000 is exactly 300
    assert_eq!(r.ceil_mul(100_000), Some(300));
    assert_eq!(r.floor_mul(100_000), Some(300));
}
