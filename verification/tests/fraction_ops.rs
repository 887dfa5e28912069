use beepee::fraction::{frac_max, frac_min, Fraction};

#[test]
fn construction_reduces_to_lowest_terms() {
    let f = Fraction::new(120, 1000);
    assert_eq!(f.numer(), 3);
    assert_eq!(f.denom(), 25);
    let g = Fraction::new(-120, 1000);
    assert_eq!(g.numer(), -3);
    assert_eq!(g.denom(), 25);
    let z = Fraction::new(0, 17);
    assert_eq!(z.numer(), 0);
    assert_eq!(z.denom(), 1);
}

#[test]
fn checked_construction_normalizes_sign() {
    let f = Fraction::new_checked(3, -6).unwrap();
    assert_eq!(f.numer(), -1);
    assert_eq!(f.denom(), 2);
    assert_eq!(Fraction::new_checked(i32::MIN, -1), None);
    assert!(Fraction::new_checked(i32::MIN, -2).is_some());
}

#[test]
fn exact_arithmetic() {
    let a = Fraction::new(1, 2);
    let b = Fraction::new(1, 3);
    assert_eq!(a.checked_add(&b), Some(Fraction::new(5, 6)));
    assert_eq!(a.checked_sub(&b), Some(Fraction::new(1, 6)));
    assert_eq!(a.checked_mul(&b), Some(Fraction::new(1, 6)));
    assert_eq!(a.checked_div(&b), Some(Fraction::new(3, 2)));
    assert_eq!(a.checked_div(&Fraction::new(0, 1)), None);
    assert_eq!(a.checked_neg(), Some(Fraction::new(-1, 2)));
}

#[test]
fn arithmetic_reports_overflow() {
    let big = Fraction::new(i32::MAX, 1);
    let one = Fraction::from_i32(1);
    assert_eq!(big.checked_add(&one), None);
    assert_eq!(big.checked_mul(&big), None);
    // an operation that cancels back into range succeeds
    assert_eq!(big.checked_sub(&big), Some(Fraction::from_i32(0)));
}

#[test]
fn rational_comparison() {
    let a = Fraction::new(1, 3);
    let b = Fraction::new(2, 5);
    assert!(a.lt(&b));
    assert!(a.le(&b));
    assert!(!b.le(&a));
    assert_eq!(frac_max(&a, &b), b);
    assert_eq!(frac_min(&a, &b), a);
}
