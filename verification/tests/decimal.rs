use orderbook_challenge::decimal::Dec;
use std::cmp::Ordering;

fn d(mantissa: i128, scale: u32) -> Dec {
    Dec::from_parts(mantissa, scale).unwrap()
}

#[test]
fn from_parts_checks_the_range() {
    assert!(Dec::from_parts(79228162514264337593543950335, 28).is_some());
    assert!(Dec::from_parts(79228162514264337593543950336, 0).is_none());
    assert!(Dec::from_parts(-79228162514264337593543950336, 0).is_none());
    assert!(Dec::from_parts(1, 29).is_none());
    let x = d(-1234, 3);
    assert_eq!(x.mantissa(), -1234);
    assert_eq!(x.scale(), 3);
}

#[test]
fn decimals_compare_by_the_number_they_denote() {
    assert_eq!(d(10, 1).compare(&d(100, 2)), Ordering::Equal);
    assert_eq!(d(10, 1), d(100, 2));
    assert_eq!(d(105, 1).compare(&d(11, 0)), Ordering::Less);
    assert_eq!(d(11, 0).compare(&d(105, 1)), Ordering::Greater);
    assert_eq!(d(-5, 1).compare(&d(0, 0)), Ordering::Less);
    assert_ne!(d(1, 0), d(2, 0));
}

#[test]
fn checked_sub_subtracts() {
    let r = d(11, 0).checked_sub(&d(105, 1)).unwrap();
    assert_eq!(r.mantissa(), 5);
    assert_eq!(r.scale(), 1);
    let r = d(1, 0).checked_sub(&d(3, 0)).unwrap();
    assert_eq!(r, d(-2, 0));
}

#[test]
fn checked_sub_reports_overflow() {
    let max = d(79228162514264337593543950335, 0);
    let min = d(-79228162514264337593543950335, 0);
    assert!(max.checked_sub(&min).is_none());
    assert!(max.checked_sub(&max).is_some());
}

#[test]
fn zero_is_zero() {
    assert_eq!(Dec::zero(), d(0, 5));
    assert_eq!(Dec::zero().mantissa(), 0);
}

#[test]
fn checked_sub_rounds_a_difference_just_past_the_range_back_into_it() {
    let max: i128 = 79228162514264337593543950335;
    let r = d(49, 2).checked_sub(&d(-max, 0)).unwrap();
    assert_eq!(r, d(max, 0));
    assert!(d(5, 1).checked_sub(&d(-max, 0)).is_none());
}

#[test]
fn checked_sub_is_exact_at_the_larger_scale() {
    let r = d(1, 28).checked_sub(&d(-3, 0)).unwrap();
    assert_eq!(r.mantissa(), 30000000000000000000000000001);
    assert_eq!(r.scale(), 28);
}

#[test]
fn checked_sub_rounds_half_to_even_at_the_scale_that_fits() {
    let a = d(79228162514264337593543950335, 1);
    let r = a.checked_sub(&d(-5, 2)).unwrap();
    assert_eq!(r.mantissa(), 7922816251426433759354395034);
    assert_eq!(r.scale(), 0);
    let r = d(79228162514264337593543950334, 1).checked_sub(&d(-5, 2)).unwrap();
    assert_eq!(r.mantissa(), 79228162514264337593543950334);
    assert_eq!(r.scale(), 1);
}
