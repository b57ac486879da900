use arb_sim::rat::{gcd_u128, reduce, Rat};
use arb_sim::wide::{mul_div, mul_div_round, mul_u128, pow10};

fn rat(neg: bool, num: u128, den: u128) -> Rat {
    Rat { neg, num, den }
}

fn assert_rat(r: &Rat, neg: bool, num: u128, den: u128) {
    assert_eq!(r.neg, neg);
    assert_eq!(r.num, num);
    assert_eq!(r.den, den);
}

#[test]
fn gcd_of_two_composites() {
    assert_eq!(gcd_u128(12, 18), 6);
    assert_eq!(gcd_u128(7, 0), 7);
    assert_eq!(gcd_u128(1, 999), 1);
}

#[test]
fn reduce_cancels_common_factor() {
    let r = reduce(false, 910, 1100);
    assert_rat(&r, false, 91, 110);
    let z = reduce(true, 0, 5);
    assert_rat(&z, false, 0, 1);
}

#[test]
fn add_halves_and_thirds() {
    let a = rat(false, 1, 2);
    let b = rat(false, 1, 3);
    let s = a.try_add(&b).unwrap();
    assert_rat(&s, false, 5, 6);
}

#[test]
fn sub_can_go_negative() {
    let a = rat(false, 1, 2);
    let b = rat(false, 2, 3);
    let d = a.try_sub(&b).unwrap();
    assert_rat(&d, true, 1, 6);
}

#[test]
fn mul_reduces() {
    let a = rat(false, 2, 3);
    let b = rat(false, 3, 4);
    let p = a.try_mul(&b).unwrap();
    assert_rat(&p, false, 1, 2);
}

#[test]
fn div_flips_and_reduces() {
    let a = rat(true, 1, 2);
    let b = rat(false, 3, 4);
    let q = a.try_div(&b).unwrap();
    assert_rat(&q, true, 2, 3);
}

#[test]
fn div_by_zero_is_none() {
    let a = rat(false, 1, 2);
    let z = Rat::zero();
    assert!(a.try_div(&z).is_none());
}

#[test]
fn lt_orders_signed_values() {
    let a = rat(true, 1, 2);
    let b = rat(false, 1, 3);
    assert_eq!(a.try_lt(&b), Some(true));
    assert_eq!(b.try_lt(&a), Some(false));
    let c = rat(false, 2, 6);
    assert_eq!(b.try_lt(&c), Some(false));
    assert_eq!(c.try_lt(&b), Some(false));
}

#[test]
fn add_overflow_is_none() {
    let a = rat(false, u128::MAX, 1);
    let b = rat(false, u128::MAX, 1);
    assert!(a.try_add(&b).is_none());
}

#[test]
fn wide_product_is_exact() {
    let w = mul_u128(u128::MAX, u128::MAX);
    // (2^128 - 1)^2 = 2^256 - 2^129 + 1
    assert_eq!(w.hi, u128::MAX - 1);
    assert_eq!(w.lo, 1);
}

#[test]
fn mul_div_exact_power_of_two() {
    let p100: u128 = 1 << 100;
    let q96: u128 = 1 << 96;
    assert_eq!(mul_div(p100, p100, q96), Some(1 << 104));
}

#[test]
fn mul_div_truncates() {
    assert_eq!(mul_div(7, 1, 2), Some(3));
    assert_eq!(mul_div(99700, 1000, 1099700), Some(90));
}

#[test]
fn mul_div_overflow_is_none() {
    assert_eq!(mul_div(u128::MAX, u128::MAX, 1), None);
    assert_eq!(mul_div(1, 1, 0), None);
}

#[test]
fn mul_div_round_half_up() {
    assert_eq!(mul_div_round(7, 1, 2), Some(4));
    assert_eq!(mul_div_round(5, 1, 2), Some(3));
    assert_eq!(mul_div_round(6, 1, 4), Some(2));
    assert_eq!(mul_div_round(5, 1, 4), Some(1));
}

#[test]
fn pow10_bounds() {
    assert_eq!(pow10(0), Some(1));
    assert_eq!(pow10(18), Some(1_000_000_000_000_000_000));
    assert_eq!(pow10(38), Some(100_000_000_000_000_000_000_000_000_000_000_000_000));
    assert_eq!(pow10(39), None);
}
