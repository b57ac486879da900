use arb_sim::optimizer::{gradient_ascent, numerical_gradient};
use arb_sim::rat::Rat;
use std::cell::Cell;

fn rat(neg: bool, num: u128, den: u128) -> Rat {
    Rat { neg, num, den }
}

fn assert_rat(r: &Rat, neg: bool, num: u128, den: u128) {
    assert_eq!(r.neg, neg);
    assert_eq!(r.num, num);
    assert_eq!(r.den, den);
}

/// f(x) = -(x - 5)^2: the peak profit is exactly zero.
fn peak_zero(x: Rat) -> Option<Rat> {
    let five = Rat::from_u128(5);
    let t = x.try_sub(&five)?;
    let sq = t.try_mul(&t)?;
    Rat::zero().try_sub(&sq)
}

/// f(x) = 10 - (x - 3)^2: the peak profit is exactly ten, at three.
fn peak_ten(x: Rat) -> Option<Rat> {
    let three = Rat::from_u128(3);
    let ten = Rat::from_u128(10);
    let t = x.try_sub(&three)?;
    let sq = t.try_mul(&t)?;
    ten.try_sub(&sq)
}

#[test]
fn gradient_of_square_is_exact() {
    // f(x) = x^2: the centered difference at 3 is exactly 6 for any eps.
    let f = |x: Rat| x.try_mul(&x);
    let g = numerical_gradient(&f, &Rat::from_u128(3), &rat(false, 1, 10_000)).unwrap();
    assert_rat(&g, false, 6, 1);
}

#[test]
fn ascent_with_zero_peak_reports_no_viable_size() {
    // Converges toward x = 5 but the best profit is zero, which is not
    // strictly positive: absent.
    let r = gradient_ascent(
        peak_zero,
        Rat::zero(),
        rat(false, 1, 2),
        rat(false, 1, 10_000),
        50,
    );
    assert!(r.is_none());
}

#[test]
fn ascent_finds_positive_peak_exactly() {
    // Quadratic with peak 10 at 3: the exact-arithmetic ascent lands on it.
    let (x, p) = gradient_ascent(
        peak_ten,
        Rat::zero(),
        rat(false, 1, 2),
        rat(false, 1, 10_000),
        50,
    )
    .unwrap();
    assert_rat(&x, false, 3, 1);
    assert_rat(&p, false, 10, 1);
}

#[test]
fn ascent_halts_before_negative_size() {
    // f(x) = -x drives the ascent downward from zero.  The search must halt
    // before evaluating f at any point below -eps (the gradient probes reach
    // at most eps below zero), and report no viable size.
    let eps = rat(false, 1, 10_000);
    let called_below = Cell::new(false);
    let f = |x: Rat| {
        // x < -eps  <=>  x is negative and x.num * eps.den > eps.num * x.den
        if x.neg && x.num * 10_000 > x.den {
            called_below.set(true);
        }
        Rat::zero().try_sub(&x)
    };
    let r = gradient_ascent(f, Rat::zero(), rat(false, 1, 2), eps, 50);
    assert!(r.is_none());
    assert!(!called_below.get());
}

#[test]
fn ascent_returns_start_when_it_is_the_peak() {
    // Start at the maximum of f(x) = 10 - (x-3)^2 shifted: start at 3.
    let (x, p) = gradient_ascent(
        peak_ten,
        Rat::from_u128(3),
        rat(false, 1, 2),
        rat(false, 1, 10_000),
        50,
    )
    .unwrap();
    assert_rat(&x, false, 3, 1);
    assert_rat(&p, false, 10, 1);
}
