use arb_sim::errors::SimError;
use arb_sim::rat::Rat;
use arb_sim::v2::{pool_price_from_reserves, SimulateTradeLoopV2};

fn rat(neg: bool, num: u128, den: u128) -> Rat {
    Rat { neg, num, den }
}

fn assert_rat(r: &Rat, neg: bool, num: u128, den: u128) {
    assert_eq!(r.neg, neg);
    assert_eq!(r.num, num);
    assert_eq!(r.den, den);
}

fn sim(fee: Option<Rat>) -> SimulateTradeLoopV2 {
    SimulateTradeLoopV2::new(
        "http://localhost:8545".to_string(),
        "pool".to_string(),
        "tokenA".to_string(),
        "tokenB".to_string(),
        fee,
    )
}

#[test]
fn new_defaults_fee_to_three_thousandths() {
    let s = sim(None);
    assert_rat(&s.fee, false, 3, 1000);
    let t = sim(Some(rat(false, 1, 100)));
    assert_rat(&t.fee, false, 1, 100);
}

#[test]
fn basic_swap_exact_numbers() {
    // reserves 1000/1000, decimals 0/0, amount 100, fee 3/1000:
    // amount_in_with_fee = 99700, amount_out = floor(99700*1000/1099700) = 90
    let s = sim(None);
    let r = s
        .simulate_price_after_swap(1000, 1000, &rat(false, 100, 1), 0, 0)
        .unwrap();
    assert_eq!(r.amount_out, 90);
    assert_eq!(r.reserve_out_after, 910);
    assert_rat(&r.price_before, false, 1, 1);
    assert_rat(&r.price_after, false, 91, 110);
    assert_rat(&r.average_price, false, 201, 220);
    assert_rat(&r.price_impact, false, 19, 110);
}

#[test]
fn invariant_not_decreased_by_swap() {
    // The fee-adjusted constant-product invariant on the numbers above.
    let ri: u128 = 1000;
    let ro: u128 = 1000;
    let aw: u128 = 100 * 997;
    let s = sim(None);
    let r = s
        .simulate_price_after_swap(ri, ro, &rat(false, 100, 1), 0, 0)
        .unwrap();
    assert!((ri + aw) * (ro - r.amount_out) >= ri * ro);
}

#[test]
fn zero_amount_keeps_price_and_impact() {
    let s = sim(None);
    let r = s
        .simulate_price_after_swap(1000, 3000, &Rat::zero(), 0, 0)
        .unwrap();
    assert_eq!(r.amount_out, 0);
    assert_eq!(r.reserve_out_after, 3000);
    assert_rat(&r.price_before, false, 3, 1);
    assert_rat(&r.price_after, false, 3, 1);
    assert_rat(&r.average_price, false, 3, 1);
    assert_rat(&r.price_impact, false, 0, 1);
}

#[test]
fn average_price_is_exact_mean() {
    let s = sim(None);
    let r = s
        .simulate_price_after_swap(1000, 1000, &rat(false, 100, 1), 0, 0)
        .unwrap();
    let sum = r.price_before.try_add(&r.price_after).unwrap();
    let mean = sum.try_mul(&rat(false, 1, 2)).unwrap();
    assert_eq!(r.average_price.neg, mean.neg);
    assert_eq!(r.average_price.num, mean.num);
    assert_eq!(r.average_price.den, mean.den);
}

#[test]
fn impact_stays_within_unit_interval() {
    // A trade that takes most of the output reserve still has impact <= 1.
    let s = sim(None);
    let r = s
        .simulate_price_after_swap(100, 100, &rat(false, 100_000, 1), 0, 0)
        .unwrap();
    assert!(!r.price_impact.neg);
    assert!(r.price_impact.num <= r.price_impact.den);
}

#[test]
fn stablecoin_ether_pair_inverts_prices() {
    // decimals_in = 6, decimals_out = 18: quotes flip to stablecoin per ether.
    // raw price_before = (1e18 * 1e6) / (2e6 * 1e18) = 1/2, inverted = 2.
    let s = sim(None);
    let r = s
        .simulate_price_after_swap(
            2_000_000,
            1_000_000_000_000_000_000,
            &Rat::zero(),
            6,
            18,
        )
        .unwrap();
    assert_rat(&r.price_before, false, 2, 1);
    assert_rat(&r.price_after, false, 2, 1);
    assert_rat(&r.price_impact, false, 0, 1);
}

#[test]
fn zero_input_reserve_is_division_by_zero() {
    let s = sim(None);
    let r = s.simulate_price_after_swap(0, 1000, &rat(false, 1, 1), 0, 0);
    assert_eq!(r.unwrap_err(), SimError::DivisionByZero);
}

#[test]
fn oversized_decimals_overflow() {
    let s = sim(None);
    let r = s.simulate_price_after_swap(1000, 1000, &rat(false, 1, 1), 39, 0);
    assert_eq!(r.unwrap_err(), SimError::Overflow);
}

#[test]
fn price_impact_zero_when_price_before_zero() {
    let r = SimulateTradeLoopV2::calculate_price_impact(&Rat::zero(), &rat(false, 5, 1)).unwrap();
    assert_rat(&r, false, 0, 1);
}

#[test]
fn price_impact_exact_value() {
    let r =
        SimulateTradeLoopV2::calculate_price_impact(&rat(false, 1, 1), &rat(false, 91, 110))
            .unwrap();
    assert_rat(&r, false, 19, 110);
}

#[test]
fn pool_price_matches_forward_order() {
    let pt0 = "tokenA".to_string();
    let pt1 = "tokenB".to_string();
    let p = pool_price_from_reserves(100, 300, 0, 0, &pt0, &pt1, &pt0, &pt1).unwrap();
    assert_eq!(p.token_decimals0, 0);
    assert_eq!(p.token_decimals1, 0);
    assert_rat(&p.token_balance0, false, 100, 1);
    assert_rat(&p.token_balance1, false, 300, 1);
    assert_rat(&p.current_price, false, 3, 1);
}

#[test]
fn pool_price_matches_reversed_order() {
    let pt0 = "tokenA".to_string();
    let pt1 = "tokenB".to_string();
    let p = pool_price_from_reserves(100, 300, 2, 6, &pt0, &pt1, &pt1, &pt0).unwrap();
    // direction's first token is the pool's second: reserve_in = 300 at 6 decimals.
    assert_eq!(p.token_decimals0, 6);
    assert_eq!(p.token_decimals1, 2);
    assert_rat(&p.token_balance0, false, 3, 10_000);
    assert_rat(&p.token_balance1, false, 1, 1);
    // price = (100 * 10^6) / (300 * 10^2) = 10000/3
    assert_rat(&p.current_price, false, 10_000, 3);
}

#[test]
fn pool_price_token_mismatch() {
    let pt0 = "tokenA".to_string();
    let pt1 = "tokenB".to_string();
    let other = "tokenC".to_string();
    let r = pool_price_from_reserves(100, 300, 0, 0, &pt0, &pt1, &pt0, &other);
    assert_eq!(r.unwrap_err(), SimError::TokenMismatch);
}

#[test]
fn pool_price_zero_reserve_in() {
    let pt0 = "tokenA".to_string();
    let pt1 = "tokenB".to_string();
    let r = pool_price_from_reserves(0, 300, 0, 0, &pt0, &pt1, &pt0, &pt1);
    assert_eq!(r.unwrap_err(), SimError::DivisionByZero);
}
