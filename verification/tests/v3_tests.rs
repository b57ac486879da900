use arb_sim::errors::SimError;
use arb_sim::rat::Rat;
use arb_sim::v3::{sqrt_price_to_price18, PoolState, SimulateTradeLoop, Q96};

fn rat(neg: bool, num: u128, den: u128) -> Rat {
    Rat { neg, num, den }
}

fn assert_rat(r: &Rat, neg: bool, num: u128, den: u128) {
    assert_eq!(r.neg, neg);
    assert_eq!(r.num, num);
    assert_eq!(r.den, den);
}

fn sim(fee: Option<Rat>) -> SimulateTradeLoop {
    SimulateTradeLoop::new(
        "http://localhost:8545".to_string(),
        "pool".to_string(),
        "tokenA".to_string(),
        "tokenB".to_string(),
        fee,
    )
}

#[test]
fn v3_new_defaults_fee_to_three_thousandths() {
    let s = sim(None);
    assert_rat(&s.fee, false, 3, 1000);
}

#[test]
fn unit_sqrt_price_is_unit_price() {
    // sqrt_price = 2^96 denotes price 1 for equal decimals.
    assert_eq!(sqrt_price_to_price18(Q96, 0, 0), Some(1_000_000_000_000_000_000));
    assert_eq!(sqrt_price_to_price18(2 * Q96, 0, 0), Some(4_000_000_000_000_000_000));
}

#[test]
fn price_conversion_rescales_by_decimals() {
    // price = sp^2/2^192 * 10^(d0-d1): one decimal of difference scales by 10.
    assert_eq!(sqrt_price_to_price18(Q96, 1, 0), Some(10_000_000_000_000_000_000));
    assert_eq!(sqrt_price_to_price18(Q96, 0, 1), Some(100_000_000_000_000_000));
}

#[test]
fn zero_amount_leaves_price_unchanged() {
    // L > 0, sqrt_price > 0, amount = 0: price after equals price before.
    let s = sim(None);
    let state = PoolState { sqrt_price_x96: Q96, liquidity: 1_000_000_000_000_000_000 };
    let r = s.simulate_swaps(&state, 6, 6, &Rat::zero(), 0).unwrap();
    assert_rat(&r.initial_price, false, 1, 1);
    assert_rat(&r.final_price, false, 1, 1);
    assert_rat(&r.average_sell_curve_price, false, 0, 1);
    assert_rat(&r.usdc_amount_to_trade, false, 0, 1);
}

#[test]
fn forward_swap_exact_numbers() {
    // L = 10^12, sqrt_price = 2^96, amount 1 at 6/6 decimals, zero fee:
    // dx = 10^6, denominator = 10^12 + 10^6,
    // sqrt_after = floor(10^12 * 2^96 / (10^12 + 10^6)) = 79228083286181051412492537843,
    // dy = 999999.
    let s = sim(Some(Rat::zero()));
    let r = s
        .simulate_curve_price_movement(Q96, 1_000_000_000_000, &rat(false, 1, 1), 6, 6, false)
        .unwrap();
    assert_rat(&r.initial_price, false, 1, 1);
    assert_rat(
        &r.final_price,
        false,
        249_999_500_000_749_999,
        250_000_000_000_000_000,
    );
    assert_rat(&r.average_sell_curve_price, false, 999_999, 1_000_000);
    assert_rat(&r.usdc_amount_to_trade, false, 999_999, 1_000_000);
}

#[test]
fn reversed_swap_exact_numbers() {
    // Same pool, reversed leg: the price rises and dy = 1000001.
    let s = sim(Some(Rat::zero()));
    let r = s
        .simulate_curve_price_movement(Q96, 1_000_000_000_000, &rat(false, 1, 1), 6, 6, true)
        .unwrap();
    assert_rat(&r.initial_price, false, 1, 1);
    assert_rat(
        &r.final_price,
        false,
        250_000_500_000_750_001,
        250_000_000_000_000_000,
    );
    assert_rat(&r.average_sell_curve_price, false, 1_000_001, 1_000_000);
    assert_rat(&r.usdc_amount_to_trade, false, 1_000_001, 1_000_000);
}

#[test]
fn fee_haircut_shrinks_input() {
    // With the default 3/1000 fee the forward leg converts only 997/1000 of
    // the input: dx = round(0.997 * 10^6) = 997000.
    let s = sim(None);
    let r = s
        .simulate_curve_price_movement(Q96, 1_000_000_000_000, &rat(false, 1, 1), 6, 6, false)
        .unwrap();
    // dy = floor(L * (2^96 - floor(L*2^96/(L+997000))) / 2^96) = 996999
    assert_rat(&r.average_sell_curve_price, false, 996_999, 997_000);
}

#[test]
fn reversed_swap_underflow_is_overflow_error() {
    // dx_adj exceeds the liquidity: the reversed denominator would not be
    // positive.
    let s = sim(Some(Rat::zero()));
    let r = s.simulate_curve_price_movement(Q96, 1, &rat(false, 10, 1), 0, 0, true);
    assert_eq!(r.unwrap_err(), SimError::Overflow);
}

#[test]
fn zero_liquidity_is_rejected() {
    let s = sim(None);
    let state = PoolState { sqrt_price_x96: Q96, liquidity: 0 };
    let r = s.simulate_swaps(&state, 6, 6, &rat(false, 1, 1), 0);
    assert_eq!(r.unwrap_err(), SimError::NoLiquidity);
}

#[test]
fn zero_sqrt_price_is_rejected() {
    let s = sim(None);
    let state = PoolState { sqrt_price_x96: 0, liquidity: 10 };
    let r = s.simulate_swaps(&state, 6, 6, &rat(false, 1, 1), 0);
    assert_eq!(r.unwrap_err(), SimError::InvalidSqrtPrice);
}

#[test]
fn bad_pool_label_is_rejected() {
    let s = sim(None);
    let state = PoolState { sqrt_price_x96: Q96, liquidity: 10 };
    let r = s.simulate_swaps(&state, 6, 6, &rat(false, 1, 1), 2);
    assert_eq!(r.unwrap_err(), SimError::InvalidPoolLabel);
}
