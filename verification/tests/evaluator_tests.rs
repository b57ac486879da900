use arb_sim::batch::collect_present;
use arb_sim::errors::SimError;
use arb_sim::evaluator::{
    classify_pool_type, simulate_direction, simulate_v2, validate_direction, ArbitrageDirection,
    FetchedState, PoolKind,
};
use arb_sim::rat::Rat;
use arb_sim::v2::pool_price_from_reserves;
use arb_sim::v3::{PoolState, Q96};

fn direction(pool_type: &str, path: Vec<&str>) -> ArbitrageDirection {
    ArbitrageDirection {
        pool_type: pool_type.to_string(),
        token0: "tokenA".to_string(),
        token1: "tokenB".to_string(),
        path: path.into_iter().map(|s| s.to_string()).collect(),
        roi: Rat::zero(),
        profit: Rat::zero(),
        priceDifference: Rat::zero(),
        pool_fee: Rat { neg: false, num: 3, den: 1000 },
        provider: "http://localhost:8545".to_string(),
    }
}

fn v2_fetched() -> FetchedState {
    let pt0 = "tokenA".to_string();
    let pt1 = "tokenB".to_string();
    let sell = pool_price_from_reserves(1000, 1000, 0, 0, &pt0, &pt1, &pt0, &pt1).unwrap();
    let buy = pool_price_from_reserves(1000, 1000, 0, 0, &pt0, &pt1, &pt0, &pt1).unwrap();
    FetchedState::V2 { sell, buy }
}

#[test]
fn classify_recognizes_both_engines() {
    assert_eq!(classify_pool_type(&"V2".to_string()), Some(PoolKind::V2));
    assert_eq!(classify_pool_type(&"V3".to_string()), Some(PoolKind::V3));
    assert_eq!(classify_pool_type(&"V4".to_string()), None);
    assert_eq!(classify_pool_type(&"".to_string()), None);
}

#[test]
fn short_path_is_rejected_before_anything_else() {
    // Even the pool type is not looked at: a short path with a bogus type
    // still reports the short path.
    let dir = direction("bogus", vec!["anchor", "sell"]);
    assert_eq!(validate_direction(&dir), Err(SimError::ShortPath));
}

#[test]
fn unknown_pool_type_is_rejected() {
    let dir = direction("V9", vec!["anchor", "sell", "buy"]);
    assert_eq!(validate_direction(&dir), Err(SimError::UnknownPoolType));
}

#[test]
fn valid_directions_classify() {
    assert_eq!(
        validate_direction(&direction("V2", vec!["a", "s", "b"])),
        Ok(PoolKind::V2)
    );
    assert_eq!(
        validate_direction(&direction("V3", vec!["a", "s", "b"])),
        Ok(PoolKind::V3)
    );
}

#[test]
fn short_path_direction_is_absent() {
    let dir = direction("V2", vec!["anchor", "sell"]);
    assert!(simulate_direction(&dir, &v2_fetched()).is_none());
}

#[test]
fn unknown_pool_type_direction_is_absent() {
    let dir = direction("V9", vec!["anchor", "sell", "buy"]);
    assert!(simulate_direction(&dir, &v2_fetched()).is_none());
}

#[test]
fn mismatched_fetched_state_is_absent() {
    let dir = direction("V3", vec!["anchor", "sell", "buy"]);
    assert!(simulate_direction(&dir, &v2_fetched()).is_none());
}

#[test]
fn symmetric_v2_pools_have_zero_spread() {
    // Identical pools with equal reserves and decimals on both legs: the two
    // average prices agree, so the spread is exactly zero.
    let dir = direction("V2", vec!["anchor", "sellpool", "buypool"]);
    let (ps, pb, sell_price, buy_price, spread) =
        simulate_direction(&dir, &v2_fetched()).unwrap();
    assert_eq!(ps, "sellpool");
    assert_eq!(pb, "buypool");
    assert_eq!(sell_price.num, buy_price.num);
    assert_eq!(sell_price.den, buy_price.den);
    assert_eq!(sell_price.neg, buy_price.neg);
    assert_eq!(spread.num, 0);
    assert!(!spread.neg);
}

#[test]
fn v2_spread_is_sell_minus_buy() {
    let dir = direction("V2", vec!["anchor", "sellpool", "buypool"]);
    let pt0 = "tokenA".to_string();
    let pt1 = "tokenB".to_string();
    // Sell pool prices the asset at 2, buy pool at 1 (flat, zero amount has
    // no part here: a unit trade moves both a little).
    let sell = pool_price_from_reserves(1000, 2000, 0, 0, &pt0, &pt1, &pt0, &pt1).unwrap();
    let buy = pool_price_from_reserves(1000, 1000, 0, 0, &pt0, &pt1, &pt0, &pt1).unwrap();
    let (_, _, sp, bp, spread) = simulate_v2(&dir, &sell, &buy).unwrap();
    // spread == sp - bp exactly as rationals.
    let diff = sp.try_sub(&bp).unwrap();
    assert_eq!(spread.neg, diff.neg);
    assert_eq!(spread.num, diff.num);
    assert_eq!(spread.den, diff.den);
    assert!(!spread.neg && spread.num > 0);
}

#[test]
fn v3_direction_end_to_end() {
    let dir = direction("V3", vec!["anchor", "sellpool", "buypool"]);
    let fetched = FetchedState::V3 {
        sell: PoolState { sqrt_price_x96: 2 * Q96, liquidity: 1_000_000_000_000 },
        buy: PoolState { sqrt_price_x96: Q96, liquidity: 1_000_000_000_000 },
        decimals0: 6,
        decimals1: 6,
    };
    let (ps, pb, sell_price, buy_price, spread) = simulate_direction(&dir, &fetched).unwrap();
    assert_eq!(ps, "sellpool");
    assert_eq!(pb, "buypool");
    // The sell pool executes near 4, the buy pool near 1: positive spread.
    assert!(!spread.neg && spread.num > 0);
    assert!(!sell_price.neg && !buy_price.neg);
    let diff = sell_price.try_sub(&buy_price).unwrap();
    assert_eq!(spread.num, diff.num);
    assert_eq!(spread.den, diff.den);
}

#[test]
fn batch_keeps_exactly_the_present_results() {
    // Five outcomes, three absent: exactly two collected, order kept.
    let results: Vec<Option<u64>> = vec![Some(7), None, Some(9), None, None];
    let collected = collect_present(results);
    assert_eq!(collected, vec![7, 9]);
}

#[test]
fn batch_of_all_absent_is_empty() {
    let results: Vec<Option<u64>> = vec![None, None, None];
    assert_eq!(collect_present(results).len(), 0);
}

#[test]
fn batch_of_all_present_keeps_everything() {
    let results: Vec<Option<u64>> = vec![Some(1), Some(2), Some(3)];
    assert_eq!(collect_present(results), vec![1, 2, 3]);
}
