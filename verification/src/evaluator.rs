//! Direction-level evaluator.
//!
//! A direction names an anchor token, a sell pool and a buy pool.  The
//! evaluator validates the direction, dispatches each leg to the engine its
//! pool type calls for, and reports the spread between the two simulated
//! execution prices.  Every per-direction failure becomes an absent result;
//! fetching pool state is the gateway's business and happens outside, so a
//! direction that fails validation never reaches the gateway.
use vstd::prelude::*;

verus! {

use crate::errors::SimError;
use crate::rat::Rat;
use crate::v2::PoolPriceResult;
use crate::v2::SimPriceResult;
use crate::v2::SimulateTradeLoopV2;
use crate::v2::price_pairs_spec;
use crate::v2::swap_post;
use crate::v2::v2_rejects;
use crate::v2::lemma_mul_le;
use crate::v3::PoolState;
use crate::v3::SimResult;
use crate::v3::SimulateTradeLoop;
use crate::v3::curve_post;
use crate::v3::dx_spec;
use crate::v3::net_den_spec;
use crate::v3::net_num_spec;
use crate::v3::q96s;
use crate::v3::v3_rejects;
use crate::wide::mul_div;
use crate::wide::p128;
use crate::wide::pow10;
use crate::wide::pow10s;
use crate::v2::abs_i;

/// The pool fee both evaluator legs run with: three thousandths.
pub open spec fn standard_fee() -> Rat {
    Rat { neg: false, num: 3, den: 1000 }
}

/// The fixed unit trade size the evaluator simulates.
pub open spec fn unit_amount() -> Rat {
    Rat { neg: false, num: 1, den: 1 }
}

/// The input-side reserve a fetched balance converts back to.
pub open spec fn reserve0_spec(p: PoolPriceResult) -> int {
    (p.token_balance0.n() * pow10s(p.token_decimals0 as nat)) / p.token_balance0.d()
}

/// The output-side reserve a fetched balance converts back to.
pub open spec fn reserve1_spec(p: PoolPriceResult) -> int {
    (p.token_balance1.n() * pow10s(p.token_decimals1 as nat)) / p.token_balance1.d()
}

/// Exactly when a fetched balance cannot be converted back to atomic units.
pub open spec fn conversion_fails(p: PoolPriceResult) -> bool {
    p.token_decimals0 > 38 || p.token_decimals1 > 38 || reserve0_spec(p) >= p128()
        || reserve1_spec(p) >= p128()
}

/// Whether the sell leg of a V2 direction errs for this fetched state.
pub open spec fn v2_sell_rejects(b: PoolPriceResult) -> bool {
    v2_rejects(
        standard_fee(),
        reserve0_spec(b),
        reserve1_spec(b),
        unit_amount(),
        b.token_decimals0,
        b.token_decimals1,
    )
}

/// Whether the buy leg of a V2 direction errs for this fetched state; the
/// buy leg runs with the token order reversed.
pub open spec fn v2_buy_rejects(c: PoolPriceResult) -> bool {
    v2_rejects(
        standard_fee(),
        reserve1_spec(c),
        reserve0_spec(c),
        unit_amount(),
        c.token_decimals1,
        c.token_decimals0,
    )
}

/// An upper bound on the numerator of a leg's average price.
pub open spec fn v2_mean_num_bound(fee: Rat, rin: int, rout: int, din: u32, dout: u32) -> int {
    let pr = price_pairs_spec(fee, rin, rout, unit_amount(), din, dout);
    pr.0 * pr.3 + pr.2 * pr.1
}

/// An upper bound on the denominator of a leg's average price.
pub open spec fn v2_mean_den_bound(fee: Rat, rin: int, rout: int, din: u32, dout: u32) -> int {
    let pr = price_pairs_spec(fee, rin, rout, unit_amount(), din, dout);
    2 * (pr.1 * pr.3)
}

/// Whether the spread of the two V2 leg averages is representable for sure:
/// the cross products of their size bounds fit the machine width.
pub open spec fn v2_spread_fits(b: PoolPriceResult, c: PoolPriceResult) -> bool {
    let s1 = v2_mean_num_bound(
        standard_fee(),
        reserve0_spec(b),
        reserve1_spec(b),
        b.token_decimals0,
        b.token_decimals1,
    );
    let d1 = v2_mean_den_bound(
        standard_fee(),
        reserve0_spec(b),
        reserve1_spec(b),
        b.token_decimals0,
        b.token_decimals1,
    );
    let s2 = v2_mean_num_bound(
        standard_fee(),
        reserve1_spec(c),
        reserve0_spec(c),
        c.token_decimals1,
        c.token_decimals0,
    );
    let d2 = v2_mean_den_bound(
        standard_fee(),
        reserve1_spec(c),
        reserve0_spec(c),
        c.token_decimals1,
        c.token_decimals0,
    );
    s1 * d2 <= u128::MAX && s2 * d1 <= u128::MAX && d1 * d2 <= u128::MAX && s1 * d2 + s2 * d1
        <= u128::MAX
}

/// An upper bound on the numerator of a V3 leg's average execution price.
pub open spec fn v3_avg_num_bound(
    fee: Rat,
    state: PoolState,
    decimals0: u32,
    decimals1: u32,
    revert: bool,
) -> int {
    let netn = net_num_spec(unit_amount(), fee, revert);
    let netd = net_den_spec(unit_amount(), fee, revert);
    let dx = dx_spec(unit_amount(), fee, decimals0, revert);
    let dxadj = (dx * state.sqrt_price_x96) / q96s();
    let den = if revert {
        state.liquidity - dxadj
    } else {
        state.liquidity + dxadj
    };
    let sp1 = (state.liquidity * state.sqrt_price_x96) / den;
    let dy = (state.liquidity * abs_i(sp1 - state.sqrt_price_x96)) / q96s();
    if netn == 0 {
        0
    } else {
        dy * netd
    }
}

/// An upper bound on the denominator of a V3 leg's average execution price.
pub open spec fn v3_avg_den_bound(
    fee: Rat,
    state: PoolState,
    decimals0: u32,
    decimals1: u32,
    revert: bool,
) -> int {
    let netn = net_num_spec(unit_amount(), fee, revert);
    if netn == 0 {
        1
    } else {
        pow10s(decimals1 as nat) * netn
    }
}

/// Whether the spread of the two V3 leg averages is representable for sure.
pub open spec fn v3_spread_fits(
    sell: PoolState,
    buy: PoolState,
    decimals0: u32,
    decimals1: u32,
) -> bool {
    let s1 = v3_avg_num_bound(standard_fee(), sell, decimals0, decimals1, false);
    let d1 = v3_avg_den_bound(standard_fee(), sell, decimals0, decimals1, false);
    let s2 = v3_avg_num_bound(standard_fee(), buy, decimals0, decimals1, true);
    let d2 = v3_avg_den_bound(standard_fee(), buy, decimals0, decimals1, true);
    s1 * d2 <= u128::MAX && s2 * d1 <= u128::MAX && d1 * d2 <= u128::MAX && s1 * d2 + s2 * d1
        <= u128::MAX
}

/// Which pricing engine a direction calls for.
#[derive(Clone, Copy, PartialEq, Eq, Structural, Debug)]
pub enum PoolKind {
    V2,
    V3,
}

/// One candidate arbitrage route, read-only once loaded: pool type, token
/// pair, path (anchor, sell pool, buy pool, ...), advisory hints passed
/// through unmodified, and the provider endpoint.
#[allow(non_snake_case)]
#[derive(Clone, Debug)]
pub struct ArbitrageDirection {
    pub pool_type: String,
    pub token0: String,
    pub token1: String,
    pub path: Vec<String>,
    pub roi: Rat,
    pub profit: Rat,
    pub priceDifference: Rat,
    pub pool_fee: Rat,
    pub provider: String,
}

/// Pool state fetched for one direction, shaped by its pool type.
pub enum FetchedState {
    V2 { sell: PoolPriceResult, buy: PoolPriceResult },
    V3 { sell: PoolState, buy: PoolState, decimals0: u32, decimals1: u32 },
}

impl PoolPriceResult {
    /// Balances are well-formed non-negative rationals.
    pub open spec fn wf(self) -> bool {
        self.token_balance0.wf() && !self.token_balance0.neg && self.token_balance1.wf()
            && !self.token_balance1.neg
    }
}

impl FetchedState {
    /// The carried pool state is well-formed.
    pub open spec fn wf(self) -> bool {
        match self {
            FetchedState::V2 { sell, buy } => sell.wf() && buy.wf(),
            FetchedState::V3 { .. } => true,
        }
    }
}

/// Recognize a pool type name.
pub fn classify_pool_type(pool_type: &String) -> (r: Option<PoolKind>)
    ensures
        (r == Some(PoolKind::V2)) == (pool_type@ == "V2"@),
        (r == Some(PoolKind::V3)) == (pool_type@ == "V3"@),
        r is None == (pool_type@ != "V2"@ && pool_type@ != "V3"@),
{
    proof {
        reveal_strlit("V2");
        reveal_strlit("V3");
        assert(("V2"@)[1] != ("V3"@)[1]);
    }
    let v2name: String = "V2".to_owned();
    let v3name: String = "V3".to_owned();
    if pool_type.eq(&v2name) {
        Some(PoolKind::V2)
    } else if pool_type.eq(&v3name) {
        Some(PoolKind::V3)
    } else {
        None
    }
}

/// Structural validation of a direction: the path must name at least the
/// anchor token, the sell pool and the buy pool, and the pool type must be
/// one an engine recognizes.  The path is checked first, so a short
/// direction is rejected before anything else would be looked at.
pub fn validate_direction(dir: &ArbitrageDirection) -> (r: Result<PoolKind, SimError>)
    ensures
        (r == Err::<PoolKind, SimError>(SimError::ShortPath)) == (dir.path@.len() < 3),
        (r == Err::<PoolKind, SimError>(SimError::UnknownPoolType)) == (dir.path@.len() >= 3
            && dir.pool_type@ != "V2"@ && dir.pool_type@ != "V3"@),
        (r == Ok::<PoolKind, SimError>(PoolKind::V2)) == (dir.path@.len() >= 3 && dir.pool_type@
            == "V2"@),
        (r == Ok::<PoolKind, SimError>(PoolKind::V3)) == (dir.path@.len() >= 3 && dir.pool_type@
            == "V3"@),
{
    if dir.path.len() < 3 {
        return Err(SimError::ShortPath);
    }
    match classify_pool_type(&dir.pool_type) {
        Some(kind) => Ok(kind),
        None => Err(SimError::UnknownPoolType),
    }
}

/// An atomic-unit reserve from a normalized balance: `floor(balance * 10^decimals)`.
/// `None` exactly when the decimals or the atomic value leave the machine
/// width.
fn reserve_from_balance(balance: &Rat, decimals: u32) -> (r: Option<u128>)
    requires
        balance.wf(),
        !balance.neg,
    ensures
        match r {
            Some(v) => v == (balance.n() * pow10s(decimals as nat)) / balance.d() && decimals <= 38
                && (balance.n() * pow10s(decimals as nat)) / balance.d() < p128(),
            None => decimals > 38 || (balance.n() * pow10s(decimals as nat)) / balance.d()
                >= p128(),
        },
{
    let p = match pow10(decimals) {
        Some(p) => p,
        None => {
            return None;
        },
    };
    mul_div(balance.num, p, balance.den)
}

/// Evaluate a V2 direction from freshly fetched pool state: simulate the
/// sell leg and the buy leg for a unit trade and derive the spread between
/// the two average execution prices.  Any leg failure yields an absent
/// result.
pub fn simulate_v2(
    dir: &ArbitrageDirection,
    pool_b_res: &PoolPriceResult,
    pool_c_res: &PoolPriceResult,
) -> (r: Option<(String, String, Rat, Rat, Rat)>)
    requires
        pool_b_res.wf(),
        pool_c_res.wf(),
    ensures
        dir.path@.len() < 3 ==> r is None,
        match r {
            Some(t) => dir.path@.len() >= 3 && t.0@ == dir.path@[1]@ && t.1@ == dir.path@[2]@
                && t.2.wf() && t.2.n() >= 0 && t.3.wf() && t.3.n() >= 0 && t.4.wf() && t.4.n() * (
            t.2.d() * t.3.d()) == (t.2.n() * t.3.d() - t.3.n() * t.2.d()) * t.4.d() && (exists|
                sell: SimPriceResult,
                buy: SimPriceResult,
                rb0: u128,
                rb1: u128,
                rc0: u128,
                rc1: u128,
            |
                {
                    &&& rb0 == (pool_b_res.token_balance0.n() * pow10s(
                        pool_b_res.token_decimals0 as nat,
                    )) / pool_b_res.token_balance0.d()
                    &&& rb1 == (pool_b_res.token_balance1.n() * pow10s(
                        pool_b_res.token_decimals1 as nat,
                    )) / pool_b_res.token_balance1.d()
                    &&& rc0 == (pool_c_res.token_balance0.n() * pow10s(
                        pool_c_res.token_decimals0 as nat,
                    )) / pool_c_res.token_balance0.d()
                    &&& rc1 == (pool_c_res.token_balance1.n() * pow10s(
                        pool_c_res.token_decimals1 as nat,
                    )) / pool_c_res.token_balance1.d()
                    &&& #[trigger] swap_post(
                        standard_fee(),
                        rb0,
                        rb1,
                        unit_amount(),
                        pool_b_res.token_decimals0,
                        pool_b_res.token_decimals1,
                        Ok(sell),
                    )
                    &&& #[trigger] swap_post(
                        standard_fee(),
                        rc1,
                        rc0,
                        unit_amount(),
                        pool_c_res.token_decimals1,
                        pool_c_res.token_decimals0,
                        Ok(buy),
                    )
                    &&& t.2 == sell.average_price
                    &&& t.3 == buy.average_price
                }),
            None => true,
        },
        (dir.path@.len() >= 3 && !conversion_fails(*pool_b_res) && !conversion_fails(*pool_c_res)
            && !v2_sell_rejects(*pool_b_res) && !v2_buy_rejects(*pool_c_res) && v2_spread_fits(
            *pool_b_res,
            *pool_c_res,
        )) ==> r is Some,
{
    if dir.path.len() < 3 {
        return None;
    }
    let pool_sell = dir.path[1].clone();
    let pool_buy = dir.path[2].clone();
    let token_loan = Rat::from_u128(1);
    // Both legs run with the standard 3/1000 pool fee; the direction's
    // pool_fee field is an advisory hint, passed through unmodified.
    let fee = Rat { neg: false, num: 3, den: 1000 };
    proof {
        assert(fee == standard_fee());
        assert(token_loan == unit_amount());
    }
    let sim_sell = SimulateTradeLoopV2::new(
        dir.provider.clone(),
        pool_sell.clone(),
        dir.token0.clone(),
        dir.token1.clone(),
        Some(fee),
    );
    let sim_buy = SimulateTradeLoopV2::new(
        dir.provider.clone(),
        pool_buy.clone(),
        dir.token0.clone(),
        dir.token1.clone(),
        Some(fee),
    );
    let reserve_b0 = match reserve_from_balance(
        &pool_b_res.token_balance0,
        pool_b_res.token_decimals0,
    ) {
        Some(v) => v,
        None => {
            return None;
        },
    };
    let reserve_b1 = match reserve_from_balance(
        &pool_b_res.token_balance1,
        pool_b_res.token_decimals1,
    ) {
        Some(v) => v,
        None => {
            return None;
        },
    };
    let reserve_c0 = match reserve_from_balance(
        &pool_c_res.token_balance0,
        pool_c_res.token_decimals0,
    ) {
        Some(v) => v,
        None => {
            return None;
        },
    };
    let reserve_c1 = match reserve_from_balance(
        &pool_c_res.token_balance1,
        pool_c_res.token_decimals1,
    ) {
        Some(v) => v,
        None => {
            return None;
        },
    };
    // Sell leg: direction token order; buy leg: reversed token order.
    let sell = match sim_sell.simulate_price_after_swap(
        reserve_b0,
        reserve_b1,
        &token_loan,
        pool_b_res.token_decimals0,
        pool_b_res.token_decimals1,
    ) {
        Ok(v) => v,
        Err(_) => {
            return None;
        },
    };
    let buy = match sim_buy.simulate_price_after_swap(
        reserve_c1,
        reserve_c0,
        &token_loan,
        pool_c_res.token_decimals1,
        pool_c_res.token_decimals0,
    ) {
        Ok(v) => v,
        Err(_) => {
            return None;
        },
    };
    let spread = match sell.average_price.try_sub(&buy.average_price) {
        Some(v) => v,
        None => {
            proof {
                // A spread overflow exceeds the leg size bounds as well.
                let s1 = v2_mean_num_bound(
                    standard_fee(),
                    reserve_b0 as int,
                    reserve_b1 as int,
                    pool_b_res.token_decimals0,
                    pool_b_res.token_decimals1,
                );
                let d1 = v2_mean_den_bound(
                    standard_fee(),
                    reserve_b0 as int,
                    reserve_b1 as int,
                    pool_b_res.token_decimals0,
                    pool_b_res.token_decimals1,
                );
                let s2 = v2_mean_num_bound(
                    standard_fee(),
                    reserve_c1 as int,
                    reserve_c0 as int,
                    pool_c_res.token_decimals1,
                    pool_c_res.token_decimals0,
                );
                let d2 = v2_mean_den_bound(
                    standard_fee(),
                    reserve_c1 as int,
                    reserve_c0 as int,
                    pool_c_res.token_decimals1,
                    pool_c_res.token_decimals0,
                );
                lemma_mul_le(sell.average_price.num as int, s1, buy.average_price.den as int, d2);
                lemma_mul_le(buy.average_price.num as int, s2, sell.average_price.den as int, d1);
                lemma_mul_le(sell.average_price.den as int, d1, buy.average_price.den as int, d2);
            }
            return None;
        },
    };
    proof {
        assert(swap_post(
            standard_fee(),
            reserve_b0,
            reserve_b1,
            unit_amount(),
            pool_b_res.token_decimals0,
            pool_b_res.token_decimals1,
            Ok(sell),
        ));
        assert(swap_post(
            standard_fee(),
            reserve_c1,
            reserve_c0,
            unit_amount(),
            pool_c_res.token_decimals1,
            pool_c_res.token_decimals0,
            Ok(buy),
        ));
    }
    Some((pool_sell, pool_buy, sell.average_price, buy.average_price, spread))
}

/// Evaluate a V3 direction from freshly fetched pool state: simulate a
/// forward leg on the sell pool and a reversed leg on the buy pool for a
/// unit trade, and derive the spread between the two average execution
/// prices.  Any leg failure yields an absent result.
pub fn simulate_v3(
    dir: &ArbitrageDirection,
    sell_state: &PoolState,
    buy_state: &PoolState,
    decimals0: u32,
    decimals1: u32,
) -> (r: Option<(String, String, Rat, Rat, Rat)>)
    ensures
        dir.path@.len() < 3 ==> r is None,
        match r {
            Some(t) => dir.path@.len() >= 3 && t.0@ == dir.path@[1]@ && t.1@ == dir.path@[2]@
                && t.2.wf() && t.2.n() >= 0 && t.3.wf() && t.3.n() >= 0 && t.4.wf() && t.4.n() * (
            t.2.d() * t.3.d()) == (t.2.n() * t.3.d() - t.3.n() * t.2.d()) * t.4.d() && (exists|
                sell: SimResult,
                buy: SimResult,
            |
                {
                    &&& #[trigger] curve_post(
                        standard_fee(),
                        sell_state.sqrt_price_x96,
                        sell_state.liquidity,
                        unit_amount(),
                        decimals0,
                        decimals1,
                        false,
                        Ok(sell),
                    )
                    &&& #[trigger] curve_post(
                        standard_fee(),
                        buy_state.sqrt_price_x96,
                        buy_state.liquidity,
                        unit_amount(),
                        decimals0,
                        decimals1,
                        true,
                        Ok(buy),
                    )
                    &&& t.2 == sell.average_sell_curve_price
                    &&& t.3 == buy.average_sell_curve_price
                }),
            None => true,
        },
        (dir.path@.len() >= 3 && !v3_rejects(
            standard_fee(),
            *sell_state,
            unit_amount(),
            decimals0,
            decimals1,
            false,
        ) && !v3_rejects(standard_fee(), *buy_state, unit_amount(), decimals0, decimals1, true)
            && v3_spread_fits(*sell_state, *buy_state, decimals0, decimals1)) ==> r is Some,
{
    if dir.path.len() < 3 {
        return None;
    }
    let pool_sell = dir.path[1].clone();
    let pool_buy = dir.path[2].clone();
    let token_loan = Rat::from_u128(1);
    let fee = Rat { neg: false, num: 3, den: 1000 };
    proof {
        assert(fee == standard_fee());
        assert(token_loan == unit_amount());
    }
    let sim_sell = SimulateTradeLoop::new(
        dir.provider.clone(),
        pool_sell.clone(),
        dir.token0.clone(),
        dir.token1.clone(),
        Some(fee),
    );
    let sim_buy = SimulateTradeLoop::new(
        dir.provider.clone(),
        pool_buy.clone(),
        dir.token0.clone(),
        dir.token1.clone(),
        Some(fee),
    );
    let sell = match sim_sell.simulate_swaps(sell_state, decimals0, decimals1, &token_loan, 0) {
        Ok(v) => v,
        Err(_) => {
            return None;
        },
    };
    let buy = match sim_buy.simulate_swaps(buy_state, decimals0, decimals1, &token_loan, 1) {
        Ok(v) => v,
        Err(_) => {
            return None;
        },
    };
    let spread = match sell.average_sell_curve_price.try_sub(&buy.average_sell_curve_price) {
        Some(v) => v,
        None => {
            proof {
                // A spread overflow exceeds the leg size bounds as well.
                let s1 = v3_avg_num_bound(standard_fee(), *sell_state, decimals0, decimals1, false);
                let d1 = v3_avg_den_bound(standard_fee(), *sell_state, decimals0, decimals1, false);
                let s2 = v3_avg_num_bound(standard_fee(), *buy_state, decimals0, decimals1, true);
                let d2 = v3_avg_den_bound(standard_fee(), *buy_state, decimals0, decimals1, true);
                lemma_mul_le(
                    sell.average_sell_curve_price.num as int,
                    s1,
                    buy.average_sell_curve_price.den as int,
                    d2,
                );
                lemma_mul_le(
                    buy.average_sell_curve_price.num as int,
                    s2,
                    sell.average_sell_curve_price.den as int,
                    d1,
                );
                lemma_mul_le(
                    sell.average_sell_curve_price.den as int,
                    d1,
                    buy.average_sell_curve_price.den as int,
                    d2,
                );
            }
            return None;
        },
    };
    proof {
        assert(curve_post(
            standard_fee(),
            sell_state.sqrt_price_x96,
            sell_state.liquidity,
            unit_amount(),
            decimals0,
            decimals1,
            false,
            Ok(sell),
        ));
        assert(curve_post(
            standard_fee(),
            buy_state.sqrt_price_x96,
            buy_state.liquidity,
            unit_amount(),
            decimals0,
            decimals1,
            true,
            Ok(buy),
        ));
    }
    Some((pool_sell, pool_buy, sell.average_sell_curve_price, buy.average_sell_curve_price, spread))
}

/// Evaluate one direction against the pool state fetched for it.  A short
/// path, an unrecognized pool type, state of the wrong shape, or any leg
/// failure yields an absent result and can never abort a batch.
pub fn simulate_direction(dir: &ArbitrageDirection, fetched: &FetchedState) -> (r: Option<
    (String, String, Rat, Rat, Rat),
>)
    requires
        fetched.wf(),
    ensures
        dir.pool_type@ != "V2"@ && dir.pool_type@ != "V3"@ ==> r is None,
        dir.path@.len() < 3 ==> r is None,
        match r {
            Some(t) => (dir.pool_type@ == "V2"@ || dir.pool_type@ == "V3"@) && dir.path@.len() >= 3
                && t.0@ == dir.path@[1]@ && t.1@ == dir.path@[2]@ && t.2.wf() && t.2.n() >= 0
                && t.3.wf() && t.3.n() >= 0 && t.4.wf() && t.4.n() * (t.2.d() * t.3.d()) == (
            t.2.n() * t.3.d() - t.3.n() * t.2.d()) * t.4.d(),
            None => true,
        },
        (match fetched {
            FetchedState::V2 { sell, buy } => dir.pool_type@ == "V2"@ && dir.path@.len() >= 3
                && !conversion_fails(*sell) && !conversion_fails(*buy) && !v2_sell_rejects(*sell)
                && !v2_buy_rejects(*buy) && v2_spread_fits(*sell, *buy),
            FetchedState::V3 { sell, buy, decimals0, decimals1 } => dir.pool_type@ == "V3"@
                && dir.path@.len() >= 3 && !v3_rejects(
                standard_fee(),
                *sell,
                unit_amount(),
                *decimals0,
                *decimals1,
                false,
            ) && !v3_rejects(standard_fee(), *buy, unit_amount(), *decimals0, *decimals1, true)
                && v3_spread_fits(*sell, *buy, *decimals0, *decimals1),
        }) ==> r is Some,
{
    match classify_pool_type(&dir.pool_type) {
        Some(PoolKind::V2) => match fetched {
            FetchedState::V2 { sell, buy } => simulate_v2(dir, sell, buy),
            _ => None,
        },
        Some(PoolKind::V3) => match fetched {
            FetchedState::V3 { sell, buy, decimals0, decimals1 } => simulate_v3(
                dir,
                sell,
                buy,
                *decimals0,
                *decimals1,
            ),
            _ => None,
        },
        None => None,
    }
}

} // verus!
