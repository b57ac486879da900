//! Concentrated-liquidity (V3) pool simulator.
//!
//! Single-tick approximation: the fee haircut is applied to the input
//! amount, the input is converted to atomic token0 units, and the post-swap
//! sqrt price follows from `sqrt_price_after = L * sqrt_price / (L ± dx_adj)`
//! in Q64.96 fixed point.  Decimal prices come from
//! `sqrt_price^2 / 2^192 * 10^(decimals0 - decimals1)`, kept to eighteen
//! fractional digits; the quote amount follows the liquidity invariant
//! `dy = L * |delta sqrt_price| / 2^96`.
use vstd::prelude::*;

verus! {

use crate::errors::SimError;
use crate::rat::Rat;
use crate::rat::reduce;
use crate::v2::abs_i;
use crate::wide::mul_div;
use crate::wide::mul_div_round;
use crate::wide::round_div;
use crate::wide::p128;
use crate::wide::pow10;
use crate::wide::pow10s;
use crate::wide::lemma_pow10s_18;

/// 2^96, the Q64.96 fixed-point scale of sqrt prices.
pub const Q96: u128 = 0x1_0000_0000_0000_0000_0000_0000;

/// Ten to the eighteenth, the fixed-point scale of decimal prices.
pub const E18: u128 = 1_000_000_000_000_000_000;

/// 2^96 as a mathematical integer.
pub open spec fn q96s() -> int {
    0x1_0000_0000_0000_0000_0000_0000int
}

/// Raw pool state: Q64.96 sqrt price and in-range liquidity.
#[derive(Clone, Copy, PartialEq, Eq, Structural, Debug)]
pub struct PoolState {
    pub sqrt_price_x96: u128,
    pub liquidity: u128,
}

/// Outcome of one simulated V3 swap, prices and amounts as exact rationals.
#[derive(Clone, Copy, Debug)]
pub struct SimResult {
    pub initial_price: Rat,
    pub final_price: Rat,
    pub average_sell_curve_price: Rat,
    pub usdc_amount_to_trade: Rat,
}

/// One V3 pool simulation context.
#[derive(Clone, Debug)]
pub struct SimulateTradeLoop {
    pub rpc_url: String,
    pub pool_address: String,
    pub token0: String,
    pub token1: String,
    pub fee: Rat,
}

/// Numerator of the fee-adjusted input amount.
pub open spec fn net_num_spec(amount: Rat, fee: Rat, revert: bool) -> int {
    if revert {
        amount.n()
    } else {
        amount.n() * (fee.d() - fee.n())
    }
}

/// Denominator of the fee-adjusted input amount.
pub open spec fn net_den_spec(amount: Rat, fee: Rat, revert: bool) -> int {
    if revert {
        amount.d()
    } else {
        amount.d() * fee.d()
    }
}

/// Atomic token0 input: the net amount scaled by `10^decimals0`, rounded
/// half up.
pub open spec fn dx_spec(amount: Rat, fee: Rat, decimals0: u32, revert: bool) -> int {
    round_div(
        net_num_spec(amount, fee, revert) * pow10s(decimals0 as nat),
        net_den_spec(amount, fee, revert),
    )
}

/// Numerator scale of the decimal-price conversion:
/// `10^(18 + decimals0 - decimals1)` for its non-negative part.
pub open spec fn e18x_spec(decimals0: u32, decimals1: u32) -> int {
    if decimals0 >= decimals1 {
        pow10s((18 + decimals0 - decimals1) as nat)
    } else {
        pow10s(18)
    }
}

/// Denominator scale of the decimal-price conversion:
/// `2^96 * 10^(decimals1 - decimals0)` for its non-negative part.
pub open spec fn qden_spec(decimals0: u32, decimals1: u32) -> int {
    if decimals1 > decimals0 {
        q96s() * pow10s((decimals1 - decimals0) as nat)
    } else {
        q96s()
    }
}

/// Decimal price of a Q64.96 sqrt price, scaled by `10^18`:
/// `sqrt_price^2 / 2^192 * 10^(decimals0 - decimals1) * 10^18`, floored at
/// the two fixed-point divisions.
pub open spec fn price18_spec(sp: int, decimals0: u32, decimals1: u32) -> int {
    (((sp * e18x_spec(decimals0, decimals1)) / q96s()) * sp) / qden_spec(decimals0, decimals1)
}

/// When the decimal-price conversion cannot be represented.
pub open spec fn price18_overflows(sp: int, decimals0: u32, decimals1: u32) -> bool {
    (decimals0 > decimals1 + 20) || (decimals1 > decimals0 && q96s() * pow10s(
        (decimals1 - decimals0) as nat,
    ) > u128::MAX) || (sp * e18x_spec(decimals0, decimals1)) / q96s() >= p128() || price18_spec(
        sp,
        decimals0,
        decimals1,
    ) >= p128()
}

/// Decimal price of a sqrt price as a `10^18`-scaled integer; `None` exactly
/// when an intermediate cannot be represented.
pub fn sqrt_price_to_price18(sp: u128, decimals0: u32, decimals1: u32) -> (r: Option<u128>)
    ensures
        match r {
            Some(p) => p == price18_spec(sp as int, decimals0, decimals1) && !price18_overflows(
                sp as int,
                decimals0,
                decimals1,
            ),
            None => price18_overflows(sp as int, decimals0, decimals1),
        },
{
    let pe: u128;
    if decimals0 >= decimals1 {
        if decimals0 - decimals1 > 20 {
            proof {
                crate::wide::lemma_pow10s_grows(39, (18 + decimals0 - decimals1) as nat);
            }
            return None;
        }
        let e = 18 + (decimals0 - decimals1);
        pe = match pow10(e) {
            Some(p) => p,
            None => {
                return None;
            },
        };
    } else {
        pe = E18;
        proof {
            lemma_pow10s_18();
        }
    }
    let qf: u128;
    if decimals1 > decimals0 {
        let pd = match pow10(decimals1 - decimals0) {
            Some(p) => p,
            None => {
                proof {
                    crate::wide::lemma_pow10s_grows(39, (decimals1 - decimals0) as nat);
                    assert(q96s() * pow10s((decimals1 - decimals0) as nat) > u128::MAX)
                        by (nonlinear_arith)
                        requires
                            pow10s((decimals1 - decimals0) as nat) > u128::MAX,
                            q96s() >= 1,
                    ;
                }
                return None;
            },
        };
        qf = match Q96.checked_mul(pd) {
            Some(v) => v,
            None => {
                return None;
            },
        };
    } else {
        qf = Q96;
    }
    let t1 = match mul_div(sp, pe, Q96) {
        Some(v) => v,
        None => {
            return None;
        },
    };
    let t2 = match mul_div(t1, sp, qf) {
        Some(v) => v,
        None => {
            return None;
        },
    };
    proof {
        assert(qf > 0) by (nonlinear_arith)
            requires
                qf == qden_spec(decimals0, decimals1) || qf == q96s(),
                qden_spec(decimals0, decimals1) > 0 || qf == q96s(),
        ;
    }
    Some(t2)
}

/// Exactly when an intermediate of the V3 curve math cannot be represented
/// in `u128`, so the simulation reports an overflow.
pub open spec fn curve_overflows(
    fee: Rat,
    sp0: u128,
    l: u128,
    amount: Rat,
    decimals0: u32,
    decimals1: u32,
    revert: bool,
) -> bool {
    let hair = fee.d() - fee.n();
    let netn = net_num_spec(amount, fee, revert);
    let netd = net_den_spec(amount, fee, revert);
    let dx = dx_spec(amount, fee, decimals0, revert);
    let dxadj = (dx * sp0) / q96s();
    let den = if revert {
        l - dxadj
    } else {
        l + dxadj
    };
    let sp1 = (l * sp0) / den;
    let dsp = abs_i(sp1 - sp0);
    let dy = (l * dsp) / q96s();
    (!revert && (amount.n() * hair > u128::MAX || amount.d() * fee.d() > u128::MAX)) || decimals0
        > 38 || dx >= p128() || dxadj >= p128() || (if revert {
        dxadj >= l
    } else {
        l + dxadj > u128::MAX
    }) || sp1 >= p128() || dy >= p128() || decimals1 > 38 || price18_overflows(
        sp0 as int,
        decimals0,
        decimals1,
    ) || price18_overflows(sp1, decimals0, decimals1) || (netn != 0 && (dy * netd > u128::MAX
        || pow10s(decimals1 as nat) * netn > u128::MAX || (revert && (dy * hair > u128::MAX
        || pow10s(decimals1 as nat) * fee.d() > u128::MAX))))
}

/// Exactly when a V3 leg reports an error rather than a result: unusable
/// pool state, or an intermediate past the machine width.
pub open spec fn v3_rejects(
    fee: Rat,
    state: PoolState,
    amount: Rat,
    decimals0: u32,
    decimals1: u32,
    revert: bool,
) -> bool {
    state.liquidity == 0 || state.sqrt_price_x96 == 0 || curve_overflows(
        fee,
        state.sqrt_price_x96,
        state.liquidity,
        amount,
        decimals0,
        decimals1,
        revert,
    )
}

/// The full outcome of one V3 curve simulation, as a relation between the
/// inputs and the returned result.
pub open spec fn curve_post(
    fee: Rat,
    sp0: u128,
    l: u128,
    amount: Rat,
    decimals0: u32,
    decimals1: u32,
    revert: bool,
    r: Result<SimResult, SimError>,
) -> bool {
    let hair = fee.d() - fee.n();
    let netn = net_num_spec(amount, fee, revert);
    let netd = net_den_spec(amount, fee, revert);
    let dx = dx_spec(amount, fee, decimals0, revert);
    let dxadj = (dx * sp0) / q96s();
    let den = if revert {
        l - dxadj
    } else {
        l + dxadj
    };
    let sp1 = (l * sp0) / den;
    let dsp = abs_i(sp1 - sp0);
    let dy = (l * dsp) / q96s();
    let p0 = price18_spec(sp0 as int, decimals0, decimals1);
    let p1 = price18_spec(sp1, decimals0, decimals1);
    let ovf = curve_overflows(fee, sp0, l, amount, decimals0, decimals1, revert);
    match r {
        Ok(res) => !ovf && res.initial_price.wf() && !res.initial_price.neg
            && res.initial_price.n() * pow10s(18) == p0 * res.initial_price.d()
            && res.final_price.wf() && !res.final_price.neg && res.final_price.n() * pow10s(18)
            == p1 * res.final_price.d() && res.average_sell_curve_price.wf()
            && !res.average_sell_curve_price.neg && res.usdc_amount_to_trade.wf()
            && !res.usdc_amount_to_trade.neg && (netn == 0 ==> res.average_sell_curve_price.n()
            == 0 && res.average_sell_curve_price.d() == 1 && res.usdc_amount_to_trade.n() == 0)
            && (netn != 0 ==> res.average_sell_curve_price.n() * (pow10s(decimals1 as nat) * netn)
            == (dy * netd) * res.average_sell_curve_price.d()
            && res.average_sell_curve_price.num <= dy * netd && res.average_sell_curve_price.den
            <= pow10s(decimals1 as nat) * netn) && (netn != 0 ==> (if revert {
            res.usdc_amount_to_trade.n() * (pow10s(decimals1 as nat) * fee.d()) == (dy * hair)
                * res.usdc_amount_to_trade.d()
        } else {
            res.usdc_amount_to_trade.n() * pow10s(decimals1 as nat) == dy
                * res.usdc_amount_to_trade.d()
        })) && (amount.n() == 0 ==> res.final_price.n() * res.initial_price.d()
            == res.initial_price.n() * res.final_price.d()),
        Err(SimError::Overflow) => ovf,
        Err(_) => false,
    }
}

impl SimulateTradeLoop {
    /// A usable context: the fee is a fraction in `[0, 1]`.
    pub open spec fn wf(self) -> bool {
        self.fee.wf() && !self.fee.neg && self.fee.n() <= self.fee.d()
    }

    /// Build a context; a missing fee defaults to 3/1000.
    pub fn new(
        rpc_url: String,
        pool_address: String,
        token0: String,
        token1: String,
        fee: Option<Rat>,
    ) -> (r: SimulateTradeLoop)
        requires
            match fee {
                Some(f) => f.wf() && !f.neg && f.n() <= f.d(),
                None => true,
            },
        ensures
            r.wf(),
            r.rpc_url@ == rpc_url@,
            r.pool_address@ == pool_address@,
            r.token0@ == token0@,
            r.token1@ == token1@,
            match fee {
                Some(f) => r.fee == f,
                None => r.fee.n() * 1000 == 3 * r.fee.d(),
            },
    {
        let f = match fee {
            Some(f) => f,
            None => Rat { neg: false, num: 3, den: 1000 },
        };
        SimulateTradeLoop { rpc_url, pool_address, token0, token1, fee: f }
    }

    /// Validate the fetched pool state and dispatch one leg simulation: the
    /// sell label runs a forward swap, the buy label a reversed one.
    pub fn simulate_swaps(
        &self,
        state: &PoolState,
        decimals0: u32,
        decimals1: u32,
        token_loan: &Rat,
        pool_label: u8,
    ) -> (r: Result<SimResult, SimError>)
        requires
            self.wf(),
            token_loan.wf(),
            !token_loan.neg,
        ensures
            match r {
                Err(SimError::NoLiquidity) => state.liquidity == 0,
                Err(SimError::InvalidSqrtPrice) => state.liquidity > 0 && state.sqrt_price_x96
                    == 0,
                Err(SimError::InvalidPoolLabel) => state.liquidity > 0 && state.sqrt_price_x96 > 0
                    && pool_label > 1,
                _ => state.liquidity > 0 && state.sqrt_price_x96 > 0 && pool_label <= 1,
            },
            (state.liquidity > 0 && state.sqrt_price_x96 > 0 && pool_label <= 1) ==> curve_post(
                self.fee,
                state.sqrt_price_x96,
                state.liquidity,
                *token_loan,
                decimals0,
                decimals1,
                pool_label == 1,
                r,
            ),
    {
        if state.liquidity == 0 {
            return Err(SimError::NoLiquidity);
        }
        if state.sqrt_price_x96 == 0 {
            return Err(SimError::InvalidSqrtPrice);
        }
        if pool_label > 1 {
            return Err(SimError::InvalidPoolLabel);
        }
        self.simulate_curve_price_movement(
            state.sqrt_price_x96,
            state.liquidity,
            token_loan,
            decimals0,
            decimals1,
            pool_label == 1,
        )
    }

    /// One single-tick curve step: fee haircut, Q64.96 sqrt-price movement,
    /// decimal prices before and after, and the quote amount from the
    /// liquidity invariant.
    pub fn simulate_curve_price_movement(
        &self,
        sqrt_price_x96: u128,
        liquidity: u128,
        amount_in_decimal: &Rat,
        decimals0: u32,
        decimals1: u32,
        b_revert: bool,
    ) -> (r: Result<SimResult, SimError>)
        requires
            self.wf(),
            amount_in_decimal.wf(),
            !amount_in_decimal.neg,
            liquidity > 0,
            sqrt_price_x96 > 0,
        ensures
            curve_post(
                self.fee,
                sqrt_price_x96,
                liquidity,
                *amount_in_decimal,
                decimals0,
                decimals1,
                b_revert,
                r,
            ),
    {
        let hair = self.fee.den - self.fee.num;
        // Fee haircut on a forward leg.
        let nn: u128;
        let nd: u128;
        if b_revert {
            nn = amount_in_decimal.num;
            nd = amount_in_decimal.den;
        } else {
            nn = match amount_in_decimal.num.checked_mul(hair) {
                Some(v) => v,
                None => {
                    return Err(SimError::Overflow);
                },
            };
            nd = match amount_in_decimal.den.checked_mul(self.fee.den) {
                Some(v) => v,
                None => {
                    return Err(SimError::Overflow);
                },
            };
            proof {
                assert(nd > 0) by (nonlinear_arith)
                    requires
                        amount_in_decimal.den > 0,
                        self.fee.den > 0,
                        nd == amount_in_decimal.den * self.fee.den,
                ;
            }
        }
        let pd0 = match pow10(decimals0) {
            Some(p) => p,
            None => {
                return Err(SimError::Overflow);
            },
        };
        // Atomic token0 input, rounded half up.
        let dx = match mul_div_round(nn, pd0, nd) {
            Some(v) => v,
            None => {
                return Err(SimError::Overflow);
            },
        };
        // Q96 product: how much the denominator moves.
        let dx_adj = match mul_div(dx, sqrt_price_x96, Q96) {
            Some(v) => v,
            None => {
                return Err(SimError::Overflow);
            },
        };
        let denominator: u128;
        if b_revert {
            if dx_adj >= liquidity {
                return Err(SimError::Overflow);
            }
            denominator = liquidity - dx_adj;
        } else {
            denominator = match liquidity.checked_add(dx_adj) {
                Some(v) => v,
                None => {
                    return Err(SimError::Overflow);
                },
            };
        }
        // Single-step invariant: sqrt_price_after = L * sqrt_price / denom.
        let sqrt_p1 = match mul_div(liquidity, sqrt_price_x96, denominator) {
            Some(v) => v,
            None => {
                return Err(SimError::Overflow);
            },
        };
        let dsp = if sqrt_p1 >= sqrt_price_x96 {
            sqrt_p1 - sqrt_price_x96
        } else {
            sqrt_price_x96 - sqrt_p1
        };
        // Quote amount from the liquidity invariant.
        let dy = match mul_div(liquidity, dsp, Q96) {
            Some(v) => v,
            None => {
                return Err(SimError::Overflow);
            },
        };
        let pd1 = match pow10(decimals1) {
            Some(p) => p,
            None => {
                return Err(SimError::Overflow);
            },
        };
        let p0 = match sqrt_price_to_price18(sqrt_price_x96, decimals0, decimals1) {
            Some(p) => p,
            None => {
                return Err(SimError::Overflow);
            },
        };
        let p1 = match sqrt_price_to_price18(sqrt_p1, decimals0, decimals1) {
            Some(p) => p,
            None => {
                return Err(SimError::Overflow);
            },
        };
        proof {
            lemma_pow10s_18();
        }
        let initial_price = reduce(false, p0, E18);
        let final_price = reduce(false, p1, E18);
        let avg: Rat;
        let usdc: Rat;
        if nn == 0 {
            avg = Rat::zero();
            usdc = Rat::zero();
        } else {
            let an = match dy.checked_mul(nd) {
                Some(v) => v,
                None => {
                    return Err(SimError::Overflow);
                },
            };
            let ad = match pd1.checked_mul(nn) {
                Some(v) => v,
                None => {
                    return Err(SimError::Overflow);
                },
            };
            proof {
                assert(ad > 0) by (nonlinear_arith)
                    requires
                        pd1 > 0,
                        nn > 0,
                        ad == pd1 * nn,
                ;
            }
            avg = reduce(false, an, ad);
            if b_revert {
                let un = match dy.checked_mul(hair) {
                    Some(v) => v,
                    None => {
                        return Err(SimError::Overflow);
                    },
                };
                let ud = match pd1.checked_mul(self.fee.den) {
                    Some(v) => v,
                    None => {
                        return Err(SimError::Overflow);
                    },
                };
                proof {
                    assert(ud > 0) by (nonlinear_arith)
                        requires
                            pd1 > 0,
                            self.fee.den > 0,
                            ud == pd1 * self.fee.den,
                    ;
                }
                usdc = reduce(false, un, ud);
            } else {
                usdc = reduce(false, dy, pd1);
            }
        }
        proof {
            if amount_in_decimal.n() == 0 {
                assert(net_num_spec(*amount_in_decimal, self.fee, b_revert) == 0)
                    by (nonlinear_arith)
                    requires
                        amount_in_decimal.n() == 0,
                        net_num_spec(*amount_in_decimal, self.fee, b_revert)
                            == amount_in_decimal.n() * (self.fee.d() - self.fee.n())
                            || net_num_spec(*amount_in_decimal, self.fee, b_revert)
                            == amount_in_decimal.n(),
                ;
                assert(nn == 0);
                lemma_zero_dx(
                    net_den_spec(*amount_in_decimal, self.fee, b_revert),
                    pow10s(decimals0 as nat),
                );
                assert(dx == 0);
                assert((0int * sqrt_price_x96) == 0) by (nonlinear_arith);
                vstd::arithmetic::div_mod::lemma_div_of0(q96s());
                assert(dx_adj == 0);
                assert(denominator == liquidity);
                vstd::arithmetic::div_mod::lemma_div_multiples_vanish(
                    sqrt_price_x96 as int,
                    liquidity as int,
                );
                assert(sqrt_p1 == sqrt_price_x96);
                crate::v2::lemma_rat_eq_transport(
                    final_price.n(),
                    final_price.d(),
                    p1 as int,
                    pow10s(18),
                    initial_price.n(),
                    initial_price.d(),
                    p0 as int,
                    pow10s(18),
                );
            }
        }
        Ok(
            SimResult {
                initial_price,
                final_price,
                average_sell_curve_price: avg,
                usdc_amount_to_trade: usdc,
            },
        )
    }
}

/// A zero numerator yields a zero rounded quotient.
proof fn lemma_zero_dx(netd: int, p: int)
    requires
        netd > 0,
        p > 0,
    ensures
        round_div(0 * p, netd) == 0,
{
    assert(0 * p == 0) by (nonlinear_arith);
    vstd::arithmetic::div_mod::lemma_div_of0(netd);
    vstd::arithmetic::div_mod::lemma_small_mod(0, netd as nat);
}

} // verus!
