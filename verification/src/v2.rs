//! Constant-product (V2) pool simulator.
//!
//! Mirrors the on-chain integer swap math: a thousandths fee haircut on the
//! input amount, a truncating-division output amount, and prices as exact
//! rationals of the decimal-normalized reserves.
use vstd::prelude::*;

verus! {

use crate::errors::SimError;
use crate::rat::Rat;
use crate::rat::reduce;
use crate::wide::mul_div;
use crate::wide::p128;
use crate::wide::pow10;
use crate::wide::pow10s;

/// The absolute value of an integer.
pub open spec fn abs_i(x: int) -> int {
    if x >= 0 {
        x
    } else {
        -x
    }
}

/// Outcome of one simulated V2 swap.
#[derive(Clone, Copy, Debug)]
pub struct SimPriceResult {
    pub price_before: Rat,
    pub price_after: Rat,
    pub average_price: Rat,
    pub price_impact: Rat,
    pub amount_out: u128,
    pub reserve_out_after: u128,
}

/// Fresh pool state, reserves normalized and matched to the direction's
/// token order.
#[derive(Clone, Debug)]
pub struct PoolPriceResult {
    pub token_balance0: Rat,
    pub token_balance1: Rat,
    pub current_price: Rat,
    pub token_decimals0: u32,
    pub token_decimals1: u32,
}

/// One V2 pool simulation context: where the pool lives and which fee the
/// swap math applies.
#[derive(Clone, Debug)]
pub struct SimulateTradeLoopV2 {
    pub rpc_url: String,
    pub pool_address: String,
    pub token0: String,
    pub token1: String,
    pub fee: Rat,
}

impl SimulateTradeLoopV2 {
    /// A usable context: the fee is a fraction in `[0, 1]`.
    pub open spec fn wf(self) -> bool {
        self.fee.wf() && !self.fee.neg && self.fee.n() <= self.fee.d()
    }

    /// Build a context; a missing fee defaults to 3/1000.
    pub fn new(
        rpc_url: String,
        pool_address: String,
        token0: String,
        token1: String,
        fee: Option<Rat>,
    ) -> (r: SimulateTradeLoopV2)
        requires
            match fee {
                Some(f) => f.wf() && !f.neg && f.n() <= f.d(),
                None => true,
            },
        ensures
            r.wf(),
            r.rpc_url@ == rpc_url@,
            r.pool_address@ == pool_address@,
            r.token0@ == token0@,
            r.token1@ == token1@,
            match fee {
                Some(f) => r.fee == f,
                None => r.fee.n() * 1000 == 3 * r.fee.d(),
            },
    {
        let f = match fee {
            Some(f) => f,
            None => Rat { neg: false, num: 3, den: 1000 },
        };
        SimulateTradeLoopV2 { rpc_url, pool_address, token0, token1, fee: f }
    }

    /// Relative price movement `|before - after| / before`, zero for a zero
    /// starting price.  `None` exactly when a cross product overflows.
    pub fn calculate_price_impact(price_before: &Rat, price_after: &Rat) -> (r: Option<Rat>)
        requires
            price_before.wf(),
            price_after.wf(),
            !price_before.neg,
            !price_after.neg,
        ensures
            match r {
                Some(v) => v.wf() && !v.neg && if price_before.n() == 0 {
                    v.n() == 0
                } else {
                    v.n() * (price_after.d() * price_before.n()) == abs_i(
                        price_before.n() * price_after.d() - price_after.n() * price_before.d(),
                    ) * v.d()
                },
                None => price_before.num * price_after.den > u128::MAX || price_after.num
                    * price_before.den > u128::MAX || price_after.den * price_before.num
                    > u128::MAX,
            },
    {
        if price_before.num == 0 {
            return Some(Rat::zero());
        }
        let c1o = price_before.num.checked_mul(price_after.den);
        let c2o = price_after.num.checked_mul(price_before.den);
        let dno = price_after.den.checked_mul(price_before.num);
        match (c1o, c2o, dno) {
            (Some(c1), Some(c2), Some(dn)) => {
                proof {
                    assert(dn > 0) by (nonlinear_arith)
                        requires
                            price_after.den > 0,
                            price_before.num > 0,
                            dn == price_after.den * price_before.num,
                    ;
                }
                let mag = if c1 >= c2 {
                    c1 - c2
                } else {
                    c2 - c1
                };
                let v = reduce(false, mag, dn);
                proof {
                    assert(mag == abs_i(
                        price_before.n() * price_after.d() - price_after.n() * price_before.d(),
                    ));
                }
                Some(v)
            },
            _ => None,
        }
    }
}

/// Match raw pool reserves to the direction's token order, normalize them by
/// their decimals, and derive the current price.
///
/// `reserve0`/`reserve1` and `decimals0`/`decimals1` describe the pool's own
/// token order `(pool_token0, pool_token1)`; `token0`/`token1` are the
/// direction's.  The reserve of the direction's first token becomes the
/// input-side balance.
pub fn pool_price_from_reserves(
    reserve0: u128,
    reserve1: u128,
    decimals0: u32,
    decimals1: u32,
    pool_token0: &String,
    pool_token1: &String,
    token0: &String,
    token1: &String,
) -> (r: Result<PoolPriceResult, SimError>)
    ensures
        ({
            let fwd = token0@ == pool_token0@ && token1@ == pool_token1@;
            let bwd = !fwd && token0@ == pool_token1@ && token1@ == pool_token0@;
            let rin = if fwd {
                reserve0
            } else {
                reserve1
            };
            let din = if fwd {
                decimals0
            } else {
                decimals1
            };
            let rout = if fwd {
                reserve1
            } else {
                reserve0
            };
            let dout = if fwd {
                decimals1
            } else {
                decimals0
            };
            match r {
                Ok(p) => (fwd || bwd) && din <= 38 && dout <= 38 && rin > 0 && p.token_decimals0
                    == din && p.token_decimals1 == dout && p.token_balance0.wf()
                    && !p.token_balance0.neg && p.token_balance0.n() * pow10s(din as nat) == rin
                    * p.token_balance0.d() && p.token_balance1.wf() && !p.token_balance1.neg
                    && p.token_balance1.n() * pow10s(dout as nat) == rout * p.token_balance1.d()
                    && p.current_price.wf() && !p.current_price.neg && p.current_price.n() * (rin
                    * pow10s(dout as nat)) == (rout * pow10s(din as nat)) * p.current_price.d(),
                Err(SimError::TokenMismatch) => !fwd && !bwd,
                Err(SimError::Overflow) => (fwd || bwd) && (din > 38 || dout > 38 || (rin > 0
                    && (rout * pow10s(din as nat) > u128::MAX || rin * pow10s(dout as nat)
                    > u128::MAX))),
                Err(SimError::DivisionByZero) => (fwd || bwd) && din <= 38 && dout <= 38 && rin
                    == 0,
                Err(_) => false,
            }
        }),
{
    let fwd = token0.eq(pool_token0) && token1.eq(pool_token1);
    let bwd = !fwd && token0.eq(pool_token1) && token1.eq(pool_token0);
    if !fwd && !bwd {
        return Err(SimError::TokenMismatch);
    }
    let (rin, din, rout, dout) = if fwd {
        (reserve0, decimals0, reserve1, decimals1)
    } else {
        (reserve1, decimals1, reserve0, decimals0)
    };
    let pdi = match pow10(din) {
        Some(p) => p,
        None => {
            return Err(SimError::Overflow);
        },
    };
    let pdo = match pow10(dout) {
        Some(p) => p,
        None => {
            return Err(SimError::Overflow);
        },
    };
    if rin == 0 {
        return Err(SimError::DivisionByZero);
    }
    let balance_in = reduce(false, rin, pdi);
    let balance_out = reduce(false, rout, pdo);
    // price = (rout / 10^dout) / (rin / 10^din) = rout * 10^din / (rin * 10^dout)
    let num = match rout.checked_mul(pdi) {
        Some(v) => v,
        None => {
            return Err(SimError::Overflow);
        },
    };
    let den = match rin.checked_mul(pdo) {
        Some(v) => v,
        None => {
            return Err(SimError::Overflow);
        },
    };
    proof {
        assert(den > 0) by (nonlinear_arith)
            requires
                rin > 0,
                pdo > 0,
                den == rin * pdo,
        ;
    }
    let price = reduce(false, num, den);
    Ok(
        PoolPriceResult {
            token_balance0: balance_in,
            token_balance1: balance_out,
            current_price: price,
            token_decimals0: din,
            token_decimals1: dout,
        },
    )
}

/// Fee numerator in thousandths: `floor((1 - fee) * 1000)`.
pub open spec fn fee_num_spec(fee: Rat) -> int {
    ((fee.d() - fee.n()) * 1000) / fee.d()
}

/// Trade size in atomic units: `floor(amount * 10^decimals_in)`.
pub open spec fn amount_in_spec(amount: Rat, decimals_in: u32) -> int {
    (amount.n() * pow10s(decimals_in as nat)) / amount.d()
}

/// Constant-product output amount with an input-side fee haircut:
/// `floor(amount_in_with_fee * reserve_out / (reserve_in * 1000 + amount_in_with_fee))`.
pub open spec fn amount_out_spec(aw: int, reserve_in: int, reserve_out: int) -> int {
    (aw * reserve_out) / (reserve_in * 1000 + aw)
}

/// The fee-adjusted constant-product invariant does not decrease across a
/// swap: `(reserve_in + amount_in_with_fee) * (reserve_out - amount_out)
/// >= reserve_in * reserve_out`.
pub proof fn lemma_cp_invariant(ri: int, ro: int, aw: int, ao: int)
    by (nonlinear_arith)
    requires
        ri >= 0,
        ro >= 0,
        aw >= 0,
        0 <= ao <= ro,
        ao * (ri * 1000 + aw) <= aw * ro,
    ensures
        (ri + aw) * (ro - ao) >= ri * ro,
{
}

/// `floor(a * ro / d) <= ro` whenever `a <= d`.
proof fn lemma_div_le_factor(a: int, ro: int, d: int)
    requires
        0 <= a <= d,
        0 < d,
        0 <= ro,
    ensures
        (a * ro) / d <= ro,
        (a * ro) / d >= 0,
{
    assert(a * ro <= d * ro) by (nonlinear_arith)
        requires
            0 <= a <= d,
            0 <= ro,
    ;
    assert(a * ro >= 0) by (nonlinear_arith)
        requires
            a >= 0,
            ro >= 0,
    ;
    vstd::arithmetic::div_mod::lemma_div_is_ordered(a * ro, d * ro, d);
    vstd::arithmetic::div_mod::lemma_div_multiples_vanish(ro, d);
    vstd::arithmetic::div_mod::lemma_div_pos_is_pos(a * ro, d);
}

/// Order transports across reduced representations: if `a` and `b` denote
/// `An/Ad` and `Bn/Bd` and `An/Ad <= Bn/Bd`, then `a <= b` by cross
/// multiplication.
pub proof fn lemma_rat_le_transport(
    an: int,
    ad: int,
    aan: int,
    aad: int,
    bn: int,
    bd: int,
    bbn: int,
    bbd: int,
)
    requires
        ad > 0,
        bd > 0,
        aad > 0,
        bbd > 0,
        an * aad == aan * ad,
        bn * bbd == bbn * bd,
        aan * bbd <= bbn * aad,
    ensures
        an * bd <= bn * ad,
{
    assert((an * bd) * (aad * bbd) == (an * aad) * (bd * bbd)) by (nonlinear_arith);
    assert((bn * ad) * (aad * bbd) == (bn * bbd) * (ad * aad)) by (nonlinear_arith);
    assert((an * aad) * (bd * bbd) == (aan * ad) * (bd * bbd)) by (nonlinear_arith)
        requires
            an * aad == aan * ad,
    ;
    assert((bn * bbd) * (ad * aad) == (bbn * bd) * (ad * aad)) by (nonlinear_arith)
        requires
            bn * bbd == bbn * bd,
    ;
    assert((aan * ad) * (bd * bbd) == (aan * bbd) * (ad * bd)) by (nonlinear_arith);
    assert((bbn * bd) * (ad * aad) == (bbn * aad) * (ad * bd)) by (nonlinear_arith);
    assert((aan * bbd) * (ad * bd) <= (bbn * aad) * (ad * bd)) by (nonlinear_arith)
        requires
            aan * bbd <= bbn * aad,
            ad > 0,
            bd > 0,
    ;
    assert(an * bd <= bn * ad) by (nonlinear_arith)
        requires
            (an * bd) * (aad * bbd) <= (bn * ad) * (aad * bbd),
            aad > 0,
            bbd > 0,
    ;
}

/// Equality transports across reduced representations.
pub proof fn lemma_rat_eq_transport(
    an: int,
    ad: int,
    aan: int,
    aad: int,
    bn: int,
    bd: int,
    bbn: int,
    bbd: int,
)
    requires
        ad > 0,
        bd > 0,
        aad > 0,
        bbd > 0,
        an * aad == aan * ad,
        bn * bbd == bbn * bd,
        aan * bbd == bbn * aad,
    ensures
        an * bd == bn * ad,
{
    assert((an * bd) * (aad * bbd) == (an * aad) * (bd * bbd)) by (nonlinear_arith);
    assert((bn * ad) * (aad * bbd) == (bn * bbd) * (ad * aad)) by (nonlinear_arith);
    assert((an * aad) * (bd * bbd) == (aan * ad) * (bd * bbd)) by (nonlinear_arith)
        requires
            an * aad == aan * ad,
    ;
    assert((bn * bbd) * (ad * aad) == (bbn * bd) * (ad * aad)) by (nonlinear_arith)
        requires
            bn * bbd == bbn * bd,
    ;
    assert((aan * ad) * (bd * bbd) == (aan * bbd) * (ad * bd)) by (nonlinear_arith);
    assert((bbn * bd) * (ad * aad) == (bbn * aad) * (ad * bd)) by (nonlinear_arith);
    assert((aan * bbd) * (ad * bd) == (bbn * aad) * (ad * bd)) by (nonlinear_arith)
        requires
            aan * bbd == bbn * aad,
    ;
    assert(an * bd == bn * ad) by (nonlinear_arith)
        requires
            (an * bd) * (aad * bbd) == (bn * ad) * (aad * bbd),
            aad > 0,
            bbd > 0,
    ;
}

/// The decimal-normalized price pairs of a swap, oriented for the quoting
/// convention: `(before_num, before_den, after_num, after_den)`.  For the
/// canonical 18/6-decimal pairing the quote is inverted.
pub open spec fn price_pairs_spec(
    fee: Rat,
    reserve_in: int,
    reserve_out: int,
    amount: Rat,
    token_in_decimals: u32,
    token_out_decimals: u32,
) -> (int, int, int, int) {
    let pdi = pow10s(token_in_decimals as nat);
    let pdo = pow10s(token_out_decimals as nat);
    let ain = amount_in_spec(amount, token_in_decimals);
    let aw = ain * fee_num_spec(fee);
    let ao = amount_out_spec(aw, reserve_in, reserve_out);
    let numb = reserve_out * pdi;
    let denb = reserve_in * pdo;
    let numa = (reserve_out - ao) * pdi;
    let dena = (reserve_in + ain) * pdo;
    if token_out_decimals == 18 && token_in_decimals == 6 {
        (denb, numb, dena, numa)
    } else {
        (numb, denb, numa, dena)
    }
}

/// Exactly when an intermediate of the V2 swap math cannot be represented
/// in `u128`, so the simulation reports an overflow.
pub open spec fn v2_overflows(
    fee: Rat,
    reserve_in: int,
    reserve_out: int,
    amount: Rat,
    token_in_decimals: u32,
    token_out_decimals: u32,
) -> bool {
    let pdi = pow10s(token_in_decimals as nat);
    let pdo = pow10s(token_out_decimals as nat);
    let ain = amount_in_spec(amount, token_in_decimals);
    let aw = ain * fee_num_spec(fee);
    let ao = amount_out_spec(aw, reserve_in, reserve_out);
    let inv = token_out_decimals == 18 && token_in_decimals == 6;
    let pr = price_pairs_spec(fee, reserve_in, reserve_out, amount, token_in_decimals,
        token_out_decimals);
    token_in_decimals > 38 || token_out_decimals > 38 || (reserve_in > 0 && !(inv && reserve_out
        == 0) && (ain >= p128() || aw > u128::MAX || reserve_in * 1000 > u128::MAX || reserve_in
        * 1000 + aw > u128::MAX || (!inv && reserve_out == 0) || reserve_in + ain > u128::MAX
        || reserve_out * pdi > u128::MAX || reserve_in * pdo > u128::MAX || (reserve_out - ao)
        * pdi > u128::MAX || (reserve_in + ain) * pdo > u128::MAX || pr.0 * pr.3 > u128::MAX
        || pr.2 * pr.1 > u128::MAX || pr.0 * pr.3 + pr.2 * pr.1 > u128::MAX || pr.1 * pr.3
        > u128::MAX || 2 * (pr.1 * pr.3) > u128::MAX))
}

/// Exactly when the simulation reports an error rather than a result.
pub open spec fn v2_rejects(
    fee: Rat,
    reserve_in: int,
    reserve_out: int,
    amount: Rat,
    token_in_decimals: u32,
    token_out_decimals: u32,
) -> bool {
    token_in_decimals > 38 || token_out_decimals > 38 || reserve_in == 0 || (token_out_decimals
        == 18 && token_in_decimals == 6 && reserve_out == 0) || v2_overflows(
        fee,
        reserve_in,
        reserve_out,
        amount,
        token_in_decimals,
        token_out_decimals,
    )
}

/// Products of non-negative values respect their bounds.
pub proof fn lemma_mul_le(a: int, b: int, c: int, d: int)
    by (nonlinear_arith)
    requires
        0 <= a <= b,
        0 <= c <= d,
    ensures
        a * c <= b * d,
{
}

/// The output amount is strictly below a positive output reserve.
proof fn lemma_amount_out_lt(aw: int, ri: int, ro: int)
    requires
        ri >= 1,
        ro >= 1,
        aw >= 0,
    ensures
        amount_out_spec(aw, ri, ro) < ro,
{
    let d = ri * 1000 + aw;
    assert(d > aw && d > 0) by (nonlinear_arith)
        requires
            ri >= 1,
            aw >= 0,
            d == ri * 1000 + aw,
    ;
    vstd::arithmetic::div_mod::lemma_fundamental_div_mod(aw * ro, d);
    vstd::arithmetic::div_mod::lemma_mod_division_less_than_divisor(aw * ro, d);
    let q = (aw * ro) / d;
    assert(q * d <= aw * ro) by (nonlinear_arith)
        requires
            aw * ro == d * q + (aw * ro) % d,
            (aw * ro) % d >= 0,
    ;
    assert(aw * ro < d * ro) by (nonlinear_arith)
        requires
            aw < d,
            ro >= 1,
    ;
    assert(q < ro) by (nonlinear_arith)
        requires
            q * d <= aw * ro,
            aw * ro < d * ro,
            d > 0,
    ;
}

/// The full outcome of one V2 swap simulation, as a relation between the
/// inputs and the returned result.
pub open spec fn swap_post(
    fee: Rat,
    reserve_in: u128,
    reserve_out: u128,
    amount: Rat,
    token_in_decimals: u32,
    token_out_decimals: u32,
    r: Result<SimPriceResult, SimError>,
) -> bool {
    let pdi = pow10s(token_in_decimals as nat);
    let pdo = pow10s(token_out_decimals as nat);
    let ain = amount_in_spec(amount, token_in_decimals);
    let aw = ain * fee_num_spec(fee);
    let ao = amount_out_spec(aw, reserve_in as int, reserve_out as int);
    let inv = token_out_decimals == 18 && token_in_decimals == 6;
    let pr = price_pairs_spec(
        fee,
        reserve_in as int,
        reserve_out as int,
        amount,
        token_in_decimals,
        token_out_decimals,
    );
    let ovf = v2_overflows(
        fee,
        reserve_in as int,
        reserve_out as int,
        amount,
        token_in_decimals,
        token_out_decimals,
    );
    match r {
        Ok(res) => token_in_decimals <= 38 && token_out_decimals <= 38 && reserve_in > 0 && (inv
            ==> reserve_out > 0) && res.amount_out == ao && res.reserve_out_after
            == reserve_out - ao && ao < reserve_out && (reserve_in + aw) * (reserve_out - ao)
            >= reserve_in * reserve_out && res.price_before.wf() && !res.price_before.neg
            && res.price_after.wf() && !res.price_after.neg && res.price_before.n() * pr.1 == pr.0
            * res.price_before.d() && res.price_after.n() * pr.3 == pr.2 * res.price_after.d()
            && res.average_price.wf() && res.average_price.n() >= 0 && res.average_price.num
            <= pr.0 * pr.3 + pr.2 * pr.1 && res.average_price.den <= 2 * (pr.1 * pr.3)
            && res.average_price.n() * (2 * (res.price_before.d() * res.price_after.d())) == (
        res.price_before.n() * res.price_after.d() + res.price_after.n() * res.price_before.d())
            * res.average_price.d() && res.price_impact.wf() && !res.price_impact.neg && (
        res.price_before.n() == 0 ==> res.price_impact.n() == 0) && (res.price_before.n() != 0
            ==> res.price_impact.n() * (res.price_after.d() * res.price_before.n()) == abs_i(
            res.price_before.n() * res.price_after.d() - res.price_after.n()
                * res.price_before.d(),
        ) * res.price_impact.d()) && (ain == 0 ==> res.price_impact.n() == 0) && (!inv
            ==> res.price_impact.n() <= res.price_impact.d()),
        Err(SimError::DivisionByZero) => token_in_decimals <= 38 && token_out_decimals <= 38 && (
        reserve_in == 0 || (inv && reserve_out == 0)),
        Err(SimError::Overflow) => ovf,
        Err(_) => false,
    }
}

impl SimulateTradeLoopV2 {
    /// Simulate the price after a swap by the constant-product formula with
    /// an input-side fee haircut, mirroring on-chain integer rounding.
    ///
    /// Reserves are atomic-unit integers; `amount_decimal` is the trade size
    /// in decimal units of the input token.  Prices are quoted as the
    /// normalized output reserve over the normalized input reserve, inverted
    /// for the canonical 18/6-decimal pairing so quotes stay in the
    /// stablecoin.  `Overflow` reports any intermediate past `u128`.
    pub fn simulate_price_after_swap(
        &self,
        reserve_in: u128,
        reserve_out: u128,
        amount_decimal: &Rat,
        token_in_decimals: u32,
        token_out_decimals: u32,
    ) -> (r: Result<SimPriceResult, SimError>)
        requires
            self.wf(),
            amount_decimal.wf(),
            !amount_decimal.neg,
        ensures
            swap_post(
                self.fee,
                reserve_in,
                reserve_out,
                *amount_decimal,
                token_in_decimals,
                token_out_decimals,
                r,
            ),
            !v2_rejects(
                self.fee,
                reserve_in as int,
                reserve_out as int,
                *amount_decimal,
                token_in_decimals,
                token_out_decimals,
            ) ==> r is Ok,
    {
        let pdi = match pow10(token_in_decimals) {
            Some(p) => p,
            None => {
                return Err(SimError::Overflow);
            },
        };
        let pdo = match pow10(token_out_decimals) {
            Some(p) => p,
            None => {
                return Err(SimError::Overflow);
            },
        };
        if reserve_in == 0 {
            return Err(SimError::DivisionByZero);
        }
        let inverted = token_out_decimals == 18 && token_in_decimals == 6;
        if inverted && reserve_out == 0 {
            return Err(SimError::DivisionByZero);
        }
        // Fee in integer thousandths.
        let fee_num = match mul_div(self.fee.den - self.fee.num, 1000, self.fee.den) {
            Some(f) => f,
            None => {
                proof {
                    lemma_div_le_factor(
                        (self.fee.den - self.fee.num) as int,
                        1000,
                        self.fee.den as int,
                    );
                    assert((self.fee.den - self.fee.num) * 1000 == ((self.fee.den - self.fee.num)
                        as int) * 1000) by (nonlinear_arith);
                    assert(false);
                }
                return Err(SimError::Overflow);
            },
        };
        proof {
            assert(fee_num == fee_num_spec(self.fee));
        }
        // Trade size in atomic input units.
        let amount_in = match mul_div(amount_decimal.num, pdi, amount_decimal.den) {
            Some(v) => v,
            None => {
                return Err(SimError::Overflow);
            },
        };
        // Input-side fee haircut.
        let aw = match amount_in.checked_mul(fee_num) {
            Some(v) => v,
            None => {
                return Err(SimError::Overflow);
            },
        };
        let rid = match reserve_in.checked_mul(1000) {
            Some(v) => v,
            None => {
                return Err(SimError::Overflow);
            },
        };
        let denom = match rid.checked_add(aw) {
            Some(v) => v,
            None => {
                return Err(SimError::Overflow);
            },
        };
        proof {
            assert(denom > 0) by (nonlinear_arith)
                requires
                    reserve_in > 0,
                    aw >= 0,
                    denom == reserve_in * 1000 + aw,
            ;
        }
        // Constant-product output, truncating division.
        let amount_out = match mul_div(aw, reserve_out, denom) {
            Some(v) => v,
            None => {
                proof {
                    lemma_div_le_factor(aw as int, reserve_out as int, denom as int);
                    assert(false);
                }
                return Err(SimError::Overflow);
            },
        };
        proof {
            lemma_div_le_factor(aw as int, reserve_out as int, denom as int);
        }
        if amount_out >= reserve_out {
            proof {
                if reserve_out > 0 {
                    lemma_amount_out_lt(aw as int, reserve_in as int, reserve_out as int);
                }
                // Hence the output reserve is zero and the quote is not
                // inverted: the fatal arithmetic case of the overflow spec.
            }
            return Err(SimError::Overflow);
        }
        let reserve_in_after = match reserve_in.checked_add(amount_in) {
            Some(v) => v,
            None => {
                return Err(SimError::Overflow);
            },
        };
        let reserve_out_after = reserve_out - amount_out;
        // Normalized prices: output reserve over input reserve.
        let numb = match reserve_out.checked_mul(pdi) {
            Some(v) => v,
            None => {
                return Err(SimError::Overflow);
            },
        };
        let denb = match reserve_in.checked_mul(pdo) {
            Some(v) => v,
            None => {
                return Err(SimError::Overflow);
            },
        };
        let numa = match reserve_out_after.checked_mul(pdi) {
            Some(v) => v,
            None => {
                return Err(SimError::Overflow);
            },
        };
        let dena = match reserve_in_after.checked_mul(pdo) {
            Some(v) => v,
            None => {
                return Err(SimError::Overflow);
            },
        };
        proof {
            assert(denb > 0 && dena > 0) by (nonlinear_arith)
                requires
                    reserve_in > 0,
                    reserve_in_after >= reserve_in,
                    pdo > 0,
                    denb == reserve_in * pdo,
                    dena == reserve_in_after * pdo,
            ;
            if inverted {
                assert(numb > 0 && numa > 0) by (nonlinear_arith)
                    requires
                        reserve_out > 0,
                        reserve_out_after > 0,
                        pdi > 0,
                        numb == reserve_out * pdi,
                        numa == reserve_out_after * pdi,
                ;
            }
        }
        let (pbn, pbd, pan, pad) = if inverted {
            (denb, numb, dena, numa)
        } else {
            (numb, denb, numa, dena)
        };
        let ghost pr = price_pairs_spec(
            self.fee,
            reserve_in as int,
            reserve_out as int,
            *amount_decimal,
            token_in_decimals,
            token_out_decimals,
        );
        proof {
            assert(pbn == pr.0 && pbd == pr.1 && pan == pr.2 && pad == pr.3);
        }
        let price_before = reduce(false, pbn, pbd);
        let price_after = reduce(false, pan, pad);
        // Mean of the two prices.  If a cross product of the reduced prices
        // does not fit, the corresponding product of the unreduced pairs
        // does not either.
        let half = Rat { neg: false, num: 1, den: 2 };
        let summed = match price_before.try_add(&price_after) {
            Some(v) => v,
            None => {
                proof {
                    lemma_mul_le(
                        price_before.num as int,
                        pbn as int,
                        price_after.den as int,
                        pad as int,
                    );
                    lemma_mul_le(
                        price_after.num as int,
                        pan as int,
                        price_before.den as int,
                        pbd as int,
                    );
                    lemma_mul_le(
                        price_before.den as int,
                        pbd as int,
                        price_after.den as int,
                        pad as int,
                    );
                }
                return Err(SimError::Overflow);
            },
        };
        let average_price = match summed.try_mul(&half) {
            Some(v) => v,
            None => {
                proof {
                    lemma_mul_le(
                        price_before.den as int,
                        pbd as int,
                        price_after.den as int,
                        pad as int,
                    );
                    assert(summed.num * half.num == summed.num) by (nonlinear_arith)
                        requires
                            half.num == 1,
                    ;
                }
                return Err(SimError::Overflow);
            },
        };
        proof {
            assert(half.n() == 1 && half.d() == 2);
            assert(average_price.n() * (2 * summed.d()) == summed.n() * average_price.d())
                by (nonlinear_arith)
                requires
                    average_price.n() * (summed.d() * half.d()) == (summed.n() * half.n())
                        * average_price.d(),
                    half.n() == 1,
                    half.d() == 2,
            ;
            assert(summed.n() * (2 * (price_before.d() * price_after.d())) == (price_before.n()
                * price_after.d() + price_after.n() * price_before.d()) * (2 * summed.d()))
                by (nonlinear_arith)
                requires
                    summed.n() * (price_before.d() * price_after.d()) == (price_before.n()
                        * price_after.d() + price_after.n() * price_before.d()) * summed.d(),
            ;
            crate::rat::lemma_rat_trans(
                average_price.n(),
                average_price.d(),
                summed.n(),
                2 * summed.d(),
                price_before.n() * price_after.d() + price_after.n() * price_before.d(),
                2 * (price_before.d() * price_after.d()),
            );
            assert(price_before.n() * price_after.d() + price_after.n() * price_before.d() >= 0)
                by (nonlinear_arith)
                requires
                    price_before.n() >= 0,
                    price_after.n() >= 0,
                    price_before.d() > 0,
                    price_after.d() > 0,
            ;
            assert(average_price.n() >= 0) by (nonlinear_arith)
                requires
                    average_price.n() * (2 * (price_before.d() * price_after.d())) == (
                    price_before.n() * price_after.d() + price_after.n() * price_before.d())
                        * average_price.d(),
                    price_before.n() * price_after.d() + price_after.n() * price_before.d() >= 0,
                    average_price.d() > 0,
                    price_before.d() > 0,
                    price_after.d() > 0,
            ;
            // Size bounds of the mean against the unreduced pairs.
            lemma_mul_le(price_before.num as int, pbn as int, price_after.den as int, pad as int);
            lemma_mul_le(price_after.num as int, pan as int, price_before.den as int, pbd as int);
            lemma_mul_le(price_before.den as int, pbd as int, price_after.den as int, pad as int);
            assert(average_price.num * 1 == average_price.num) by (nonlinear_arith);
            assert(average_price.num <= summed.num * half.num && summed.num * half.num
                == summed.num) by (nonlinear_arith)
                requires
                    average_price.num <= summed.num * half.num,
                    half.num == 1,
            ;
            assert(average_price.den <= summed.den * 2 && summed.den * 2 <= 2 * (pbd * pad))
                by (nonlinear_arith)
                requires
                    average_price.den <= summed.den * half.den,
                    half.den == 2,
                    summed.den <= price_before.den * price_after.den,
                    price_before.den * price_after.den <= pbd * pad,
            ;
        }
        let price_impact = match Self::calculate_price_impact(&price_before, &price_after) {
            Some(v) => v,
            None => {
                proof {
                    lemma_mul_le(
                        price_before.num as int,
                        pbn as int,
                        price_after.den as int,
                        pad as int,
                    );
                    lemma_mul_le(
                        price_after.num as int,
                        pan as int,
                        price_before.den as int,
                        pbd as int,
                    );
                    lemma_mul_le(
                        price_after.den as int,
                        pad as int,
                        price_before.num as int,
                        pbn as int,
                    );
                    assert(pad as int * pbn as int == pr.0 * pr.3) by (nonlinear_arith)
                        requires
                            pbn == pr.0,
                            pad == pr.3,
                    ;
                }
                return Err(SimError::Overflow);
            },
        };
        proof {
            let ain = amount_in_spec(*amount_decimal, token_in_decimals);
            if ain == 0 {
                // No trade: the two pairs agree, so the prices denote the
                // same rational and the impact is zero.
                assert(aw == 0) by (nonlinear_arith)
                    requires
                        aw == amount_in * fee_num,
                        amount_in == 0,
                ;
                assert(aw * reserve_out == 0) by (nonlinear_arith)
                    requires
                        aw == 0,
                ;
                vstd::arithmetic::div_mod::lemma_div_of0(denom as int);
                assert(amount_out == 0 && reserve_out_after == reserve_out && reserve_in_after
                    == reserve_in);
                assert(pan == pbn && pad == pbd);
                crate::rat::lemma_rat_trans(
                    price_before.n(),
                    price_before.d(),
                    pbn as int,
                    pbd as int,
                    price_after.n(),
                    price_after.d(),
                );
                if price_before.n() != 0 {
                    assert(abs_i(
                        price_before.n() * price_after.d() - price_after.n() * price_before.d(),
                    ) == 0);
                    assert(price_impact.n() == 0) by (nonlinear_arith)
                        requires
                            price_impact.n() * (price_after.d() * price_before.n()) == 0
                                * price_impact.d(),
                            price_after.d() > 0,
                            price_before.n() > 0,
                            price_impact.n() >= 0,
                    ;
                }
            }
            if !inverted {
                // The price falls, so the impact is at most one.
                assert(pan * pbd <= pbn * pad) by (nonlinear_arith)
                    requires
                        pan == reserve_out_after * pdi,
                        pbn == reserve_out * pdi,
                        pad == reserve_in_after * pdo,
                        pbd == reserve_in * pdo,
                        reserve_out_after <= reserve_out,
                        reserve_in_after >= reserve_in,
                        pdi > 0,
                        pdo > 0,
                ;
                lemma_rat_le_transport(
                    price_after.n(),
                    price_after.d(),
                    pan as int,
                    pad as int,
                    price_before.n(),
                    price_before.d(),
                    pbn as int,
                    pbd as int,
                );
                if price_before.n() != 0 {
                    assert(price_impact.n() <= price_impact.d()) by (nonlinear_arith)
                        requires
                            price_impact.n() * (price_after.d() * price_before.n()) == abs_i(
                                price_before.n() * price_after.d() - price_after.n()
                                    * price_before.d(),
                            ) * price_impact.d(),
                            price_after.n() * price_before.d() <= price_before.n()
                                * price_after.d(),
                            price_after.n() >= 0,
                            price_before.n() > 0,
                            price_after.d() > 0,
                            price_before.d() > 0,
                            price_impact.d() > 0,
                            price_impact.n() >= 0,
                            abs_i(
                                price_before.n() * price_after.d() - price_after.n()
                                    * price_before.d(),
                            ) == price_before.n() * price_after.d() - price_after.n()
                                * price_before.d(),
                    ;
                }
            }
            // Fee-adjusted constant-product invariant.
            vstd::arithmetic::div_mod::lemma_fundamental_div_mod(
                aw as int * reserve_out as int,
                denom as int,
            );
            vstd::arithmetic::div_mod::lemma_mod_division_less_than_divisor(
                aw as int * reserve_out as int,
                denom as int,
            );
            assert(aw * reserve_out >= 0) by (nonlinear_arith)
                requires
                    aw >= 0,
                    reserve_out >= 0,
            ;
            assert(amount_out * (reserve_in * 1000 + aw) <= aw * reserve_out)
                by (nonlinear_arith)
                requires
                    aw * reserve_out == denom * (amount_out as int) + (aw as int * reserve_out
                        as int) % (denom as int),
                    (aw as int * reserve_out as int) % (denom as int) >= 0,
                    denom == reserve_in * 1000 + aw,
            ;
            lemma_cp_invariant(
                reserve_in as int,
                reserve_out as int,
                aw as int,
                amount_out as int,
            );
        }
        Ok(
            SimPriceResult {
                price_before,
                price_after,
                average_price,
                price_impact,
                amount_out,
                reserve_out_after,
            },
        )
    }
}

} // verus!
