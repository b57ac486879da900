//! Failure taxonomy for the simulators and the evaluator.
//!
//! Validation failures (malformed direction), state failures (pool or token
//! state unusable), and arithmetic failures (overflow, zero divisor) are
//! distinguished so the evaluator can contain each at the direction boundary.
use vstd::prelude::*;

verus! {

/// Why a simulation or evaluation could not produce a result.
#[derive(Clone, Copy, PartialEq, Eq, Structural, Debug)]
pub enum SimError {
    /// The direction path has fewer than three entries.
    ShortPath,
    /// The direction names a pool type no engine recognizes.
    UnknownPoolType,
    /// A V3 leg selector other than the sell or buy label.
    InvalidPoolLabel,
    /// The direction tokens do not match the pool's token pair.
    TokenMismatch,
    /// A V3 pool with zero liquidity.
    NoLiquidity,
    /// A V3 pool whose sqrt price is zero.
    InvalidSqrtPrice,
    /// An intermediate value exceeded the supported integer width.
    Overflow,
    /// A zero reserve or zero price where a quotient is required.
    DivisionByZero,
}

impl SimError {
    /// A short stable name for logs and messages.
    pub fn name(&self) -> (r: &'static str)
        ensures
            r@ =~= self.name_spec(),
    {
        match self {
            SimError::ShortPath => "short path",
            SimError::UnknownPoolType => "unknown pool type",
            SimError::InvalidPoolLabel => "invalid pool label",
            SimError::TokenMismatch => "token mismatch",
            SimError::NoLiquidity => "no liquidity",
            SimError::InvalidSqrtPrice => "invalid sqrt price",
            SimError::Overflow => "overflow",
            SimError::DivisionByZero => "division by zero",
        }
    }

    /// The characters of `name`.
    pub open spec fn name_spec(self) -> Seq<char> {
        match self {
            SimError::ShortPath => "short path"@,
            SimError::UnknownPoolType => "unknown pool type"@,
            SimError::InvalidPoolLabel => "invalid pool label"@,
            SimError::TokenMismatch => "token mismatch"@,
            SimError::NoLiquidity => "no liquidity"@,
            SimError::InvalidSqrtPrice => "invalid sqrt price"@,
            SimError::Overflow => "overflow"@,
            SimError::DivisionByZero => "division by zero"@,
        }
    }
}

} // verus!
