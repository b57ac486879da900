//! Arbitrage-opportunity simulation for pairs of AMM liquidity pools.
//!
//! The crate simulates the execution price a trader would realize selling on
//! one pool and buying on another, for constant-product (V2) and
//! concentrated-liquidity (V3) pools, and searches for the trade size that
//! maximizes a caller-supplied profit function.  All price arithmetic is
//! exact: prices are rationals over machine integers, and the fixed-point
//! pool math is carried out with 256-bit intermediates.
pub mod batch;
pub mod errors;
pub mod evaluator;
pub mod optimizer;
pub mod rat;
pub mod v2;
pub mod v3;
pub mod wide;

