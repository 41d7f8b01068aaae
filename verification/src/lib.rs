//! Accounting core of a liquid-staking pool.
//!
//! Users deposit a base asset and receive a derivative receipt token priced by
//! a fixed-point exchange rate; they redeem it either at full value or
//! immediately, at a fee, out of a dedicated liquidity reserve. Rewards are
//! folded into the principal by an explicit compounding step that moves the
//! exchange rate. Every operation is a pure state transition on an explicit
//! pool record: the surrounding host is expected to authenticate callers and
//! to move the base asset, and hands this library plain values.

pub mod ledger;
pub mod rate;
pub mod reserve;
pub mod staking_pool;
pub mod table;
pub mod token;
