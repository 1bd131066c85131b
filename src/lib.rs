//! Market-analysis engine over fixed-point OHLC candles: indicators,
//! candlestick patterns, smart-money structures and support/resistance zones.
//!
//! Every price is an `i64` count of ticks, `PRICE_SCALE` ticks to one unit.
use vstd::prelude::*;

pub mod analysis;
pub mod candle;
pub mod indicators;
pub mod laws;
pub mod patterns;
pub mod smc;
pub mod sr_zones;

verus! {

/// Number of ticks in one price unit (eight decimal places).
pub const PRICE_SCALE: i64 = 100_000_000;

/// Largest magnitude of a price, in ticks, on which sums and products are
/// known to fit the machine integers.
pub const MAX_PRICE: i64 = 100_000_000_000_000_000;

} // verus!
