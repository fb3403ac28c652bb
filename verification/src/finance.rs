//! The aggregation engine: numbers, price series, trailing returns and the
//! assembled snapshot.

pub mod decimal;
pub mod laws;
pub mod market_cap;
pub mod percent;
pub mod series;
pub mod snapshot;
pub mod upstream;

pub use market_cap::format_market_cap;
pub use series::{calculate_change, extract_prices};
pub use snapshot::{assemble_market_data, MarketData};

use vstd::prelude::*;

verus! {

/// Why no snapshot could be produced.
#[derive(Clone, Copy, Debug, PartialEq, Eq, Structural)]
pub enum MarketDataError {
    /// The upstream provider could not be reached, or the connection failed.
    UpstreamTransport,
    /// The upstream answer did not have the expected shape.
    UpstreamShape,
    /// A required numeric field is not a decimal numeral.
    Parse,
    /// The price history is shorter than the lookback window asks for.
    InsufficientHistory,
    /// The price at the lookback index is zero, so no percentage exists.
    DivisionByZero,
}

} // verus!
