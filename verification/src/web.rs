//! What the routing layer decides: which requests are valid and what a
//! failure is answered with.

pub mod routing;
pub mod util;
