//! Market-data aggregation for a single equity ticker: exact decimal parsing,
//! price-series extraction, trailing returns, snapshot assembly and the text
//! handed to the report writer.

pub mod app;
pub mod client;
pub mod finance;
pub mod text;
pub mod web;
