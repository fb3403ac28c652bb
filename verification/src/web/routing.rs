//! The routes of the service.

pub mod stock;
