//! Cross-venue market-data aggregation and arbitrage detection.
//!
//! The crate tracks top-of-book snapshots per (instrument, venue), compares
//! them across venues, gates the resulting alerts, and prepares signed
//! requests for a venue's authenticated trading endpoint.  Prices are held
//! as fixed-point integers; network transport lives outside this crate.

pub mod alert_gate;
pub mod auth;
pub mod bybit;
pub mod frames;
pub mod notify;
pub mod order;
pub mod orderbook;
pub mod price;
pub mod supervisor;
pub mod text;
pub mod trading;
