//! Alerts: one record per executable instrument whose second candle is
//! confirmed, and one per later reversal.
pub mod engine;
pub mod laws;
pub mod messages;
pub mod records;
pub mod types;
