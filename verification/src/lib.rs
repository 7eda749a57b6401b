//! Verified core of a multi-timeframe market monitor.
//!
//! Everything here is a pure computation or a state machine over plain values.
//! Prices and volumes are fixed-point integers, times are milliseconds since
//! the Unix epoch.

pub mod aggregator;
pub mod aggregator_laws;
pub mod alert;
pub mod backtest;
pub mod boundaries;
pub mod calendar;
pub mod calendar_laws;
pub mod candidate;
pub mod candle_laws;
pub mod chart_laws;
pub mod charts;
pub mod config;
pub mod detector;
pub mod feed_laws;
pub mod h4;
pub mod h4_laws;
pub mod history;
pub mod history_laws;
pub mod identity;
pub mod inbox;
pub mod inbox_laws;
pub mod params;
pub mod settings_laws;
pub mod smt;
pub mod sorting;
pub mod structures;
pub mod subscription;
pub mod table;
pub mod text;
pub mod types;
pub mod upkeep;
pub mod upkeep_laws;
pub mod watchlist;

