//! Backtest of alerts on one-minute candles.
pub mod cli;
pub mod laws;
pub mod model;
pub mod output;
pub mod report;
pub mod run;
pub mod simulator;
pub mod source;
pub mod stat_laws;
pub mod stats;
pub mod table_laws;
pub mod trade_laws;
pub mod walk_laws;
