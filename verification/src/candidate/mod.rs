//! Trade candidates: spawned by confirmed divergences, validated or ended by
//! five-minute candles and reversals.
pub mod close_laws;
pub mod engine;
pub mod laws;
pub mod lifecycle;
pub mod replay;
pub mod replay_laws;
pub mod rules;
pub mod score_laws;
pub mod types;

