//! Divergences beyond their detection: which attempts are public, how a stored
//! history is replayed and audited, and what an event does to the candidates.
pub mod event;
pub mod feed;
pub mod laws;
pub mod public;
pub mod reactions;
pub mod replay;
