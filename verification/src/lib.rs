//! A verified fragment of an execution client's state pipeline: the
//! post-execution journal of account and storage mutations, the protocol
//! that persists that journal into versioned history tables, a historical
//! read path over those tables, a sync-controller state machine, and
//! metered byte counters for network streams.

pub mod alist;
pub mod change;
pub mod db;
pub mod hex;
pub mod history;
pub mod meter;
pub mod persist;
pub mod post_state;
pub mod prestate;
pub mod slots;
pub mod sync;
pub mod tables;
pub mod types;
