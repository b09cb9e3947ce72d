//! An in-memory ledger that mints short-lived key pairs, gates the re-wrapping of
//! blob keys behind per-blob access policies, and keeps a finite access budget for
//! every (key, blob) pair.

pub mod time;
pub mod wire;
pub mod messages;
pub mod status;
pub mod budget;
pub mod ledger;
pub mod tablet;
pub mod laws;
