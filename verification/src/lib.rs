//! An in-memory string store with per-entry time-to-live expiration,
//! together with the command layer of a small line-oriented wire
//! protocol (`ping`, `echo`, `set`, `get`) that sits on top of it.

pub mod cache;
mod clock;
pub mod commands;
pub mod utils;
