//! A bounded, indexed, eviction-aware store for small signed statements.

pub mod keys;
pub mod key_map;
pub mod key_set;
pub mod queue;
pub mod account;
pub mod types;
pub mod statement;
pub mod index;
pub mod admission;
pub mod col;
pub mod codec;
pub mod decimal;
pub mod store;
pub mod laws;
pub mod persist;
pub mod pov;
pub mod cargo_command;
