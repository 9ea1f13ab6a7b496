//! Column families of the persistent store.

use vstd::prelude::*;

verus! {

/// Holds the schema version under the key `version`.
pub const META: u8 = 0;

/// Holds the live statements, each under its hash.
pub const STATEMENTS: u8 = 1;

/// Holds the expiry markers, each under the hash of the expired statement.
pub const EXPIRED: u8 = 2;

/// Number of column families.
pub const COUNT: u8 = 3;

} // verus!
