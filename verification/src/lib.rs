//! A verified non-fungible-token registry.
//!
//! Tokens are minted with sequentially allocated identifiers, owned by
//! exactly one holder at a time, optionally delegated through a
//! single-recipient approval, and transferred under explicit
//! authorization rules.  The registry keeps four byte-keyed index
//! tables in a key-value store and proves that every operation leaves
//! them mutually consistent.

pub mod codec;
pub mod keys;
pub mod laws;
pub mod model;
pub mod registry;
pub mod store;
pub mod types;

use vstd::prelude::*;

verus! {

/// Creation-time length bound: names and symbols carry at least this
/// many characters.
pub const MIN_NAME_LEN: usize = 3;

/// Creation-time length bound: names and symbols carry at most this
/// many characters.
pub const MAX_NAME_LEN: usize = 30;

} // verus!
