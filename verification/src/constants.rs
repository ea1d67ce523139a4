//! Limits on prices, stakes and text fields.

use vstd::prelude::*;

verus! {

/// Maximum price per query (100 SOL = 100_000_000_000 lamports).
pub const MAX_PRICE_PER_QUERY: u64 = 100_000_000_000;

/// Minimum price per query (0.0001 SOL = 100_000 lamports).
pub const MIN_PRICE_PER_QUERY: u64 = 100_000;

/// Maximum amount of one stake deposit (1000 SOL = 1_000_000_000_000 lamports).
pub const MAX_STAKE_AMOUNT: u64 = 1_000_000_000_000;

/// Minimum amount of one stake deposit (0.001 SOL = 1_000_000 lamports).
pub const MIN_STAKE_AMOUNT: u64 = 1_000_000;

/// Minimum length of a text field, in bytes.
pub const MIN_STRING_LENGTH: usize = 1;

/// Maximum length of an identifier, in bytes. An identifier is also an
/// addressing seed, and no seed may be longer.
pub const MAX_ID_LENGTH: usize = 32;

/// Maximum length of a name or display name, in bytes.
pub const MAX_NAME_LENGTH: usize = 128;

/// Maximum length of a capsule description, in bytes.
pub const MAX_DESCRIPTION_LENGTH: usize = 512;

/// Maximum length of a platform or category label, in bytes.
pub const MAX_LABEL_LENGTH: usize = 32;

/// Maximum length of the capsule identifier that a staking pool stores, in bytes.
pub const MAX_POOL_ID_LENGTH: usize = 64;

/// Reputation of a newly registered agent: 10000 of 10000.
pub const INITIAL_REPUTATION: u64 = 10000;

} // verus!
