//! Bookkeeping for a marketplace of AI memory capsules: agents are registered,
//! capsules are published at a price per query, value is staked behind
//! capsules, and creators' earnings accrue in escrow until withdrawn.
//!
//! Every record lives in a [`ledger::Ledger`] under an address that follows
//! from the record's identity ([`address`]). An operation either applies
//! completely or leaves the ledger as it found it, and no operation lets a
//! counter or a balance leave the range of 64 bits.
//!
//! Each operation comes in two forms. The free function takes the addresses
//! of the accounts it works on; its contract says, for every ledger and every
//! argument, whether the operation is refused and why, and what the ledger
//! holds afterwards. The method of [`ledger::Ledger`] derives the addresses
//! from the identity of the record and then does the same.
//!
//! [`consistency`] and [`history`] state what holds of the ledger whatever
//! operations are asked of it.

pub mod address;
pub mod consistency;
pub mod constants;
pub mod error;
pub mod escrow;
pub mod history;
pub mod ledger;
pub mod marketplace;
pub mod pool;
pub mod receipt;
pub mod registry;
pub mod staking;
pub mod state;
pub mod text;
