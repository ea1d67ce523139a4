//! What an operation reports once it has been applied.

use vstd::prelude::*;
use crate::address::Address;

verus! {

/// The value that an operation moved, as seen from the record it names.
#[derive(Clone, Copy, Debug, PartialEq, Eq)]
pub enum Movement {
    /// The operation moved no value.
    Nothing,
    /// This many lamports went into the record's balance.
    Into(u64),
    /// This many lamports left the record's balance.
    OutOf(u64),
}

/// The confirmation of an operation: the record it wrote, and the value it
/// moved.
#[derive(Clone, Copy, Debug, PartialEq, Eq)]
pub struct Receipt {
    pub record: Address,
    pub movement: Movement,
}

} // verus!
