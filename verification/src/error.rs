//! The ways in which an operation can be refused.

use vstd::prelude::*;

verus! {

/// Why an operation of the registry, the marketplace, the per-capsule staking
/// ledger or the earnings escrow was refused.
#[derive(Clone, Copy, Debug, PartialEq, Eq, Structural)]
pub enum SolMindError {
    /// The caller is not the owner of the agent.
    InvalidAgentOwner,
    /// The caller is not the owner of the capsule.
    InvalidCapsuleOwner,
    /// No capsule is recorded at the address given.
    CapsuleNotFound,
    /// The stake amount is below the minimum.
    InsufficientStake,
    /// The payer or the escrow does not hold enough value.
    InsufficientPayment,
    /// The address given for a stake record holds something else.
    StakeNotFound,
    /// The price is below the minimum.
    InvalidPrice,
    /// The caller is not the party that the record names.
    Unauthorized,
    /// A text field is longer than its limit.
    InvalidMetadataLength,
    /// A counter or a balance would leave the range of 64 bits.
    MathOverflow,
    /// A text field is empty or holds only white space.
    EmptyString,
    /// The price is above the maximum.
    PriceTooHigh,
    /// The stake amount is above the maximum.
    StakeTooHigh,
    /// The address of the record to create is already occupied.
    AlreadyExists,
    /// No address can be derived for the identity of the record.
    AddressUnavailable,
}

/// Why an operation of the staking pools was refused.
#[derive(Clone, Copy, Debug, PartialEq, Eq, Structural)]
pub enum StakingError {
    /// The amount to stake is zero.
    InvalidAmount,
    /// The amount to unstake is zero, or the user's stake or the pool's
    /// balance is smaller than it.
    InsufficientStake,
    /// The user does not hold the amount to stake.
    InsufficientPayment,
    /// No staking pool is recorded at the address given.
    PoolNotFound,
    /// The address given for a user's stake holds something else.
    StakeNotFound,
    /// The capsule identifier is longer than a pool can store.
    InvalidMetadataLength,
    /// A counter or a balance would leave the range of 64 bits.
    MathOverflow,
    /// The address of the pool to create is already occupied.
    AlreadyExists,
    /// No address can be derived for the identity of the record.
    AddressUnavailable,
}

} // verus!
