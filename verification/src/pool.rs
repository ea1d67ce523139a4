//! Staking pools: one pool per capsule identifier, in which users stake and
//! from which they unstake.
//!
//! A pool records no lock: a user unstakes at any time. Staking on a capsule
//! is the other way round: it records a lock, and offers no way to unstake.

use vstd::prelude::*;
use vstd::string::StrSliceExecFns;
use vstd::utf8::encode_utf8;
use crate::address::{address, address_for, views, Address, Kind};
use crate::consistency::{
    consistent, lemma_counted_put, lemma_credited_consistent, lemma_neutral_put,
    lemma_totals_are_sums,
};
use crate::constants::MAX_POOL_ID_LENGTH;
use crate::error::StakingError;
use crate::ledger::{
    at, balance, credit_overflows, credited, holds, lemma_put, lemma_slot, pool_at, put, slot,
    spendable, unique_keys, user_stake_at, with_pool, Account, Ledger, Record,
};
use crate::receipt::{Movement, Receipt};
use crate::state::{StakingPool, UserStake};
use crate::text::{is_oversized_field, oversized_field};

verus! {

/// The accounts of the opening of a pool.
#[derive(Clone, Copy, Debug, PartialEq, Eq)]
pub struct InitializePool {
    /// Address of the pool to create.
    pub staking_pool: Address,
    /// Wallet that opens the pool.
    pub creator: Address,
    /// Proof that goes with the pool's address.
    pub bump: u8,
}

/// The accounts of a stake in a pool.
#[derive(Clone, Copy, Debug, PartialEq, Eq)]
pub struct Stake {
    /// Pool that is staked in.
    pub staking_pool: Address,
    /// Stake of this user in this pool.
    pub user_stake: Address,
    /// Wallet that stakes, and pays.
    pub user: Address,
    /// Proof that goes with the address of the user's stake.
    pub bump: u8,
}

/// The accounts of an unstake from a pool.
#[derive(Clone, Copy, Debug, PartialEq, Eq)]
pub struct Unstake {
    /// Pool that is unstaked from.
    pub staking_pool: Address,
    /// Stake of this user in this pool.
    pub user_stake: Address,
    /// Wallet that unstakes, and is paid.
    pub user: Address,
}

/// Why the opening of a pool is refused, if it is.
pub open spec fn initialize_pool_error(s: Seq<Account>, ctx: InitializePool, capsule_id: Seq<char>) -> Option<
    StakingError,
> {
    if oversized_field(capsule_id, MAX_POOL_ID_LENGTH) {
        Some(StakingError::InvalidMetadataLength)
    } else if holds(s, ctx.staking_pool) {
        Some(StakingError::AlreadyExists)
    } else {
        None
    }
}

/// The account of a newly opened pool: it holds no value and no stakes.
pub open spec fn opened_pool(ctx: InitializePool, capsule_id: String) -> Account {
    Account {
        key: ctx.staking_pool,
        lamports: 0,
        record: Record::StakingPool(
            StakingPool { capsule_id, total_staked: 0, creator: ctx.creator, bump: ctx.bump },
        ),
    }
}

/// Opens the staking pool of a capsule. Nothing changes where the opening is
/// refused.
pub fn initialize_pool(ledger: &mut Ledger, ctx: &InitializePool, capsule_id: String) -> (r: Result<
    Receipt,
    StakingError,
>)
    requires
        old(ledger).wf(),
    ensures
        final(ledger).wf(),
        match initialize_pool_error(old(ledger)@, *ctx, capsule_id@) {
            Some(e) => r == Err::<Receipt, StakingError>(e) && final(ledger)@ == old(ledger)@,
            None => r == Ok::<Receipt, StakingError>(
                Receipt { record: ctx.staking_pool, movement: Movement::Nothing },
            ) && final(ledger)@ == old(ledger)@.push(opened_pool(*ctx, capsule_id)),
        },
        consistent(old(ledger)@) ==> consistent(final(ledger)@),
{
    if is_oversized_field(capsule_id.as_str(), MAX_POOL_ID_LENGTH) {
        return Err(StakingError::InvalidMetadataLength);
    }
    if ledger.find(&ctx.staking_pool).is_some() {
        return Err(StakingError::AlreadyExists);
    }
    proof {
        if consistent(ledger@) {
            lemma_neutral_put(ledger@, opened_pool(*ctx, capsule_id));
        }
    }
    let pool = StakingPool { capsule_id, total_staked: 0, creator: ctx.creator, bump: ctx.bump };
    ledger.push(Account { key: ctx.staking_pool, lamports: 0, record: Record::StakingPool(pool) });
    Ok(Receipt { record: ctx.staking_pool, movement: Movement::Nothing })
}

/// Whether the address of the user's stake is free, or holds the stake of
/// this user in this pool.
pub open spec fn user_slot_fits(s: Seq<Account>, ctx: Stake) -> bool {
    match at(s, ctx.user_stake) {
        Some(Account { record: Record::UserStake(pool, stake), .. }) => pool == ctx.staking_pool
            && stake.user == ctx.user,
        Some(_) => false,
        None => true,
    }
}

/// Whether a counter or a balance would overflow.
pub open spec fn pool_stake_overflows(s: Seq<Account>, ctx: Stake, amount: u64) -> bool {
    ||| at(s, ctx.staking_pool) matches Some(account) && account.lamports + amount > u64::MAX
    ||| pool_at(s, ctx.staking_pool) matches Some(pool) && pool.total_staked + amount > u64::MAX
    ||| user_stake_at(s, ctx.user_stake) matches Some((_, stake)) && stake.amount + amount
        > u64::MAX
}

/// Why a stake in a pool is refused, if it is.
pub open spec fn stake_error(s: Seq<Account>, ctx: Stake, amount: u64) -> Option<StakingError> {
    if amount == 0 {
        Some(StakingError::InvalidAmount)
    } else if pool_at(s, ctx.staking_pool) is None {
        Some(StakingError::PoolNotFound)
    } else if !user_slot_fits(s, ctx) {
        Some(StakingError::StakeNotFound)
    } else if spendable(s, ctx.user) < amount {
        Some(StakingError::InsufficientPayment)
    } else if pool_stake_overflows(s, ctx, amount) {
        Some(StakingError::MathOverflow)
    } else {
        None
    }
}

/// The account of the user's stake once `amount` has been staked at `now`: a
/// new one on the first stake, and afterwards the old one with the amount
/// added.
pub open spec fn staked_user_account(s: Seq<Account>, ctx: Stake, amount: u64, now: i64) -> Account {
    match at(s, ctx.user_stake) {
        Some(Account { key, lamports, record: Record::UserStake(pool, stake) }) => Account {
            key,
            lamports,
            record: Record::UserStake(
                pool,
                UserStake { amount: (stake.amount + amount) as u64, staked_at: now, ..stake },
            ),
        },
        _ => Account {
            key: ctx.user_stake,
            lamports: 0,
            record: Record::UserStake(
                ctx.staking_pool,
                UserStake { user: ctx.user, amount, staked_at: now, bump: ctx.bump },
            ),
        },
    }
}

/// The ledger after a stake of `amount` at `now`: the amount has gone from
/// the user to the pool, and both the pool and the user's stake count it.
pub open spec fn stake_effect(s: Seq<Account>, ctx: Stake, amount: u64, now: i64) -> Seq<Account> {
    let user = at(s, ctx.user).unwrap();
    let pool = at(s, ctx.staking_pool).unwrap();
    let total = pool_at(s, ctx.staking_pool).unwrap().total_staked;
    put(
        put(
            put(s, Account { lamports: (user.lamports - amount) as u64, ..user }),
            with_pool(pool, (pool.lamports + amount) as u64, (total + amount) as u64),
        ),
        staked_user_account(s, ctx, amount, now),
    )
}

/// A stake keeps a consistent ledger consistent: the pool's total remains
/// the sum of the users' stakes in it.
pub proof fn lemma_stake_consistent(s: Seq<Account>, ctx: Stake, amount: u64, now: i64)
    requires
        consistent(s),
        stake_error(s, ctx, amount) is None,
    ensures
        consistent(stake_effect(s, ctx, amount, now)),
{
    let user = at(s, ctx.user).unwrap();
    let pool = at(s, ctx.staking_pool).unwrap();
    let total = pool_at(s, ctx.staking_pool).unwrap().total_staked;
    let paid = Account { lamports: (user.lamports - amount) as u64, ..user };
    let s1 = put(s, paid);
    lemma_neutral_put(s, paid);
    lemma_put(s, paid, ctx.staking_pool);
    lemma_put(s, paid, ctx.user_stake);
    lemma_counted_put(
        s1,
        staked_user_account(s, ctx, amount, now),
        with_pool(pool, (pool.lamports + amount) as u64, (total + amount) as u64),
    );
}

/// Stakes `amount` in a pool at `now`. Nothing changes where the stake is
/// refused.
pub fn stake(ledger: &mut Ledger, ctx: &Stake, amount: u64, now: i64) -> (r: Result<
    Receipt,
    StakingError,
>)
    requires
        old(ledger).wf(),
    ensures
        final(ledger).wf(),
        match stake_error(old(ledger)@, *ctx, amount) {
            Some(e) => r == Err::<Receipt, StakingError>(e) && final(ledger)@ == old(ledger)@,
            None => r == Ok::<Receipt, StakingError>(
                Receipt { record: ctx.staking_pool, movement: Movement::Into(amount) },
            ) && final(ledger)@ == stake_effect(old(ledger)@, *ctx, amount, now),
        },
        consistent(old(ledger)@) ==> consistent(final(ledger)@),
{
    if amount == 0 {
        return Err(StakingError::InvalidAmount);
    }
    let p = match ledger.find(&ctx.staking_pool) {
        Some(p) => p,
        None => {
            return Err(StakingError::PoolNotFound);
        },
    };
    let total = match &ledger.account(p).record {
        Record::StakingPool(pool) => pool.total_staked,
        _ => {
            return Err(StakingError::PoolNotFound);
        },
    };
    let pool_lamports = ledger.account(p).lamports;
    let slot = ledger.find(&ctx.user_stake);
    let held: Option<(u64, UserStake)> = match slot {
        Some(i) => match &ledger.account(i).record {
            Record::UserStake(pool, stake) => {
                if *pool == ctx.staking_pool && stake.user == ctx.user {
                    Some((ledger.account(i).lamports, *stake))
                } else {
                    return Err(StakingError::StakeNotFound);
                }
            },
            _ => {
                return Err(StakingError::StakeNotFound);
            },
        },
        None => None,
    };
    let w = match ledger.find(&ctx.user) {
        Some(w) => w,
        None => {
            return Err(StakingError::InsufficientPayment);
        },
    };
    let funds = match &ledger.account(w).record {
        Record::Wallet => ledger.account(w).lamports,
        _ => 0,
    };
    if funds < amount {
        return Err(StakingError::InsufficientPayment);
    }
    let new_pool_lamports = match pool_lamports.checked_add(amount) {
        Some(v) => v,
        None => {
            return Err(StakingError::MathOverflow);
        },
    };
    let new_total = match total.checked_add(amount) {
        Some(v) => v,
        None => {
            return Err(StakingError::MathOverflow);
        },
    };
    let staked: Option<(u64, UserStake)> = match held {
        Some((lamports, stake)) => {
            match stake.amount.checked_add(amount) {
                Some(v) => Some((lamports, UserStake { amount: v, staked_at: now, ..stake })),
                None => {
                    return Err(StakingError::MathOverflow);
                },
            }
        },
        None => None,
    };
    proof {
        let s = ledger@;
        let user = at(s, ctx.user).unwrap();
        let pool = at(s, ctx.staking_pool).unwrap();
        let paid = Account { lamports: (user.lamports - amount) as u64, ..user };
        lemma_put(s, paid, ctx.staking_pool);
        lemma_put(s, paid, ctx.user_stake);
        let s1 = put(s, paid);
        lemma_put(
            s1,
            with_pool(pool, (pool.lamports + amount) as u64, (total + amount) as u64),
            ctx.user_stake,
        );
        if consistent(s) {
            lemma_stake_consistent(s, *ctx, amount, now);
        }
    }
    ledger.set_lamports(w, funds - amount);
    ledger.update_pool(p, new_pool_lamports, new_total);
    match (slot, staked) {
        (Some(i), Some((lamports, stake))) => {
            ledger.set_account(i, lamports, Record::UserStake(ctx.staking_pool, stake));
        },
        _ => {
            ledger.push(
                Account {
                    key: ctx.user_stake,
                    lamports: 0,
                    record: Record::UserStake(
                        ctx.staking_pool,
                        UserStake { user: ctx.user, amount, staked_at: now, bump: ctx.bump },
                    ),
                },
            );
        },
    }
    Ok(Receipt { record: ctx.staking_pool, movement: Movement::Into(amount) })
}

/// The user's stake in the pool, where the address holds it.
pub open spec fn stake_of(s: Seq<Account>, ctx: Unstake) -> Option<UserStake> {
    match user_stake_at(s, ctx.user_stake) {
        Some((pool, stake)) => if pool == ctx.staking_pool && stake.user == ctx.user {
            Some(stake)
        } else {
            None
        },
        None => None,
    }
}

/// The ledger once `amount` has left the pool and the user's stake, and has
/// not yet reached the user.
pub open spec fn pool_released(s: Seq<Account>, ctx: Unstake, amount: u64) -> Seq<Account> {
    let pool = at(s, ctx.staking_pool).unwrap();
    let total = pool_at(s, ctx.staking_pool).unwrap().total_staked;
    let held = at(s, ctx.user_stake).unwrap();
    let stake = stake_of(s, ctx).unwrap();
    put(
        put(s, with_pool(pool, (pool.lamports - amount) as u64, (total - amount) as u64)),
        Account {
            record: Record::UserStake(
                ctx.staking_pool,
                UserStake { amount: (stake.amount - amount) as u64, ..stake },
            ),
            ..held
        },
    )
}

/// Why an unstake is refused, if it is.
pub open spec fn unstake_error(s: Seq<Account>, ctx: Unstake, amount: u64) -> Option<StakingError> {
    if amount == 0 {
        Some(StakingError::InsufficientStake)
    } else if pool_at(s, ctx.staking_pool) is None {
        Some(StakingError::PoolNotFound)
    } else if stake_of(s, ctx) is None {
        Some(StakingError::StakeNotFound)
    } else if stake_of(s, ctx).unwrap().amount < amount {
        Some(StakingError::InsufficientStake)
    } else if at(s, ctx.staking_pool).unwrap().lamports < amount {
        Some(StakingError::InsufficientStake)
    } else if pool_at(s, ctx.staking_pool).unwrap().total_staked < amount {
        Some(StakingError::MathOverflow)
    } else if credit_overflows(pool_released(s, ctx, amount), ctx.user, amount) {
        Some(StakingError::MathOverflow)
    } else {
        None
    }
}

/// The ledger after an unstake of `amount`: the amount has gone from the pool
/// to the user, and neither the pool nor the user's stake counts it any more.
pub open spec fn unstake_effect(s: Seq<Account>, ctx: Unstake, amount: u64) -> Seq<Account> {
    credited(pool_released(s, ctx, amount), ctx.user, amount)
}

/// An unstake keeps a consistent ledger consistent: the pool's total
/// remains the sum of the users' stakes in it.
pub proof fn lemma_unstake_consistent(s: Seq<Account>, ctx: Unstake, amount: u64)
    requires
        consistent(s),
        unstake_error(s, ctx, amount) is None,
    ensures
        consistent(unstake_effect(s, ctx, amount)),
{
    let pool = at(s, ctx.staking_pool).unwrap();
    let total = pool_at(s, ctx.staking_pool).unwrap().total_staked;
    let held = at(s, ctx.user_stake).unwrap();
    let stake = stake_of(s, ctx).unwrap();
    lemma_counted_put(
        s,
        Account {
            record: Record::UserStake(
                ctx.staking_pool,
                UserStake { amount: (stake.amount - amount) as u64, ..stake },
            ),
            ..held
        },
        with_pool(pool, (pool.lamports - amount) as u64, (total - amount) as u64),
    );
    lemma_credited_consistent(pool_released(s, ctx, amount), ctx.user, amount);
}

/// Takes `amount` out of a user's stake in a pool. Nothing changes where the
/// unstake is refused.
pub fn unstake(ledger: &mut Ledger, ctx: &Unstake, amount: u64) -> (r: Result<Receipt, StakingError>)
    requires
        old(ledger).wf(),
    ensures
        final(ledger).wf(),
        match unstake_error(old(ledger)@, *ctx, amount) {
            Some(e) => r == Err::<Receipt, StakingError>(e) && final(ledger)@ == old(ledger)@,
            None => r == Ok::<Receipt, StakingError>(
                Receipt { record: ctx.staking_pool, movement: Movement::OutOf(amount) },
            ) && final(ledger)@ == unstake_effect(old(ledger)@, *ctx, amount),
        },
        consistent(old(ledger)@) ==> consistent(final(ledger)@),
{
    if amount == 0 {
        return Err(StakingError::InsufficientStake);
    }
    let p = match ledger.find(&ctx.staking_pool) {
        Some(p) => p,
        None => {
            return Err(StakingError::PoolNotFound);
        },
    };
    let total = match &ledger.account(p).record {
        Record::StakingPool(pool) => pool.total_staked,
        _ => {
            return Err(StakingError::PoolNotFound);
        },
    };
    let pool_lamports = ledger.account(p).lamports;
    let u = match ledger.find(&ctx.user_stake) {
        Some(u) => u,
        None => {
            return Err(StakingError::StakeNotFound);
        },
    };
    let stake = match &ledger.account(u).record {
        Record::UserStake(pool, stake) => {
            if *pool == ctx.staking_pool && stake.user == ctx.user {
                *stake
            } else {
                return Err(StakingError::StakeNotFound);
            }
        },
        _ => {
            return Err(StakingError::StakeNotFound);
        },
    };
    let stake_lamports = ledger.account(u).lamports;
    if stake.amount < amount {
        return Err(StakingError::InsufficientStake);
    }
    if pool_lamports < amount {
        return Err(StakingError::InsufficientStake);
    }
    if total < amount {
        return Err(StakingError::MathOverflow);
    }
    let released = Record::UserStake(
        ctx.staking_pool,
        UserStake { amount: stake.amount - amount, ..stake },
    );
    proof {
        let s = ledger@;
        let pool = at(s, ctx.staking_pool).unwrap();
        let less = with_pool(pool, (pool.lamports - amount) as u64, (total - amount) as u64);
        lemma_put(s, less, ctx.user_stake);
        lemma_put(s, less, ctx.user);
        let s1 = put(s, less);
        lemma_put(s1, Account { record: released, ..at(s, ctx.user_stake).unwrap() }, ctx.user);
    }
    let before = match ledger.find(&ctx.user) {
        Some(d) => if d == p {
            pool_lamports - amount
        } else {
            ledger.account(d).lamports
        },
        None => 0,
    };
    if before.checked_add(amount).is_none() {
        return Err(StakingError::MathOverflow);
    }
    proof {
        if consistent(ledger@) {
            lemma_unstake_consistent(ledger@, *ctx, amount);
        }
    }
    ledger.update_pool(p, pool_lamports - amount, total - amount);
    ledger.set_account(u, stake_lamports, released);
    ledger.credit(&ctx.user, amount);
    Ok(Receipt { record: ctx.staking_pool, movement: Movement::OutOf(amount) })
}

/// The accounts of the opening of the pool of the capsule `capsule_id` by
/// `creator`. There are none where `capsule_id` is too long to be a seed, or
/// where no address can be derived.
pub open spec fn pool_accounts(creator: Address, capsule_id: Seq<char>) -> Option<InitializePool> {
    match address_for(Kind::StakingPool, seq![encode_utf8(capsule_id)]) {
        Some((staking_pool, bump)) => Some(InitializePool { staking_pool, creator, bump }),
        None => None,
    }
}

/// The address of the stake of `user` in the pool at `staking_pool`, with its
/// proof. There is none where no address can be derived.
pub open spec fn user_stake_address(staking_pool: Address, user: Address) -> Option<(Address, u8)> {
    address_for(Kind::UserStake, seq![staking_pool@, user@])
}

/// The accounts of a stake of `user` in the pool at `staking_pool`.
pub open spec fn stake_accounts(user: Address, staking_pool: Address) -> Option<Stake> {
    match user_stake_address(staking_pool, user) {
        Some((user_stake, bump)) => Some(Stake { staking_pool, user_stake, user, bump }),
        None => None,
    }
}

/// The accounts of an unstake of `user` from the pool at `staking_pool`.
pub open spec fn unstake_accounts(user: Address, staking_pool: Address) -> Option<Unstake> {
    match user_stake_address(staking_pool, user) {
        Some((user_stake, _)) => Some(Unstake { staking_pool, user_stake, user }),
        None => None,
    }
}

impl InitializePool {
    /// Finds the accounts of the opening of the pool of the capsule
    /// `capsule_id` by `creator`.
    pub fn resolve(creator: &Address, capsule_id: &str) -> (r: Option<InitializePool>)
        ensures
            r == pool_accounts(*creator, capsule_id@),
    {
        let mut parts: Vec<Vec<u8>> = Vec::new();
        parts.push(capsule_id.as_bytes_vec());
        assert(views(parts@) == seq![encode_utf8(capsule_id@)]);
        match address(Kind::StakingPool, &parts) {
            Some((staking_pool, bump)) => Some(
                InitializePool { staking_pool, creator: *creator, bump },
            ),
            None => None,
        }
    }
}

impl Stake {
    /// Finds the address of the stake of `user` in the pool at
    /// `staking_pool`, with its proof.
    pub fn user_stake_address(staking_pool: &Address, user: &Address) -> (r: Option<(Address, u8)>)
        ensures
            r == user_stake_address(*staking_pool, *user),
    {
        let mut parts: Vec<Vec<u8>> = Vec::new();
        parts.push(staking_pool.seed());
        parts.push(user.seed());
        assert(views(parts@) == seq![staking_pool@, user@]);
        address(Kind::UserStake, &parts)
    }

    /// Finds the accounts of a stake of `user` in the pool at `staking_pool`.
    pub fn resolve(user: &Address, staking_pool: &Address) -> (r: Option<Stake>)
        ensures
            r == stake_accounts(*user, *staking_pool),
    {
        match Stake::user_stake_address(staking_pool, user) {
            Some((user_stake, bump)) => Some(
                Stake { staking_pool: *staking_pool, user_stake, user: *user, bump },
            ),
            None => None,
        }
    }
}

impl Unstake {
    /// Finds the accounts of an unstake of `user` from the pool at
    /// `staking_pool`.
    pub fn resolve(user: &Address, staking_pool: &Address) -> (r: Option<Unstake>)
        ensures
            r == unstake_accounts(*user, *staking_pool),
    {
        match Stake::user_stake_address(staking_pool, user) {
            Some((user_stake, _)) => Some(
                Unstake { staking_pool: *staking_pool, user_stake, user: *user },
            ),
            None => None,
        }
    }
}

impl Ledger {
    /// Opens the pool of the capsule `capsule_id`, at the address that follows
    /// from the identifier. Nothing changes where the opening is refused.
    pub fn initialize_pool(&mut self, creator: &Address, capsule_id: String) -> (r: Result<
        Receipt,
        StakingError,
    >)
        requires
            old(self).wf(),
        ensures
            final(self).wf(),
            match pool_accounts(*creator, capsule_id@) {
                Some(ctx) => match initialize_pool_error(old(self)@, ctx, capsule_id@) {
                    Some(e) => r == Err::<Receipt, StakingError>(e) && final(self)@ == old(self)@,
                    None => r == Ok::<Receipt, StakingError>(
                        Receipt { record: ctx.staking_pool, movement: Movement::Nothing },
                    ) && final(self)@ == old(self)@.push(opened_pool(ctx, capsule_id)),
                },
                None => final(self)@ == old(self)@ && r == Err::<Receipt, StakingError>(
                    if oversized_field(capsule_id@, MAX_POOL_ID_LENGTH) {
                        StakingError::InvalidMetadataLength
                    } else {
                        StakingError::AddressUnavailable
                    },
                ),
            },
            consistent(old(self)@) ==> consistent(final(self)@),
    {
        match InitializePool::resolve(creator, capsule_id.as_str()) {
            Some(ctx) => initialize_pool(self, &ctx, capsule_id),
            None => if is_oversized_field(capsule_id.as_str(), MAX_POOL_ID_LENGTH) {
                Err(StakingError::InvalidMetadataLength)
            } else {
                Err(StakingError::AddressUnavailable)
            },
        }
    }

    /// Stakes `amount` of `user` in the pool at `staking_pool` at `now`, in
    /// the stake whose address follows from the two. Nothing changes where
    /// the stake is refused.
    pub fn stake(&mut self, user: &Address, staking_pool: &Address, amount: u64, now: i64) -> (r:
        Result<Receipt, StakingError>)
        requires
            old(self).wf(),
        ensures
            final(self).wf(),
            match stake_accounts(*user, *staking_pool) {
                Some(ctx) => match stake_error(old(self)@, ctx, amount) {
                    Some(e) => r == Err::<Receipt, StakingError>(e) && final(self)@ == old(self)@,
                    None => r == Ok::<Receipt, StakingError>(
                        Receipt { record: ctx.staking_pool, movement: Movement::Into(amount) },
                    ) && final(self)@ == stake_effect(old(self)@, ctx, amount, now),
                },
                None => final(self)@ == old(self)@ && r == Err::<Receipt, StakingError>(
                    if amount == 0 {
                        StakingError::InvalidAmount
                    } else if pool_at(old(self)@, *staking_pool) is None {
                        StakingError::PoolNotFound
                    } else {
                        StakingError::AddressUnavailable
                    },
                ),
            },
            consistent(old(self)@) ==> consistent(final(self)@),
    {
        match Stake::resolve(user, staking_pool) {
            Some(ctx) => stake(self, &ctx, amount, now),
            None => self.refuse_unaddressed(staking_pool, amount, StakingError::InvalidAmount),
        }
    }

    /// Takes `amount` out of the stake of `user` in the pool at
    /// `staking_pool`. Nothing changes where the unstake is refused.
    pub fn unstake(&mut self, user: &Address, staking_pool: &Address, amount: u64) -> (r: Result<
        Receipt,
        StakingError,
    >)
        requires
            old(self).wf(),
        ensures
            final(self).wf(),
            match unstake_accounts(*user, *staking_pool) {
                Some(ctx) => match unstake_error(old(self)@, ctx, amount) {
                    Some(e) => r == Err::<Receipt, StakingError>(e) && final(self)@ == old(self)@,
                    None => r == Ok::<Receipt, StakingError>(
                        Receipt { record: ctx.staking_pool, movement: Movement::OutOf(amount) },
                    ) && final(self)@ == unstake_effect(old(self)@, ctx, amount),
                },
                None => final(self)@ == old(self)@ && r == Err::<Receipt, StakingError>(
                    if amount == 0 {
                        StakingError::InsufficientStake
                    } else if pool_at(old(self)@, *staking_pool) is None {
                        StakingError::PoolNotFound
                    } else {
                        StakingError::AddressUnavailable
                    },
                ),
            },
            consistent(old(self)@) ==> consistent(final(self)@),
    {
        match Unstake::resolve(user, staking_pool) {
            Some(ctx) => unstake(self, &ctx, amount),
            None => self.refuse_unaddressed(staking_pool, amount, StakingError::InsufficientStake),
        }
    }

    /// The refusal of a stake or an unstake for which no address can be
    /// derived: what is wrong with the amount or the pool counts first. `zero`
    /// is the refusal of an amount of 0.
    fn refuse_unaddressed(&self, staking_pool: &Address, amount: u64, zero: StakingError) -> (r:
        Result<Receipt, StakingError>)
        requires
            self.wf(),
        ensures
            r == Err::<Receipt, StakingError>(
                if amount == 0 {
                    zero
                } else if pool_at(self@, *staking_pool) is None {
                    StakingError::PoolNotFound
                } else {
                    StakingError::AddressUnavailable
                },
            ),
    {
        if amount == 0 {
            return Err(zero);
        }
        match self.find(staking_pool) {
            Some(p) => match &self.account(p).record {
                Record::StakingPool(_) => Err(StakingError::AddressUnavailable),
                _ => Err(StakingError::PoolNotFound),
            },
            None => Err(StakingError::PoolNotFound),
        }
    }
}

/// What the user holds in the stake at `key`: nothing where there is none.
pub open spec fn user_amount(s: Seq<Account>, key: Address) -> nat {
    match user_stake_at(s, key) {
        Some((_, stake)) => stake.amount as nat,
        None => 0,
    }
}

/// The total of the pool at `key`: nothing where there is none.
pub open spec fn total_staked(s: Seq<Account>, key: Address) -> nat {
    match pool_at(s, key) {
        Some(pool) => pool.total_staked as nat,
        None => 0,
    }
}

/// What a stake in a pool that is accepted does. The user's stake belongs to
/// the user and the pool, holds the amount on top of what it held, and notes
/// the time. The pool counts the amount. The amount has gone from the user's
/// wallet to the pool's balance. Every other account stays as it was.
pub proof fn lemma_stake_adds(s: Seq<Account>, ctx: Stake, amount: u64, now: i64, key: Address)
    requires
        unique_keys(s),
        stake_error(s, ctx, amount) is None,
    ensures
        ({
            let after = stake_effect(s, ctx, amount, now);
            let pool = pool_at(s, ctx.staking_pool).unwrap();
            &&& unique_keys(after)
            &&& user_stake_at(after, ctx.user_stake) == Some(
                (
                    ctx.staking_pool,
                    UserStake {
                        user: ctx.user,
                        amount: (user_amount(s, ctx.user_stake) + amount) as u64,
                        staked_at: now,
                        bump: match user_stake_at(s, ctx.user_stake) {
                            Some((_, stake)) => stake.bump,
                            None => ctx.bump,
                        },
                    },
                ),
            )
            &&& pool_at(after, ctx.staking_pool) == Some(
                StakingPool { total_staked: (pool.total_staked + amount) as u64, ..pool },
            )
            &&& balance(after, ctx.user) == balance(s, ctx.user) - amount
            &&& balance(after, ctx.staking_pool) == balance(s, ctx.staking_pool) + amount
            &&& balance(after, ctx.user_stake) == balance(s, ctx.user_stake)
            &&& key != ctx.user && key != ctx.staking_pool && key != ctx.user_stake ==> at(
                after,
                key,
            ) == at(s, key)
        }),
{
    let user = at(s, ctx.user).unwrap();
    let pool = at(s, ctx.staking_pool).unwrap();
    let total = pool_at(s, ctx.staking_pool).unwrap().total_staked;
    let paid = Account { lamports: (user.lamports - amount) as u64, ..user };
    let grown = with_pool(pool, (pool.lamports + amount) as u64, (total + amount) as u64);
    let staked = staked_user_account(s, ctx, amount, now);
    let s1 = put(s, paid);
    let s2 = put(s1, grown);
    lemma_slot(s, slot(s, ctx.user));
    lemma_slot(s, slot(s, ctx.staking_pool));
    if holds(s, ctx.user_stake) {
        lemma_slot(s, slot(s, ctx.user_stake));
    }
    lemma_put(s, paid, ctx.user);
    lemma_put(s, paid, ctx.staking_pool);
    lemma_put(s, paid, ctx.user_stake);
    lemma_put(s, paid, key);
    lemma_put(s1, grown, ctx.user);
    lemma_put(s1, grown, ctx.staking_pool);
    lemma_put(s1, grown, ctx.user_stake);
    lemma_put(s1, grown, key);
    lemma_put(s2, staked, ctx.user);
    lemma_put(s2, staked, ctx.staking_pool);
    lemma_put(s2, staked, ctx.user_stake);
    lemma_put(s2, staked, key);
}

/// What an unstake that is accepted does. The user's stake and the pool's
/// total are smaller by the amount, and nothing else of the two records
/// changes. Where the user's wallet is neither the pool nor the stake, the
/// amount has gone from the pool's balance to the wallet. Every other
/// account stays as it was.
pub proof fn lemma_unstake_takes(s: Seq<Account>, ctx: Unstake, amount: u64, key: Address)
    requires
        unique_keys(s),
        unstake_error(s, ctx, amount) is None,
    ensures
        ({
            let after = unstake_effect(s, ctx, amount);
            let pool = pool_at(s, ctx.staking_pool).unwrap();
            let stake = stake_of(s, ctx).unwrap();
            &&& unique_keys(after)
            &&& user_stake_at(after, ctx.user_stake) == Some(
                (ctx.staking_pool, UserStake { amount: (stake.amount - amount) as u64, ..stake }),
            )
            &&& pool_at(after, ctx.staking_pool) == Some(
                StakingPool { total_staked: (pool.total_staked - amount) as u64, ..pool },
            )
            &&& ctx.user != ctx.staking_pool && ctx.user != ctx.user_stake ==> {
                &&& balance(after, ctx.user) == balance(s, ctx.user) + amount
                &&& balance(after, ctx.staking_pool) == balance(s, ctx.staking_pool) - amount
                &&& balance(after, ctx.user_stake) == balance(s, ctx.user_stake)
            }
            &&& key != ctx.user && key != ctx.staking_pool && key != ctx.user_stake ==> at(
                after,
                key,
            ) == at(s, key)
        }),
{
    let pool = at(s, ctx.staking_pool).unwrap();
    let total = pool_at(s, ctx.staking_pool).unwrap().total_staked;
    let held = at(s, ctx.user_stake).unwrap();
    let stake = stake_of(s, ctx).unwrap();
    let less = with_pool(pool, (pool.lamports - amount) as u64, (total - amount) as u64);
    let left = Account {
        record: Record::UserStake(
            ctx.staking_pool,
            UserStake { amount: (stake.amount - amount) as u64, ..stake },
        ),
        ..held
    };
    let s1 = put(s, less);
    let s2 = put(s1, left);
    let paid = match at(s2, ctx.user) {
        Some(account) => Account { lamports: (account.lamports + amount) as u64, ..account },
        None => Account { key: ctx.user, lamports: amount, record: Record::Wallet },
    };
    lemma_slot(s, slot(s, ctx.staking_pool));
    lemma_slot(s, slot(s, ctx.user_stake));
    lemma_put(s, less, ctx.user);
    lemma_put(s, less, ctx.staking_pool);
    lemma_put(s, less, ctx.user_stake);
    lemma_put(s, less, key);
    lemma_put(s1, left, ctx.user);
    lemma_put(s1, left, ctx.staking_pool);
    lemma_put(s1, left, ctx.user_stake);
    lemma_put(s1, left, key);
    if holds(s2, ctx.user) {
        lemma_slot(s2, slot(s2, ctx.user));
    }
    lemma_put(s2, paid, ctx.user);
    lemma_put(s2, paid, ctx.staking_pool);
    lemma_put(s2, paid, ctx.user_stake);
    lemma_put(s2, paid, key);
}

/// An unstake of more than the user holds in the pool is refused because the
/// stake does not cover it; the operation then leaves the ledger as it was.
pub proof fn lemma_unstake_beyond_stake_refused(s: Seq<Account>, ctx: Unstake, amount: u64)
    requires
        pool_at(s, ctx.staking_pool) is Some,
        stake_of(s, ctx) matches Some(stake) && amount > stake.amount,
    ensures
        unstake_error(s, ctx, amount) == Some(StakingError::InsufficientStake),
{
}

/// In a consistent ledger the pool's total covers every stake in it, so the
/// total never falls below 0: an unstake that the user's stake covers is not
/// refused on account of the total.
pub proof fn lemma_pool_covers_stake(s: Seq<Account>, ctx: Unstake)
    requires
        consistent(s),
        stake_of(s, ctx) is Some,
    ensures
        pool_at(s, ctx.staking_pool) matches Some(pool) && stake_of(s, ctx).unwrap().amount
            <= pool.total_staked,
{
    lemma_totals_are_sums(s, ctx.user_stake);
}

} // verus!
