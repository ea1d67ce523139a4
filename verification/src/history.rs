//! Sequences of operations, in any order and on any accounts: whatever is
//! asked of a consistent ledger, it stays consistent.

use vstd::prelude::*;
use crate::address::Address;
use crate::consistency::{consistent, lemma_credited_consistent, lemma_neutral_put};
use crate::constants::{MAX_PRICE_PER_QUERY, MIN_PRICE_PER_QUERY};
use crate::escrow::{
    add_earnings_effect, add_earnings_error, escrow_emptied, lemma_add_earnings_adds,
    lemma_withdraw_earnings_pays, withdraw_earnings_effect, withdraw_earnings_error,
    WithdrawEarnings,
};
use crate::ledger::{
    at, capsule_at, credited, earnings_at, lemma_put, lemma_slot, pool_at, put, record_at, slot,
    unique_keys, with_capsule, with_pool, Account, Record,
};
use crate::marketplace::{
    create_capsule_error, created_capsule, lemma_price_change_writes_price_only,
    update_capsule_price_effect, update_capsule_price_error, CreateCapsule, UpdateCapsulePrice,
};
use crate::pool::{
    initialize_pool_error, lemma_stake_adds, lemma_stake_consistent, lemma_unstake_consistent,
    lemma_unstake_takes, opened_pool, stake_effect, stake_error, stake_of, staked_user_account,
    unstake_effect, unstake_error, InitializePool, Stake, Unstake,
};
use crate::registry::{register_agent_error, registered_agent, RegisterAgent};
use crate::staking::{
    lemma_stake_on_capsule_adds, lemma_stake_on_capsule_consistent, stake_on_capsule_effect,
    stake_on_capsule_error, staked_account, StakeOnCapsule,
};
use crate::state::{Earnings, Staking, UserStake};

verus! {

/// A request to the ledger: an operation with its accounts and arguments.
#[allow(inconsistent_fields)]
pub enum Operation {
    RegisterAgent {
        ctx: RegisterAgent,
        agent_id: String,
        name: String,
        display_name: String,
        platform: String,
        now: i64,
    },
    CreateCapsule {
        ctx: CreateCapsule,
        capsule_id: String,
        name: String,
        description: String,
        category: String,
        price_per_query: u64,
        now: i64,
    },
    UpdateCapsulePrice { ctx: UpdateCapsulePrice, new_price: u64, now: i64 },
    StakeOnCapsule { ctx: StakeOnCapsule, amount: u64, now: i64, reservation: u64 },
    AddEarnings { earnings: Address, amount: u64, now: i64 },
    WithdrawEarnings { ctx: WithdrawEarnings, reservation: u64 },
    InitializePool { ctx: InitializePool, capsule_id: String },
    Stake { ctx: Stake, amount: u64, now: i64 },
    Unstake { ctx: Unstake, amount: u64 },
}

/// Whether the ledger `s` accepts the request.
pub open spec fn accepted(s: Seq<Account>, operation: Operation) -> bool {
    match operation {
        Operation::RegisterAgent { ctx, agent_id, name, display_name, platform, now } => {
            register_agent_error(s, ctx, agent_id@, name@, display_name@, platform@) is None
        },
        Operation::CreateCapsule {
            ctx,
            capsule_id,
            name,
            description,
            category,
            price_per_query,
            now,
        } => create_capsule_error(
            s,
            ctx,
            capsule_id@,
            name@,
            description@,
            category@,
            price_per_query,
        ) is None,
        Operation::UpdateCapsulePrice { ctx, new_price, now } => update_capsule_price_error(
            s,
            ctx,
            new_price,
        ) is None,
        Operation::StakeOnCapsule { ctx, amount, now, reservation } => stake_on_capsule_error(
            s,
            ctx,
            amount,
            now,
            reservation,
        ) is None,
        Operation::AddEarnings { earnings, amount, now } => add_earnings_error(
            s,
            earnings,
            amount,
            now,
        ) is None,
        Operation::WithdrawEarnings { ctx, reservation } => withdraw_earnings_error(
            s,
            ctx,
            reservation,
        ) is None,
        Operation::InitializePool { ctx, capsule_id } => initialize_pool_error(s, ctx, capsule_id@)
            is None,
        Operation::Stake { ctx, amount, now } => stake_error(s, ctx, amount) is None,
        Operation::Unstake { ctx, amount } => unstake_error(s, ctx, amount) is None,
    }
}

/// The ledger after the request: as the operation leaves it where the
/// request is accepted, and as it was where the request is refused.
pub open spec fn applied(s: Seq<Account>, operation: Operation) -> Seq<Account> {
    if !accepted(s, operation) {
        s
    } else {
        match operation {
            Operation::RegisterAgent { ctx, agent_id, name, display_name, platform, now } => s.push(
                registered_agent(ctx, agent_id, name, display_name, platform, now),
            ),
            Operation::CreateCapsule {
                ctx,
                capsule_id,
                name,
                description,
                category,
                price_per_query,
                now,
            } => s.push(
                created_capsule(ctx, capsule_id, name, description, category, price_per_query, now),
            ),
            Operation::UpdateCapsulePrice { ctx, new_price, now } => update_capsule_price_effect(
                s,
                ctx,
                new_price,
                now,
            ),
            Operation::StakeOnCapsule { ctx, amount, now, reservation } => stake_on_capsule_effect(
                s,
                ctx,
                amount,
                now,
            ),
            Operation::AddEarnings { earnings, amount, now } => add_earnings_effect(
                s,
                earnings,
                amount,
                now,
            ),
            Operation::WithdrawEarnings { ctx, reservation } => withdraw_earnings_effect(s, ctx),
            Operation::InitializePool { ctx, capsule_id } => s.push(opened_pool(ctx, capsule_id)),
            Operation::Stake { ctx, amount, now } => stake_effect(s, ctx, amount, now),
            Operation::Unstake { ctx, amount } => unstake_effect(s, ctx, amount),
        }
    }
}

/// The ledger after the requests `operations`, made in turn.
pub open spec fn replayed(s: Seq<Account>, operations: Seq<Operation>) -> Seq<Account>
    decreases operations.len(),
{
    if operations.len() == 0 {
        s
    } else {
        applied(replayed(s, operations.drop_last()), operations.last())
    }
}

/// No request takes a consistent ledger out of consistency.
pub proof fn lemma_applied_consistent(s: Seq<Account>, operation: Operation)
    requires
        consistent(s),
    ensures
        consistent(applied(s, operation)),
{
    if accepted(s, operation) {
        match operation {
            Operation::RegisterAgent { ctx, agent_id, name, display_name, platform, now } => {
                let account = registered_agent(ctx, agent_id, name, display_name, platform, now);
                lemma_neutral_put(s, account);
                assert(put(s, account) == s.push(account));
            },
            Operation::CreateCapsule {
                ctx,
                capsule_id,
                name,
                description,
                category,
                price_per_query,
                now,
            } => {
                let account = created_capsule(
                    ctx,
                    capsule_id,
                    name,
                    description,
                    category,
                    price_per_query,
                    now,
                );
                lemma_neutral_put(s, account);
                assert(put(s, account) == s.push(account));
            },
            Operation::UpdateCapsulePrice { ctx, new_price, now } => {
                lemma_neutral_put(
                    s,
                    with_capsule(
                        at(s, ctx.capsule).unwrap(),
                        new_price,
                        capsule_at(s, ctx.capsule).unwrap().total_stake,
                        now,
                    ),
                );
            },
            Operation::StakeOnCapsule { ctx, amount, now, reservation } => {
                lemma_stake_on_capsule_consistent(s, ctx, amount, now, reservation);
            },
            Operation::AddEarnings { earnings, amount, now } => {
                lemma_neutral_put(
                    s,
                    Account {
                        record: Record::Earnings(
                            earnings_at(s, earnings).unwrap().credited(amount, now).unwrap(),
                        ),
                        ..at(s, earnings).unwrap()
                    },
                );
            },
            Operation::WithdrawEarnings { ctx, reservation } => {
                let held = at(s, ctx.earnings).unwrap();
                let record = earnings_at(s, ctx.earnings).unwrap();
                lemma_neutral_put(
                    s,
                    Account {
                        key: held.key,
                        lamports: (held.lamports - record.total_earnings) as u64,
                        record: Record::Earnings(Earnings { total_earnings: 0, ..record }),
                    },
                );
                lemma_credited_consistent(escrow_emptied(s, ctx), ctx.wallet, record.total_earnings);
            },
            Operation::InitializePool { ctx, capsule_id } => {
                let account = opened_pool(ctx, capsule_id);
                lemma_neutral_put(s, account);
                assert(put(s, account) == s.push(account));
            },
            Operation::Stake { ctx, amount, now } => {
                lemma_stake_consistent(s, ctx, amount, now);
            },
            Operation::Unstake { ctx, amount } => {
                lemma_unstake_consistent(s, ctx, amount);
            },
        }
    }
}

/// Whatever is asked of a consistent ledger, in whatever order, it stays
/// consistent: after every request, the total stake of every capsule is the
/// sum of the stake records on it, and the total of every pool is the sum of
/// the users' stakes in it.
pub proof fn lemma_replayed_consistent(s: Seq<Account>, operations: Seq<Operation>)
    requires
        consistent(s),
    ensures
        consistent(replayed(s, operations)),
    decreases operations.len(),
{
    if operations.len() > 0 {
        lemma_replayed_consistent(s, operations.drop_last());
        lemma_applied_consistent(replayed(s, operations.drop_last()), operations.last());
    }
}

/// Whether `after` is a later state of the record `before`: it is of the
/// same kind and has the same identity. An agent is as it was. A capsule
/// keeps its creator, its texts and its time of creation, and its total
/// stake is no smaller. A stake record keeps its capsule and its staker, and
/// its amount is no smaller. An earnings record keeps its wallet and its
/// capsule, and its count of queries is no smaller. A pool keeps its capsule
/// identifier and its creator, and a user's stake keeps its pool and its
/// user.
pub open spec fn later(before: Record, after: Record) -> bool {
    match (before, after) {
        (Record::Wallet, Record::Wallet) => true,
        (Record::Agent(a), Record::Agent(b)) => a == b,
        (Record::Capsule(a), Record::Capsule(b)) => {
            &&& a.creator == b.creator
            &&& a.capsule_id == b.capsule_id
            &&& a.name == b.name
            &&& a.description == b.description
            &&& a.category == b.category
            &&& a.created_at == b.created_at
            &&& a.bump == b.bump
            &&& a.total_stake <= b.total_stake
        },
        (Record::Staking(a), Record::Staking(b)) => {
            &&& a.capsule == b.capsule
            &&& a.staker == b.staker
            &&& a.bump == b.bump
            &&& a.amount <= b.amount
        },
        (Record::Earnings(a), Record::Earnings(b)) => {
            &&& a.wallet == b.wallet
            &&& a.capsule == b.capsule
            &&& a.bump == b.bump
            &&& a.query_count <= b.query_count
        },
        (Record::StakingPool(a), Record::StakingPool(b)) => {
            &&& a.capsule_id == b.capsule_id
            &&& a.creator == b.creator
            &&& a.bump == b.bump
        },
        (Record::UserStake(at_pool, a), Record::UserStake(in_pool, b)) => {
            &&& at_pool == in_pool
            &&& a.user == b.user
            &&& a.bump == b.bump
        },
        _ => false,
    }
}

/// Whether the record that `before` holds at `key`, if it holds one, stands
/// in `after` at `key` in a later state.
pub open spec fn stays(before: Seq<Account>, after: Seq<Account>, key: Address) -> bool {
    record_at(before, key) matches Some(record) ==> record_at(after, key) matches Some(kept)
        && later(record, kept)
}

/// Whether the ledger `after` continues the ledger `before`: no address is
/// shared, and every record of `before` stands in `after`, at its address,
/// in a later state.
pub open spec fn continues(before: Seq<Account>, after: Seq<Account>) -> bool {
    &&& unique_keys(after)
    &&& forall|key: Address| #[trigger] stays(before, after, key)
}

/// Every record is a later state of itself.
pub proof fn lemma_later_reflexive(record: Record)
    ensures
        later(record, record),
{
}

/// A later state of a later state is a later state.
pub proof fn lemma_later_transitive(a: Record, b: Record, c: Record)
    requires
        later(a, b),
        later(b, c),
    ensures
        later(a, c),
{
}

/// A ledger that continues one that continues another continues the other.
pub proof fn lemma_continues_transitive(a: Seq<Account>, b: Seq<Account>, c: Seq<Account>)
    requires
        continues(a, b),
        continues(b, c),
    ensures
        continues(a, c),
{
    assert forall|key: Address| #[trigger] stays(a, c, key) by {
        assert(stays(a, b, key));
        assert(stays(b, c, key));
        if record_at(a, key) is Some {
            lemma_later_transitive(
                record_at(a, key).unwrap(),
                record_at(b, key).unwrap(),
                record_at(c, key).unwrap(),
            );
        }
    }
}

/// Putting a later state of a record, or a new account, continues the ledger.
proof fn lemma_put_continues(s: Seq<Account>, account: Account)
    requires
        unique_keys(s),
        record_at(s, account.key) matches Some(record) ==> later(record, account.record),
    ensures
        continues(s, put(s, account)),
{
    lemma_put(s, account, account.key);
    assert forall|key: Address| #[trigger] stays(s, put(s, account), key) by {
        lemma_put(s, account, key);
        if record_at(s, key) is Some {
            lemma_later_reflexive(record_at(s, key).unwrap());
        }
    }
}

/// Value that arrives at an address continues the ledger.
proof fn lemma_credited_continues(s: Seq<Account>, key: Address, amount: u64)
    requires
        unique_keys(s),
    ensures
        continues(s, credited(s, key, amount)),
{
    match at(s, key) {
        Some(account) => {
            lemma_later_reflexive(account.record);
            lemma_put_continues(
                s,
                Account { lamports: (account.lamports + amount) as u64, ..account },
            );
        },
        None => {
            lemma_put_continues(s, Account { key, lamports: amount, record: Record::Wallet });
        },
    }
}

/// No request removes a record, changes the kind or the identity of one, or
/// takes from what a capsule, a stake record or an earnings record has
/// counted: the ledger after the request continues the ledger before it. In
/// particular an agent, once registered, stays as it was registered.
pub proof fn lemma_applied_continues(s: Seq<Account>, operation: Operation)
    requires
        unique_keys(s),
    ensures
        continues(s, applied(s, operation)),
{
    if !accepted(s, operation) {
        assert forall|key: Address| #[trigger] stays(s, s, key) by {
            if record_at(s, key) is Some {
                lemma_later_reflexive(record_at(s, key).unwrap());
            }
        }
    } else {
        match operation {
            Operation::RegisterAgent { ctx, agent_id, name, display_name, platform, now } => {
                let account = registered_agent(ctx, agent_id, name, display_name, platform, now);
                lemma_put_continues(s, account);
                assert(put(s, account) == s.push(account));
            },
            Operation::CreateCapsule {
                ctx,
                capsule_id,
                name,
                description,
                category,
                price_per_query,
                now,
            } => {
                let account = created_capsule(
                    ctx,
                    capsule_id,
                    name,
                    description,
                    category,
                    price_per_query,
                    now,
                );
                lemma_put_continues(s, account);
                assert(put(s, account) == s.push(account));
            },
            Operation::UpdateCapsulePrice { ctx, new_price, now } => {
                lemma_slot(s, slot(s, ctx.capsule));
                lemma_put_continues(
                    s,
                    with_capsule(
                        at(s, ctx.capsule).unwrap(),
                        new_price,
                        capsule_at(s, ctx.capsule).unwrap().total_stake,
                        now,
                    ),
                );
            },
            Operation::StakeOnCapsule { ctx, amount, now, reservation } => {
                let staker = at(s, ctx.staker).unwrap();
                let capsule = at(s, ctx.capsule).unwrap();
                let total = capsule_at(s, ctx.capsule).unwrap().total_stake;
                let price = capsule_at(s, ctx.capsule).unwrap().price_per_query;
                let paid = Account { lamports: (staker.lamports - amount) as u64, ..staker };
                let staked = staked_account(s, ctx, amount, now);
                let counted = with_capsule(capsule, price, (total + amount) as u64, now);
                let s1 = put(s, paid);
                let s2 = put(s1, staked);
                lemma_slot(s, slot(s, ctx.staker));
                lemma_slot(s, slot(s, ctx.capsule));
                lemma_put_continues(s, paid);
                lemma_put(s, paid, ctx.staking);
                lemma_put(s, paid, ctx.capsule);
                lemma_put_continues(s1, staked);
                lemma_put(s1, staked, ctx.capsule);
                lemma_put_continues(s2, counted);
                lemma_continues_transitive(s, s1, s2);
                lemma_continues_transitive(s, s2, put(s2, counted));
            },
            Operation::AddEarnings { earnings, amount, now } => {
                lemma_slot(s, slot(s, earnings));
                lemma_put_continues(
                    s,
                    Account {
                        record: Record::Earnings(
                            earnings_at(s, earnings).unwrap().credited(amount, now).unwrap(),
                        ),
                        ..at(s, earnings).unwrap()
                    },
                );
            },
            Operation::WithdrawEarnings { ctx, reservation } => {
                let held = at(s, ctx.earnings).unwrap();
                let record = earnings_at(s, ctx.earnings).unwrap();
                lemma_slot(s, slot(s, ctx.earnings));
                lemma_put_continues(
                    s,
                    Account {
                        key: held.key,
                        lamports: (held.lamports - record.total_earnings) as u64,
                        record: Record::Earnings(Earnings { total_earnings: 0, ..record }),
                    },
                );
                lemma_credited_continues(escrow_emptied(s, ctx), ctx.wallet, record.total_earnings);
                lemma_continues_transitive(
                    s,
                    escrow_emptied(s, ctx),
                    withdraw_earnings_effect(s, ctx),
                );
            },
            Operation::InitializePool { ctx, capsule_id } => {
                let account = opened_pool(ctx, capsule_id);
                lemma_put_continues(s, account);
                assert(put(s, account) == s.push(account));
            },
            Operation::Stake { ctx, amount, now } => {
                let user = at(s, ctx.user).unwrap();
                let pool = at(s, ctx.staking_pool).unwrap();
                let total = pool_at(s, ctx.staking_pool).unwrap().total_staked;
                let paid = Account { lamports: (user.lamports - amount) as u64, ..user };
                let grown = with_pool(pool, (pool.lamports + amount) as u64, (total + amount) as u64);
                let staked = staked_user_account(s, ctx, amount, now);
                let s1 = put(s, paid);
                let s2 = put(s1, grown);
                lemma_slot(s, slot(s, ctx.user));
                lemma_slot(s, slot(s, ctx.staking_pool));
                lemma_put_continues(s, paid);
                lemma_put(s, paid, ctx.staking_pool);
                lemma_put(s, paid, ctx.user_stake);
                lemma_put_continues(s1, grown);
                lemma_put(s1, grown, ctx.user_stake);
                lemma_put_continues(s2, staked);
                lemma_continues_transitive(s, s1, s2);
                lemma_continues_transitive(s, s2, put(s2, staked));
            },
            Operation::Unstake { ctx, amount } => {
                let pool = at(s, ctx.staking_pool).unwrap();
                let total = pool_at(s, ctx.staking_pool).unwrap().total_staked;
                let held = at(s, ctx.user_stake).unwrap();
                let stake = stake_of(s, ctx).unwrap();
                let less = with_pool(pool, (pool.lamports - amount) as u64, (total - amount) as u64);
                let left = Account {
                    record: Record::UserStake(
                        ctx.staking_pool,
                        UserStake { amount: (stake.amount - amount) as u64, ..stake },
                    ),
                    ..held
                };
                let s1 = put(s, less);
                let s2 = put(s1, left);
                lemma_slot(s, slot(s, ctx.staking_pool));
                lemma_slot(s, slot(s, ctx.user_stake));
                lemma_put_continues(s, less);
                lemma_put(s, less, ctx.user_stake);
                lemma_put_continues(s1, left);
                lemma_credited_continues(s2, ctx.user, amount);
                lemma_continues_transitive(s, s1, s2);
                lemma_continues_transitive(s, s2, credited(s2, ctx.user, amount));
            },
        }
    }
}

/// Whatever is asked of the ledger, in whatever order, every record stays
/// where it is, of its kind and with its identity: the ledger after the
/// requests continues the ledger before them.
pub proof fn lemma_replayed_continues(s: Seq<Account>, operations: Seq<Operation>)
    requires
        unique_keys(s),
    ensures
        continues(s, replayed(s, operations)),
    decreases operations.len(),
{
    if operations.len() == 0 {
        assert forall|key: Address| #[trigger] stays(s, s, key) by {
            if record_at(s, key) is Some {
                lemma_later_reflexive(record_at(s, key).unwrap());
            }
        }
    } else {
        lemma_replayed_continues(s, operations.drop_last());
        lemma_applied_continues(replayed(s, operations.drop_last()), operations.last());
        lemma_continues_transitive(
            s,
            replayed(s, operations.drop_last()),
            replayed(s, operations),
        );
    }
}

/// Whether the account is no capsule, or a capsule whose price per query is
/// in the range from the minimum to the maximum.
pub open spec fn priced_in_range(account: Account) -> bool {
    account.record matches Record::Capsule(capsule) ==> MIN_PRICE_PER_QUERY
        <= capsule.price_per_query <= MAX_PRICE_PER_QUERY
}

/// Whether the price of every capsule of the ledger is in range.
pub open spec fn prices_in_range(s: Seq<Account>) -> bool {
    forall|i: int| 0 <= i < s.len() ==> priced_in_range(#[trigger] s[i])
}

proof fn lemma_put_priced(s: Seq<Account>, account: Account)
    requires
        prices_in_range(s),
        priced_in_range(account),
    ensures
        prices_in_range(put(s, account)),
{
}

proof fn lemma_credited_priced(s: Seq<Account>, key: Address, amount: u64)
    requires
        prices_in_range(s),
    ensures
        prices_in_range(credited(s, key, amount)),
{
    match at(s, key) {
        Some(account) => {
            assert(priced_in_range(s[slot(s, key)]));
            lemma_put_priced(s, Account { lamports: (account.lamports + amount) as u64, ..account });
        },
        None => {
            lemma_put_priced(s, Account { key, lamports: amount, record: Record::Wallet });
        },
    }
}

/// No request takes the price of a capsule out of range: where every price
/// is in range before a request, every price is in range after it.
pub proof fn lemma_applied_priced(s: Seq<Account>, operation: Operation)
    requires
        prices_in_range(s),
    ensures
        prices_in_range(applied(s, operation)),
{
    if accepted(s, operation) {
        match operation {
            Operation::RegisterAgent { ctx, agent_id, name, display_name, platform, now } => {},
            Operation::CreateCapsule {
                ctx,
                capsule_id,
                name,
                description,
                category,
                price_per_query,
                now,
            } => {},
            Operation::UpdateCapsulePrice { ctx, new_price, now } => {
                lemma_put_priced(
                    s,
                    with_capsule(
                        at(s, ctx.capsule).unwrap(),
                        new_price,
                        capsule_at(s, ctx.capsule).unwrap().total_stake,
                        now,
                    ),
                );
            },
            Operation::StakeOnCapsule { ctx, amount, now, reservation } => {
                let staker = at(s, ctx.staker).unwrap();
                let capsule = at(s, ctx.capsule).unwrap();
                let total = capsule_at(s, ctx.capsule).unwrap().total_stake;
                let price = capsule_at(s, ctx.capsule).unwrap().price_per_query;
                let paid = Account { lamports: (staker.lamports - amount) as u64, ..staker };
                let staked = staked_account(s, ctx, amount, now);
                assert(priced_in_range(s[slot(s, ctx.capsule)]));
                lemma_put_priced(s, paid);
                lemma_put_priced(put(s, paid), staked);
                lemma_put_priced(
                    put(put(s, paid), staked),
                    with_capsule(capsule, price, (total + amount) as u64, now),
                );
            },
            Operation::AddEarnings { earnings, amount, now } => {},
            Operation::WithdrawEarnings { ctx, reservation } => {
                lemma_credited_priced(
                    escrow_emptied(s, ctx),
                    ctx.wallet,
                    earnings_at(s, ctx.earnings).unwrap().total_earnings,
                );
            },
            Operation::InitializePool { ctx, capsule_id } => {},
            Operation::Stake { ctx, amount, now } => {
                let user = at(s, ctx.user).unwrap();
                let pool = at(s, ctx.staking_pool).unwrap();
                let total = pool_at(s, ctx.staking_pool).unwrap().total_staked;
                let paid = Account { lamports: (user.lamports - amount) as u64, ..user };
                let grown = with_pool(pool, (pool.lamports + amount) as u64, (total + amount) as u64);
                lemma_put_priced(s, paid);
                lemma_put_priced(put(s, paid), grown);
                lemma_put_priced(put(put(s, paid), grown), staked_user_account(s, ctx, amount, now));
            },
            Operation::Unstake { ctx, amount } => {
                let pool = at(s, ctx.staking_pool).unwrap();
                let total = pool_at(s, ctx.staking_pool).unwrap().total_staked;
                let held = at(s, ctx.user_stake).unwrap();
                let stake = stake_of(s, ctx).unwrap();
                let less = with_pool(pool, (pool.lamports - amount) as u64, (total - amount) as u64);
                let left = Account {
                    record: Record::UserStake(
                        ctx.staking_pool,
                        UserStake { amount: (stake.amount - amount) as u64, ..stake },
                    ),
                    ..held
                };
                lemma_put_priced(s, less);
                lemma_put_priced(put(s, less), left);
                lemma_credited_priced(put(put(s, less), left), ctx.user, amount);
            },
        }
    }
}

/// Whatever is asked of a ledger whose prices are in range, in whatever
/// order, its prices stay in range.
pub proof fn lemma_replayed_priced(s: Seq<Account>, operations: Seq<Operation>)
    requires
        prices_in_range(s),
    ensures
        prices_in_range(replayed(s, operations)),
    decreases operations.len(),
{
    if operations.len() > 0 {
        lemma_replayed_priced(s, operations.drop_last());
        lemma_applied_priced(replayed(s, operations.drop_last()), operations.last());
    }
}

/// Whether the account is no stake record, or a stake record whose lock ends
/// 7 days after its time of staking.
pub open spec fn locked_from_deposit(account: Account) -> bool {
    account.record matches Record::Staking(staking) ==> staking.lock_until == staking.staked_at
        + Staking::LOCK_PERIOD_SECONDS
}

/// Whether the lock of every stake record of the ledger ends 7 days after
/// the record's time of staking.
pub open spec fn locks_follow_deposits(s: Seq<Account>) -> bool {
    forall|i: int| 0 <= i < s.len() ==> locked_from_deposit(#[trigger] s[i])
}

proof fn lemma_put_locked(s: Seq<Account>, account: Account)
    requires
        locks_follow_deposits(s),
        locked_from_deposit(account),
    ensures
        locks_follow_deposits(put(s, account)),
{
}

proof fn lemma_credited_locked(s: Seq<Account>, key: Address, amount: u64)
    requires
        locks_follow_deposits(s),
    ensures
        locks_follow_deposits(credited(s, key, amount)),
{
    match at(s, key) {
        Some(account) => {
            assert(locked_from_deposit(s[slot(s, key)]));
            lemma_put_locked(s, Account { lamports: (account.lamports + amount) as u64, ..account });
        },
        None => {
            lemma_put_locked(s, Account { key, lamports: amount, record: Record::Wallet });
        },
    }
}

/// The lock of a stake record ends 7 days after the record's time of
/// staking, after the first stake and after every later one: where this
/// holds of every stake record before a request, it holds of every stake
/// record after it.
pub proof fn lemma_applied_locked(s: Seq<Account>, operation: Operation)
    requires
        locks_follow_deposits(s),
    ensures
        locks_follow_deposits(applied(s, operation)),
{
    if accepted(s, operation) {
        match operation {
            Operation::RegisterAgent { ctx, agent_id, name, display_name, platform, now } => {},
            Operation::CreateCapsule {
                ctx,
                capsule_id,
                name,
                description,
                category,
                price_per_query,
                now,
            } => {},
            Operation::UpdateCapsulePrice { ctx, new_price, now } => {
                lemma_put_locked(
                    s,
                    with_capsule(
                        at(s, ctx.capsule).unwrap(),
                        new_price,
                        capsule_at(s, ctx.capsule).unwrap().total_stake,
                        now,
                    ),
                );
            },
            Operation::StakeOnCapsule { ctx, amount, now, reservation } => {
                let staker = at(s, ctx.staker).unwrap();
                let capsule = at(s, ctx.capsule).unwrap();
                let total = capsule_at(s, ctx.capsule).unwrap().total_stake;
                let price = capsule_at(s, ctx.capsule).unwrap().price_per_query;
                let paid = Account { lamports: (staker.lamports - amount) as u64, ..staker };
                let staked = staked_account(s, ctx, amount, now);
                lemma_put_locked(s, paid);
                lemma_put_locked(put(s, paid), staked);
                lemma_put_locked(
                    put(put(s, paid), staked),
                    with_capsule(capsule, price, (total + amount) as u64, now),
                );
            },
            Operation::AddEarnings { earnings, amount, now } => {},
            Operation::WithdrawEarnings { ctx, reservation } => {
                lemma_credited_locked(
                    escrow_emptied(s, ctx),
                    ctx.wallet,
                    earnings_at(s, ctx.earnings).unwrap().total_earnings,
                );
            },
            Operation::InitializePool { ctx, capsule_id } => {},
            Operation::Stake { ctx, amount, now } => {
                let user = at(s, ctx.user).unwrap();
                let pool = at(s, ctx.staking_pool).unwrap();
                let total = pool_at(s, ctx.staking_pool).unwrap().total_staked;
                let paid = Account { lamports: (user.lamports - amount) as u64, ..user };
                let grown = with_pool(pool, (pool.lamports + amount) as u64, (total + amount) as u64);
                lemma_put_locked(s, paid);
                lemma_put_locked(put(s, paid), grown);
                lemma_put_locked(put(put(s, paid), grown), staked_user_account(s, ctx, amount, now));
            },
            Operation::Unstake { ctx, amount } => {
                let pool = at(s, ctx.staking_pool).unwrap();
                let total = pool_at(s, ctx.staking_pool).unwrap().total_staked;
                let held = at(s, ctx.user_stake).unwrap();
                let stake = stake_of(s, ctx).unwrap();
                let less = with_pool(pool, (pool.lamports - amount) as u64, (total - amount) as u64);
                let left = Account {
                    record: Record::UserStake(
                        ctx.staking_pool,
                        UserStake { amount: (stake.amount - amount) as u64, ..stake },
                    ),
                    ..held
                };
                lemma_put_locked(s, less);
                lemma_put_locked(put(s, less), left);
                lemma_credited_locked(put(put(s, less), left), ctx.user, amount);
            },
        }
    }
}

/// Whatever is asked of a ledger whose locks end 7 days after the times of
/// staking, in whatever order, its locks still do.
pub proof fn lemma_replayed_locked(s: Seq<Account>, operations: Seq<Operation>)
    requires
        locks_follow_deposits(s),
    ensures
        locks_follow_deposits(replayed(s, operations)),
    decreases operations.len(),
{
    if operations.len() > 0 {
        lemma_replayed_locked(s, operations.drop_last());
        lemma_applied_locked(replayed(s, operations.drop_last()), operations.last());
    }
}

/// Whether the request is a withdrawal from the earnings record at `key`
/// that the ledger `s` accepts.
pub open spec fn withdraws_from(s: Seq<Account>, operation: Operation, key: Address) -> bool {
    operation matches Operation::WithdrawEarnings { ctx, reservation } && ctx.earnings == key
        && accepted(s, operation)
}

/// What an earnings record owes never shrinks but by a withdrawal: a
/// withdrawal that is accepted, asked for by the wallet that the record
/// names, brings it to 0, and every other request leaves it as it was or
/// adds to it.
pub proof fn lemma_only_withdrawal_resets(s: Seq<Account>, operation: Operation, key: Address)
    requires
        unique_keys(s),
        earnings_at(s, key) is Some,
    ensures
        earnings_at(applied(s, operation), key) is Some,
        withdraws_from(s, operation, key) ==> ({
            &&& earnings_at(applied(s, operation), key).unwrap().total_earnings == 0
            &&& operation matches Operation::WithdrawEarnings { ctx, reservation }
            &&& ctx.creator == earnings_at(s, key).unwrap().wallet
        }),
        !withdraws_from(s, operation, key) ==> earnings_at(
            applied(s, operation),
            key,
        ).unwrap().total_earnings >= earnings_at(s, key).unwrap().total_earnings,
{
    lemma_slot(s, slot(s, key));
    if accepted(s, operation) {
        match operation {
            Operation::RegisterAgent { ctx, agent_id, name, display_name, platform, now } => {
                let account = registered_agent(ctx, agent_id, name, display_name, platform, now);
                assert(put(s, account) == s.push(account));
                lemma_put(s, account, key);
            },
            Operation::CreateCapsule {
                ctx,
                capsule_id,
                name,
                description,
                category,
                price_per_query,
                now,
            } => {
                let account = created_capsule(
                    ctx,
                    capsule_id,
                    name,
                    description,
                    category,
                    price_per_query,
                    now,
                );
                assert(put(s, account) == s.push(account));
                lemma_put(s, account, key);
            },
            Operation::UpdateCapsulePrice { ctx, new_price, now } => {
                lemma_price_change_writes_price_only(s, ctx, new_price, now, key);
            },
            Operation::StakeOnCapsule { ctx, amount, now, reservation } => {
                lemma_stake_on_capsule_adds(s, ctx, amount, now, reservation, key);
            },
            Operation::AddEarnings { earnings, amount, now } => {
                lemma_add_earnings_adds(s, earnings, amount, now, key);
            },
            Operation::WithdrawEarnings { ctx, reservation } => {
                lemma_withdraw_earnings_pays(s, ctx, reservation, key);
                if key != ctx.earnings {
                    let record = earnings_at(s, ctx.earnings).unwrap();
                    lemma_credited_continues(escrow_emptied(s, ctx), ctx.wallet, record.total_earnings);
                    lemma_applied_continues(s, operation);
                    assert(stays(s, applied(s, operation), key));
                }
            },
            Operation::InitializePool { ctx, capsule_id } => {
                let account = opened_pool(ctx, capsule_id);
                assert(put(s, account) == s.push(account));
                lemma_put(s, account, key);
            },
            Operation::Stake { ctx, amount, now } => {
                lemma_stake_adds(s, ctx, amount, now, key);
            },
            Operation::Unstake { ctx, amount } => {
                lemma_unstake_takes(s, ctx, amount, key);
                lemma_applied_continues(s, operation);
                assert(stays(s, applied(s, operation), key));
            },
        }
    }
}

} // verus!
