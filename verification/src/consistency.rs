//! What holds of the ledger as a whole: a capsule's total stake is the sum
//! of the stake records on it, and a pool's total is the sum of the users'
//! stakes in it.

use vstd::prelude::*;
use crate::address::Address;
use crate::ledger::{
    at, capsule_at, credited, holds, lemma_put, lemma_slot, pool_at, put, slot, staking_at,
    unique_keys, user_stake_at, Account, Record,
};

verus! {

/// A total that the ledger keeps: what is staked on the capsule at an
/// address, or what users hold in the pool at an address.
pub enum Counter {
    Capsule(Address),
    Pool(Address),
}

/// The total that the account counts towards, and the amount it counts.
pub open spec fn counted(account: Account) -> Option<(Counter, u64)> {
    match account.record {
        Record::Staking(staking) => Some((Counter::Capsule(staking.capsule), staking.amount)),
        Record::UserStake(pool, stake) => Some((Counter::Pool(pool), stake.amount)),
        _ => None,
    }
}

/// The value of the total that the account keeps, if it keeps one.
pub open spec fn kept(account: Account) -> Option<u64> {
    match account.record {
        Record::Capsule(capsule) => Some(capsule.total_stake),
        Record::StakingPool(pool) => Some(pool.total_staked),
        _ => None,
    }
}

/// Which total the account keeps, if it keeps one: the total of the capsule
/// or of the pool at the account's address.
pub open spec fn counter_of(account: Account) -> Option<Counter> {
    match account.record {
        Record::Capsule(_) => Some(Counter::Capsule(account.key)),
        Record::StakingPool(_) => Some(Counter::Pool(account.key)),
        _ => None,
    }
}

/// What the account counts towards `counter`.
pub open spec fn share(account: Account, counter: Counter) -> nat {
    match counted(account) {
        Some((towards, amount)) => if towards == counter {
            amount as nat
        } else {
            0
        },
        None => 0,
    }
}

/// The sum of what the accounts count towards `counter`.
pub open spec fn total(s: Seq<Account>, counter: Counter) -> nat
    decreases s.len(),
{
    if s.len() == 0 {
        0
    } else {
        total(s.drop_last(), counter) + share(s.last(), counter)
    }
}

/// The sum of the stake records on the capsule at `capsule`.
pub open spec fn staked_on(s: Seq<Account>, capsule: Address) -> nat {
    total(s, Counter::Capsule(capsule))
}

/// The sum of the users' stakes in the pool at `pool`.
pub open spec fn pooled_in(s: Seq<Account>, pool: Address) -> nat {
    total(s, Counter::Pool(pool))
}

/// Whether the account that keeps `counter` stands in the ledger.
pub open spec fn kept_in(s: Seq<Account>, counter: Counter) -> bool {
    match counter {
        Counter::Capsule(key) => capsule_at(s, key) is Some,
        Counter::Pool(key) => pool_at(s, key) is Some,
    }
}

/// Whether the ledger is consistent: no two accounts share an address, every
/// total that an account keeps is the sum of what is counted towards it, and
/// whatever is counted is counted towards a total that an account keeps.
pub open spec fn consistent(s: Seq<Account>) -> bool {
    &&& unique_keys(s)
    &&& forall|i: int|
        0 <= i < s.len() ==> (counter_of(#[trigger] s[i]) matches Some(counter) ==> kept(s[i])
            == Some(total(s, counter) as u64) && total(s, counter) <= u64::MAX)
    &&& forall|i: int|
        0 <= i < s.len() ==> (counted(#[trigger] s[i]) matches Some((counter, _)) ==> kept_in(
            s,
            counter,
        ))
}

/// An account put behind the others adds its share to a sum.
pub proof fn lemma_total_push(s: Seq<Account>, account: Account, counter: Counter)
    ensures
        total(s.push(account), counter) == total(s, counter) + share(account, counter),
{
    assert(s.push(account).drop_last() == s);
}

/// An account put in place of another changes a sum by the difference of
/// their shares.
pub proof fn lemma_total_update(s: Seq<Account>, i: int, account: Account, counter: Counter)
    requires
        0 <= i < s.len(),
    ensures
        total(s.update(i, account), counter) == total(s, counter) - share(s[i], counter) + share(
            account,
            counter,
        ),
    decreases s.len(),
{
    let t = s.update(i, account);
    if i == s.len() - 1 {
        assert(t.drop_last() == s.drop_last());
    } else {
        assert(t.drop_last() == s.drop_last().update(i, account));
        lemma_total_update(s.drop_last(), i, account, counter);
    }
}

/// A sum is at least each of its shares.
pub proof fn lemma_total_bounds(s: Seq<Account>, i: int, counter: Counter)
    requires
        0 <= i < s.len(),
    ensures
        share(s[i], counter) <= total(s, counter),
    decreases s.len(),
{
    if i < s.len() - 1 {
        lemma_total_bounds(s.drop_last(), i, counter);
    }
}

/// A sum to which nothing is counted is 0.
pub proof fn lemma_total_zero(s: Seq<Account>, counter: Counter)
    requires
        forall|i: int| 0 <= i < s.len() ==> share(#[trigger] s[i], counter) == 0,
    ensures
        total(s, counter) == 0,
    decreases s.len(),
{
    if s.len() > 0 {
        assert forall|i: int| 0 <= i < s.drop_last().len() implies share(
            #[trigger] s.drop_last()[i],
            counter,
        ) == 0 by {
            assert(s.drop_last()[i] == s[i]);
        }
        lemma_total_zero(s.drop_last(), counter);
    }
}

/// What the account at `key` counts towards `counter`: nothing where no
/// account stands.
pub open spec fn share_at(s: Seq<Account>, key: Address, counter: Counter) -> nat {
    match at(s, key) {
        Some(account) => share(account, counter),
        None => 0,
    }
}

/// How `put` changes a sum.
pub proof fn lemma_total_put(s: Seq<Account>, account: Account, counter: Counter)
    requires
        unique_keys(s),
    ensures
        total(put(s, account), counter) == total(s, counter) - share_at(s, account.key, counter)
            + share(account, counter),
{
    if holds(s, account.key) {
        lemma_total_update(s, slot(s, account.key), account, counter);
    } else {
        lemma_total_push(s, account, counter);
    }
}

/// Whether putting `account` into the ledger changes no total and nothing
/// that is counted: it replaces an account that keeps and counts the same, or
/// it is new, counts nothing and keeps no total but 0.
pub open spec fn neutral(s: Seq<Account>, account: Account) -> bool {
    match at(s, account.key) {
        Some(before) => kept(before) == kept(account) && counter_of(before) == counter_of(account)
            && counted(before) == counted(account),
        None => counted(account) is None && (kept(account) is None || kept(account) == Some(0u64)),
    }
}

/// Nothing is counted towards a total that no account keeps.
proof fn lemma_unkept_total(s: Seq<Account>, counter: Counter)
    requires
        consistent(s),
        !kept_in(s, counter),
    ensures
        total(s, counter) == 0,
{
    assert forall|i: int| 0 <= i < s.len() implies share(#[trigger] s[i], counter) == 0 by {
        if counted(s[i]) matches Some((towards, _)) && towards == counter {
            assert(kept_in(s, counter));
        }
    }
    lemma_total_zero(s, counter);
}

/// The account that keeps a total stands at the total's address.
proof fn lemma_kept_in(s: Seq<Account>, counter: Counter)
    requires
        unique_keys(s),
        kept_in(s, counter),
    ensures
        match counter {
            Counter::Capsule(key) => holds(s, key) && counter_of(s[slot(s, key)]) == Some(counter),
            Counter::Pool(key) => holds(s, key) && counter_of(s[slot(s, key)]) == Some(counter),
        },
{
    match counter {
        Counter::Capsule(key) => {
            let i = slot(s, key);
            assert(s[i].key == key);
        },
        Counter::Pool(key) => {
            let i = slot(s, key);
            assert(s[i].key == key);
        },
    }
}

/// A consistent ledger stays consistent when an account is put that changes
/// no total and nothing that is counted.
pub proof fn lemma_neutral_put(s: Seq<Account>, account: Account)
    requires
        consistent(s),
        neutral(s, account),
    ensures
        consistent(put(s, account)),
{
    let t = put(s, account);
    lemma_put(s, account, account.key);
    assert forall|i: int| 0 <= i < t.len() implies (counter_of(#[trigger] t[i]) matches Some(
        counter,
    ) ==> kept(t[i]) == Some(total(t, counter) as u64) && total(t, counter) <= u64::MAX) by {
        if counter_of(t[i]) is Some {
            let counter = counter_of(t[i]).unwrap();
            lemma_total_put(s, account, counter);
            if holds(s, account.key) {
                let p = slot(s, account.key);
                if i == p {
                    assert(counter_of(s[p]) == Some(counter));
                } else {
                    assert(t[i] == s[i]);
                }
            } else {
                if i < s.len() {
                    assert(t[i] == s[i]);
                } else {
                    assert(t[i] == account);
                    assert(!kept_in(s, counter));
                    lemma_unkept_total(s, counter);
                }
            }
        }
    }
    assert forall|i: int| 0 <= i < t.len() implies (counted(#[trigger] t[i]) matches Some(
        (counter, _),
    ) ==> kept_in(t, counter)) by {
        if counted(t[i]) is Some {
            let counter = counted(t[i]).unwrap().0;
            if holds(s, account.key) {
                let p = slot(s, account.key);
                if i == p {
                    assert(counted(s[p]) == counted(t[i]));
                } else {
                    assert(t[i] == s[i]);
                }
            } else {
                assert(i < s.len());
                assert(t[i] == s[i]);
            }
            assert(kept_in(s, counter));
            lemma_kept_in(s, counter);
            match counter {
                Counter::Capsule(key) => {
                    lemma_put(s, account, key);
                },
                Counter::Pool(key) => {
                    lemma_put(s, account, key);
                },
            }
        }
    }
}

/// Whether `member` and `keeper` may be put together: `member` counts
/// towards the total that `keeper` keeps, in place of an account that counted
/// towards the same total or of none, and `keeper` keeps the old total with
/// the old share of `member` taken out and the new share put in.
pub open spec fn counted_pair(s: Seq<Account>, member: Account, keeper: Account) -> bool {
    &&& member.key != keeper.key
    &&& counted(member) is Some
    &&& counter_of(keeper) == Some(counted(member).unwrap().0)
    &&& at(s, keeper.key) matches Some(before) && counter_of(before) == counter_of(keeper)
    &&& at(s, member.key) matches Some(before) ==> counted(before) is Some && counted(
        before,
    ).unwrap().0 == counted(member).unwrap().0
    &&& kept(keeper).unwrap() == kept(at(s, keeper.key).unwrap()).unwrap() - share_at(
        s,
        member.key,
        counted(member).unwrap().0,
    ) + counted(member).unwrap().1
}

/// A consistent ledger stays consistent when a share and the total that it
/// counts towards change by the same amount.
pub proof fn lemma_counted_put(s: Seq<Account>, member: Account, keeper: Account)
    requires
        consistent(s),
        counted_pair(s, member, keeper),
    ensures
        consistent(put(put(s, member), keeper)),
        put(put(s, member), keeper) == put(put(s, keeper), member),
{
    let counter = counted(member).unwrap().0;
    let s1 = put(s, member);
    let t = put(s1, keeper);
    let k = slot(s, keeper.key);
    lemma_put(s, member, member.key);
    lemma_put(s, member, keeper.key);
    lemma_put(s1, keeper, keeper.key);
    lemma_put(s1, keeper, member.key);
    lemma_put(s, keeper, member.key);
    lemma_put(s, keeper, keeper.key);
    assert(t =~= put(put(s, keeper), member));
    assert(slot(s1, keeper.key) == k);
    assert(t == s1.update(k, keeper));
    let m = slot(t, member.key);
    assert(t[k] == keeper);
    assert(t[m] == member) by {
        lemma_slot(t, m);
    }
    assert forall|i: int| 0 <= i < t.len() && i != k && i != m implies i < s.len() && #[trigger] t[i]
        == s[i] by {
        if holds(s, member.key) {
            assert(s1 == s.update(slot(s, member.key), member));
        } else {
            assert(s1 == s.push(member));
        }
    }
    assert forall|c: Counter| #[trigger] total(t, c) == total(s, c) - share_at(s, member.key, c)
        + share(member, c) by {
        lemma_total_put(s, member, c);
        lemma_total_put(s1, keeper, c);
    }
    assert forall|i: int| 0 <= i < t.len() implies (counter_of(#[trigger] t[i]) matches Some(
        c,
    ) ==> kept(t[i]) == Some(total(t, c) as u64) && total(t, c) <= u64::MAX) by {
        if counter_of(t[i]) is Some {
            let c = counter_of(t[i]).unwrap();
            if i == k {
                assert(c == counter);
                assert(counter_of(s[k]) == Some(counter));
            } else {
                assert(i != m);
                assert(t[i] == s[i]);
                assert(c != counter) by {
                    lemma_slot(s, i);
                    lemma_slot(s, k);
                }
            }
        }
    }
    assert forall|i: int| 0 <= i < t.len() implies (counted(#[trigger] t[i]) matches Some(
        (c, _),
    ) ==> kept_in(t, c)) by {
        if counted(t[i]) is Some {
            let c = counted(t[i]).unwrap().0;
            if i == m {
                assert(c == counter);
            } else {
                assert(i != k);
                assert(t[i] == s[i]);
                assert(kept_in(s, c));
                lemma_kept_in(s, c);
                match c {
                    Counter::Capsule(key) => {
                        lemma_put(s, member, key);
                        lemma_put(s1, keeper, key);
                    },
                    Counter::Pool(key) => {
                        lemma_put(s, member, key);
                        lemma_put(s1, keeper, key);
                    },
                }
            }
        }
    }
}

/// Value that arrives at an address changes no total.
pub proof fn lemma_credited_consistent(s: Seq<Account>, key: Address, amount: u64)
    requires
        consistent(s),
    ensures
        consistent(credited(s, key, amount)),
{
    match at(s, key) {
        Some(account) => {
            lemma_neutral_put(s, Account { lamports: (account.lamports + amount) as u64, ..account });
        },
        None => {
            lemma_neutral_put(s, Account { key, lamports: amount, record: Record::Wallet });
        },
    }
}

/// A ledger without accounts is consistent.
pub proof fn lemma_empty_consistent()
    ensures
        consistent(Seq::<Account>::empty()),
{
}

/// In a consistent ledger, the total stake of every capsule is the sum of
/// the stake records on it, and the total of every pool is the sum of the
/// users' stakes in it. Every stake record is on a capsule of the ledger and
/// is no larger than that capsule's total; every user's stake is in a pool of
/// the ledger and is no larger than that pool's total.
pub proof fn lemma_totals_are_sums(s: Seq<Account>, key: Address)
    requires
        consistent(s),
    ensures
        capsule_at(s, key) matches Some(capsule) ==> capsule.total_stake == staked_on(s, key),
        pool_at(s, key) matches Some(pool) ==> pool.total_staked == pooled_in(s, key),
        staking_at(s, key) matches Some(staking) ==> capsule_at(s, staking.capsule) matches Some(
            capsule,
        ) && staking.amount <= capsule.total_stake,
        user_stake_at(s, key) matches Some((at_pool, stake)) ==> pool_at(s, at_pool) matches Some(
            pool,
        ) && stake.amount <= pool.total_staked,
{
    if holds(s, key) {
        let i = slot(s, key);
        assert(s[i].key == key);
        match counted(s[i]) {
            Some((counter, amount)) => {
                assert(kept_in(s, counter));
                lemma_kept_in(s, counter);
                lemma_total_bounds(s, i, counter);
                match counter {
                    Counter::Capsule(keeper) => {
                        let k = slot(s, keeper);
                        assert(s[k].key == keeper);
                    },
                    Counter::Pool(keeper) => {
                        let k = slot(s, keeper);
                        assert(s[k].key == keeper);
                    },
                }
            },
            None => {},
        }
    }
}

} // verus!
