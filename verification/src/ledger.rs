//! The ledger: every account under its address, with the value it holds and
//! the record it carries.

use vstd::prelude::*;
use crate::address::Address;
use crate::consistency::{consistent, lemma_neutral_put, neutral};
use crate::state::{Agent, Capsule, Earnings, Staking, StakingPool, UserStake};

verus! {

/// What an account carries.
#[derive(Clone, Debug, PartialEq, Eq)]
pub enum Record {
    /// Nothing: the account is a wallet, and its owner spends what it holds.
    Wallet,
    Agent(Agent),
    Capsule(Capsule),
    Staking(Staking),
    Earnings(Earnings),
    StakingPool(StakingPool),
    /// A user's stake, with the address of the pool that it was made in.
    UserStake(Address, UserStake),
}

/// An account: an address, the value held there in lamports, and a record.
#[derive(Clone, Debug, PartialEq, Eq)]
pub struct Account {
    pub key: Address,
    pub lamports: u64,
    pub record: Record,
}

/// Whether an account stands at `key`.
pub open spec fn holds(s: Seq<Account>, key: Address) -> bool {
    exists|i: int| 0 <= i < s.len() && (#[trigger] s[i]).key == key
}

/// Where the account at `key` stands, if one does.
pub open spec fn slot(s: Seq<Account>, key: Address) -> int {
    choose|i: int| 0 <= i < s.len() && (#[trigger] s[i]).key == key
}

/// Whether no two accounts share an address.
pub open spec fn unique_keys(s: Seq<Account>) -> bool {
    forall|i: int, j: int| 0 <= i < j < s.len() ==> (#[trigger] s[i]).key != (#[trigger] s[j]).key
}

/// The account at `key`.
pub open spec fn at(s: Seq<Account>, key: Address) -> Option<Account> {
    if holds(s, key) {
        Some(s[slot(s, key)])
    } else {
        None
    }
}

/// The accounts with `account` put at its address: in place of the account
/// that stood there, or else behind the others.
pub open spec fn put(s: Seq<Account>, account: Account) -> Seq<Account> {
    if holds(s, account.key) {
        s.update(slot(s, account.key), account)
    } else {
        s.push(account)
    }
}

/// The record at `key`.
pub open spec fn record_at(s: Seq<Account>, key: Address) -> Option<Record> {
    match at(s, key) {
        Some(account) => Some(account.record),
        None => None,
    }
}

/// The value held at `key`: nothing where no account stands.
pub open spec fn balance(s: Seq<Account>, key: Address) -> u64 {
    match at(s, key) {
        Some(account) => account.lamports,
        None => 0,
    }
}

/// The value that the owner of the wallet at `key` can spend. Only a wallet
/// pays; what a record holds leaves it through the record's own operations.
pub open spec fn spendable(s: Seq<Account>, key: Address) -> u64 {
    match at(s, key) {
        Some(account) => if account.record is Wallet {
            account.lamports
        } else {
            0
        },
        None => 0,
    }
}

/// Whether the account at `key` cannot take `amount` more.
pub open spec fn credit_overflows(s: Seq<Account>, key: Address, amount: u64) -> bool {
    balance(s, key) + amount > u64::MAX
}

/// The accounts after `amount` has arrived at `key`. Where no account stood
/// there, a wallet is opened.
pub open spec fn credited(s: Seq<Account>, key: Address, amount: u64) -> Seq<Account> {
    match at(s, key) {
        Some(account) => put(s, Account { lamports: (account.lamports + amount) as u64, ..account }),
        None => put(s, Account { key, lamports: amount, record: Record::Wallet }),
    }
}

/// The agent at `key`.
pub open spec fn agent_at(s: Seq<Account>, key: Address) -> Option<Agent> {
    match at(s, key) {
        Some(Account { record: Record::Agent(agent), .. }) => Some(agent),
        _ => None,
    }
}

/// The capsule at `key`.
pub open spec fn capsule_at(s: Seq<Account>, key: Address) -> Option<Capsule> {
    match at(s, key) {
        Some(Account { record: Record::Capsule(capsule), .. }) => Some(capsule),
        _ => None,
    }
}

/// The stake record at `key`.
pub open spec fn staking_at(s: Seq<Account>, key: Address) -> Option<Staking> {
    match at(s, key) {
        Some(Account { record: Record::Staking(staking), .. }) => Some(staking),
        _ => None,
    }
}

/// The earnings record at `key`.
pub open spec fn earnings_at(s: Seq<Account>, key: Address) -> Option<Earnings> {
    match at(s, key) {
        Some(Account { record: Record::Earnings(earnings), .. }) => Some(earnings),
        _ => None,
    }
}

/// The staking pool at `key`.
pub open spec fn pool_at(s: Seq<Account>, key: Address) -> Option<StakingPool> {
    match at(s, key) {
        Some(Account { record: Record::StakingPool(pool), .. }) => Some(pool),
        _ => None,
    }
}

/// The user's stake at `key`, with the address of its pool.
pub open spec fn user_stake_at(s: Seq<Account>, key: Address) -> Option<(Address, UserStake)> {
    match at(s, key) {
        Some(Account { record: Record::UserStake(pool, stake), .. }) => Some((pool, stake)),
        _ => None,
    }
}

/// The account of a capsule with a new price, total stake and time of change.
pub open spec fn with_capsule(
    account: Account,
    price_per_query: u64,
    total_stake: u64,
    updated_at: i64,
) -> Account {
    match account.record {
        Record::Capsule(capsule) => Account {
            record: Record::Capsule(
                Capsule { price_per_query, total_stake, updated_at, ..capsule },
            ),
            ..account
        },
        _ => account,
    }
}

/// The account of a pool with a new balance and a new total.
pub open spec fn with_pool(account: Account, lamports: u64, total_staked: u64) -> Account {
    match account.record {
        Record::StakingPool(pool) => Account {
            lamports,
            record: Record::StakingPool(StakingPool { total_staked, ..pool }),
            ..account
        },
        _ => account,
    }
}

/// In a ledger without shared addresses, an account is found at its own place.
pub proof fn lemma_slot(s: Seq<Account>, i: int)
    requires
        unique_keys(s),
        0 <= i < s.len(),
    ensures
        holds(s, s[i].key),
        slot(s, s[i].key) == i,
        at(s, s[i].key) == Some(s[i]),
{
    let j = slot(s, s[i].key);
    assert(0 <= j < s.len() && s[j].key == s[i].key);
    if j < i {
        assert(s[j].key != s[i].key);
    } else if i < j {
        assert(s[i].key != s[j].key);
    }
}

/// What `put` leaves at each address, and that it shares no address.
pub proof fn lemma_put(s: Seq<Account>, account: Account, key: Address)
    requires
        unique_keys(s),
    ensures
        unique_keys(put(s, account)),
        at(put(s, account), key) == if key == account.key {
            Some(account)
        } else {
            at(s, key)
        },
        holds(put(s, account), key) == (key == account.key || holds(s, key)),
        holds(s, key) ==> slot(put(s, account), key) == slot(s, key),
        !holds(s, account.key) ==> slot(put(s, account), account.key) == s.len(),
{
    let t = put(s, account);
    if holds(s, account.key) {
        let p = slot(s, account.key);
        assert(t.len() == s.len());
        assert forall|i: int, j: int| 0 <= i < j < t.len() implies (#[trigger] t[i]).key != (
        #[trigger] t[j]).key by {
            assert(s[i].key != s[j].key);
        }
        lemma_slot(t, p);
        if key != account.key {
            if holds(s, key) {
                let q = slot(s, key);
                assert(t[q] == s[q]);
                lemma_slot(t, q);
            } else {
                if holds(t, key) {
                    let q = slot(t, key);
                    assert(s[q].key == key);
                }
            }
        }
    } else {
        let p = s.len() as int;
        assert forall|i: int, j: int| 0 <= i < j < t.len() implies (#[trigger] t[i]).key != (
        #[trigger] t[j]).key by {
            if j < p {
                assert(s[i].key != s[j].key);
            } else {
                assert(t[i] == s[i]);
                assert(s[i].key != account.key);
            }
        }
        lemma_slot(t, p);
        if key != account.key {
            if holds(s, key) {
                let q = slot(s, key);
                assert(t[q] == s[q]);
                lemma_slot(t, q);
            } else {
                if holds(t, key) {
                    let q = slot(t, key);
                    assert(q < p);
                    assert(s[q].key == key);
                }
            }
        }
    }
}

/// The accounts of the marketplace, each under its own address.
#[derive(Debug)]
pub struct Ledger {
    accounts: Vec<Account>,
}

impl View for Ledger {
    type V = Seq<Account>;

    closed spec fn view(&self) -> Seq<Account> {
        self.accounts@
    }
}

impl Ledger {
    /// Whether the ledger is well formed: no two accounts share an address.
    pub open spec fn wf(&self) -> bool {
        unique_keys(self@)
    }

    /// A ledger without accounts.
    pub fn new() -> (r: Ledger)
        ensures
            r.wf(),
            r@ == Seq::<Account>::empty(),
            consistent(r@),
    {
        Ledger { accounts: Vec::new() }
    }

    /// The number of accounts.
    pub fn len(&self) -> (n: usize)
        ensures
            n == self@.len(),
    {
        self.accounts.len()
    }

    /// The place of the account at `key`.
    pub(crate) fn find(&self, key: &Address) -> (r: Option<usize>)
        requires
            self.wf(),
        ensures
            match r {
                Some(i) => holds(self@, *key) && i == slot(self@, *key) && i < self@.len()
                    && self@[i as int].key == *key,
                None => !holds(self@, *key),
            },
    {
        let mut i: usize = 0;
        while i < self.accounts.len()
            invariant
                self.wf(),
                i <= self.accounts.len(),
                forall|j: int| 0 <= j < i ==> (#[trigger] self.accounts@[j]).key != *key,
            decreases self.accounts.len() - i,
        {
            if self.accounts[i].key == *key {
                proof {
                    lemma_slot(self@, i as int);
                }
                return Some(i);
            }
            i = i + 1;
        }
        None
    }

    /// The account at `key`.
    pub fn get(&self, key: &Address) -> (r: Option<&Account>)
        requires
            self.wf(),
        ensures
            match r {
                Some(account) => at(self@, *key) == Some(*account),
                None => at(self@, *key) is None,
            },
    {
        match self.find(key) {
            Some(i) => Some(&self.accounts[i]),
            None => None,
        }
    }

    /// The value held at `key`.
    pub fn balance(&self, key: &Address) -> (r: u64)
        requires
            self.wf(),
        ensures
            r == balance(self@, *key),
    {
        match self.find(key) {
            Some(i) => self.accounts[i].lamports,
            None => 0,
        }
    }

    /// The agent at `key`.
    pub fn agent(&self, key: &Address) -> (r: Option<&Agent>)
        requires
            self.wf(),
        ensures
            match r {
                Some(agent) => agent_at(self@, *key) == Some(*agent),
                None => agent_at(self@, *key) is None,
            },
    {
        match self.find(key) {
            Some(i) => match &self.accounts[i].record {
                Record::Agent(agent) => Some(agent),
                _ => None,
            },
            None => None,
        }
    }

    /// The capsule at `key`.
    pub fn capsule(&self, key: &Address) -> (r: Option<&Capsule>)
        requires
            self.wf(),
        ensures
            match r {
                Some(capsule) => capsule_at(self@, *key) == Some(*capsule),
                None => capsule_at(self@, *key) is None,
            },
    {
        match self.find(key) {
            Some(i) => match &self.accounts[i].record {
                Record::Capsule(capsule) => Some(capsule),
                _ => None,
            },
            None => None,
        }
    }

    /// The stake record at `key`.
    pub fn staking(&self, key: &Address) -> (r: Option<&Staking>)
        requires
            self.wf(),
        ensures
            match r {
                Some(staking) => staking_at(self@, *key) == Some(*staking),
                None => staking_at(self@, *key) is None,
            },
    {
        match self.find(key) {
            Some(i) => match &self.accounts[i].record {
                Record::Staking(staking) => Some(staking),
                _ => None,
            },
            None => None,
        }
    }

    /// The earnings record at `key`.
    pub fn earnings(&self, key: &Address) -> (r: Option<&Earnings>)
        requires
            self.wf(),
        ensures
            match r {
                Some(earnings) => earnings_at(self@, *key) == Some(*earnings),
                None => earnings_at(self@, *key) is None,
            },
    {
        match self.find(key) {
            Some(i) => match &self.accounts[i].record {
                Record::Earnings(earnings) => Some(earnings),
                _ => None,
            },
            None => None,
        }
    }

    /// The staking pool at `key`.
    pub fn staking_pool(&self, key: &Address) -> (r: Option<&StakingPool>)
        requires
            self.wf(),
        ensures
            match r {
                Some(pool) => pool_at(self@, *key) == Some(*pool),
                None => pool_at(self@, *key) is None,
            },
    {
        match self.find(key) {
            Some(i) => match &self.accounts[i].record {
                Record::StakingPool(pool) => Some(pool),
                _ => None,
            },
            None => None,
        }
    }

    /// The user's stake at `key`.
    pub fn user_stake(&self, key: &Address) -> (r: Option<&UserStake>)
        requires
            self.wf(),
        ensures
            match r {
                Some(stake) => user_stake_at(self@, *key) matches Some((_, held)) && held == *stake,
                None => user_stake_at(self@, *key) is None,
            },
    {
        match self.find(key) {
            Some(i) => match &self.accounts[i].record {
                Record::UserStake(_, stake) => Some(stake),
                _ => None,
            },
            None => None,
        }
    }

    /// Takes `account` into the ledger where its address is free, and hands it
    /// back where it is not. This is how accounts that are kept elsewhere come
    /// before an operation. The ledger stays consistent where the account
    /// counts towards no total and keeps no total but 0.
    pub fn insert(&mut self, account: Account) -> (r: Result<(), Account>)
        requires
            old(self).wf(),
        ensures
            final(self).wf(),
            match r {
                Ok(()) => !holds(old(self)@, account.key) && final(self)@ == old(self)@.push(account),
                Err(refused) => holds(old(self)@, account.key) && refused == account && final(self)@
                    == old(self)@,
            },
            consistent(old(self)@) && neutral(old(self)@, account) ==> consistent(final(self)@),
    {
        match self.find(&account.key) {
            Some(_) => Err(account),
            None => {
                proof {
                    lemma_put(self@, account, account.key);
                    if consistent(self@) && neutral(self@, account) {
                        lemma_neutral_put(self@, account);
                    }
                }
                self.accounts.push(account);
                Ok(())
            },
        }
    }

    /// The account at place `i`.
    pub(crate) fn account(&self, i: usize) -> (r: &Account)
        requires
            i < self@.len(),
        ensures
            *r == self@[i as int],
    {
        &self.accounts[i]
    }

    /// Puts a new account behind the others.
    pub(crate) fn push(&mut self, account: Account)
        requires
            old(self).wf(),
            !holds(old(self)@, account.key),
        ensures
            final(self).wf(),
            final(self)@ == put(old(self)@, account),
            final(self)@ == old(self)@.push(account),
    {
        proof {
            lemma_put(self@, account, account.key);
        }
        self.accounts.push(account);
    }

    /// Sets the value that the account at place `i` holds.
    pub(crate) fn set_lamports(&mut self, i: usize, lamports: u64)
        requires
            old(self).wf(),
            i < old(self)@.len(),
        ensures
            final(self).wf(),
            final(self)@ == put(old(self)@, Account { lamports, ..old(self)@[i as int] }),
            final(self)@ == old(self)@.update(i as int, Account { lamports, ..old(self)@[i as int] }),
    {
        proof {
            lemma_slot(self@, i as int);
            lemma_put(self@, Account { lamports, ..self@[i as int] }, self@[i as int].key);
        }
        self.accounts[i].lamports = lamports;
    }

    /// Sets the value and the record of the account at place `i`.
    pub(crate) fn set_account(&mut self, i: usize, lamports: u64, record: Record)
        requires
            old(self).wf(),
            i < old(self)@.len(),
        ensures
            final(self).wf(),
            final(self)@ == put(old(self)@, Account { lamports, record, ..old(self)@[i as int] }),
            final(self)@ == old(self)@.update(
                i as int,
                Account { lamports, record, ..old(self)@[i as int] },
            ),
    {
        proof {
            lemma_slot(self@, i as int);
            lemma_put(self@, Account { lamports, record, ..self@[i as int] }, self@[i as int].key);
        }
        self.accounts[i].lamports = lamports;
        self.accounts[i].record = record;
    }

    /// Writes the price, the total stake and the time of change of the
    /// capsule at place `i`.
    pub(crate) fn update_capsule(
        &mut self,
        i: usize,
        price_per_query: u64,
        total_stake: u64,
        updated_at: i64,
    )
        requires
            old(self).wf(),
            i < old(self)@.len(),
        ensures
            final(self).wf(),
            final(self)@ == put(
                old(self)@,
                with_capsule(old(self)@[i as int], price_per_query, total_stake, updated_at),
            ),
            final(self)@ == old(self)@.update(
                i as int,
                with_capsule(old(self)@[i as int], price_per_query, total_stake, updated_at),
            ),
    {
        proof {
            lemma_slot(self@, i as int);
            lemma_put(
                self@,
                with_capsule(self@[i as int], price_per_query, total_stake, updated_at),
                self@[i as int].key,
            );
        }
        match &mut self.accounts[i].record {
            Record::Capsule(capsule) => {
                capsule.price_per_query = price_per_query;
                capsule.total_stake = total_stake;
                capsule.updated_at = updated_at;
            },
            _ => {},
        }
    }

    /// Writes the balance and the total of the pool at place `i`.
    pub(crate) fn update_pool(&mut self, i: usize, lamports: u64, total_staked: u64)
        requires
            old(self).wf(),
            i < old(self)@.len(),
        ensures
            final(self).wf(),
            final(self)@ == put(old(self)@, with_pool(old(self)@[i as int], lamports, total_staked)),
            final(self)@ == old(self)@.update(
                i as int,
                with_pool(old(self)@[i as int], lamports, total_staked),
            ),
    {
        proof {
            lemma_slot(self@, i as int);
            lemma_put(
                self@,
                with_pool(self@[i as int], lamports, total_staked),
                self@[i as int].key,
            );
        }
        let is_pool = match &mut self.accounts[i].record {
            Record::StakingPool(pool) => {
                pool.total_staked = total_staked;
                true
            },
            _ => false,
        };
        if is_pool {
            self.accounts[i].lamports = lamports;
        }
    }

    /// Adds `amount` to what the account at `key` holds, and opens a wallet
    /// there where no account stands.
    pub(crate) fn credit(&mut self, key: &Address, amount: u64)
        requires
            old(self).wf(),
            !credit_overflows(old(self)@, *key, amount),
        ensures
            final(self).wf(),
            final(self)@ == credited(old(self)@, *key, amount),
    {
        match self.find(key) {
            Some(i) => {
                let lamports = self.accounts[i].lamports;
                self.set_lamports(i, lamports + amount);
            },
            None => {
                self.push(Account { key: *key, lamports: amount, record: Record::Wallet });
            },
        }
    }
}

} // verus!
