//! The records that the ledger keeps.

use vstd::prelude::*;
use crate::address::Address;
use crate::constants::INITIAL_REPUTATION;
use crate::error::SolMindError;

verus! {

/// An AI agent with an identity of its own. There is one per owner and
/// `agent_id`, and nothing changes `agent_id` once the agent is registered.
#[derive(Clone, Debug, PartialEq, Eq)]
pub struct Agent {
    /// Wallet that owns this agent.
    pub owner: Address,
    /// Identifier of the agent, at most 32 bytes; it is also an addressing seed.
    pub agent_id: String,
    /// Name of the agent, at most 128 bytes.
    pub name: String,
    /// Display name, at most 128 bytes.
    pub display_name: String,
    /// Platform that runs the agent, at most 32 bytes.
    pub platform: String,
    /// When the agent was registered, in Unix seconds.
    pub created_at: i64,
    /// Number of queries that the agent has made.
    pub usage_count: u64,
    /// Reputation, from 0 to 10000.
    pub reputation: u64,
    /// Proof that goes with the agent's address.
    pub bump: u8,
}

/// A memory capsule that is published at a price per query.
#[derive(Clone, Debug, PartialEq, Eq)]
pub struct Capsule {
    /// Wallet that created this capsule; it alone may change the price.
    pub creator: Address,
    /// Identifier of the capsule, at most 32 bytes; it is also an addressing seed.
    pub capsule_id: String,
    /// Name of the capsule, at most 128 bytes.
    pub name: String,
    /// Description, at most 512 bytes.
    pub description: String,
    /// Category, at most 32 bytes.
    pub category: String,
    /// Price of one query, in lamports.
    pub price_per_query: u64,
    /// Sum of what has been staked on the capsule, in lamports.
    pub total_stake: u64,
    /// When the capsule was created, in Unix seconds.
    pub created_at: i64,
    /// When the capsule was last changed, in Unix seconds.
    pub updated_at: i64,
    /// Proof that goes with the capsule's address.
    pub bump: u8,
}

/// What one staker has staked on one capsule.
#[derive(Clone, Copy, Debug, PartialEq, Eq)]
pub struct Staking {
    /// Capsule that is staked on.
    pub capsule: Address,
    /// Wallet that staked.
    pub staker: Address,
    /// Amount staked so far, in lamports.
    pub amount: u64,
    /// When the latest deposit was made, in Unix seconds.
    pub staked_at: i64,
    /// End of the lock, in Unix seconds: 7 days after `staked_at`.
    pub lock_until: i64,
    /// Proof that goes with the record's address.
    pub bump: u8,
}

/// What one wallet has earned from one capsule and not yet withdrawn.
#[derive(Clone, Copy, Debug, PartialEq, Eq)]
pub struct Earnings {
    /// Wallet that earned.
    pub wallet: Address,
    /// Capsule that the earnings come from.
    pub capsule: Address,
    /// Earnings that await withdrawal, in lamports.
    pub total_earnings: u64,
    /// Number of queries that were paid for; withdrawal does not reset it.
    pub query_count: u64,
    /// When earnings were last added, in Unix seconds.
    pub last_updated: i64,
    /// Proof that goes with the record's address.
    pub bump: u8,
}

/// A pool of stakes for one capsule.
#[derive(Clone, Debug, PartialEq, Eq)]
pub struct StakingPool {
    /// Identifier of the capsule, at most 64 bytes.
    pub capsule_id: String,
    /// Sum of what users hold in the pool, in lamports.
    pub total_staked: u64,
    /// Wallet that opened the pool.
    pub creator: Address,
    /// Proof that goes with the pool's address.
    pub bump: u8,
}

/// What one user holds in one pool.
#[derive(Clone, Copy, Debug, PartialEq, Eq)]
pub struct UserStake {
    /// Wallet that staked.
    pub user: Address,
    /// Amount that the user holds in the pool, in lamports.
    pub amount: u64,
    /// When the user last staked, in Unix seconds.
    pub staked_at: i64,
    /// Proof that goes with the record's address.
    pub bump: u8,
}

impl Default for Agent {
    /// A record that nothing has been written to.
    fn default() -> (r: Agent)
        ensures
            r.agent_id@.len() == 0,
            r.name@.len() == 0,
            r.display_name@.len() == 0,
            r.platform@.len() == 0,
            r.created_at == 0,
            r.usage_count == 0,
            r.reputation == 0,
            r.bump == 0,
            r.owner == Address::zero(),
    {
        Agent {
            owner: Address::default(),
            agent_id: String::new(),
            name: String::new(),
            display_name: String::new(),
            platform: String::new(),
            created_at: 0,
            usage_count: 0,
            reputation: 0,
            bump: 0,
        }
    }
}

impl Agent {
    /// Bytes that an agent takes in storage.
    pub const MAX_SIZE: usize = 8 + 32 + 4 + 32 + 4 + 128 + 4 + 128 + 4 + 32 + 8 + 8 + 8 + 1;

    /// Writes a newly registered agent: no usage yet and full reputation.
    pub fn initialize(
        &mut self,
        owner: Address,
        agent_id: String,
        name: String,
        display_name: String,
        platform: String,
        bump: u8,
        now: i64,
    ) -> (r: Result<(), SolMindError>)
        ensures
            r is Ok,
            *final(self) == (Agent {
                owner,
                agent_id,
                name,
                display_name,
                platform,
                created_at: now,
                usage_count: 0,
                reputation: INITIAL_REPUTATION,
                bump,
            }),
    {
        self.owner = owner;
        self.agent_id = agent_id;
        self.name = name;
        self.display_name = display_name;
        self.platform = platform;
        self.created_at = now;
        self.usage_count = 0;
        self.reputation = INITIAL_REPUTATION;
        self.bump = bump;
        Ok(())
    }
}

impl Default for Capsule {
    /// A record that nothing has been written to.
    fn default() -> (r: Capsule)
        ensures
            r.creator == Address::zero(),
            r.capsule_id@.len() == 0,
            r.name@.len() == 0,
            r.description@.len() == 0,
            r.category@.len() == 0,
            r.price_per_query == 0,
            r.total_stake == 0,
            r.created_at == 0,
            r.updated_at == 0,
            r.bump == 0,
    {
        Capsule {
            creator: Address::default(),
            capsule_id: String::new(),
            name: String::new(),
            description: String::new(),
            category: String::new(),
            price_per_query: 0,
            total_stake: 0,
            created_at: 0,
            updated_at: 0,
            bump: 0,
        }
    }
}

impl Capsule {
    /// Bytes that a capsule takes in storage.
    pub const MAX_SIZE: usize = 8 + 32 + 4 + 32 + 4 + 128 + 4 + 512 + 4 + 32 + 8 + 8 + 8 + 8 + 1;

    /// Writes a newly created capsule, with nothing staked on it.
    pub fn initialize(
        &mut self,
        creator: Address,
        capsule_id: String,
        name: String,
        description: String,
        category: String,
        price_per_query: u64,
        bump: u8,
        now: i64,
    ) -> (r: Result<(), SolMindError>)
        ensures
            r is Ok,
            *final(self) == (Capsule {
                creator,
                capsule_id,
                name,
                description,
                category,
                price_per_query,
                total_stake: 0,
                created_at: now,
                updated_at: now,
                bump,
            }),
    {
        self.creator = creator;
        self.capsule_id = capsule_id;
        self.name = name;
        self.description = description;
        self.category = category;
        self.price_per_query = price_per_query;
        self.total_stake = 0;
        self.created_at = now;
        self.updated_at = now;
        self.bump = bump;
        Ok(())
    }
}

impl Default for Staking {
    /// A record that nothing has been written to.
    fn default() -> (r: Staking)
        ensures
            r == (Staking {
                capsule: Address::zero(),
                staker: Address::zero(),
                amount: 0,
                staked_at: 0,
                lock_until: 0,
                bump: 0,
            }),
    {
        Staking {
            capsule: Address::default(),
            staker: Address::default(),
            amount: 0,
            staked_at: 0,
            lock_until: 0,
            bump: 0,
        }
    }
}

impl Staking {
    /// Bytes that a stake record takes in storage.
    pub const MAX_SIZE: usize = 8 + 32 + 32 + 8 + 8 + 8 + 1;

    /// How long a deposit locks the stake: 7 days, in seconds.
    pub const LOCK_PERIOD_SECONDS: i64 = 7 * 24 * 60 * 60;

    /// The end of the lock that a deposit at `now` starts, where it is in range.
    pub open spec fn lock_end(now: i64) -> Option<i64> {
        if now + Staking::LOCK_PERIOD_SECONDS <= i64::MAX {
            Some((now + Staking::LOCK_PERIOD_SECONDS) as i64)
        } else {
            None
        }
    }

    /// Writes the first deposit of a staker on a capsule, locked for 7 days
    /// from `now`. Where the end of the lock is out of range, the record is
    /// left as it was.
    pub fn initialize(&mut self, capsule: Address, staker: Address, amount: u64, bump: u8, now: i64) -> (r:
        Result<(), SolMindError>)
        ensures
            match Staking::lock_end(now) {
                Some(lock_until) => r is Ok && *final(self) == (Staking {
                    capsule,
                    staker,
                    amount,
                    staked_at: now,
                    lock_until,
                    bump,
                }),
                None => r == Err::<(), SolMindError>(SolMindError::MathOverflow) && *final(self)
                    == *old(self),
            },
    {
        match now.checked_add(Staking::LOCK_PERIOD_SECONDS) {
            Some(lock_until) => {
                self.capsule = capsule;
                self.staker = staker;
                self.amount = amount;
                self.staked_at = now;
                self.lock_until = lock_until;
                self.bump = bump;
                Ok(())
            },
            None => Err(SolMindError::MathOverflow),
        }
    }
}

impl Default for Earnings {
    /// A record that nothing has been written to.
    fn default() -> (r: Earnings)
        ensures
            r == (Earnings {
                wallet: Address::zero(),
                capsule: Address::zero(),
                total_earnings: 0,
                query_count: 0,
                last_updated: 0,
                bump: 0,
            }),
    {
        Earnings {
            wallet: Address::default(),
            capsule: Address::default(),
            total_earnings: 0,
            query_count: 0,
            last_updated: 0,
            bump: 0,
        }
    }
}

impl Earnings {
    /// Bytes that an earnings record takes in storage.
    pub const MAX_SIZE: usize = 8 + 32 + 32 + 8 + 8 + 8 + 1;

    /// Writes an escrow that holds no earnings yet.
    pub fn initialize(&mut self, wallet: Address, capsule: Address, bump: u8, now: i64) -> (r: Result<
        (),
        SolMindError,
    >)
        ensures
            r is Ok,
            *final(self) == (Earnings {
                wallet,
                capsule,
                total_earnings: 0,
                query_count: 0,
                last_updated: now,
                bump,
            }),
    {
        self.wallet = wallet;
        self.capsule = capsule;
        self.total_earnings = 0;
        self.query_count = 0;
        self.last_updated = now;
        self.bump = bump;
        Ok(())
    }

    /// The record after one more paid query of `amount`, where both counters
    /// stay in range.
    pub open spec fn credited(self, amount: u64, now: i64) -> Option<Earnings> {
        if self.total_earnings + amount <= u64::MAX && self.query_count + 1 <= u64::MAX {
            Some(
                Earnings {
                    total_earnings: (self.total_earnings + amount) as u64,
                    query_count: (self.query_count + 1) as u64,
                    last_updated: now,
                    ..self
                },
            )
        } else {
            None
        }
    }

    /// Adds the payment for one query. Where a counter would overflow, the
    /// record is left as it was.
    pub fn add_earnings(&mut self, amount: u64, now: i64) -> (r: Result<(), SolMindError>)
        ensures
            match old(self).credited(amount, now) {
                Some(after) => r is Ok && *final(self) == after,
                None => r == Err::<(), SolMindError>(SolMindError::MathOverflow) && *final(self)
                    == *old(self),
            },
    {
        let total = match self.total_earnings.checked_add(amount) {
            Some(total) => total,
            None => {
                return Err(SolMindError::MathOverflow);
            },
        };
        let count = match self.query_count.checked_add(1) {
            Some(count) => count,
            None => {
                return Err(SolMindError::MathOverflow);
            },
        };
        self.total_earnings = total;
        self.query_count = count;
        self.last_updated = now;
        Ok(())
    }
}

impl Default for UserStake {
    /// A record that nothing has been written to.
    fn default() -> (r: UserStake)
        ensures
            r == (UserStake { user: Address::zero(), amount: 0, staked_at: 0, bump: 0 }),
    {
        UserStake { user: Address::default(), amount: 0, staked_at: 0, bump: 0 }
    }
}

} // verus!
