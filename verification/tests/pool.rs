use solmind::address::Address;
use solmind::error::StakingError;
use solmind::ledger::{Account, Ledger, Record};
use solmind::pool::{initialize_pool, stake, unstake, InitializePool, Stake, Unstake};
use solmind::receipt::{Movement, Receipt};
use solmind::state::{StakingPool, UserStake};

fn key(n: u8) -> Address {
    Address::new([n; 32])
}

fn s(text: &str) -> String {
    text.to_string()
}

fn snapshot(ledger: &Ledger) -> String {
    format!("{:?}", ledger)
}

const CREATOR: u8 = 1;
const POOL: u8 = 2;
const USER: u8 = 3;
const USER_STAKE: u8 = 4;

fn pool(funds: u64) -> Ledger {
    let mut ledger = Ledger::new();
    let ctx = InitializePool { staking_pool: key(POOL), creator: key(CREATOR), bump: 250 };
    let r = initialize_pool(&mut ledger, &ctx, s("capsule-1"));
    assert_eq!(r, Ok(Receipt { record: key(POOL), movement: Movement::Nothing }));
    assert!(ledger.insert(Account { key: key(USER), lamports: funds, record: Record::Wallet }).is_ok());
    ledger
}

fn staking() -> Stake {
    Stake { staking_pool: key(POOL), user_stake: key(USER_STAKE), user: key(USER), bump: 249 }
}

fn unstaking() -> Unstake {
    Unstake { staking_pool: key(POOL), user_stake: key(USER_STAKE), user: key(USER) }
}

#[test]
fn opening_writes_the_pool() {
    let ledger = pool(0);
    assert_eq!(
        ledger.staking_pool(&key(POOL)),
        Some(&StakingPool {
            capsule_id: s("capsule-1"),
            total_staked: 0,
            creator: key(CREATOR),
            bump: 250,
        })
    );
    assert_eq!(ledger.balance(&key(POOL)), 0);
}

#[test]
fn a_pool_is_opened_once() {
    let mut ledger = pool(0);
    let before = snapshot(&ledger);
    let ctx = InitializePool { staking_pool: key(POOL), creator: key(9), bump: 1 };
    assert_eq!(initialize_pool(&mut ledger, &ctx, s("capsule-1")), Err(StakingError::AlreadyExists));
    let at_wallet = InitializePool { staking_pool: key(USER), creator: key(9), bump: 1 };
    assert_eq!(initialize_pool(&mut ledger, &at_wallet, s("x")), Err(StakingError::AlreadyExists));
    assert_eq!(snapshot(&ledger), before);
}

#[test]
fn a_pool_stores_an_identifier_of_64_bytes() {
    let mut ledger = Ledger::new();
    let ctx = InitializePool { staking_pool: key(POOL), creator: key(CREATOR), bump: 250 };
    assert_eq!(
        initialize_pool(&mut ledger, &ctx, "c".repeat(65)),
        Err(StakingError::InvalidMetadataLength)
    );
    assert_eq!(ledger.len(), 0);
    assert!(initialize_pool(&mut ledger, &ctx, "c".repeat(64)).is_ok());
    assert_eq!(ledger.staking_pool(&key(POOL)).unwrap().capsule_id.len(), 64);
    let empty = InitializePool { staking_pool: key(50), creator: key(CREATOR), bump: 250 };
    assert!(initialize_pool(&mut ledger, &empty, s("")).is_ok());
}

#[test]
fn first_stake_opens_the_users_stake() {
    let mut ledger = pool(1_000);
    let r = stake(&mut ledger, &staking(), 400, 77);
    assert_eq!(r, Ok(Receipt { record: key(POOL), movement: Movement::Into(400) }));
    assert_eq!(
        ledger.user_stake(&key(USER_STAKE)),
        Some(&UserStake { user: key(USER), amount: 400, staked_at: 77, bump: 249 })
    );
    assert_eq!(
        ledger.get(&key(USER_STAKE)).unwrap().record,
        Record::UserStake(key(POOL), UserStake { user: key(USER), amount: 400, staked_at: 77, bump: 249 })
    );
    assert_eq!(ledger.staking_pool(&key(POOL)).unwrap().total_staked, 400);
    assert_eq!(ledger.balance(&key(POOL)), 400);
    assert_eq!(ledger.balance(&key(USER)), 600);
    assert_eq!(ledger.balance(&key(USER_STAKE)), 0);
    assert_eq!(ledger.len(), 3);
}

#[test]
fn a_later_stake_adds_and_notes_the_time() {
    let mut ledger = pool(1_000);
    assert!(stake(&mut ledger, &staking(), 400, 77).is_ok());
    let other_bump = Stake { bump: 3, ..staking() };
    assert!(stake(&mut ledger, &other_bump, 1, 99).is_ok());
    assert_eq!(
        ledger.user_stake(&key(USER_STAKE)),
        Some(&UserStake { user: key(USER), amount: 401, staked_at: 99, bump: 249 })
    );
    assert_eq!(ledger.staking_pool(&key(POOL)).unwrap().total_staked, 401);
    assert_eq!(ledger.balance(&key(POOL)), 401);
    assert_eq!(ledger.balance(&key(USER)), 599);
}

#[test]
fn a_stake_of_nothing_is_refused() {
    let mut ledger = pool(1_000);
    let before = snapshot(&ledger);
    assert_eq!(stake(&mut ledger, &staking(), 0, 1), Err(StakingError::InvalidAmount));
    assert_eq!(snapshot(&ledger), before);
}

#[test]
fn a_stake_needs_a_pool() {
    let mut ledger = pool(1_000);
    let before = snapshot(&ledger);
    let absent = Stake { staking_pool: key(80), ..staking() };
    assert_eq!(stake(&mut ledger, &absent, 5, 1), Err(StakingError::PoolNotFound));
    let wallet = Stake { staking_pool: key(USER), ..staking() };
    assert_eq!(stake(&mut ledger, &wallet, 5, 1), Err(StakingError::PoolNotFound));
    assert_eq!(stake(&mut ledger, &absent, 0, 1), Err(StakingError::InvalidAmount));
    assert_eq!(snapshot(&ledger), before);
}

#[test]
fn the_stake_must_be_the_users_own_in_this_pool() {
    let mut ledger = pool(1_000);
    assert!(ledger.insert(Account { key: key(8), lamports: 1_000, record: Record::Wallet }).is_ok());
    let second = InitializePool { staking_pool: key(60), creator: key(CREATOR), bump: 1 };
    assert!(initialize_pool(&mut ledger, &second, s("capsule-2")).is_ok());
    assert!(stake(&mut ledger, &staking(), 400, 77).is_ok());
    let before = snapshot(&ledger);
    let stranger = Stake { user: key(8), ..staking() };
    assert_eq!(stake(&mut ledger, &stranger, 5, 1), Err(StakingError::StakeNotFound));
    let other_pool = Stake { staking_pool: key(60), ..staking() };
    assert_eq!(stake(&mut ledger, &other_pool, 5, 1), Err(StakingError::StakeNotFound));
    let at_wallet = Stake { user_stake: key(8), ..staking() };
    assert_eq!(stake(&mut ledger, &at_wallet, 5, 1), Err(StakingError::StakeNotFound));
    let strange_unstake = Unstake { user: key(8), ..unstaking() };
    assert_eq!(unstake(&mut ledger, &strange_unstake, 5), Err(StakingError::StakeNotFound));
    let other_unstake = Unstake { staking_pool: key(60), ..unstaking() };
    assert_eq!(unstake(&mut ledger, &other_unstake, 5), Err(StakingError::StakeNotFound));
    assert_eq!(snapshot(&ledger), before);
}

#[test]
fn a_user_stakes_what_the_wallet_holds() {
    let mut ledger = pool(1_000);
    let before = snapshot(&ledger);
    assert_eq!(stake(&mut ledger, &staking(), 1_001, 1), Err(StakingError::InsufficientPayment));
    let absent = Stake { user: key(70), user_stake: key(71), ..staking() };
    assert_eq!(stake(&mut ledger, &absent, 1, 1), Err(StakingError::InsufficientPayment));
    assert_eq!(snapshot(&ledger), before);
    assert!(stake(&mut ledger, &staking(), 1_000, 1).is_ok());
    assert_eq!(ledger.balance(&key(USER)), 0);
}

#[test]
fn a_stake_that_overflows_changes_nothing() {
    let mut ledger = Ledger::new();
    let full = StakingPool {
        capsule_id: s("c"),
        total_staked: u64::MAX - 10,
        creator: key(CREATOR),
        bump: 0,
    };
    assert!(ledger.insert(Account { key: key(POOL), lamports: 0, record: Record::StakingPool(full) }).is_ok());
    assert!(ledger.insert(Account { key: key(USER), lamports: 1_000, record: Record::Wallet }).is_ok());
    let before = snapshot(&ledger);
    assert_eq!(stake(&mut ledger, &staking(), 11, 1), Err(StakingError::MathOverflow));
    assert_eq!(snapshot(&ledger), before);
    assert!(stake(&mut ledger, &staking(), 10, 1).is_ok());
    assert_eq!(ledger.staking_pool(&key(POOL)).unwrap().total_staked, u64::MAX);

    let mut ledger = pool(1_000);
    let held = UserStake { user: key(USER), amount: u64::MAX - 10, staked_at: 0, bump: 0 };
    assert!(ledger
        .insert(Account { key: key(USER_STAKE), lamports: 0, record: Record::UserStake(key(POOL), held) })
        .is_ok());
    let before = snapshot(&ledger);
    assert_eq!(stake(&mut ledger, &staking(), 11, 1), Err(StakingError::MathOverflow));
    assert_eq!(snapshot(&ledger), before);

    let mut ledger = Ledger::new();
    let rich = StakingPool { capsule_id: s("c"), total_staked: 0, creator: key(CREATOR), bump: 0 };
    assert!(ledger
        .insert(Account { key: key(POOL), lamports: u64::MAX - 10, record: Record::StakingPool(rich) })
        .is_ok());
    assert!(ledger.insert(Account { key: key(USER), lamports: 1_000, record: Record::Wallet }).is_ok());
    let before = snapshot(&ledger);
    assert_eq!(stake(&mut ledger, &staking(), 11, 1), Err(StakingError::MathOverflow));
    assert_eq!(snapshot(&ledger), before);
}

#[test]
fn unstake_pays_the_user_back() {
    let mut ledger = pool(1_000);
    assert!(stake(&mut ledger, &staking(), 400, 77).is_ok());
    let r = unstake(&mut ledger, &unstaking(), 150);
    assert_eq!(r, Ok(Receipt { record: key(POOL), movement: Movement::OutOf(150) }));
    assert_eq!(
        ledger.user_stake(&key(USER_STAKE)),
        Some(&UserStake { user: key(USER), amount: 250, staked_at: 77, bump: 249 })
    );
    assert_eq!(ledger.staking_pool(&key(POOL)).unwrap().total_staked, 250);
    assert_eq!(ledger.balance(&key(POOL)), 250);
    assert_eq!(ledger.balance(&key(USER)), 750);
    // The whole of the rest: the stake stays, at nothing.
    assert!(unstake(&mut ledger, &unstaking(), 250).is_ok());
    assert_eq!(
        ledger.user_stake(&key(USER_STAKE)),
        Some(&UserStake { user: key(USER), amount: 0, staked_at: 77, bump: 249 })
    );
    assert_eq!(ledger.staking_pool(&key(POOL)).unwrap().total_staked, 0);
    assert_eq!(ledger.balance(&key(USER)), 1_000);
    assert_eq!(ledger.len(), 3);
    // And the user stakes again in the same record.
    assert!(stake(&mut ledger, &staking(), 10, 200).is_ok());
    assert_eq!(
        ledger.user_stake(&key(USER_STAKE)),
        Some(&UserStake { user: key(USER), amount: 10, staked_at: 200, bump: 249 })
    );
}

#[test]
fn unstake_beyond_the_stake_is_refused() {
    let mut ledger = pool(1_000);
    assert!(stake(&mut ledger, &staking(), 400, 77).is_ok());
    let before = snapshot(&ledger);
    assert_eq!(unstake(&mut ledger, &unstaking(), 401), Err(StakingError::InsufficientStake));
    assert_eq!(unstake(&mut ledger, &unstaking(), u64::MAX), Err(StakingError::InsufficientStake));
    assert_eq!(snapshot(&ledger), before);
    assert_eq!(ledger.user_stake(&key(USER_STAKE)).unwrap().amount, 400);
    assert_eq!(ledger.staking_pool(&key(POOL)).unwrap().total_staked, 400);
}

#[test]
fn unstake_of_nothing_is_refused() {
    let mut ledger = pool(1_000);
    assert!(stake(&mut ledger, &staking(), 400, 77).is_ok());
    let before = snapshot(&ledger);
    assert_eq!(unstake(&mut ledger, &unstaking(), 0), Err(StakingError::InsufficientStake));
    assert_eq!(snapshot(&ledger), before);
}

#[test]
fn unstake_needs_a_pool_and_a_stake() {
    let mut ledger = pool(1_000);
    let before = snapshot(&ledger);
    assert_eq!(unstake(&mut ledger, &unstaking(), 5), Err(StakingError::StakeNotFound));
    let no_pool = Unstake { staking_pool: key(80), ..unstaking() };
    assert_eq!(unstake(&mut ledger, &no_pool, 5), Err(StakingError::PoolNotFound));
    let at_wallet = Unstake { user_stake: key(USER), ..unstaking() };
    assert_eq!(unstake(&mut ledger, &at_wallet, 5), Err(StakingError::StakeNotFound));
    assert_eq!(snapshot(&ledger), before);
}

#[test]
fn unstake_from_a_pool_whose_books_are_wrong() {
    // The pool holds less than the stake says.
    let mut ledger = pool(0);
    let held = UserStake { user: key(USER), amount: 500, staked_at: 0, bump: 0 };
    assert!(ledger
        .insert(Account { key: key(USER_STAKE), lamports: 0, record: Record::UserStake(key(POOL), held) })
        .is_ok());
    let before = snapshot(&ledger);
    assert_eq!(unstake(&mut ledger, &unstaking(), 5), Err(StakingError::InsufficientStake));
    assert_eq!(snapshot(&ledger), before);

    // The pool holds the value, and its total is below the stake.
    let mut ledger = Ledger::new();
    let short = StakingPool { capsule_id: s("c"), total_staked: 4, creator: key(CREATOR), bump: 0 };
    assert!(ledger
        .insert(Account { key: key(POOL), lamports: 1_000, record: Record::StakingPool(short) })
        .is_ok());
    assert!(ledger
        .insert(Account { key: key(USER_STAKE), lamports: 0, record: Record::UserStake(key(POOL), held) })
        .is_ok());
    let before = snapshot(&ledger);
    assert_eq!(unstake(&mut ledger, &unstaking(), 5), Err(StakingError::MathOverflow));
    assert_eq!(snapshot(&ledger), before);
    assert!(unstake(&mut ledger, &unstaking(), 4).is_ok());
}

#[test]
fn unstake_to_a_wallet_that_cannot_take_it() {
    let mut ledger = Ledger::new();
    let open = StakingPool { capsule_id: s("c"), total_staked: 500, creator: key(CREATOR), bump: 0 };
    let held = UserStake { user: key(USER), amount: 500, staked_at: 0, bump: 0 };
    assert!(ledger
        .insert(Account { key: key(POOL), lamports: 500, record: Record::StakingPool(open) })
        .is_ok());
    assert!(ledger
        .insert(Account { key: key(USER_STAKE), lamports: 0, record: Record::UserStake(key(POOL), held) })
        .is_ok());
    assert!(ledger.insert(Account { key: key(USER), lamports: u64::MAX - 4, record: Record::Wallet }).is_ok());
    let before = snapshot(&ledger);
    assert_eq!(unstake(&mut ledger, &unstaking(), 5), Err(StakingError::MathOverflow));
    assert_eq!(snapshot(&ledger), before);
    assert!(unstake(&mut ledger, &unstaking(), 4).is_ok());
    assert_eq!(ledger.balance(&key(USER)), u64::MAX);
}

#[test]
fn unstake_opens_a_wallet_for_a_user_without_one() {
    let mut ledger = Ledger::new();
    let open = StakingPool { capsule_id: s("c"), total_staked: 500, creator: key(CREATOR), bump: 0 };
    let held = UserStake { user: key(USER), amount: 500, staked_at: 0, bump: 0 };
    assert!(ledger
        .insert(Account { key: key(POOL), lamports: 500, record: Record::StakingPool(open) })
        .is_ok());
    assert!(ledger
        .insert(Account { key: key(USER_STAKE), lamports: 0, record: Record::UserStake(key(POOL), held) })
        .is_ok());
    assert!(unstake(&mut ledger, &unstaking(), 5).is_ok());
    assert_eq!(ledger.get(&key(USER)), Some(&Account { key: key(USER), lamports: 5, record: Record::Wallet }));
    assert_eq!(ledger.len(), 3);
}

#[test]
fn the_total_is_the_sum_of_the_users_stakes() {
    let mut ledger = pool(0);
    let users: [(u8, u8); 3] = [(10, 20), (11, 21), (12, 22)];
    for (wallet, _) in users {
        assert!(ledger.insert(Account { key: key(wallet), lamports: 10_000, record: Record::Wallet }).is_ok());
    }
    // (user, stake or unstake, amount)
    let steps: [(usize, bool, u64); 10] = [
        (0, true, 500),
        (1, true, 700),
        (0, false, 200),
        (2, true, 1),
        (1, false, 700),
        (0, true, 9_000),
        (2, false, 2),
        (1, true, 10_000),
        (0, false, 9_300),
        (2, false, 1),
    ];
    let mut held: [u64; 3] = [0; 3];
    for (turn, (who, adds, amount)) in steps.iter().enumerate() {
        let (wallet, record) = users[*who];
        if *adds {
            let ctx = Stake { staking_pool: key(POOL), user_stake: key(record), user: key(wallet), bump: 1 };
            assert!(stake(&mut ledger, &ctx, *amount, turn as i64).is_ok());
            held[*who] += *amount;
        } else {
            let ctx = Unstake { staking_pool: key(POOL), user_stake: key(record), user: key(wallet) };
            let r = unstake(&mut ledger, &ctx, *amount);
            if *amount > held[*who] {
                assert_eq!(r, Err(StakingError::InsufficientStake));
            } else {
                assert!(r.is_ok());
                held[*who] -= *amount;
            }
        }
        let mut sum: u64 = 0;
        for (i, (w, r)) in users.iter().enumerate() {
            let amount = ledger.user_stake(&key(*r)).map(|stake| stake.amount).unwrap_or(0);
            assert_eq!(amount, held[i]);
            assert_eq!(ledger.balance(&key(*w)), 10_000 - held[i]);
            sum += amount;
        }
        assert_eq!(ledger.staking_pool(&key(POOL)).unwrap().total_staked, sum);
        assert_eq!(ledger.balance(&key(POOL)), sum);
    }
    assert_eq!(held, [0, 10_000, 0]);
}

#[test]
fn pools_by_identity() {
    let mut ledger = Ledger::new();
    let creator = key(CREATOR);
    let user = key(USER);
    let opened = ledger.initialize_pool(&creator, s("capsule-1"));
    let pool = InitializePool::resolve(&creator, "capsule-1").unwrap();
    assert_eq!(opened, Ok(Receipt { record: pool.staking_pool, movement: Movement::Nothing }));
    assert_eq!(ledger.staking_pool(&pool.staking_pool).unwrap().bump, pool.bump);
    assert_eq!(ledger.staking_pool(&pool.staking_pool).unwrap().creator, creator);
    // One pool per capsule identifier, whoever asks.
    assert_eq!(ledger.initialize_pool(&key(9), s("capsule-1")), Err(StakingError::AlreadyExists));

    assert!(ledger.insert(Account { key: user, lamports: 1_000, record: Record::Wallet }).is_ok());
    let accounts = Stake::resolve(&user, &pool.staking_pool).unwrap();
    let r = ledger.stake(&user, &pool.staking_pool, 600, 5);
    assert_eq!(r, Ok(Receipt { record: pool.staking_pool, movement: Movement::Into(600) }));
    assert_eq!(
        ledger.user_stake(&accounts.user_stake),
        Some(&UserStake { user, amount: 600, staked_at: 5, bump: accounts.bump })
    );
    assert_eq!(ledger.unstake(&user, &pool.staking_pool, 601), Err(StakingError::InsufficientStake));
    let r = ledger.unstake(&user, &pool.staking_pool, 600);
    assert_eq!(r, Ok(Receipt { record: pool.staking_pool, movement: Movement::OutOf(600) }));
    assert_eq!(ledger.balance(&user), 1_000);
    assert_eq!(ledger.staking_pool(&pool.staking_pool).unwrap().total_staked, 0);

    assert_eq!(ledger.stake(&user, &key(90), 5, 1), Err(StakingError::PoolNotFound));
    assert_eq!(ledger.stake(&user, &pool.staking_pool, 0, 1), Err(StakingError::InvalidAmount));
    assert_eq!(ledger.unstake(&key(9), &pool.staking_pool, 5), Err(StakingError::StakeNotFound));
    assert_eq!(ledger.unstake(&user, &key(90), 5), Err(StakingError::PoolNotFound));
    assert_eq!(ledger.unstake(&user, &pool.staking_pool, 0), Err(StakingError::InsufficientStake));
}

#[test]
fn a_pool_identifier_that_is_no_seed_has_no_address() {
    let mut ledger = Ledger::new();
    // Short enough to store, too long to address.
    assert_eq!(
        ledger.initialize_pool(&key(CREATOR), "c".repeat(33)),
        Err(StakingError::AddressUnavailable)
    );
    assert_eq!(
        ledger.initialize_pool(&key(CREATOR), "c".repeat(64)),
        Err(StakingError::AddressUnavailable)
    );
    assert_eq!(
        ledger.initialize_pool(&key(CREATOR), "c".repeat(65)),
        Err(StakingError::InvalidMetadataLength)
    );
    assert_eq!(ledger.len(), 0);
    assert!(ledger.initialize_pool(&key(CREATOR), "c".repeat(32)).is_ok());
}

fn next(state: &mut u64) -> u64 {
    *state = state.wrapping_mul(6364136223846793005).wrapping_add(1442695040888963407);
    *state >> 33
}

#[test]
fn random_stakes_and_unstakes_keep_the_books() {
    let mut seed: u64 = 0xC0FFEE;
    let mut ledger = Ledger::new();
    let pools: [u8; 2] = [100, 101];
    for (i, at) in pools.iter().enumerate() {
        let ctx = InitializePool { staking_pool: key(*at), creator: key(CREATOR), bump: 1 };
        assert!(initialize_pool(&mut ledger, &ctx, format!("capsule-{}", i)).is_ok());
    }
    let users: [u8; 3] = [10, 11, 12];
    let funds: u64 = 1_000_000;
    for user in users {
        assert!(ledger.insert(Account { key: key(user), lamports: funds, record: Record::Wallet }).is_ok());
    }
    // held[pool][user]
    let mut held = [[0u64; 3]; 2];
    for turn in 0..600 {
        let p = (next(&mut seed) % 2) as usize;
        let u = (next(&mut seed) % 3) as usize;
        let amount = next(&mut seed) % 300_000;
        let record = key(150 + (p * 3 + u) as u8);
        let in_wallet = funds - held[0][u] - held[1][u];
        let before = snapshot(&ledger);
        if next(&mut seed) % 2 == 0 {
            let ctx = Stake { staking_pool: key(pools[p]), user_stake: record, user: key(users[u]), bump: 1 };
            let r = stake(&mut ledger, &ctx, amount, turn);
            if amount == 0 {
                assert_eq!(r, Err(StakingError::InvalidAmount));
            } else if amount > in_wallet {
                assert_eq!(r, Err(StakingError::InsufficientPayment));
            } else {
                assert_eq!(r, Ok(Receipt { record: key(pools[p]), movement: Movement::Into(amount) }));
                held[p][u] += amount;
            }
            if r.is_err() {
                assert_eq!(snapshot(&ledger), before);
            }
        } else {
            let ctx = Unstake { staking_pool: key(pools[p]), user_stake: record, user: key(users[u]) };
            let r = unstake(&mut ledger, &ctx, amount);
            if amount == 0 {
                assert_eq!(r, Err(StakingError::InsufficientStake));
            } else if ledger.user_stake(&record).is_none() {
                assert_eq!(r, Err(StakingError::StakeNotFound));
            } else if amount > held[p][u] {
                assert_eq!(r, Err(StakingError::InsufficientStake));
            } else {
                assert_eq!(r, Ok(Receipt { record: key(pools[p]), movement: Movement::OutOf(amount) }));
                held[p][u] -= amount;
            }
            if r.is_err() {
                assert_eq!(snapshot(&ledger), before);
            }
        }
        for pi in 0..2 {
            let mut total: u64 = 0;
            for ui in 0..3 {
                let at = key(150 + (pi * 3 + ui) as u8);
                let amount = ledger.user_stake(&at).map(|stake| stake.amount).unwrap_or(0);
                assert_eq!(amount, held[pi][ui]);
                total += amount;
            }
            assert_eq!(ledger.staking_pool(&key(pools[pi])).unwrap().total_staked, total);
            assert_eq!(ledger.balance(&key(pools[pi])), total);
        }
        for ui in 0..3 {
            assert_eq!(ledger.balance(&key(users[ui])), funds - held[0][ui] - held[1][ui]);
        }
    }
}
