use solmind::address::Address;
use solmind::error::SolMindError;
use solmind::escrow::{add_earnings, withdraw_earnings, WithdrawEarnings};
use solmind::ledger::{Account, Ledger, Record};
use solmind::receipt::{Movement, Receipt};
use solmind::state::Earnings;

fn key(n: u8) -> Address {
    Address::new([n; 32])
}

fn snapshot(ledger: &Ledger) -> String {
    format!("{:?}", ledger)
}

const WALLET: u8 = 1;
const CAPSULE: u8 = 2;
const ESCROW: u8 = 3;
const RESERVATION: u64 = 1_000;

fn escrow(lamports: u64) -> Ledger {
    let mut ledger = Ledger::new();
    let mut record = Earnings::default();
    assert_eq!(record.initialize(key(WALLET), key(CAPSULE), 250, 10), Ok(()));
    assert!(ledger
        .insert(Account { key: key(ESCROW), lamports, record: Record::Earnings(record) })
        .is_ok());
    ledger
}

fn accounts() -> WithdrawEarnings {
    WithdrawEarnings { creator: key(WALLET), earnings: key(ESCROW), wallet: key(WALLET) }
}

#[test]
fn additions_add_up_and_are_counted() {
    let mut ledger = escrow(1_000_000);
    let amounts: [u64; 5] = [100_000, 250_000, 1, 0, 99_999];
    let mut now: i64 = 20;
    for amount in amounts {
        let r = add_earnings(&mut ledger, &key(ESCROW), amount, now);
        assert_eq!(r, Ok(Receipt { record: key(ESCROW), movement: Movement::Nothing }));
        now += 1;
    }
    assert_eq!(
        ledger.earnings(&key(ESCROW)),
        Some(&Earnings {
            wallet: key(WALLET),
            capsule: key(CAPSULE),
            total_earnings: 450_000,
            query_count: 5,
            last_updated: 24,
            bump: 250,
        })
    );
    assert_eq!(ledger.balance(&key(ESCROW)), 1_000_000);
    assert_eq!(ledger.len(), 1);
}

#[test]
fn additions_need_an_earnings_record() {
    let mut ledger = escrow(0);
    assert!(ledger.insert(Account { key: key(9), lamports: 5, record: Record::Wallet }).is_ok());
    let before = snapshot(&ledger);
    assert_eq!(add_earnings(&mut ledger, &key(8), 5, 1), Err(SolMindError::Unauthorized));
    assert_eq!(add_earnings(&mut ledger, &key(9), 5, 1), Err(SolMindError::Unauthorized));
    assert_eq!(snapshot(&ledger), before);
}

#[test]
fn an_addition_that_overflows_changes_nothing() {
    let mut ledger = escrow(0);
    assert!(add_earnings(&mut ledger, &key(ESCROW), u64::MAX, 1).is_ok());
    let before = snapshot(&ledger);
    assert_eq!(add_earnings(&mut ledger, &key(ESCROW), 1, 2), Err(SolMindError::MathOverflow));
    assert_eq!(snapshot(&ledger), before);
    assert!(add_earnings(&mut ledger, &key(ESCROW), 0, 3).is_ok());
    assert_eq!(ledger.earnings(&key(ESCROW)).unwrap().query_count, 2);
}

#[test]
fn round_trip_pays_the_sum_and_keeps_the_count() {
    let mut ledger = escrow(RESERVATION + 600_000);
    let amounts: [u64; 4] = [100_000, 200_000, 50_000, 150_000];
    for (i, amount) in amounts.iter().enumerate() {
        assert!(add_earnings(&mut ledger, &key(ESCROW), *amount, 100 + i as i64).is_ok());
    }
    let r = withdraw_earnings(&mut ledger, &accounts(), RESERVATION);
    assert_eq!(r, Ok(Receipt { record: key(ESCROW), movement: Movement::OutOf(500_000) }));
    assert_eq!(ledger.balance(&key(WALLET)), 500_000);
    assert_eq!(ledger.balance(&key(ESCROW)), RESERVATION + 100_000);
    assert_eq!(
        ledger.earnings(&key(ESCROW)),
        Some(&Earnings {
            wallet: key(WALLET),
            capsule: key(CAPSULE),
            total_earnings: 0,
            query_count: 4,
            last_updated: 103,
            bump: 250,
        })
    );
    assert_eq!(ledger.get(&key(WALLET)).unwrap().record, Record::Wallet);
}

#[test]
fn withdrawal_adds_to_a_wallet_that_exists() {
    let mut ledger = escrow(RESERVATION + 300);
    assert!(ledger.insert(Account { key: key(WALLET), lamports: 42, record: Record::Wallet }).is_ok());
    assert!(add_earnings(&mut ledger, &key(ESCROW), 300, 1).is_ok());
    assert!(withdraw_earnings(&mut ledger, &accounts(), RESERVATION).is_ok());
    assert_eq!(ledger.balance(&key(WALLET)), 342);
    assert_eq!(ledger.balance(&key(ESCROW)), RESERVATION);
    assert_eq!(ledger.len(), 2);
}

#[test]
fn a_second_withdrawal_finds_nothing() {
    let mut ledger = escrow(RESERVATION + 300);
    assert!(add_earnings(&mut ledger, &key(ESCROW), 300, 1).is_ok());
    assert!(withdraw_earnings(&mut ledger, &accounts(), RESERVATION).is_ok());
    let before = snapshot(&ledger);
    assert_eq!(
        withdraw_earnings(&mut ledger, &accounts(), RESERVATION),
        Err(SolMindError::InsufficientPayment)
    );
    assert_eq!(snapshot(&ledger), before);
    // Earnings accrue again, on top of the kept count.
    assert!(ledger.insert(Account { key: key(20), lamports: 0, record: Record::Wallet }).is_ok());
    assert!(add_earnings(&mut ledger, &key(ESCROW), 7, 2).is_ok());
    assert_eq!(ledger.earnings(&key(ESCROW)).unwrap().total_earnings, 7);
    assert_eq!(ledger.earnings(&key(ESCROW)).unwrap().query_count, 2);
}

#[test]
fn only_the_named_wallet_withdraws() {
    let mut ledger = escrow(RESERVATION + 300);
    assert!(add_earnings(&mut ledger, &key(ESCROW), 300, 1).is_ok());
    let before = snapshot(&ledger);
    let stranger = WithdrawEarnings { creator: key(9), earnings: key(ESCROW), wallet: key(9) };
    assert_eq!(
        withdraw_earnings(&mut ledger, &stranger, RESERVATION),
        Err(SolMindError::Unauthorized)
    );
    let elsewhere = WithdrawEarnings { creator: key(WALLET), earnings: key(ESCROW), wallet: key(9) };
    assert_eq!(
        withdraw_earnings(&mut ledger, &elsewhere, RESERVATION),
        Err(SolMindError::Unauthorized)
    );
    let for_owner = WithdrawEarnings { creator: key(9), earnings: key(ESCROW), wallet: key(WALLET) };
    assert_eq!(
        withdraw_earnings(&mut ledger, &for_owner, RESERVATION),
        Err(SolMindError::Unauthorized)
    );
    assert_eq!(snapshot(&ledger), before);
    assert_eq!(ledger.earnings(&key(ESCROW)).unwrap().total_earnings, 300);
}

#[test]
fn withdrawal_needs_an_earnings_record() {
    let mut ledger = escrow(RESERVATION);
    assert!(ledger.insert(Account { key: key(9), lamports: 5_000, record: Record::Wallet }).is_ok());
    let before = snapshot(&ledger);
    let absent = WithdrawEarnings { earnings: key(8), ..accounts() };
    assert_eq!(withdraw_earnings(&mut ledger, &absent, 0), Err(SolMindError::Unauthorized));
    let wallet = WithdrawEarnings { earnings: key(9), ..accounts() };
    assert_eq!(withdraw_earnings(&mut ledger, &wallet, 0), Err(SolMindError::Unauthorized));
    assert_eq!(snapshot(&ledger), before);
}

#[test]
fn the_caller_counts_before_the_earnings() {
    let mut ledger = escrow(RESERVATION);
    let stranger = WithdrawEarnings { creator: key(9), earnings: key(ESCROW), wallet: key(9) };
    assert_eq!(
        withdraw_earnings(&mut ledger, &stranger, RESERVATION),
        Err(SolMindError::Unauthorized)
    );
    assert_eq!(
        withdraw_earnings(&mut ledger, &accounts(), RESERVATION),
        Err(SolMindError::InsufficientPayment)
    );
}

#[test]
fn the_escrow_keeps_its_reservation() {
    let mut ledger = escrow(RESERVATION + 299);
    assert!(add_earnings(&mut ledger, &key(ESCROW), 300, 1).is_ok());
    let before = snapshot(&ledger);
    assert_eq!(
        withdraw_earnings(&mut ledger, &accounts(), RESERVATION),
        Err(SolMindError::InsufficientPayment)
    );
    assert_eq!(snapshot(&ledger), before);
    // With a smaller reservation the balance covers the earnings.
    assert!(withdraw_earnings(&mut ledger, &accounts(), RESERVATION - 1).is_ok());
    assert_eq!(ledger.balance(&key(ESCROW)), RESERVATION - 1);
    assert_eq!(ledger.balance(&key(WALLET)), 300);
}

#[test]
fn an_escrow_below_its_reservation_pays_nothing() {
    let mut ledger = escrow(500);
    assert!(add_earnings(&mut ledger, &key(ESCROW), 300, 1).is_ok());
    let before = snapshot(&ledger);
    assert_eq!(
        withdraw_earnings(&mut ledger, &accounts(), RESERVATION),
        Err(SolMindError::InsufficientPayment)
    );
    assert_eq!(
        withdraw_earnings(&mut ledger, &accounts(), u64::MAX),
        Err(SolMindError::InsufficientPayment)
    );
    assert_eq!(snapshot(&ledger), before);
}

#[test]
fn a_wallet_that_cannot_take_the_earnings() {
    let mut ledger = escrow(RESERVATION + 300);
    assert!(ledger
        .insert(Account { key: key(WALLET), lamports: u64::MAX - 299, record: Record::Wallet })
        .is_ok());
    assert!(add_earnings(&mut ledger, &key(ESCROW), 300, 1).is_ok());
    let before = snapshot(&ledger);
    assert_eq!(
        withdraw_earnings(&mut ledger, &accounts(), RESERVATION),
        Err(SolMindError::MathOverflow)
    );
    assert_eq!(snapshot(&ledger), before);
}

#[test]
fn an_escrow_that_names_itself_keeps_its_balance() {
    let mut ledger = Ledger::new();
    let record = Earnings {
        wallet: key(ESCROW),
        capsule: key(CAPSULE),
        total_earnings: 300,
        query_count: 2,
        last_updated: 5,
        bump: 1,
    };
    assert!(ledger
        .insert(Account { key: key(ESCROW), lamports: u64::MAX, record: Record::Earnings(record) })
        .is_ok());
    let ctx = WithdrawEarnings { creator: key(ESCROW), earnings: key(ESCROW), wallet: key(ESCROW) };
    let r = withdraw_earnings(&mut ledger, &ctx, 0);
    assert_eq!(r, Ok(Receipt { record: key(ESCROW), movement: Movement::OutOf(300) }));
    assert_eq!(ledger.balance(&key(ESCROW)), u64::MAX);
    assert_eq!(ledger.earnings(&key(ESCROW)).unwrap().total_earnings, 0);
    assert_eq!(ledger.earnings(&key(ESCROW)).unwrap().query_count, 2);
    assert_eq!(ledger.len(), 1);
}

#[test]
fn withdrawal_by_identity_uses_the_derived_escrow() {
    let mut ledger = Ledger::new();
    let wallet = key(WALLET);
    let capsule = key(CAPSULE);
    let (escrow, bump) = WithdrawEarnings::earnings_address(&wallet, &capsule).unwrap();
    let mut record = Earnings::default();
    assert_eq!(record.initialize(wallet, capsule, bump, 1), Ok(()));
    assert!(ledger
        .insert(Account { key: escrow, lamports: 10_000, record: Record::Earnings(record) })
        .is_ok());
    assert!(add_earnings(&mut ledger, &escrow, 4_000, 2).is_ok());
    assert!(add_earnings(&mut ledger, &escrow, 5_000, 3).is_ok());
    // Another wallet has no escrow for the capsule.
    assert_eq!(
        ledger.withdraw_earnings(&key(9), &capsule, &key(9), 1_000),
        Err(SolMindError::Unauthorized)
    );
    assert_eq!(
        ledger.withdraw_earnings(&wallet, &capsule, &key(9), 1_000),
        Err(SolMindError::Unauthorized)
    );
    let r = ledger.withdraw_earnings(&wallet, &capsule, &wallet, 1_000);
    assert_eq!(r, Ok(Receipt { record: escrow, movement: Movement::OutOf(9_000) }));
    assert_eq!(ledger.balance(&wallet), 9_000);
    assert_eq!(ledger.balance(&escrow), 1_000);
    assert_eq!(ledger.earnings(&escrow).unwrap().query_count, 2);
    assert_eq!(ledger.earnings(&escrow).unwrap().total_earnings, 0);
}
