use solmind::address::Address;
use solmind::error::SolMindError;
use solmind::ledger::{Account, Ledger, Record};
use solmind::marketplace::{
    create_capsule, update_capsule_price, CreateCapsule, UpdateCapsulePrice,
};
use solmind::receipt::{Movement, Receipt};
use solmind::state::Capsule;

fn key(n: u8) -> Address {
    Address::new([n; 32])
}

fn s(text: &str) -> String {
    text.to_string()
}

fn snapshot(ledger: &Ledger) -> String {
    format!("{:?}", ledger)
}

fn with_capsule(price: u64) -> Ledger {
    let mut ledger = Ledger::new();
    let ctx = CreateCapsule { creator: key(1), capsule: key(2), bump: 251 };
    let r = create_capsule(&mut ledger, &ctx, s("c-1"), s("Capsule"), s("About"), s("notes"), price, 100);
    assert_eq!(r, Ok(Receipt { record: key(2), movement: Movement::Nothing }));
    ledger
}

#[test]
fn creation_writes_the_capsule() {
    let ledger = with_capsule(1_000_000);
    assert_eq!(
        ledger.capsule(&key(2)),
        Some(&Capsule {
            creator: key(1),
            capsule_id: s("c-1"),
            name: s("Capsule"),
            description: s("About"),
            category: s("notes"),
            price_per_query: 1_000_000,
            total_stake: 0,
            created_at: 100,
            updated_at: 100,
            bump: 251,
        })
    );
    assert_eq!(ledger.balance(&key(2)), 0);
    assert_eq!(ledger.len(), 1);
}

#[test]
fn creation_accepts_the_least_and_the_greatest_price() {
    assert_eq!(with_capsule(100_000).capsule(&key(2)).unwrap().price_per_query, 100_000);
    assert_eq!(
        with_capsule(100_000_000_000).capsule(&key(2)).unwrap().price_per_query,
        100_000_000_000
    );
}

#[test]
fn creation_refuses_a_price_out_of_range() {
    let mut ledger = Ledger::new();
    let ctx = CreateCapsule { creator: key(1), capsule: key(2), bump: 251 };
    let r = create_capsule(&mut ledger, &ctx, s("c"), s("n"), s("d"), s("k"), 99_999, 1);
    assert_eq!(r, Err(SolMindError::InvalidPrice));
    let r = create_capsule(&mut ledger, &ctx, s("c"), s("n"), s("d"), s("k"), 0, 1);
    assert_eq!(r, Err(SolMindError::InvalidPrice));
    let r = create_capsule(&mut ledger, &ctx, s("c"), s("n"), s("d"), s("k"), 100_000_000_001, 1);
    assert_eq!(r, Err(SolMindError::PriceTooHigh));
    let r = create_capsule(&mut ledger, &ctx, s("c"), s("n"), s("d"), s("k"), u64::MAX, 1);
    assert_eq!(r, Err(SolMindError::PriceTooHigh));
    assert_eq!(ledger.len(), 0);
}

#[test]
fn creation_checks_fields_before_the_price_and_the_price_before_the_address() {
    let mut ledger = with_capsule(1_000_000);
    let ctx = CreateCapsule { creator: key(1), capsule: key(2), bump: 251 };
    let before = snapshot(&ledger);
    let r = create_capsule(&mut ledger, &ctx, s(""), s("n"), s("d"), s("k"), 5, 1);
    assert_eq!(r, Err(SolMindError::EmptyString));
    let r = create_capsule(&mut ledger, &ctx, s("c"), s("n"), "d".repeat(513), s("k"), 5, 1);
    assert_eq!(r, Err(SolMindError::InvalidMetadataLength));
    let r = create_capsule(&mut ledger, &ctx, s("c"), s("n"), s("d"), s("k"), 5, 1);
    assert_eq!(r, Err(SolMindError::InvalidPrice));
    let r = create_capsule(&mut ledger, &ctx, s("c"), s("n"), s("d"), s("k"), 500_000, 1);
    assert_eq!(r, Err(SolMindError::AlreadyExists));
    assert_eq!(snapshot(&ledger), before);
}

#[test]
fn the_creator_changes_the_price() {
    let mut ledger = with_capsule(1_000_000);
    let ctx = UpdateCapsulePrice { creator: key(1), capsule: key(2) };
    let r = update_capsule_price(&mut ledger, &ctx, 2_500_000, 500);
    assert_eq!(r, Ok(Receipt { record: key(2), movement: Movement::Nothing }));
    assert_eq!(
        ledger.capsule(&key(2)),
        Some(&Capsule {
            creator: key(1),
            capsule_id: s("c-1"),
            name: s("Capsule"),
            description: s("About"),
            category: s("notes"),
            price_per_query: 2_500_000,
            total_stake: 0,
            created_at: 100,
            updated_at: 500,
            bump: 251,
        })
    );
    assert!(update_capsule_price(&mut ledger, &ctx, 100_000, 501).is_ok());
    assert!(update_capsule_price(&mut ledger, &ctx, 100_000_000_000, 502).is_ok());
    assert_eq!(ledger.capsule(&key(2)).unwrap().price_per_query, 100_000_000_000);
    assert_eq!(ledger.capsule(&key(2)).unwrap().updated_at, 502);
    assert_eq!(ledger.len(), 1);
}

#[test]
fn another_wallet_does_not_change_the_price() {
    let mut ledger = with_capsule(1_000_000);
    let before = snapshot(&ledger);
    let ctx = UpdateCapsulePrice { creator: key(9), capsule: key(2) };
    let r = update_capsule_price(&mut ledger, &ctx, 2_500_000, 500);
    assert_eq!(r, Err(SolMindError::Unauthorized));
    // The caller counts before the price.
    let r = update_capsule_price(&mut ledger, &ctx, 1, 500);
    assert_eq!(r, Err(SolMindError::Unauthorized));
    assert_eq!(snapshot(&ledger), before);
}

#[test]
fn a_price_out_of_range_does_not_change_the_capsule() {
    let mut ledger = with_capsule(1_000_000);
    let before = snapshot(&ledger);
    let ctx = UpdateCapsulePrice { creator: key(1), capsule: key(2) };
    assert_eq!(update_capsule_price(&mut ledger, &ctx, 99_999, 500), Err(SolMindError::InvalidPrice));
    assert_eq!(
        update_capsule_price(&mut ledger, &ctx, 100_000_000_001, 500),
        Err(SolMindError::PriceTooHigh)
    );
    assert_eq!(snapshot(&ledger), before);
    assert_eq!(ledger.capsule(&key(2)).unwrap().price_per_query, 1_000_000);
    assert_eq!(ledger.capsule(&key(2)).unwrap().updated_at, 100);
}

#[test]
fn a_price_change_needs_a_capsule() {
    let mut ledger = with_capsule(1_000_000);
    assert!(ledger.insert(Account { key: key(5), lamports: 1, record: Record::Wallet }).is_ok());
    let before = snapshot(&ledger);
    let absent = UpdateCapsulePrice { creator: key(1), capsule: key(3) };
    assert_eq!(
        update_capsule_price(&mut ledger, &absent, 1_000_000, 1),
        Err(SolMindError::CapsuleNotFound)
    );
    let wallet = UpdateCapsulePrice { creator: key(1), capsule: key(5) };
    assert_eq!(
        update_capsule_price(&mut ledger, &wallet, 1_000_000, 1),
        Err(SolMindError::CapsuleNotFound)
    );
    assert_eq!(snapshot(&ledger), before);
}

#[test]
fn a_creator_creates_each_identifier_once() {
    let mut ledger = Ledger::new();
    let creator = key(1);
    let made = ledger.create_capsule(&creator, s("notes"), s("n"), s("d"), s("k"), 1_000_000, 7);
    let ctx = CreateCapsule::resolve(&creator, "notes").unwrap();
    assert_eq!(made, Ok(Receipt { record: ctx.capsule, movement: Movement::Nothing }));
    assert_eq!(ledger.capsule(&ctx.capsule).unwrap().bump, ctx.bump);
    assert_eq!(ledger.capsule(&ctx.capsule).unwrap().creator, creator);
    let again = ledger.create_capsule(&creator, s("notes"), s("x"), s("y"), s("z"), 2_000_000, 8);
    assert_eq!(again, Err(SolMindError::AlreadyExists));
    assert_eq!(ledger.capsule(&ctx.capsule).unwrap().name, "n");
    assert!(ledger.create_capsule(&key(2), s("notes"), s("n"), s("d"), s("k"), 1_000_000, 7).is_ok());
    assert_eq!(ledger.len(), 2);
}

#[test]
fn creation_by_identifier_refuses_what_creation_refuses() {
    let mut ledger = Ledger::new();
    let creator = key(1);
    let r = ledger.create_capsule(&creator, "c".repeat(33), s("n"), s("d"), s("k"), 1_000_000, 7);
    assert_eq!(r, Err(SolMindError::InvalidMetadataLength));
    let r = ledger.create_capsule(&creator, "c".repeat(33), s(" "), s("d"), s("k"), 1_000_000, 7);
    assert_eq!(r, Err(SolMindError::EmptyString));
    let r = ledger.create_capsule(&creator, s("c"), s("n"), s("d"), s("k"), 99_999, 7);
    assert_eq!(r, Err(SolMindError::InvalidPrice));
    let r = ledger.create_capsule(&creator, s("c"), s("n"), s("d"), s("k"), 100_000_000_001, 7);
    assert_eq!(r, Err(SolMindError::PriceTooHigh));
    assert_eq!(ledger.len(), 0);
}
