use solmind::address::Address;
use solmind::error::SolMindError;
use solmind::ledger::{Account, Ledger, Record};
use solmind::receipt::{Movement, Receipt};
use solmind::registry::{register_agent, RegisterAgent};
use solmind::state::Agent;

fn key(n: u8) -> Address {
    Address::new([n; 32])
}

fn s(text: &str) -> String {
    text.to_string()
}

fn snapshot(ledger: &Ledger) -> String {
    format!("{:?}", ledger)
}

#[test]
fn registration_writes_the_agent() {
    let mut ledger = Ledger::new();
    let ctx = RegisterAgent { owner: key(1), agent: key(2), bump: 250 };
    let r = register_agent(&mut ledger, &ctx, s("a-1"), s("Agent"), s("The Agent"), s("openai"), 1234);
    assert_eq!(r, Ok(Receipt { record: key(2), movement: Movement::Nothing }));
    assert_eq!(ledger.len(), 1);
    assert_eq!(
        ledger.agent(&key(2)),
        Some(&Agent {
            owner: key(1),
            agent_id: s("a-1"),
            name: s("Agent"),
            display_name: s("The Agent"),
            platform: s("openai"),
            created_at: 1234,
            usage_count: 0,
            reputation: 10000,
            bump: 250,
        })
    );
    assert_eq!(ledger.balance(&key(2)), 0);
}

#[test]
fn second_registration_at_the_address_is_refused() {
    let mut ledger = Ledger::new();
    let ctx = RegisterAgent { owner: key(1), agent: key(2), bump: 250 };
    assert!(register_agent(&mut ledger, &ctx, s("a-1"), s("n"), s("d"), s("p"), 1).is_ok());
    let before = snapshot(&ledger);
    let r = register_agent(&mut ledger, &ctx, s("a-1"), s("other"), s("other"), s("other"), 2);
    assert_eq!(r, Err(SolMindError::AlreadyExists));
    assert_eq!(snapshot(&ledger), before);
    assert_eq!(ledger.agent(&key(2)).unwrap().name, "n");
}

#[test]
fn registration_at_an_address_that_a_wallet_holds_is_refused() {
    let mut ledger = Ledger::new();
    assert!(ledger.insert(Account { key: key(2), lamports: 1, record: Record::Wallet }).is_ok());
    let ctx = RegisterAgent { owner: key(1), agent: key(2), bump: 250 };
    let r = register_agent(&mut ledger, &ctx, s("a-1"), s("n"), s("d"), s("p"), 1);
    assert_eq!(r, Err(SolMindError::AlreadyExists));
    assert_eq!(ledger.len(), 1);
}

#[test]
fn registration_with_bad_fields_changes_nothing() {
    let mut ledger = Ledger::new();
    let ctx = RegisterAgent { owner: key(1), agent: key(2), bump: 250 };
    let r = register_agent(&mut ledger, &ctx, s(" "), s("n"), s("d"), s("p"), 1);
    assert_eq!(r, Err(SolMindError::EmptyString));
    let r = register_agent(&mut ledger, &ctx, s("a"), s("n"), s("d"), "p".repeat(33), 1);
    assert_eq!(r, Err(SolMindError::InvalidMetadataLength));
    assert_eq!(ledger.len(), 0);
}

#[test]
fn bad_fields_count_before_a_taken_address() {
    let mut ledger = Ledger::new();
    let ctx = RegisterAgent { owner: key(1), agent: key(2), bump: 250 };
    assert!(register_agent(&mut ledger, &ctx, s("a-1"), s("n"), s("d"), s("p"), 1).is_ok());
    let r = register_agent(&mut ledger, &ctx, s("a-1"), s(""), s("d"), s("p"), 1);
    assert_eq!(r, Err(SolMindError::EmptyString));
}

#[test]
fn an_owner_registers_each_identifier_once() {
    let mut ledger = Ledger::new();
    let owner = key(1);
    let first = ledger.register_agent(&owner, s("helper"), s("Helper"), s("Helper"), s("openai"), 10);
    let agent = RegisterAgent::resolve(&owner, "helper").unwrap();
    assert_eq!(first, Ok(Receipt { record: agent.agent, movement: Movement::Nothing }));
    let registered = ledger.agent(&agent.agent).unwrap();
    assert_eq!(registered.reputation, 10000);
    assert_eq!(registered.usage_count, 0);
    assert_eq!(registered.owner, owner);
    assert_eq!(registered.agent_id, "helper");
    assert_eq!(registered.created_at, 10);
    assert_eq!(registered.bump, agent.bump);

    let before = snapshot(&ledger);
    let second = ledger.register_agent(&owner, s("helper"), s("Again"), s("Again"), s("mistral"), 20);
    assert_eq!(second, Err(SolMindError::AlreadyExists));
    assert_eq!(snapshot(&ledger), before);

    // Another identifier, and another owner, are other agents.
    assert!(ledger.register_agent(&owner, s("helper-2"), s("n"), s("d"), s("p"), 30).is_ok());
    assert!(ledger.register_agent(&key(2), s("helper"), s("n"), s("d"), s("p"), 30).is_ok());
    assert_eq!(ledger.len(), 3);
}

#[test]
fn an_identifier_too_long_for_a_seed_is_refused_for_its_length() {
    let mut ledger = Ledger::new();
    let r = ledger.register_agent(&key(1), "i".repeat(33), s("n"), s("d"), s("p"), 1);
    assert_eq!(r, Err(SolMindError::InvalidMetadataLength));
    let r = ledger.register_agent(&key(1), "i".repeat(33), s("n"), s(" "), s("p"), 1);
    assert_eq!(r, Err(SolMindError::EmptyString));
    assert_eq!(ledger.len(), 0);
    assert!(ledger.register_agent(&key(1), "i".repeat(32), s("n"), s("d"), s("p"), 1).is_ok());
}
