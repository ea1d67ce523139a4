//! The agent registry: one agent per owner and identifier.

use vstd::prelude::*;
use vstd::string::StrSliceExecFns;
use vstd::utf8::encode_utf8;
use crate::address::{address, address_for, views, Address, Kind};
use crate::consistency::{consistent, lemma_neutral_put};
use crate::constants::{INITIAL_REPUTATION, MAX_ID_LENGTH, MAX_LABEL_LENGTH, MAX_NAME_LENGTH};
use crate::error::SolMindError;
use crate::ledger::{agent_at, holds, lemma_put, put, unique_keys, Account, Ledger, Record};
use crate::receipt::{Movement, Receipt};
use crate::state::Agent;
use crate::text::{empty_field, is_empty_field, is_oversized_field, oversized_field};

verus! {

/// The accounts of a registration.
#[derive(Clone, Copy, Debug, PartialEq, Eq)]
pub struct RegisterAgent {
    /// Wallet that registers the agent, and owns it.
    pub owner: Address,
    /// Address of the agent to create.
    pub agent: Address,
    /// Proof that goes with the agent's address.
    pub bump: u8,
}

/// What is wrong with the text fields of an agent, if anything: an empty
/// field counts before a field that is too long.
pub open spec fn agent_fields_error(
    agent_id: Seq<char>,
    name: Seq<char>,
    display_name: Seq<char>,
    platform: Seq<char>,
) -> Option<SolMindError> {
    if empty_field(agent_id) || empty_field(name) || empty_field(display_name) || empty_field(
        platform,
    ) {
        Some(SolMindError::EmptyString)
    } else if oversized_field(agent_id, MAX_ID_LENGTH) || oversized_field(name, MAX_NAME_LENGTH)
        || oversized_field(display_name, MAX_NAME_LENGTH) || oversized_field(
        platform,
        MAX_LABEL_LENGTH,
    ) {
        Some(SolMindError::InvalidMetadataLength)
    } else {
        None
    }
}

/// Checks the text fields of an agent.
pub fn check_agent_fields(agent_id: &str, name: &str, display_name: &str, platform: &str) -> (r: Result<
    (),
    SolMindError,
>)
    ensures
        r == match agent_fields_error(agent_id@, name@, display_name@, platform@) {
            Some(e) => Err::<(), SolMindError>(e),
            None => Ok::<(), SolMindError>(()),
        },
{
    if is_empty_field(agent_id) || is_empty_field(name) || is_empty_field(display_name)
        || is_empty_field(platform) {
        return Err(SolMindError::EmptyString);
    }
    if is_oversized_field(agent_id, MAX_ID_LENGTH) || is_oversized_field(name, MAX_NAME_LENGTH)
        || is_oversized_field(display_name, MAX_NAME_LENGTH) || is_oversized_field(
        platform,
        MAX_LABEL_LENGTH,
    ) {
        return Err(SolMindError::InvalidMetadataLength);
    }
    Ok(())
}

/// Why a registration is refused, if it is.
pub open spec fn register_agent_error(
    s: Seq<Account>,
    ctx: RegisterAgent,
    agent_id: Seq<char>,
    name: Seq<char>,
    display_name: Seq<char>,
    platform: Seq<char>,
) -> Option<SolMindError> {
    match agent_fields_error(agent_id, name, display_name, platform) {
        Some(e) => Some(e),
        None => if holds(s, ctx.agent) {
            Some(SolMindError::AlreadyExists)
        } else {
            None
        },
    }
}

/// The account of an agent that was registered at `now`: it holds no value,
/// has not been used, and has full reputation.
pub open spec fn registered_agent(
    ctx: RegisterAgent,
    agent_id: String,
    name: String,
    display_name: String,
    platform: String,
    now: i64,
) -> Account {
    Account {
        key: ctx.agent,
        lamports: 0,
        record: Record::Agent(
            Agent {
                owner: ctx.owner,
                agent_id,
                name,
                display_name,
                platform,
                created_at: now,
                usage_count: 0,
                reputation: INITIAL_REPUTATION,
                bump: ctx.bump,
            },
        ),
    }
}

/// Registers an agent at `now`. Nothing changes where the registration is
/// refused.
pub fn register_agent(
    ledger: &mut Ledger,
    ctx: &RegisterAgent,
    agent_id: String,
    name: String,
    display_name: String,
    platform: String,
    now: i64,
) -> (r: Result<Receipt, SolMindError>)
    requires
        old(ledger).wf(),
    ensures
        final(ledger).wf(),
        match register_agent_error(old(ledger)@, *ctx, agent_id@, name@, display_name@, platform@) {
            Some(e) => r == Err::<Receipt, SolMindError>(e) && final(ledger)@ == old(ledger)@,
            None => r == Ok::<Receipt, SolMindError>(
                Receipt { record: ctx.agent, movement: Movement::Nothing },
            ) && final(ledger)@ == old(ledger)@.push(
                registered_agent(*ctx, agent_id, name, display_name, platform, now),
            ),
        },
        consistent(old(ledger)@) ==> consistent(final(ledger)@),
{
    match check_agent_fields(agent_id.as_str(), name.as_str(), display_name.as_str(), platform.as_str()) {
        Err(e) => {
            return Err(e);
        },
        Ok(()) => {},
    }
    if ledger.find(&ctx.agent).is_some() {
        return Err(SolMindError::AlreadyExists);
    }
    proof {
        if consistent(ledger@) {
            lemma_neutral_put(
                ledger@,
                registered_agent(*ctx, agent_id, name, display_name, platform, now),
            );
        }
    }
    let mut agent = Agent::default();
    let _ = agent.initialize(ctx.owner, agent_id, name, display_name, platform, ctx.bump, now);
    ledger.push(Account { key: ctx.agent, lamports: 0, record: Record::Agent(agent) });
    Ok(Receipt { record: ctx.agent, movement: Movement::Nothing })
}

/// The accounts of the registration of the agent that `owner` calls
/// `agent_id`. There are none where `agent_id` is too long to be a seed, or
/// where no address can be derived.
pub open spec fn agent_accounts(owner: Address, agent_id: Seq<char>) -> Option<RegisterAgent> {
    match address_for(Kind::Agent, seq![owner@, encode_utf8(agent_id)]) {
        Some((agent, bump)) => Some(RegisterAgent { owner, agent, bump }),
        None => None,
    }
}

impl RegisterAgent {
    /// Finds the accounts of the registration of the agent that `owner` calls
    /// `agent_id`.
    pub fn resolve(owner: &Address, agent_id: &str) -> (r: Option<RegisterAgent>)
        ensures
            r == agent_accounts(*owner, agent_id@),
    {
        let mut parts: Vec<Vec<u8>> = Vec::new();
        parts.push(owner.seed());
        parts.push(agent_id.as_bytes_vec());
        assert(views(parts@) == seq![owner@, encode_utf8(agent_id@)]);
        match address(Kind::Agent, &parts) {
            Some((agent, bump)) => Some(RegisterAgent { owner: *owner, agent, bump }),
            None => None,
        }
    }
}

impl Ledger {
    /// Registers the agent that `owner` calls `agent_id`, at the address that
    /// follows from the two. Nothing changes where the registration is
    /// refused.
    pub fn register_agent(
        &mut self,
        owner: &Address,
        agent_id: String,
        name: String,
        display_name: String,
        platform: String,
        now: i64,
    ) -> (r: Result<Receipt, SolMindError>)
        requires
            old(self).wf(),
        ensures
            final(self).wf(),
            match agent_accounts(*owner, agent_id@) {
                Some(ctx) => match register_agent_error(
                    old(self)@,
                    ctx,
                    agent_id@,
                    name@,
                    display_name@,
                    platform@,
                ) {
                    Some(e) => r == Err::<Receipt, SolMindError>(e) && final(self)@ == old(self)@,
                    None => r == Ok::<Receipt, SolMindError>(
                        Receipt { record: ctx.agent, movement: Movement::Nothing },
                    ) && final(self)@ == old(self)@.push(
                        registered_agent(ctx, agent_id, name, display_name, platform, now),
                    ),
                },
                None => final(self)@ == old(self)@ && r == Err::<Receipt, SolMindError>(
                    match agent_fields_error(agent_id@, name@, display_name@, platform@) {
                        Some(e) => e,
                        None => SolMindError::AddressUnavailable,
                    },
                ),
            },
            consistent(old(self)@) ==> consistent(final(self)@),
    {
        match RegisterAgent::resolve(owner, agent_id.as_str()) {
            Some(ctx) => register_agent(self, &ctx, agent_id, name, display_name, platform, now),
            None => match check_agent_fields(
                agent_id.as_str(),
                name.as_str(),
                display_name.as_str(),
                platform.as_str(),
            ) {
                Err(e) => Err(e),
                Ok(()) => Err(SolMindError::AddressUnavailable),
            },
        }
    }
}

/// An agent is registered once: after a registration has been accepted, a
/// second one under the same owner and identifier is refused because the
/// agent already exists, whatever valid fields it brings. The agent that was
/// registered has full reputation.
pub proof fn lemma_registered_once(
    s: Seq<Account>,
    owner: Address,
    agent_id: String,
    name: String,
    display_name: String,
    platform: String,
    now: i64,
    second_name: Seq<char>,
    second_display_name: Seq<char>,
    second_platform: Seq<char>,
)
    requires
        unique_keys(s),
        agent_accounts(owner, agent_id@) matches Some(ctx) && register_agent_error(
            s,
            ctx,
            agent_id@,
            name@,
            display_name@,
            platform@,
        ) is None,
        agent_fields_error(agent_id@, second_name, second_display_name, second_platform) is None,
    ensures
        ({
            let ctx = agent_accounts(owner, agent_id@).unwrap();
            let after = s.push(registered_agent(ctx, agent_id, name, display_name, platform, now));
            &&& unique_keys(after)
            &&& register_agent_error(
                after,
                ctx,
                agent_id@,
                second_name,
                second_display_name,
                second_platform,
            ) == Some(SolMindError::AlreadyExists)
            &&& agent_at(after, ctx.agent) matches Some(agent) && agent.reputation == 10000
                && agent.usage_count == 0 && agent.owner == owner && agent.agent_id == agent_id
        }),
{
    let ctx = agent_accounts(owner, agent_id@).unwrap();
    let account = registered_agent(ctx, agent_id, name, display_name, platform, now);
    assert(put(s, account) == s.push(account));
    lemma_put(s, account, ctx.agent);
}

} // verus!
