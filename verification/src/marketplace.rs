//! The capsule marketplace: capsules are published at a price per query, and
//! the creator of a capsule may change its price.

use vstd::prelude::*;
use vstd::string::StrSliceExecFns;
use vstd::utf8::encode_utf8;
use crate::address::{address, address_for, views, Address, Kind};
use crate::consistency::{consistent, lemma_neutral_put};
use crate::constants::{
    MAX_DESCRIPTION_LENGTH, MAX_ID_LENGTH, MAX_LABEL_LENGTH, MAX_NAME_LENGTH, MAX_PRICE_PER_QUERY,
    MIN_PRICE_PER_QUERY,
};
use crate::error::SolMindError;
use crate::ledger::{
    at, balance, capsule_at, holds, lemma_put, lemma_slot, put, slot, unique_keys, with_capsule,
    Account, Ledger, Record,
};
use crate::receipt::{Movement, Receipt};
use crate::state::Capsule;
use crate::text::{empty_field, is_empty_field, is_oversized_field, oversized_field};

verus! {

/// The accounts of the creation of a capsule.
#[derive(Clone, Copy, Debug, PartialEq, Eq)]
pub struct CreateCapsule {
    /// Wallet that creates the capsule.
    pub creator: Address,
    /// Address of the capsule to create.
    pub capsule: Address,
    /// Proof that goes with the capsule's address.
    pub bump: u8,
}

/// The accounts of a change of price.
#[derive(Clone, Copy, Debug, PartialEq, Eq)]
pub struct UpdateCapsulePrice {
    /// Wallet that asks for the change.
    pub creator: Address,
    /// Capsule whose price is to change.
    pub capsule: Address,
}

/// What is wrong with the text fields of a capsule, if anything: an empty
/// field counts before a field that is too long.
pub open spec fn capsule_fields_error(
    capsule_id: Seq<char>,
    name: Seq<char>,
    description: Seq<char>,
    category: Seq<char>,
) -> Option<SolMindError> {
    if empty_field(capsule_id) || empty_field(name) || empty_field(description) || empty_field(
        category,
    ) {
        Some(SolMindError::EmptyString)
    } else if oversized_field(capsule_id, MAX_ID_LENGTH) || oversized_field(name, MAX_NAME_LENGTH)
        || oversized_field(description, MAX_DESCRIPTION_LENGTH) || oversized_field(
        category,
        MAX_LABEL_LENGTH,
    ) {
        Some(SolMindError::InvalidMetadataLength)
    } else {
        None
    }
}

/// What is wrong with a price per query, if anything.
pub open spec fn price_error(price: u64) -> Option<SolMindError> {
    if price < MIN_PRICE_PER_QUERY {
        Some(SolMindError::InvalidPrice)
    } else if price > MAX_PRICE_PER_QUERY {
        Some(SolMindError::PriceTooHigh)
    } else {
        None
    }
}

/// Checks the text fields of a capsule.
pub fn check_capsule_fields(capsule_id: &str, name: &str, description: &str, category: &str) -> (r:
    Result<(), SolMindError>)
    ensures
        r == match capsule_fields_error(capsule_id@, name@, description@, category@) {
            Some(e) => Err::<(), SolMindError>(e),
            None => Ok::<(), SolMindError>(()),
        },
{
    if is_empty_field(capsule_id) || is_empty_field(name) || is_empty_field(description)
        || is_empty_field(category) {
        return Err(SolMindError::EmptyString);
    }
    if is_oversized_field(capsule_id, MAX_ID_LENGTH) || is_oversized_field(name, MAX_NAME_LENGTH)
        || is_oversized_field(description, MAX_DESCRIPTION_LENGTH) || is_oversized_field(
        category,
        MAX_LABEL_LENGTH,
    ) {
        return Err(SolMindError::InvalidMetadataLength);
    }
    Ok(())
}

/// Checks a price per query.
pub fn check_price(price: u64) -> (r: Result<(), SolMindError>)
    ensures
        r == match price_error(price) {
            Some(e) => Err::<(), SolMindError>(e),
            None => Ok::<(), SolMindError>(()),
        },
{
    if price < MIN_PRICE_PER_QUERY {
        return Err(SolMindError::InvalidPrice);
    }
    if price > MAX_PRICE_PER_QUERY {
        return Err(SolMindError::PriceTooHigh);
    }
    Ok(())
}

/// Why the creation of a capsule is refused, if it is.
pub open spec fn create_capsule_error(
    s: Seq<Account>,
    ctx: CreateCapsule,
    capsule_id: Seq<char>,
    name: Seq<char>,
    description: Seq<char>,
    category: Seq<char>,
    price_per_query: u64,
) -> Option<SolMindError> {
    if capsule_fields_error(capsule_id, name, description, category) is Some {
        capsule_fields_error(capsule_id, name, description, category)
    } else if price_error(price_per_query) is Some {
        price_error(price_per_query)
    } else if holds(s, ctx.capsule) {
        Some(SolMindError::AlreadyExists)
    } else {
        None
    }
}

/// The account of a capsule that was created at `now`: it holds no value and
/// nothing is staked on it.
pub open spec fn created_capsule(
    ctx: CreateCapsule,
    capsule_id: String,
    name: String,
    description: String,
    category: String,
    price_per_query: u64,
    now: i64,
) -> Account {
    Account {
        key: ctx.capsule,
        lamports: 0,
        record: Record::Capsule(
            Capsule {
                creator: ctx.creator,
                capsule_id,
                name,
                description,
                category,
                price_per_query,
                total_stake: 0,
                created_at: now,
                updated_at: now,
                bump: ctx.bump,
            },
        ),
    }
}

/// Creates a capsule at `now`. Nothing changes where the creation is refused.
pub fn create_capsule(
    ledger: &mut Ledger,
    ctx: &CreateCapsule,
    capsule_id: String,
    name: String,
    description: String,
    category: String,
    price_per_query: u64,
    now: i64,
) -> (r: Result<Receipt, SolMindError>)
    requires
        old(ledger).wf(),
    ensures
        final(ledger).wf(),
        match create_capsule_error(
            old(ledger)@,
            *ctx,
            capsule_id@,
            name@,
            description@,
            category@,
            price_per_query,
        ) {
            Some(e) => r == Err::<Receipt, SolMindError>(e) && final(ledger)@ == old(ledger)@,
            None => r == Ok::<Receipt, SolMindError>(
                Receipt { record: ctx.capsule, movement: Movement::Nothing },
            ) && final(ledger)@ == old(ledger)@.push(
                created_capsule(*ctx, capsule_id, name, description, category, price_per_query, now),
            ),
        },
        consistent(old(ledger)@) ==> consistent(final(ledger)@),
{
    match check_capsule_fields(capsule_id.as_str(), name.as_str(), description.as_str(), category.as_str()) {
        Err(e) => {
            return Err(e);
        },
        Ok(()) => {},
    }
    match check_price(price_per_query) {
        Err(e) => {
            return Err(e);
        },
        Ok(()) => {},
    }
    if ledger.find(&ctx.capsule).is_some() {
        return Err(SolMindError::AlreadyExists);
    }
    proof {
        if consistent(ledger@) {
            lemma_neutral_put(
                ledger@,
                created_capsule(*ctx, capsule_id, name, description, category, price_per_query, now),
            );
        }
    }
    let mut capsule = Capsule::default();
    let _ = capsule.initialize(
        ctx.creator,
        capsule_id,
        name,
        description,
        category,
        price_per_query,
        ctx.bump,
        now,
    );
    ledger.push(Account { key: ctx.capsule, lamports: 0, record: Record::Capsule(capsule) });
    Ok(Receipt { record: ctx.capsule, movement: Movement::Nothing })
}

/// Why a change of price is refused, if it is.
pub open spec fn update_capsule_price_error(
    s: Seq<Account>,
    ctx: UpdateCapsulePrice,
    new_price: u64,
) -> Option<SolMindError> {
    match capsule_at(s, ctx.capsule) {
        None => Some(SolMindError::CapsuleNotFound),
        Some(capsule) => if capsule.creator != ctx.creator {
            Some(SolMindError::Unauthorized)
        } else {
            price_error(new_price)
        },
    }
}

/// The ledger after the capsule's price was set to `new_price` at `now`. No
/// other field of the capsule changes, and no other account.
pub open spec fn update_capsule_price_effect(
    s: Seq<Account>,
    ctx: UpdateCapsulePrice,
    new_price: u64,
    now: i64,
) -> Seq<Account> {
    put(
        s,
        with_capsule(
            at(s, ctx.capsule).unwrap(),
            new_price,
            capsule_at(s, ctx.capsule).unwrap().total_stake,
            now,
        ),
    )
}

/// Sets the price of a capsule at `now`. Only the capsule's creator may do
/// so. Nothing changes where the change is refused.
pub fn update_capsule_price(ledger: &mut Ledger, ctx: &UpdateCapsulePrice, new_price: u64, now: i64) -> (r:
    Result<Receipt, SolMindError>)
    requires
        old(ledger).wf(),
    ensures
        final(ledger).wf(),
        match update_capsule_price_error(old(ledger)@, *ctx, new_price) {
            Some(e) => r == Err::<Receipt, SolMindError>(e) && final(ledger)@ == old(ledger)@,
            None => r == Ok::<Receipt, SolMindError>(
                Receipt { record: ctx.capsule, movement: Movement::Nothing },
            ) && final(ledger)@ == update_capsule_price_effect(old(ledger)@, *ctx, new_price, now),
        },
        consistent(old(ledger)@) ==> consistent(final(ledger)@),
{
    let c = match ledger.find(&ctx.capsule) {
        Some(c) => c,
        None => {
            return Err(SolMindError::CapsuleNotFound);
        },
    };
    let total = match &ledger.account(c).record {
        Record::Capsule(capsule) => {
            if capsule.creator != ctx.creator {
                return Err(SolMindError::Unauthorized);
            }
            capsule.total_stake
        },
        _ => {
            return Err(SolMindError::CapsuleNotFound);
        },
    };
    match check_price(new_price) {
        Err(e) => {
            return Err(e);
        },
        Ok(()) => {},
    }
    proof {
        if consistent(ledger@) {
            lemma_neutral_put(
                ledger@,
                with_capsule(at(ledger@, ctx.capsule).unwrap(), new_price, total, now),
            );
        }
    }
    ledger.update_capsule(c, new_price, total, now);
    Ok(Receipt { record: ctx.capsule, movement: Movement::Nothing })
}

/// The accounts of the creation of the capsule that `creator` calls
/// `capsule_id`. There are none where `capsule_id` is too long to be a seed,
/// or where no address can be derived.
pub open spec fn capsule_accounts(creator: Address, capsule_id: Seq<char>) -> Option<CreateCapsule> {
    match address_for(Kind::Capsule, seq![creator@, encode_utf8(capsule_id)]) {
        Some((capsule, bump)) => Some(CreateCapsule { creator, capsule, bump }),
        None => None,
    }
}

impl CreateCapsule {
    /// Finds the accounts of the creation of the capsule that `creator` calls
    /// `capsule_id`.
    pub fn resolve(creator: &Address, capsule_id: &str) -> (r: Option<CreateCapsule>)
        ensures
            r == capsule_accounts(*creator, capsule_id@),
    {
        let mut parts: Vec<Vec<u8>> = Vec::new();
        parts.push(creator.seed());
        parts.push(capsule_id.as_bytes_vec());
        assert(views(parts@) == seq![creator@, encode_utf8(capsule_id@)]);
        match address(Kind::Capsule, &parts) {
            Some((capsule, bump)) => Some(CreateCapsule { creator: *creator, capsule, bump }),
            None => None,
        }
    }
}

impl Ledger {
    /// Creates the capsule that `creator` calls `capsule_id`, at the address
    /// that follows from the two. Nothing changes where the creation is
    /// refused.
    pub fn create_capsule(
        &mut self,
        creator: &Address,
        capsule_id: String,
        name: String,
        description: String,
        category: String,
        price_per_query: u64,
        now: i64,
    ) -> (r: Result<Receipt, SolMindError>)
        requires
            old(self).wf(),
        ensures
            final(self).wf(),
            match capsule_accounts(*creator, capsule_id@) {
                Some(ctx) => match create_capsule_error(
                    old(self)@,
                    ctx,
                    capsule_id@,
                    name@,
                    description@,
                    category@,
                    price_per_query,
                ) {
                    Some(e) => r == Err::<Receipt, SolMindError>(e) && final(self)@ == old(self)@,
                    None => r == Ok::<Receipt, SolMindError>(
                        Receipt { record: ctx.capsule, movement: Movement::Nothing },
                    ) && final(self)@ == old(self)@.push(
                        created_capsule(
                            ctx,
                            capsule_id,
                            name,
                            description,
                            category,
                            price_per_query,
                            now,
                        ),
                    ),
                },
                None => final(self)@ == old(self)@ && r == Err::<Receipt, SolMindError>(
                    if capsule_fields_error(capsule_id@, name@, description@, category@) is Some {
                        capsule_fields_error(capsule_id@, name@, description@, category@).unwrap()
                    } else if price_error(price_per_query) is Some {
                        price_error(price_per_query).unwrap()
                    } else {
                        SolMindError::AddressUnavailable
                    },
                ),
            },
            consistent(old(self)@) ==> consistent(final(self)@),
    {
        match CreateCapsule::resolve(creator, capsule_id.as_str()) {
            Some(ctx) => create_capsule(
                self,
                &ctx,
                capsule_id,
                name,
                description,
                category,
                price_per_query,
                now,
            ),
            None => {
                match check_capsule_fields(
                    capsule_id.as_str(),
                    name.as_str(),
                    description.as_str(),
                    category.as_str(),
                ) {
                    Err(e) => {
                        return Err(e);
                    },
                    Ok(()) => {},
                }
                match check_price(price_per_query) {
                    Err(e) => Err(e),
                    Ok(()) => Err(SolMindError::AddressUnavailable),
                }
            },
        }
    }
}

/// A price outside the range from the minimum to the maximum is always
/// refused, at the creation of a capsule and at a change of price, whatever
/// else holds of the request and of the ledger. Both operations leave the
/// ledger as it was when they refuse.
pub proof fn lemma_price_out_of_range_refused(
    s: Seq<Account>,
    creation: CreateCapsule,
    capsule_id: Seq<char>,
    name: Seq<char>,
    description: Seq<char>,
    category: Seq<char>,
    change: UpdateCapsulePrice,
    price: u64,
)
    requires
        price < MIN_PRICE_PER_QUERY || price > MAX_PRICE_PER_QUERY,
    ensures
        create_capsule_error(s, creation, capsule_id, name, description, category, price) is Some,
        update_capsule_price_error(s, change, price) is Some,
{
}

/// A change of price that is accepted writes the price and the time of
/// change, and nothing else: the capsule keeps its creator, its texts, its
/// total stake and its time of creation, its account keeps its balance, and
/// every other account stays as it was.
pub proof fn lemma_price_change_writes_price_only(
    s: Seq<Account>,
    ctx: UpdateCapsulePrice,
    new_price: u64,
    now: i64,
    key: Address,
)
    requires
        unique_keys(s),
        update_capsule_price_error(s, ctx, new_price) is None,
    ensures
        ({
            let after = update_capsule_price_effect(s, ctx, new_price, now);
            let before = capsule_at(s, ctx.capsule).unwrap();
            &&& unique_keys(after)
            &&& capsule_at(after, ctx.capsule) == Some(
                Capsule { price_per_query: new_price, updated_at: now, ..before },
            )
            &&& balance(after, ctx.capsule) == balance(s, ctx.capsule)
            &&& key != ctx.capsule ==> at(after, key) == at(s, key)
        }),
{
    let account = with_capsule(
        at(s, ctx.capsule).unwrap(),
        new_price,
        capsule_at(s, ctx.capsule).unwrap().total_stake,
        now,
    );
    lemma_slot(s, slot(s, ctx.capsule));
    lemma_put(s, account, ctx.capsule);
    lemma_put(s, account, key);
}

} // verus!
