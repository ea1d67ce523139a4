//! The earnings escrow: what a capsule earns for a wallet accrues in an
//! earnings record, and the wallet withdraws it in full.

use vstd::prelude::*;
use crate::address::{address, address_for, views, Address, Kind};
use crate::consistency::{consistent, lemma_credited_consistent, lemma_neutral_put};
use crate::error::SolMindError;
use crate::ledger::{
    at, balance, credit_overflows, credited, earnings_at, holds, lemma_put, lemma_slot, put,
    slot, unique_keys, Account, Ledger, Record,
};
use crate::receipt::{Movement, Receipt};
use crate::state::Earnings;

verus! {

/// The accounts of a withdrawal.
#[derive(Clone, Copy, Debug, PartialEq, Eq)]
pub struct WithdrawEarnings {
    /// Wallet that asks for the withdrawal.
    pub creator: Address,
    /// Earnings record to withdraw from.
    pub earnings: Address,
    /// Wallet that receives the earnings.
    pub wallet: Address,
}

/// Why earnings cannot be added, if they cannot: no earnings record stands at
/// the address, or a counter would overflow.
pub open spec fn add_earnings_error(s: Seq<Account>, earnings: Address, amount: u64, now: i64) -> Option<
    SolMindError,
> {
    match earnings_at(s, earnings) {
        None => Some(SolMindError::Unauthorized),
        Some(record) => if record.credited(amount, now) is None {
            Some(SolMindError::MathOverflow)
        } else {
            None
        },
    }
}

/// The ledger after the payment for one query was added to the record.
pub open spec fn add_earnings_effect(s: Seq<Account>, earnings: Address, amount: u64, now: i64) -> Seq<
    Account,
> {
    put(
        s,
        Account {
            record: Record::Earnings(earnings_at(s, earnings).unwrap().credited(amount, now).unwrap()),
            ..at(s, earnings).unwrap()
        },
    )
}

/// Adds the payment for one query to the earnings record at `earnings`. This
/// counts what is owed; it moves no value. Nothing changes where it is
/// refused.
pub fn add_earnings(ledger: &mut Ledger, earnings: &Address, amount: u64, now: i64) -> (r: Result<
    Receipt,
    SolMindError,
>)
    requires
        old(ledger).wf(),
    ensures
        final(ledger).wf(),
        match add_earnings_error(old(ledger)@, *earnings, amount, now) {
            Some(e) => r == Err::<Receipt, SolMindError>(e) && final(ledger)@ == old(ledger)@,
            None => r == Ok::<Receipt, SolMindError>(
                Receipt { record: *earnings, movement: Movement::Nothing },
            ) && final(ledger)@ == add_earnings_effect(old(ledger)@, *earnings, amount, now),
        },
        consistent(old(ledger)@) ==> consistent(final(ledger)@),
{
    let i = match ledger.find(earnings) {
        Some(i) => i,
        None => {
            return Err(SolMindError::Unauthorized);
        },
    };
    let mut record = match &ledger.account(i).record {
        Record::Earnings(record) => *record,
        _ => {
            return Err(SolMindError::Unauthorized);
        },
    };
    match record.add_earnings(amount, now) {
        Err(e) => {
            return Err(e);
        },
        Ok(()) => {},
    }
    let lamports = ledger.account(i).lamports;
    proof {
        if consistent(ledger@) {
            lemma_neutral_put(
                ledger@,
                Account { record: Record::Earnings(record), ..at(ledger@, *earnings).unwrap() },
            );
        }
    }
    ledger.set_account(i, lamports, Record::Earnings(record));
    Ok(Receipt { record: *earnings, movement: Movement::Nothing })
}

/// The ledger once the escrow has given up what it owes: its balance is
/// smaller by the earnings, and its earnings are 0. The number of queries and
/// the time of the last addition stay.
pub open spec fn escrow_emptied(s: Seq<Account>, ctx: WithdrawEarnings) -> Seq<Account> {
    match at(s, ctx.earnings) {
        Some(Account { key, lamports, record: Record::Earnings(record) }) => put(
            s,
            Account {
                key,
                lamports: (lamports - record.total_earnings) as u64,
                record: Record::Earnings(Earnings { total_earnings: 0, ..record }),
            },
        ),
        _ => s,
    }
}

/// Why a withdrawal is refused, if it is. `reservation` is what the escrow
/// must keep to pay for its own storage.
pub open spec fn withdraw_earnings_error(s: Seq<Account>, ctx: WithdrawEarnings, reservation: u64) -> Option<
    SolMindError,
> {
    match at(s, ctx.earnings) {
        Some(Account { lamports, record: Record::Earnings(record), .. }) => {
            if record.wallet != ctx.creator || record.wallet != ctx.wallet {
                Some(SolMindError::Unauthorized)
            } else if record.total_earnings == 0 {
                Some(SolMindError::InsufficientPayment)
            } else if lamports - reservation < record.total_earnings {
                Some(SolMindError::InsufficientPayment)
            } else if credit_overflows(escrow_emptied(s, ctx), ctx.wallet, record.total_earnings) {
                Some(SolMindError::MathOverflow)
            } else {
                None
            }
        },
        _ => Some(SolMindError::Unauthorized),
    }
}

/// The ledger after a withdrawal: all that the record owed has gone from the
/// escrow to the wallet.
pub open spec fn withdraw_earnings_effect(s: Seq<Account>, ctx: WithdrawEarnings) -> Seq<Account> {
    credited(escrow_emptied(s, ctx), ctx.wallet, earnings_at(s, ctx.earnings).unwrap().total_earnings)
}

/// Pays out all that an earnings record owes to the wallet that it names,
/// which must be both the caller and the receiver. Nothing changes where the
/// withdrawal is refused.
pub fn withdraw_earnings(ledger: &mut Ledger, ctx: &WithdrawEarnings, reservation: u64) -> (r: Result<
    Receipt,
    SolMindError,
>)
    requires
        old(ledger).wf(),
    ensures
        final(ledger).wf(),
        match withdraw_earnings_error(old(ledger)@, *ctx, reservation) {
            Some(e) => r == Err::<Receipt, SolMindError>(e) && final(ledger)@ == old(ledger)@,
            None => r == Ok::<Receipt, SolMindError>(
                Receipt {
                    record: ctx.earnings,
                    movement: Movement::OutOf(
                        earnings_at(old(ledger)@, ctx.earnings).unwrap().total_earnings,
                    ),
                },
            ) && final(ledger)@ == withdraw_earnings_effect(old(ledger)@, *ctx),
        },
        consistent(old(ledger)@) ==> consistent(final(ledger)@),
{
    let i = match ledger.find(&ctx.earnings) {
        Some(i) => i,
        None => {
            return Err(SolMindError::Unauthorized);
        },
    };
    let record = match &ledger.account(i).record {
        Record::Earnings(record) => *record,
        _ => {
            return Err(SolMindError::Unauthorized);
        },
    };
    if record.wallet != ctx.creator || record.wallet != ctx.wallet {
        return Err(SolMindError::Unauthorized);
    }
    if record.total_earnings == 0 {
        return Err(SolMindError::InsufficientPayment);
    }
    let amount = record.total_earnings;
    let lamports = ledger.account(i).lamports;
    let available = match lamports.checked_sub(reservation) {
        Some(available) => available,
        None => {
            return Err(SolMindError::InsufficientPayment);
        },
    };
    if available < amount {
        return Err(SolMindError::InsufficientPayment);
    }
    let emptied = Record::Earnings(Earnings { total_earnings: 0, ..record });
    proof {
        lemma_put(
            ledger@,
            Account { key: ctx.earnings, lamports: (lamports - amount) as u64, record: emptied },
            ctx.wallet,
        );
    }
    let before = match ledger.find(&ctx.wallet) {
        Some(d) => if d == i {
            lamports - amount
        } else {
            ledger.account(d).lamports
        },
        None => 0,
    };
    if before.checked_add(amount).is_none() {
        return Err(SolMindError::MathOverflow);
    }
    proof {
        if consistent(ledger@) {
            lemma_neutral_put(
                ledger@,
                Account { key: ctx.earnings, lamports: (lamports - amount) as u64, record: emptied },
            );
            lemma_credited_consistent(escrow_emptied(ledger@, *ctx), ctx.wallet, amount);
        }
    }
    ledger.set_account(i, lamports - amount, emptied);
    ledger.credit(&ctx.wallet, amount);
    Ok(Receipt { record: ctx.earnings, movement: Movement::OutOf(amount) })
}

/// The address of the earnings record of `wallet` from `capsule`, with its
/// proof. There is none where no address can be derived.
pub open spec fn earnings_address(wallet: Address, capsule: Address) -> Option<(Address, u8)> {
    address_for(Kind::Earnings, seq![wallet@, capsule@])
}

/// The accounts of a withdrawal by `creator` of what `capsule` earned, to
/// `wallet`.
pub open spec fn withdrawal_accounts(creator: Address, capsule: Address, wallet: Address) -> Option<
    WithdrawEarnings,
> {
    match earnings_address(creator, capsule) {
        Some((earnings, _)) => Some(WithdrawEarnings { creator, earnings, wallet }),
        None => None,
    }
}

impl WithdrawEarnings {
    /// Finds the address of the earnings record of `wallet` from `capsule`,
    /// with its proof.
    pub fn earnings_address(wallet: &Address, capsule: &Address) -> (r: Option<(Address, u8)>)
        ensures
            r == earnings_address(*wallet, *capsule),
    {
        let mut parts: Vec<Vec<u8>> = Vec::new();
        parts.push(wallet.seed());
        parts.push(capsule.seed());
        assert(views(parts@) == seq![wallet@, capsule@]);
        address(Kind::Earnings, &parts)
    }

    /// Finds the accounts of a withdrawal by `creator` of what `capsule`
    /// earned, to `wallet`.
    pub fn resolve(creator: &Address, capsule: &Address, wallet: &Address) -> (r: Option<
        WithdrawEarnings,
    >)
        ensures
            r == withdrawal_accounts(*creator, *capsule, *wallet),
    {
        match WithdrawEarnings::earnings_address(creator, capsule) {
            Some((earnings, _)) => Some(
                WithdrawEarnings { creator: *creator, earnings, wallet: *wallet },
            ),
            None => None,
        }
    }
}

impl Ledger {
    /// Pays out to `wallet` all that `capsule` earned for `creator`, from the
    /// earnings record whose address follows from the two. Nothing changes
    /// where the withdrawal is refused.
    pub fn withdraw_earnings(
        &mut self,
        creator: &Address,
        capsule: &Address,
        wallet: &Address,
        reservation: u64,
    ) -> (r: Result<Receipt, SolMindError>)
        requires
            old(self).wf(),
        ensures
            final(self).wf(),
            match withdrawal_accounts(*creator, *capsule, *wallet) {
                Some(ctx) => match withdraw_earnings_error(old(self)@, ctx, reservation) {
                    Some(e) => r == Err::<Receipt, SolMindError>(e) && final(self)@ == old(self)@,
                    None => r == Ok::<Receipt, SolMindError>(
                        Receipt {
                            record: ctx.earnings,
                            movement: Movement::OutOf(
                                earnings_at(old(self)@, ctx.earnings).unwrap().total_earnings,
                            ),
                        },
                    ) && final(self)@ == withdraw_earnings_effect(old(self)@, ctx),
                },
                None => final(self)@ == old(self)@ && r == Err::<Receipt, SolMindError>(
                    SolMindError::AddressUnavailable,
                ),
            },
            consistent(old(self)@) ==> consistent(final(self)@),
    {
        match WithdrawEarnings::resolve(creator, capsule, wallet) {
            Some(ctx) => withdraw_earnings(self, &ctx, reservation),
            None => Err(SolMindError::AddressUnavailable),
        }
    }
}

/// What an addition of earnings that is accepted does: the record owes the
/// amount on top of what it owed, counts one query more, and notes the time.
/// No balance changes, and every other account stays as it was.
pub proof fn lemma_add_earnings_adds(
    s: Seq<Account>,
    earnings: Address,
    amount: u64,
    now: i64,
    key: Address,
)
    requires
        unique_keys(s),
        add_earnings_error(s, earnings, amount, now) is None,
    ensures
        ({
            let after = add_earnings_effect(s, earnings, amount, now);
            let before = earnings_at(s, earnings).unwrap();
            &&& unique_keys(after)
            &&& earnings_at(after, earnings) == Some(
                Earnings {
                    total_earnings: (before.total_earnings + amount) as u64,
                    query_count: (before.query_count + 1) as u64,
                    last_updated: now,
                    ..before
                },
            )
            &&& balance(after, earnings) == balance(s, earnings)
            &&& key != earnings ==> at(after, key) == at(s, key)
        }),
{
    let account = Account {
        record: Record::Earnings(earnings_at(s, earnings).unwrap().credited(amount, now).unwrap()),
        ..at(s, earnings).unwrap()
    };
    lemma_slot(s, slot(s, earnings));
    lemma_put(s, account, earnings);
    lemma_put(s, account, key);
}

/// What a withdrawal that is accepted does: the record owes nothing any
/// more, and keeps its count of queries and the time of the last addition.
/// Where the wallet is not the escrow itself, all that the record owed has
/// gone from the escrow's balance to the wallet's. Every other account stays
/// as it was.
pub proof fn lemma_withdraw_earnings_pays(
    s: Seq<Account>,
    ctx: WithdrawEarnings,
    reservation: u64,
    key: Address,
)
    requires
        unique_keys(s),
        withdraw_earnings_error(s, ctx, reservation) is None,
    ensures
        ({
            let after = withdraw_earnings_effect(s, ctx);
            let before = earnings_at(s, ctx.earnings).unwrap();
            &&& unique_keys(after)
            &&& before.wallet == ctx.wallet
            &&& before.total_earnings > 0
            &&& earnings_at(after, ctx.earnings) == Some(Earnings { total_earnings: 0, ..before })
            &&& ctx.wallet != ctx.earnings ==> {
                &&& balance(after, ctx.wallet) == balance(s, ctx.wallet) + before.total_earnings
                &&& balance(after, ctx.earnings) == balance(s, ctx.earnings)
                    - before.total_earnings
                &&& balance(after, ctx.earnings) >= reservation
            }
            &&& key != ctx.earnings && key != ctx.wallet ==> at(after, key) == at(s, key)
        }),
{
    let before = earnings_at(s, ctx.earnings).unwrap();
    let held = at(s, ctx.earnings).unwrap();
    let emptied = Account {
        key: held.key,
        lamports: (held.lamports - before.total_earnings) as u64,
        record: Record::Earnings(Earnings { total_earnings: 0, ..before }),
    };
    let s1 = put(s, emptied);
    let paid = match at(s1, ctx.wallet) {
        Some(account) => Account {
            lamports: (account.lamports + before.total_earnings) as u64,
            ..account
        },
        None => Account { key: ctx.wallet, lamports: before.total_earnings, record: Record::Wallet },
    };
    lemma_slot(s, slot(s, ctx.earnings));
    lemma_put(s, emptied, ctx.earnings);
    lemma_put(s, emptied, ctx.wallet);
    lemma_put(s, emptied, key);
    if holds(s1, ctx.wallet) {
        lemma_slot(s1, slot(s1, ctx.wallet));
    }
    lemma_put(s1, paid, ctx.earnings);
    lemma_put(s1, paid, ctx.wallet);
    lemma_put(s1, paid, key);
}

/// Whether every one of the additions of `amounts` to the record at
/// `earnings`, made in turn, is accepted.
pub open spec fn all_added(s: Seq<Account>, earnings: Address, amounts: Seq<u64>, times: Seq<i64>) -> bool
    decreases amounts.len(),
{
    if amounts.len() == 0 {
        true
    } else {
        &&& all_added(s, earnings, amounts.drop_last(), times.drop_last())
        &&& add_earnings_error(
            after_earnings(s, earnings, amounts.drop_last(), times.drop_last()),
            earnings,
            amounts.last(),
            times.last(),
        ) is None
    }
}

/// The ledger after `amounts` were added in turn to the record at `earnings`,
/// the addition number `i` at the time `times[i]`.
pub open spec fn after_earnings(
    s: Seq<Account>,
    earnings: Address,
    amounts: Seq<u64>,
    times: Seq<i64>,
) -> Seq<Account>
    decreases amounts.len(),
{
    if amounts.len() == 0 {
        s
    } else {
        add_earnings_effect(
            after_earnings(s, earnings, amounts.drop_last(), times.drop_last()),
            earnings,
            amounts.last(),
            times.last(),
        )
    }
}

/// The sum of `amounts`.
pub open spec fn sum(amounts: Seq<u64>) -> nat
    decreases amounts.len(),
{
    if amounts.len() == 0 {
        0
    } else {
        sum(amounts.drop_last()) + amounts.last() as nat
    }
}

/// After additions that were all accepted, the record owes the sum of the
/// amounts on top of what it owed, and counts one query more for each. No
/// balance has changed, and every other account is as it was.
pub proof fn lemma_earnings_add_up(
    s: Seq<Account>,
    earnings: Address,
    amounts: Seq<u64>,
    times: Seq<i64>,
    key: Address,
)
    requires
        unique_keys(s),
        amounts.len() == times.len(),
        earnings_at(s, earnings) is Some,
        all_added(s, earnings, amounts, times),
    ensures
        ({
            let after = after_earnings(s, earnings, amounts, times);
            let before = earnings_at(s, earnings).unwrap();
            &&& unique_keys(after)
            &&& earnings_at(after, earnings) is Some
            &&& earnings_at(after, earnings).unwrap().total_earnings == before.total_earnings + sum(
                amounts,
            )
            &&& earnings_at(after, earnings).unwrap().query_count == before.query_count
                + amounts.len()
            &&& earnings_at(after, earnings).unwrap().wallet == before.wallet
            &&& earnings_at(after, earnings).unwrap().capsule == before.capsule
            &&& balance(after, earnings) == balance(s, earnings)
            &&& key != earnings ==> at(after, key) == at(s, key)
        }),
    decreases amounts.len(),
{
    if amounts.len() > 0 {
        lemma_earnings_add_up(s, earnings, amounts.drop_last(), times.drop_last(), key);
        lemma_add_earnings_adds(
            after_earnings(s, earnings, amounts.drop_last(), times.drop_last()),
            earnings,
            amounts.last(),
            times.last(),
            key,
        );
    }
}

/// The round trip of earnings. Let a record that owes nothing and has
/// counted no query take additions that are all accepted, and let the wallet
/// that the record names then withdraw. The withdrawal moves the sum of the
/// amounts, no more and no less, from the escrow to the wallet; the record
/// then owes nothing, and counts as many queries as there were additions.
pub proof fn lemma_earnings_round_trip(
    s: Seq<Account>,
    ctx: WithdrawEarnings,
    amounts: Seq<u64>,
    times: Seq<i64>,
    reservation: u64,
)
    requires
        unique_keys(s),
        amounts.len() == times.len(),
        earnings_at(s, ctx.earnings) matches Some(record) && record.total_earnings == 0
            && record.query_count == 0,
        all_added(s, ctx.earnings, amounts, times),
        withdraw_earnings_error(after_earnings(s, ctx.earnings, amounts, times), ctx, reservation)
            is None,
        ctx.wallet != ctx.earnings,
    ensures
        ({
            let added = after_earnings(s, ctx.earnings, amounts, times);
            let after = withdraw_earnings_effect(added, ctx);
            &&& earnings_at(added, ctx.earnings).unwrap().total_earnings == sum(amounts)
            &&& balance(after, ctx.wallet) == balance(s, ctx.wallet) + sum(amounts)
            &&& balance(after, ctx.earnings) == balance(s, ctx.earnings) - sum(amounts)
            &&& earnings_at(after, ctx.earnings) matches Some(record) && record.total_earnings == 0
                && record.query_count == amounts.len()
        }),
{
    let added = after_earnings(s, ctx.earnings, amounts, times);
    lemma_earnings_add_up(s, ctx.earnings, amounts, times, ctx.wallet);
    lemma_withdraw_earnings_pays(added, ctx, reservation, ctx.wallet);
}

/// Only the wallet that an earnings record names withdraws from it: a
/// withdrawal that another wallet asks for, or that is to go to another
/// wallet, is refused as unauthorized, whatever the record owes and holds.
pub proof fn lemma_withdrawal_by_stranger_refused(
    s: Seq<Account>,
    ctx: WithdrawEarnings,
    reservation: u64,
)
    requires
        earnings_at(s, ctx.earnings) matches Some(record) && (record.wallet != ctx.creator
            || record.wallet != ctx.wallet),
    ensures
        withdraw_earnings_error(s, ctx, reservation) == Some(SolMindError::Unauthorized),
{
}

} // verus!
