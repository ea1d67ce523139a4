//! Staking on a capsule: each staker's deposits add up in one stake record,
//! and every deposit notes its time and locks the stake for 7 days from it.
//!
//! The lock is recorded and nothing here enforces it: there is no operation
//! that takes a stake back from a capsule. The staking pools are the other
//! way round: they pay back at any time, and record no lock.

use vstd::prelude::*;
use crate::address::{address, address_for, views, Address, Kind};
use crate::consistency::{consistent, lemma_counted_put, lemma_neutral_put};
use crate::constants::{MAX_STAKE_AMOUNT, MIN_STAKE_AMOUNT};
use crate::error::SolMindError;
use crate::ledger::{
    at, balance, capsule_at, holds, lemma_put, lemma_slot, put, slot, spendable, staking_at,
    unique_keys, with_capsule, Account, Ledger, Record,
};
use crate::receipt::{Movement, Receipt};
use crate::state::{Capsule, Staking};

verus! {

/// The accounts of a stake on a capsule.
#[derive(Clone, Copy, Debug, PartialEq, Eq)]
pub struct StakeOnCapsule {
    /// Wallet that stakes, and pays.
    pub staker: Address,
    /// Capsule that is staked on.
    pub capsule: Address,
    /// Stake record of this staker on this capsule.
    pub staking: Address,
    /// Proof that goes with the stake record's address.
    pub bump: u8,
}

/// Whether the address of the stake record is free, or holds the record of
/// this staker on this capsule.
pub open spec fn stake_slot_fits(s: Seq<Account>, ctx: StakeOnCapsule) -> bool {
    match at(s, ctx.staking) {
        Some(Account { record: Record::Staking(staking), .. }) => staking.capsule == ctx.capsule
            && staking.staker == ctx.staker,
        Some(_) => false,
        None => true,
    }
}

/// What the staker must hold: the amount, and the cost of storing the stake
/// record where there is none yet.
pub open spec fn stake_required(s: Seq<Account>, ctx: StakeOnCapsule, amount: u64, reservation: u64) -> int {
    if holds(s, ctx.staking) {
        amount as int
    } else {
        amount + reservation
    }
}

/// Whether a counter or a balance would overflow.
pub open spec fn stake_overflows(s: Seq<Account>, ctx: StakeOnCapsule, amount: u64, now: i64) -> bool {
    ||| Staking::lock_end(now) is None
    ||| at(s, ctx.staking) matches Some(account) && account.lamports + amount > u64::MAX
    ||| staking_at(s, ctx.staking) matches Some(staking) && staking.amount + amount > u64::MAX
    ||| capsule_at(s, ctx.capsule) matches Some(capsule) && capsule.total_stake + amount > u64::MAX
}

/// Why a stake of `amount` is refused, if it is.
pub open spec fn stake_on_capsule_error(
    s: Seq<Account>,
    ctx: StakeOnCapsule,
    amount: u64,
    now: i64,
    reservation: u64,
) -> Option<SolMindError> {
    if amount < MIN_STAKE_AMOUNT {
        Some(SolMindError::InsufficientStake)
    } else if amount > MAX_STAKE_AMOUNT {
        Some(SolMindError::StakeTooHigh)
    } else if capsule_at(s, ctx.capsule) is None {
        Some(SolMindError::CapsuleNotFound)
    } else if !stake_slot_fits(s, ctx) {
        Some(SolMindError::StakeNotFound)
    } else if stake_required(s, ctx, amount, reservation) > u64::MAX {
        Some(SolMindError::MathOverflow)
    } else if spendable(s, ctx.staker) < stake_required(s, ctx, amount, reservation) {
        Some(SolMindError::InsufficientPayment)
    } else if stake_overflows(s, ctx, amount, now) {
        Some(SolMindError::MathOverflow)
    } else {
        None
    }
}

/// The stake record's account once `amount` has been staked at `now`: a new
/// one on the first stake, and afterwards the old one with the amount added.
/// Either way the record notes `now` as the time of staking and is locked
/// for 7 days from it.
pub open spec fn staked_account(s: Seq<Account>, ctx: StakeOnCapsule, amount: u64, now: i64) -> Account {
    let lock_until = Staking::lock_end(now).unwrap();
    match at(s, ctx.staking) {
        Some(Account { key, lamports, record: Record::Staking(staking) }) => Account {
            key,
            lamports: (lamports + amount) as u64,
            record: Record::Staking(
                Staking {
                    amount: (staking.amount + amount) as u64,
                    staked_at: now,
                    lock_until,
                    ..staking
                },
            ),
        },
        _ => Account {
            key: ctx.staking,
            lamports: amount,
            record: Record::Staking(
                Staking {
                    capsule: ctx.capsule,
                    staker: ctx.staker,
                    amount,
                    staked_at: now,
                    lock_until,
                    bump: ctx.bump,
                },
            ),
        },
    }
}

/// The ledger after a stake of `amount` at `now`: the amount has gone from
/// the staker to the stake record, and the capsule counts it.
pub open spec fn stake_on_capsule_effect(
    s: Seq<Account>,
    ctx: StakeOnCapsule,
    amount: u64,
    now: i64,
) -> Seq<Account> {
    let staker = at(s, ctx.staker).unwrap();
    let capsule = at(s, ctx.capsule).unwrap();
    let total = capsule_at(s, ctx.capsule).unwrap().total_stake;
    let price = capsule_at(s, ctx.capsule).unwrap().price_per_query;
    put(
        put(
            put(s, Account { lamports: (staker.lamports - amount) as u64, ..staker }),
            staked_account(s, ctx, amount, now),
        ),
        with_capsule(capsule, price, (total + amount) as u64, now),
    )
}

/// A stake keeps a consistent ledger consistent: the capsule's total stake
/// remains the sum of the stake records on it.
pub proof fn lemma_stake_on_capsule_consistent(
    s: Seq<Account>,
    ctx: StakeOnCapsule,
    amount: u64,
    now: i64,
    reservation: u64,
)
    requires
        consistent(s),
        stake_on_capsule_error(s, ctx, amount, now, reservation) is None,
    ensures
        consistent(stake_on_capsule_effect(s, ctx, amount, now)),
{
    let staker = at(s, ctx.staker).unwrap();
    let capsule = at(s, ctx.capsule).unwrap();
    let total = capsule_at(s, ctx.capsule).unwrap().total_stake;
    let price = capsule_at(s, ctx.capsule).unwrap().price_per_query;
    let paid = Account { lamports: (staker.lamports - amount) as u64, ..staker };
    let s1 = put(s, paid);
    lemma_neutral_put(s, paid);
    lemma_put(s, paid, ctx.staking);
    lemma_put(s, paid, ctx.capsule);
    lemma_counted_put(
        s1,
        staked_account(s, ctx, amount, now),
        with_capsule(capsule, price, (total + amount) as u64, now),
    );
}

/// Stakes `amount` on a capsule at `now`. `reservation` is what it costs to
/// store a stake record; the staker must hold it beside the amount when the
/// stake is the first. Nothing changes where the stake is refused.
pub fn stake_on_capsule(
    ledger: &mut Ledger,
    ctx: &StakeOnCapsule,
    amount: u64,
    now: i64,
    reservation: u64,
) -> (r: Result<Receipt, SolMindError>)
    requires
        old(ledger).wf(),
    ensures
        final(ledger).wf(),
        match stake_on_capsule_error(old(ledger)@, *ctx, amount, now, reservation) {
            Some(e) => r == Err::<Receipt, SolMindError>(e) && final(ledger)@ == old(ledger)@,
            None => r == Ok::<Receipt, SolMindError>(
                Receipt { record: ctx.staking, movement: Movement::Into(amount) },
            ) && final(ledger)@ == stake_on_capsule_effect(old(ledger)@, *ctx, amount, now),
        },
        consistent(old(ledger)@) ==> consistent(final(ledger)@),
{
    if amount < MIN_STAKE_AMOUNT {
        return Err(SolMindError::InsufficientStake);
    }
    if amount > MAX_STAKE_AMOUNT {
        return Err(SolMindError::StakeTooHigh);
    }
    let c = match ledger.find(&ctx.capsule) {
        Some(c) => c,
        None => {
            return Err(SolMindError::CapsuleNotFound);
        },
    };
    let (price, total) = match &ledger.account(c).record {
        Record::Capsule(capsule) => (capsule.price_per_query, capsule.total_stake),
        _ => {
            return Err(SolMindError::CapsuleNotFound);
        },
    };
    let slot = ledger.find(&ctx.staking);
    let held: Option<(u64, Staking)> = match slot {
        Some(i) => match &ledger.account(i).record {
            Record::Staking(staking) => {
                if staking.capsule == ctx.capsule && staking.staker == ctx.staker {
                    Some((ledger.account(i).lamports, *staking))
                } else {
                    return Err(SolMindError::StakeNotFound);
                }
            },
            _ => {
                return Err(SolMindError::StakeNotFound);
            },
        },
        None => None,
    };
    let required = if slot.is_some() {
        amount
    } else {
        match amount.checked_add(reservation) {
            Some(required) => required,
            None => {
                return Err(SolMindError::MathOverflow);
            },
        }
    };
    let w = match ledger.find(&ctx.staker) {
        Some(w) => w,
        None => {
            return Err(SolMindError::InsufficientPayment);
        },
    };
    let funds = match &ledger.account(w).record {
        Record::Wallet => ledger.account(w).lamports,
        _ => 0,
    };
    if funds < required {
        return Err(SolMindError::InsufficientPayment);
    }
    let lock_until = match now.checked_add(Staking::LOCK_PERIOD_SECONDS) {
        Some(lock_until) => lock_until,
        None => {
            return Err(SolMindError::MathOverflow);
        },
    };
    let new_total = match total.checked_add(amount) {
        Some(new_total) => new_total,
        None => {
            return Err(SolMindError::MathOverflow);
        },
    };
    let staked: Option<(u64, Staking)> = match held {
        Some((lamports, staking)) => {
            let new_lamports = match lamports.checked_add(amount) {
                Some(new_lamports) => new_lamports,
                None => {
                    return Err(SolMindError::MathOverflow);
                },
            };
            let new_amount = match staking.amount.checked_add(amount) {
                Some(new_amount) => new_amount,
                None => {
                    return Err(SolMindError::MathOverflow);
                },
            };
            Some(
                (new_lamports, Staking { amount: new_amount, staked_at: now, lock_until, ..staking }),
            )
        },
        None => None,
    };
    proof {
        let s = ledger@;
        let staker = at(s, ctx.staker).unwrap();
        lemma_put(s, Account { lamports: (staker.lamports - amount) as u64, ..staker }, ctx.staking);
        lemma_put(s, Account { lamports: (staker.lamports - amount) as u64, ..staker }, ctx.capsule);
        let s1 = put(s, Account { lamports: (staker.lamports - amount) as u64, ..staker });
        lemma_put(s1, staked_account(s, *ctx, amount, now), ctx.capsule);
        if consistent(s) {
            lemma_stake_on_capsule_consistent(s, *ctx, amount, now, reservation);
        }
    }
    ledger.set_lamports(w, funds - amount);
    match (slot, staked) {
        (Some(i), Some((new_lamports, staking))) => {
            ledger.set_account(i, new_lamports, Record::Staking(staking));
        },
        _ => {
            let mut staking = Staking::default();
            let _ = staking.initialize(ctx.capsule, ctx.staker, amount, ctx.bump, now);
            ledger.push(Account { key: ctx.staking, lamports: amount, record: Record::Staking(staking) });
        },
    }
    ledger.update_capsule(c, price, new_total, now);
    Ok(Receipt { record: ctx.staking, movement: Movement::Into(amount) })
}

/// The accounts of a stake of `staker` on `capsule`. There are none where no
/// address can be derived for the stake record.
pub open spec fn staking_accounts(staker: Address, capsule: Address) -> Option<StakeOnCapsule> {
    match address_for(Kind::Staking, seq![capsule@, staker@]) {
        Some((staking, bump)) => Some(StakeOnCapsule { staker, capsule, staking, bump }),
        None => None,
    }
}

impl StakeOnCapsule {
    /// Finds the accounts of a stake of `staker` on `capsule`.
    pub fn resolve(staker: &Address, capsule: &Address) -> (r: Option<StakeOnCapsule>)
        ensures
            r == staking_accounts(*staker, *capsule),
    {
        let mut parts: Vec<Vec<u8>> = Vec::new();
        parts.push(capsule.seed());
        parts.push(staker.seed());
        assert(views(parts@) == seq![capsule@, staker@]);
        match address(Kind::Staking, &parts) {
            Some((staking, bump)) => Some(
                StakeOnCapsule { staker: *staker, capsule: *capsule, staking, bump },
            ),
            None => None,
        }
    }
}

impl Ledger {
    /// Stakes `amount` of `staker` on `capsule` at `now`, in the stake record
    /// whose address follows from the two. Nothing changes where the stake is
    /// refused.
    pub fn stake_on_capsule(
        &mut self,
        staker: &Address,
        capsule: &Address,
        amount: u64,
        now: i64,
        reservation: u64,
    ) -> (r: Result<Receipt, SolMindError>)
        requires
            old(self).wf(),
        ensures
            final(self).wf(),
            match staking_accounts(*staker, *capsule) {
                Some(ctx) => match stake_on_capsule_error(old(self)@, ctx, amount, now, reservation) {
                    Some(e) => r == Err::<Receipt, SolMindError>(e) && final(self)@ == old(self)@,
                    None => r == Ok::<Receipt, SolMindError>(
                        Receipt { record: ctx.staking, movement: Movement::Into(amount) },
                    ) && final(self)@ == stake_on_capsule_effect(old(self)@, ctx, amount, now),
                },
                None => final(self)@ == old(self)@ && r == Err::<Receipt, SolMindError>(
                    if amount < MIN_STAKE_AMOUNT {
                        SolMindError::InsufficientStake
                    } else if amount > MAX_STAKE_AMOUNT {
                        SolMindError::StakeTooHigh
                    } else if capsule_at(old(self)@, *capsule) is None {
                        SolMindError::CapsuleNotFound
                    } else {
                        SolMindError::AddressUnavailable
                    },
                ),
            },
            consistent(old(self)@) ==> consistent(final(self)@),
    {
        match StakeOnCapsule::resolve(staker, capsule) {
            Some(ctx) => stake_on_capsule(self, &ctx, amount, now, reservation),
            None => {
                if amount < MIN_STAKE_AMOUNT {
                    return Err(SolMindError::InsufficientStake);
                }
                if amount > MAX_STAKE_AMOUNT {
                    return Err(SolMindError::StakeTooHigh);
                }
                match self.find(capsule) {
                    Some(c) => match &self.account(c).record {
                        Record::Capsule(_) => Err(SolMindError::AddressUnavailable),
                        _ => Err(SolMindError::CapsuleNotFound),
                    },
                    None => Err(SolMindError::CapsuleNotFound),
                }
            },
        }
    }
}

/// What is staked in the stake record at `key`: nothing where there is none.
pub open spec fn staked_amount(s: Seq<Account>, key: Address) -> nat {
    match staking_at(s, key) {
        Some(staking) => staking.amount as nat,
        None => 0,
    }
}

/// The total stake of the capsule at `key`: nothing where there is none.
pub open spec fn total_stake(s: Seq<Account>, key: Address) -> nat {
    match capsule_at(s, key) {
        Some(capsule) => capsule.total_stake as nat,
        None => 0,
    }
}

/// What a stake that is accepted does. The stake record belongs to the staker
/// and the capsule, holds the amount on top of what it held, notes `now` as
/// the time of staking, and is locked for 7 days from it, on the first stake
/// and on every later one. The capsule counts the amount and notes the time.
/// The amount has gone from the staker's wallet to the stake record's
/// balance. Every other account stays as it was.
pub proof fn lemma_stake_on_capsule_adds(
    s: Seq<Account>,
    ctx: StakeOnCapsule,
    amount: u64,
    now: i64,
    reservation: u64,
    key: Address,
)
    requires
        unique_keys(s),
        stake_on_capsule_error(s, ctx, amount, now, reservation) is None,
    ensures
        ({
            let after = stake_on_capsule_effect(s, ctx, amount, now);
            let capsule = capsule_at(s, ctx.capsule).unwrap();
            &&& unique_keys(after)
            &&& staking_at(after, ctx.staking) == Some(
                Staking {
                    capsule: ctx.capsule,
                    staker: ctx.staker,
                    amount: (staked_amount(s, ctx.staking) + amount) as u64,
                    staked_at: now,
                    lock_until: (now + 604800) as i64,
                    bump: match staking_at(s, ctx.staking) {
                        Some(staking) => staking.bump,
                        None => ctx.bump,
                    },
                },
            )
            &&& staking_at(after, ctx.staking).unwrap().lock_until == staking_at(
                after,
                ctx.staking,
            ).unwrap().staked_at + Staking::LOCK_PERIOD_SECONDS
            &&& staked_amount(after, ctx.staking) == staked_amount(s, ctx.staking) + amount
            &&& capsule_at(after, ctx.capsule) == Some(
                Capsule {
                    total_stake: (capsule.total_stake + amount) as u64,
                    updated_at: now,
                    ..capsule
                },
            )
            &&& total_stake(after, ctx.capsule) == total_stake(s, ctx.capsule) + amount
            &&& balance(after, ctx.staker) == balance(s, ctx.staker) - amount
            &&& balance(after, ctx.staking) == balance(s, ctx.staking) + amount
            &&& balance(after, ctx.capsule) == balance(s, ctx.capsule)
            &&& key != ctx.staker && key != ctx.staking && key != ctx.capsule ==> at(after, key)
                == at(s, key)
        }),
{
    let staker = at(s, ctx.staker).unwrap();
    let capsule = at(s, ctx.capsule).unwrap();
    let total = capsule_at(s, ctx.capsule).unwrap().total_stake;
    let price = capsule_at(s, ctx.capsule).unwrap().price_per_query;
    let paid = Account { lamports: (staker.lamports - amount) as u64, ..staker };
    let staked = staked_account(s, ctx, amount, now);
    let counted = with_capsule(capsule, price, (total + amount) as u64, now);
    let s1 = put(s, paid);
    let s2 = put(s1, staked);
    lemma_slot(s, slot(s, ctx.staker));
    lemma_slot(s, slot(s, ctx.capsule));
    if holds(s, ctx.staking) {
        lemma_slot(s, slot(s, ctx.staking));
    }
    lemma_put(s, paid, ctx.staker);
    lemma_put(s, paid, ctx.staking);
    lemma_put(s, paid, ctx.capsule);
    lemma_put(s, paid, key);
    lemma_put(s1, staked, ctx.staker);
    lemma_put(s1, staked, ctx.staking);
    lemma_put(s1, staked, ctx.capsule);
    lemma_put(s1, staked, key);
    lemma_put(s2, counted, ctx.staker);
    lemma_put(s2, counted, ctx.staking);
    lemma_put(s2, counted, ctx.capsule);
    lemma_put(s2, counted, key);
}

/// The ledger after stakes of `amounts` were asked for in turn, the stake
/// number `i` at the time `times[i]`. A stake that is refused leaves the
/// ledger as it was.
pub open spec fn after_stakes(
    s: Seq<Account>,
    ctx: StakeOnCapsule,
    amounts: Seq<u64>,
    times: Seq<i64>,
    reservation: u64,
) -> Seq<Account>
    decreases amounts.len(),
{
    if amounts.len() == 0 {
        s
    } else {
        let before = after_stakes(s, ctx, amounts.drop_last(), times.drop_last(), reservation);
        if stake_on_capsule_error(before, ctx, amounts.last(), times.last(), reservation) is None {
            stake_on_capsule_effect(before, ctx, amounts.last(), times.last())
        } else {
            before
        }
    }
}

/// The sum of those of `amounts` whose stake was accepted.
pub open spec fn accepted_stakes(
    s: Seq<Account>,
    ctx: StakeOnCapsule,
    amounts: Seq<u64>,
    times: Seq<i64>,
    reservation: u64,
) -> nat
    decreases amounts.len(),
{
    if amounts.len() == 0 {
        0
    } else {
        let before = after_stakes(s, ctx, amounts.drop_last(), times.drop_last(), reservation);
        let sum = accepted_stakes(s, ctx, amounts.drop_last(), times.drop_last(), reservation);
        if stake_on_capsule_error(before, ctx, amounts.last(), times.last(), reservation) is None {
            sum + amounts.last() as nat
        } else {
            sum
        }
    }
}

/// After any number of stakes by one staker on one capsule, the stake record
/// has grown by the sum of the amounts that were accepted, and so has the
/// capsule's total stake.
pub proof fn lemma_stakes_add_up(
    s: Seq<Account>,
    ctx: StakeOnCapsule,
    amounts: Seq<u64>,
    times: Seq<i64>,
    reservation: u64,
)
    requires
        unique_keys(s),
        amounts.len() == times.len(),
    ensures
        unique_keys(after_stakes(s, ctx, amounts, times, reservation)),
        staked_amount(after_stakes(s, ctx, amounts, times, reservation), ctx.staking)
            == staked_amount(s, ctx.staking) + accepted_stakes(s, ctx, amounts, times, reservation),
        total_stake(after_stakes(s, ctx, amounts, times, reservation), ctx.capsule) == total_stake(
            s,
            ctx.capsule,
        ) + accepted_stakes(s, ctx, amounts, times, reservation),
        consistent(s) ==> consistent(after_stakes(s, ctx, amounts, times, reservation)),
    decreases amounts.len(),
{
    if amounts.len() > 0 {
        lemma_stakes_add_up(s, ctx, amounts.drop_last(), times.drop_last(), reservation);
        let before = after_stakes(s, ctx, amounts.drop_last(), times.drop_last(), reservation);
        if stake_on_capsule_error(before, ctx, amounts.last(), times.last(), reservation) is None {
            lemma_stake_on_capsule_adds(
                before,
                ctx,
                amounts.last(),
                times.last(),
                reservation,
                ctx.staking,
            );
            if consistent(s) {
                lemma_stake_on_capsule_consistent(
                    before,
                    ctx,
                    amounts.last(),
                    times.last(),
                    reservation,
                );
            }
        }
    }
}

} // verus!
