//! The fungible token ledger: balances, total supply, and time-bounded
//! allowances.
//!
//! All mutation of balances and supply goes through [`update`], which
//! preserves the conservation invariant: the recorded total supply equals
//! the sum of all recorded balances, and every balance is non-negative.
//! Accounts are plain integer identifiers; the logical clock (the ledger
//! sequence number) is passed in by the caller.

use vstd::prelude::*;

use crate::errors::FungibleTokenError;
use crate::kvmap::{lemma_pair_key_injective, pair_key, spec_pair_key, KvMap};

verus! {

/// The amount of tokens a spender may spend on behalf of an owner, and
/// the ledger number at which that permission expires.
#[derive(Clone, Copy, Debug, PartialEq, Eq)]
pub struct AllowanceData {
    pub amount: i128,
    pub live_until_ledger: u32,
}

/// Token metadata: decimals, name and symbol.
#[derive(Debug, PartialEq, Eq)]
pub struct Metadata {
    pub decimals: u32,
    pub name: String,
    pub symbol: String,
}

/// One fungible token's books: per-account balances, the total supply,
/// the allowance records keyed by (owner, spender), an optional supply
/// cap, and optional metadata.
pub struct FungibleToken {
    pub balances: KvMap<i128>,
    pub allowances: KvMap<AllowanceData>,
    pub total_supply: i128,
    pub cap: Option<i128>,
    pub metadata: Option<Metadata>,
}

/// The balance of `account`; absence of a record means zero.
pub open spec fn spec_balance(st: FungibleToken, account: u32) -> i128 {
    if st.balances@.contains_key(account as u64) {
        st.balances@[account as u64]
    } else {
        0
    }
}

/// The raw allowance record for (owner, spender); absence means zero
/// amount with zero expiry.
pub open spec fn spec_allowance_data(st: FungibleToken, owner: u32, spender: u32) -> AllowanceData {
    let k = spec_pair_key(owner, spender);
    if st.allowances@.contains_key(k) {
        st.allowances@[k]
    } else {
        AllowanceData { amount: 0, live_until_ledger: 0 }
    }
}

/// The live allowance for (owner, spender) at `current_ledger`: an
/// expired record counts as zero.
pub open spec fn spec_allowance(
    st: FungibleToken,
    owner: u32,
    spender: u32,
    current_ledger: u32,
) -> i128 {
    let d = spec_allowance_data(st, owner, spender);
    if d.live_until_ledger < current_ledger {
        0
    } else {
        d.amount
    }
}

/// The sum of all values of a balance entry sequence.
pub open spec fn sum_values(s: Seq<(u64, i128)>) -> int
    decreases s.len(),
{
    if s.len() == 0 {
        0int
    } else {
        sum_values(s.drop_last()) + s.last().1
    }
}

/// Well-formedness of a fungible ledger.  The last two conjuncts are the
/// conservation invariant: every balance is non-negative and the total
/// supply equals the sum of all balances.
pub open spec fn wf(st: FungibleToken) -> bool {
    &&& st.balances.wf()
    &&& st.allowances.wf()
    &&& forall|k: u64| #[trigger] st.balances@.contains_key(k) ==> st.balances@[k] >= 0
    &&& forall|k: u64| #[trigger] st.allowances@.contains_key(k) ==> st.allowances@[k].amount >= 0
    &&& st.total_supply >= 0
    &&& st.total_supply == sum_values(st.balances.kvs())
}

proof fn lemma_sum_nonneg(s: Seq<(u64, i128)>)
    requires
        forall|i: int| 0 <= i < s.len() ==> s[i].1 >= 0,
    ensures
        sum_values(s) >= 0,
    decreases s.len(),
{
    if s.len() > 0 {
        lemma_sum_nonneg(s.drop_last());
    }
}

proof fn lemma_sum_update(s: Seq<(u64, i128)>, i: int, e: (u64, i128))
    requires
        0 <= i < s.len(),
    ensures
        sum_values(s.update(i, e)) == sum_values(s) - s[i].1 + e.1,
    decreases s.len(),
{
    let t = s.update(i, e);
    if i == s.len() - 1 {
        assert(t.drop_last() =~= s.drop_last());
    } else {
        assert(t.drop_last() =~= s.drop_last().update(i, e));
        lemma_sum_update(s.drop_last(), i, e);
        assert(t.last() == s.last());
    }
}

proof fn lemma_sum_push(s: Seq<(u64, i128)>, e: (u64, i128))
    ensures
        sum_values(s.push(e)) == sum_values(s) + e.1,
{
    assert(s.push(e).drop_last() =~= s);
}

proof fn lemma_element_le_sum(s: Seq<(u64, i128)>, i: int)
    requires
        forall|j: int| 0 <= j < s.len() ==> s[j].1 >= 0,
        0 <= i < s.len(),
    ensures
        s[i].1 <= sum_values(s),
    decreases s.len(),
{
    if i == s.len() - 1 {
        lemma_sum_nonneg(s.drop_last());
    } else {
        lemma_element_le_sum(s.drop_last(), i);
        assert(s.drop_last()[i] == s[i]);
    }
}

proof fn lemma_kvs_nonneg(m: &KvMap<i128>)
    requires
        m.wf(),
        forall|k: u64| #[trigger] m@.contains_key(k) ==> m@[k] >= 0,
    ensures
        forall|i: int| 0 <= i < m.kvs().len() ==> m.kvs()[i].1 >= 0,
{
    m.lemma_kvs_view();
    assert forall|i: int| 0 <= i < m.kvs().len() implies m.kvs()[i].1 >= 0 by {
        assert(m@.contains_key(m.kvs()[i].0));
    }
}

/// Under well-formedness, every balance is bounded by the total supply.
proof fn lemma_balance_le_supply(st: FungibleToken, account: u32)
    requires
        wf(st),
    ensures
        0 <= spec_balance(st, account) <= st.total_supply,
{
    lemma_kvs_nonneg(&st.balances);
    st.balances.lemma_kvs_view();
    if st.balances@.contains_key(account as u64) {
        let i = choose|i: int|
            0 <= i < st.balances.kvs().len() && st.balances.kvs()[i] == (
                account as u64,
                st.balances@[account as u64],
            );
        lemma_element_le_sum(st.balances.kvs(), i);
    } else {
        lemma_sum_nonneg(st.balances.kvs());
    }
}

/// Law: the conservation invariant.  In every well-formed ledger — and
/// every operation of this module keeps the ledger well-formed — the
/// total supply equals the sum of all recorded balances, each of which
/// is non-negative.
pub proof fn lemma_conservation(st: FungibleToken)
    requires
        wf(st),
    ensures
        st.total_supply == sum_values(st.balances.kvs()),
        forall|a: u32| 0 <= #[trigger] spec_balance(st, a) <= st.total_supply,
{
    assert forall|a: u32| 0 <= #[trigger] spec_balance(st, a) <= st.total_supply by {
        lemma_balance_le_supply(st, a);
    }
}

/// Creates an empty ledger: no balances, no allowances, zero supply,
/// no cap and no metadata.
pub fn new_fungible() -> (st: FungibleToken)
    ensures
        wf(st),
        st.total_supply == 0,
        forall|a: u32| spec_balance(st, a) == 0,
        forall|o: u32, s: u32| spec_allowance_data(st, o, s) == (AllowanceData {
            amount: 0,
            live_until_ledger: 0,
        }),
        st.cap is None,
        st.metadata is None,
{
    FungibleToken {
        balances: KvMap::new(),
        allowances: KvMap::new(),
        total_supply: 0,
        cap: None,
        metadata: None,
    }
}

/// Returns the total amount of tokens in circulation.
pub fn total_supply(st: &FungibleToken) -> (r: i128)
    ensures
        r == st.total_supply,
{
    st.total_supply
}

/// Returns the amount of tokens held by `account`; zero if no balance
/// is recorded.
pub fn balance(st: &FungibleToken, account: u32) -> (r: i128)
    requires
        wf(*st),
    ensures
        r == spec_balance(*st, account),
{
    match st.balances.get(account as u64) {
        Some(b) => b,
        None => 0,
    }
}

/// Transfers `amount` tokens from `from` to `to`, or mints when `from`
/// is absent, or burns when `to` is absent; the sole mutator of
/// balances and supply.
///
/// Fails with `LessThanZero` on a negative amount, `InsufficientBalance`
/// when `from` holds fewer than `amount` tokens, and `MathOverflow` when
/// a mint would overflow the total supply.  On failure the ledger is
/// unchanged.
pub fn update(
    st: &mut FungibleToken,
    from: Option<u32>,
    to: Option<u32>,
    amount: i128,
) -> (r: Result<(), FungibleTokenError>)
    requires
        wf(*old(st)),
    ensures
        wf(*final(st)),
        r == if amount < 0 {
            Err::<(), FungibleTokenError>(FungibleTokenError::LessThanZero)
        } else if from is Some && spec_balance(*old(st), from->Some_0) < amount {
            Err::<(), FungibleTokenError>(FungibleTokenError::InsufficientBalance)
        } else if from is None && old(st).total_supply + amount > i128::MAX {
            Err::<(), FungibleTokenError>(FungibleTokenError::MathOverflow)
        } else {
            Ok::<(), FungibleTokenError>(())
        },
        r is Err ==> *final(st) == *old(st),
        r is Ok ==> {
            &&& forall|a: u32| spec_balance(*final(st), a) == spec_balance(*old(st), a) + (
            if to == Some(a) {
                amount as int
            } else {
                0int
            }) - (if from == Some(a) {
                amount as int
            } else {
                0int
            })
            &&& final(st).total_supply == old(st).total_supply + (if from is None {
                amount as int
            } else {
                0int
            }) - (if to is None {
                amount as int
            } else {
                0int
            })
            &&& final(st).allowances == old(st).allowances
            &&& final(st).cap == old(st).cap
            &&& final(st).metadata == old(st).metadata
        },
{
    if amount < 0 {
        return Err(FungibleTokenError::LessThanZero);
    }
    let ghost st0 = *st;
    match from {
        Some(account) => {
            let from_balance = balance(st, account);
            if from_balance < amount {
                return Err(FungibleTokenError::InsufficientBalance);
            }
            proof {
                lemma_balance_le_supply(*st, account);
                st.balances.lemma_kvs_view();
            }
            st.balances.set(account as u64, from_balance - amount);
            proof {
                if st0.balances@.contains_key(account as u64) {
                    let i = choose|i: int|
                        0 <= i < st0.balances.kvs().len() && st0.balances.kvs()[i] == (
                            account as u64,
                            st0.balances@[account as u64],
                        ) && st.balances.kvs() == st0.balances.kvs().update(
                            i,
                            (account as u64, (st0.balances@[account as u64] - amount) as i128),
                        );
                    lemma_sum_update(
                        st0.balances.kvs(),
                        i,
                        (account as u64, (st0.balances@[account as u64] - amount) as i128),
                    );
                } else {
                    lemma_sum_push(st0.balances.kvs(), (account as u64, (0 - amount) as i128));
                }
                assert(sum_values(st.balances.kvs()) == st.total_supply - amount);
            }
        },
        None => {
            match st.total_supply.checked_add(amount) {
                Some(new_total_supply) => {
                    st.total_supply = new_total_supply;
                    proof {
                        assert(sum_values(st.balances.kvs()) == st.total_supply - amount);
                    }
                },
                None => {
                    return Err(FungibleTokenError::MathOverflow);
                },
            }
        },
    }
    // Here the running sum of balances is total_supply - amount, every
    // balance is still non-negative, and total_supply <= i128::MAX.
    let ghost st1 = *st;
    match to {
        Some(account) => {
            let to_balance = match st.balances.get(account as u64) {
                Some(b) => b,
                None => 0,
            };
            proof {
                lemma_kvs_nonneg(&st.balances);
                st.balances.lemma_kvs_view();
                if st.balances@.contains_key(account as u64) {
                    let i = choose|i: int|
                        0 <= i < st.balances.kvs().len() && st.balances.kvs()[i] == (
                            account as u64,
                            st.balances@[account as u64],
                        );
                    lemma_element_le_sum(st.balances.kvs(), i);
                } else {
                    lemma_sum_nonneg(st.balances.kvs());
                }
                assert(to_balance <= st.total_supply - amount);
            }
            st.balances.set(account as u64, to_balance + amount);
            proof {
                if st1.balances@.contains_key(account as u64) {
                    let i = choose|i: int|
                        0 <= i < st1.balances.kvs().len() && st1.balances.kvs()[i] == (
                            account as u64,
                            st1.balances@[account as u64],
                        ) && st.balances.kvs() == st1.balances.kvs().update(
                            i,
                            (account as u64, (st1.balances@[account as u64] + amount) as i128),
                        );
                    lemma_sum_update(
                        st1.balances.kvs(),
                        i,
                        (account as u64, (st1.balances@[account as u64] + amount) as i128),
                    );
                } else {
                    lemma_sum_push(st1.balances.kvs(), (account as u64, (0 + amount) as i128));
                }
            }
        },
        None => {
            proof {
                if from is Some {
                    lemma_balance_le_supply(st0, from->Some_0);
                }
            }
            st.total_supply = st.total_supply - amount;
        },
    }
    Ok(())
}

/// Transfers `amount` tokens from `from` to `to`.  Authorization for
/// `from` is the host's concern and is assumed here.
pub fn transfer(st: &mut FungibleToken, from: u32, to: u32, amount: i128) -> (r: Result<
    (),
    FungibleTokenError,
>)
    requires
        wf(*old(st)),
    ensures
        wf(*final(st)),
        r == if amount < 0 {
            Err::<(), FungibleTokenError>(FungibleTokenError::LessThanZero)
        } else if spec_balance(*old(st), from) < amount {
            Err::<(), FungibleTokenError>(FungibleTokenError::InsufficientBalance)
        } else {
            Ok::<(), FungibleTokenError>(())
        },
        r is Err ==> *final(st) == *old(st),
        r is Ok ==> {
            &&& forall|a: u32| spec_balance(*final(st), a) == spec_balance(*old(st), a) + (
            if a == to {
                amount as int
            } else {
                0int
            }) - (if a == from {
                amount as int
            } else {
                0int
            })
            &&& final(st).total_supply == old(st).total_supply
            &&& final(st).allowances == old(st).allowances
            &&& final(st).cap == old(st).cap
            &&& final(st).metadata == old(st).metadata
        },
{
    update(st, Some(from), Some(to), amount)
}

/// Returns the raw allowance record for (owner, spender), with no
/// expiry adjustment; both fields default to zero.
pub fn allowance_data(st: &FungibleToken, owner: u32, spender: u32) -> (r: AllowanceData)
    requires
        wf(*st),
    ensures
        r == spec_allowance_data(*st, owner, spender),
{
    match st.allowances.get(pair_key(owner, spender)) {
        Some(d) => d,
        None => AllowanceData { amount: 0, live_until_ledger: 0 },
    }
}

/// Returns the amount `spender` may currently spend on behalf of
/// `owner`.  A record whose expiry ledger lies before `current_ledger`
/// counts as zero, whether or not the store has evicted it yet.
pub fn allowance(st: &FungibleToken, owner: u32, spender: u32, current_ledger: u32) -> (r: i128)
    requires
        wf(*st),
    ensures
        r == spec_allowance(*st, owner, spender, current_ledger),
{
    let d = allowance_data(st, owner, spender);
    if d.live_until_ledger < current_ledger {
        return 0;
    }
    d.amount
}

/// Sets the allowance of (owner, spender), overriding any previous one.
///
/// Fails with `LessThanZero` on a negative amount and with
/// `InvalidLiveUntilLedger` when `live_until_ledger` exceeds
/// `max_live_until_ledger` or lies before `current_ledger` while the
/// amount is positive (an amount of zero may carry any past expiry).
/// On failure the ledger is unchanged.
///
/// The record lives in the short-lived storage tier with a remaining
/// lifetime of exactly `live_until_ledger - current_ledger` ledgers:
/// the span deliberately does not add one for the expiry ledger itself,
/// so the store may drop the record one ledger early; reads treat
/// expired and evicted records alike.
pub fn set_allowance(
    st: &mut FungibleToken,
    owner: u32,
    spender: u32,
    amount: i128,
    live_until_ledger: u32,
    current_ledger: u32,
    max_live_until_ledger: u32,
) -> (r: Result<(), FungibleTokenError>)
    requires
        wf(*old(st)),
    ensures
        wf(*final(st)),
        r == if amount < 0 {
            Err::<(), FungibleTokenError>(FungibleTokenError::LessThanZero)
        } else if live_until_ledger > max_live_until_ledger || (amount > 0 && live_until_ledger
            < current_ledger) {
            Err::<(), FungibleTokenError>(FungibleTokenError::InvalidLiveUntilLedger)
        } else {
            Ok::<(), FungibleTokenError>(())
        },
        r is Err ==> *final(st) == *old(st),
        r is Ok ==> {
            &&& final(st).allowances@ == old(st).allowances@.insert(
                spec_pair_key(owner, spender),
                AllowanceData { amount, live_until_ledger },
            )
            &&& spec_allowance_data(*final(st), owner, spender) == (AllowanceData {
                amount,
                live_until_ledger,
            })
            &&& forall|o2: u32, s2: u32|
                !(o2 == owner && s2 == spender) ==> spec_allowance_data(*final(st), o2, s2)
                    == spec_allowance_data(*old(st), o2, s2)
            &&& final(st).balances == old(st).balances
            &&& final(st).total_supply == old(st).total_supply
            &&& final(st).cap == old(st).cap
            &&& final(st).metadata == old(st).metadata
        },
{
    if amount < 0 {
        return Err(FungibleTokenError::LessThanZero);
    }
    if live_until_ledger > max_live_until_ledger || (amount > 0 && live_until_ledger
        < current_ledger) {
        return Err(FungibleTokenError::InvalidLiveUntilLedger);
    }
    st.allowances.set(pair_key(owner, spender), AllowanceData { amount, live_until_ledger });
    proof {
        lemma_pair_key_injective();
    }
    Ok(())
}

/// Sets the allowance of (owner, spender).  Authorization for `owner`
/// is the host's concern and is assumed here; otherwise identical to
/// [`set_allowance`].
pub fn approve(
    st: &mut FungibleToken,
    owner: u32,
    spender: u32,
    amount: i128,
    live_until_ledger: u32,
    current_ledger: u32,
    max_live_until_ledger: u32,
) -> (r: Result<(), FungibleTokenError>)
    requires
        wf(*old(st)),
    ensures
        wf(*final(st)),
        r == if amount < 0 {
            Err::<(), FungibleTokenError>(FungibleTokenError::LessThanZero)
        } else if live_until_ledger > max_live_until_ledger || (amount > 0 && live_until_ledger
            < current_ledger) {
            Err::<(), FungibleTokenError>(FungibleTokenError::InvalidLiveUntilLedger)
        } else {
            Ok::<(), FungibleTokenError>(())
        },
        r is Err ==> *final(st) == *old(st),
        r is Ok ==> {
            &&& final(st).allowances@ == old(st).allowances@.insert(
                spec_pair_key(owner, spender),
                AllowanceData { amount, live_until_ledger },
            )
            &&& spec_allowance(*final(st), owner, spender, current_ledger) == amount
            &&& forall|o2: u32, s2: u32|
                !(o2 == owner && s2 == spender) ==> spec_allowance_data(*final(st), o2, s2)
                    == spec_allowance_data(*old(st), o2, s2)
            &&& final(st).balances == old(st).balances
            &&& final(st).total_supply == old(st).total_supply
            &&& final(st).cap == old(st).cap
            &&& final(st).metadata == old(st).metadata
        },
{
    let r = set_allowance(
        st,
        owner,
        spender,
        amount,
        live_until_ledger,
        current_ledger,
        max_live_until_ledger,
    );
    r
}

/// The failure, if any, of spending `amount` against the raw allowance
/// record `d` at `current_ledger`.
pub open spec fn spec_spend_allowance_error(
    d: AllowanceData,
    amount: i128,
    current_ledger: u32,
    max_live_until_ledger: u32,
) -> Option<FungibleTokenError> {
    if amount < 0 {
        Some(FungibleTokenError::LessThanZero)
    } else if d.amount < amount {
        Some(FungibleTokenError::InsufficientAllowance)
    } else if amount > 0 && (d.live_until_ledger > max_live_until_ledger || (d.amount - amount > 0
        && d.live_until_ledger < current_ledger)) {
        Some(FungibleTokenError::InvalidLiveUntilLedger)
    } else {
        None
    }
}

/// Deducts `amount` from the allowance of (owner, spender), keeping the
/// expiry unchanged.  Fails with `InsufficientAllowance` when `amount`
/// exceeds the recorded allowance amount; on failure the ledger is
/// unchanged.
///
/// The last ensures clause is the allowance-monotonicity law: for a
/// live record within the storage lifetime bound, spending `k` either
/// leaves exactly `old - k`, or fails with `InsufficientAllowance`
/// precisely because `k` exceeded the old allowance.
pub fn spend_allowance(
    st: &mut FungibleToken,
    owner: u32,
    spender: u32,
    amount: i128,
    current_ledger: u32,
    max_live_until_ledger: u32,
) -> (r: Result<(), FungibleTokenError>)
    requires
        wf(*old(st)),
    ensures
        wf(*final(st)),
        r == (match spec_spend_allowance_error(
            spec_allowance_data(*old(st), owner, spender),
            amount,
            current_ledger,
            max_live_until_ledger,
        ) {
            Some(e) => Err::<(), FungibleTokenError>(e),
            None => Ok::<(), FungibleTokenError>(()),
        }),
        r is Err ==> *final(st) == *old(st),
        r is Ok ==> (if amount > 0 {
            ({
                let d = spec_allowance_data(*old(st), owner, spender);
                &&& final(st).allowances@ == old(st).allowances@.insert(
                    spec_pair_key(owner, spender),
                    AllowanceData {
                        amount: (d.amount - amount) as i128,
                        live_until_ledger: d.live_until_ledger,
                    },
                )
                &&& forall|o2: u32, s2: u32|
                    !(o2 == owner && s2 == spender) ==> spec_allowance_data(*final(st), o2, s2)
                        == spec_allowance_data(*old(st), o2, s2)
                &&& final(st).balances == old(st).balances
                &&& final(st).total_supply == old(st).total_supply
                &&& final(st).cap == old(st).cap
                &&& final(st).metadata == old(st).metadata
            })
        } else {
            *final(st) == *old(st)
        }),
        (spec_allowance_data(*old(st), owner, spender).live_until_ledger >= current_ledger
            && spec_allowance_data(*old(st), owner, spender).live_until_ledger
            <= max_live_until_ledger && amount >= 0) ==> (match r {
            Ok(()) => spec_allowance(*final(st), owner, spender, current_ledger) == spec_allowance(
                *old(st),
                owner,
                spender,
                current_ledger,
            ) - amount,
            Err(e) => e == FungibleTokenError::InsufficientAllowance && amount > spec_allowance(
                *old(st),
                owner,
                spender,
                current_ledger,
            ),
        }),
{
    if amount < 0 {
        return Err(FungibleTokenError::LessThanZero);
    }
    let d = allowance_data(st, owner, spender);
    if d.amount < amount {
        return Err(FungibleTokenError::InsufficientAllowance);
    }
    if amount > 0 {
        let r = set_allowance(
            st,
            owner,
            spender,
            d.amount - amount,
            d.live_until_ledger,
            current_ledger,
            max_live_until_ledger,
        );
        return r;
    }
    Ok(())
}

/// Transfers `amount` tokens from `from` to `to` on the authority of
/// `spender`, deducting `amount` from the allowance of (from, spender).
/// Authorization for `spender` is the host's concern and is assumed
/// here.  All checks run before any write, so a failed call leaves the
/// ledger unchanged, as the host's transaction atomicity demands.
pub fn transfer_from(
    st: &mut FungibleToken,
    spender: u32,
    from: u32,
    to: u32,
    amount: i128,
    current_ledger: u32,
    max_live_until_ledger: u32,
) -> (r: Result<(), FungibleTokenError>)
    requires
        wf(*old(st)),
    ensures
        wf(*final(st)),
        r == (match spec_spend_allowance_error(
            spec_allowance_data(*old(st), from, spender),
            amount,
            current_ledger,
            max_live_until_ledger,
        ) {
            Some(e) => Err::<(), FungibleTokenError>(e),
            None => if spec_balance(*old(st), from) < amount {
                Err::<(), FungibleTokenError>(FungibleTokenError::InsufficientBalance)
            } else {
                Ok::<(), FungibleTokenError>(())
            },
        }),
        r is Err ==> *final(st) == *old(st),
        r is Ok ==> {
            &&& forall|a: u32| spec_balance(*final(st), a) == spec_balance(*old(st), a) + (
            if a == to {
                amount as int
            } else {
                0int
            }) - (if a == from {
                amount as int
            } else {
                0int
            })
            &&& final(st).total_supply == old(st).total_supply
            &&& spec_allowance_data(*final(st), from, spender) == (if amount > 0 {
                AllowanceData {
                    amount: (spec_allowance_data(*old(st), from, spender).amount - amount) as i128,
                    live_until_ledger: spec_allowance_data(
                        *old(st),
                        from,
                        spender,
                    ).live_until_ledger,
                }
            } else {
                spec_allowance_data(*old(st), from, spender)
            })
            &&& forall|o2: u32, s2: u32|
                !(o2 == from && s2 == spender) ==> spec_allowance_data(*final(st), o2, s2)
                    == spec_allowance_data(*old(st), o2, s2)
            &&& final(st).cap == old(st).cap
            &&& final(st).metadata == old(st).metadata
        },
{
    if amount < 0 {
        return Err(FungibleTokenError::LessThanZero);
    }
    let d = allowance_data(st, from, spender);
    if d.amount < amount {
        return Err(FungibleTokenError::InsufficientAllowance);
    }
    if amount > 0 && (d.live_until_ledger > max_live_until_ledger || (d.amount - amount > 0
        && d.live_until_ledger < current_ledger)) {
        return Err(FungibleTokenError::InvalidLiveUntilLedger);
    }
    let from_balance = balance(st, from);
    if from_balance < amount {
        return Err(FungibleTokenError::InsufficientBalance);
    }
    proof {
        lemma_pair_key_injective();
    }
    match spend_allowance(st, from, spender, amount, current_ledger, max_live_until_ledger) {
        Ok(_) => (),
        Err(e) => {
            proof {
                assert(false);
            }
            return Err(e);
        },
    }
    match update(st, Some(from), Some(to), amount) {
        Ok(_) => (),
        Err(e) => {
            proof {
                assert(false);
            }
            return Err(e);
        },
    }
    Ok(())
}

/// Creates `amount` tokens and assigns them to `to`, raising the total
/// supply accordingly.  Establishing who may mint is the caller's
/// concern.
pub fn mint(st: &mut FungibleToken, to: u32, amount: i128) -> (r: Result<(), FungibleTokenError>)
    requires
        wf(*old(st)),
    ensures
        wf(*final(st)),
        r == if amount < 0 {
            Err::<(), FungibleTokenError>(FungibleTokenError::LessThanZero)
        } else if old(st).total_supply + amount > i128::MAX {
            Err::<(), FungibleTokenError>(FungibleTokenError::MathOverflow)
        } else {
            Ok::<(), FungibleTokenError>(())
        },
        r is Err ==> *final(st) == *old(st),
        r is Ok ==> {
            &&& forall|a: u32| spec_balance(*final(st), a) == spec_balance(*old(st), a) + (
            if a == to {
                amount as int
            } else {
                0int
            })
            &&& final(st).total_supply == old(st).total_supply + amount
            &&& final(st).allowances == old(st).allowances
            &&& final(st).cap == old(st).cap
            &&& final(st).metadata == old(st).metadata
        },
{
    update(st, None, Some(to), amount)
}

/// Destroys `amount` tokens held by `from`, lowering the total supply
/// accordingly.
pub fn burn(st: &mut FungibleToken, from: u32, amount: i128) -> (r: Result<
    (),
    FungibleTokenError,
>)
    requires
        wf(*old(st)),
    ensures
        wf(*final(st)),
        r == if amount < 0 {
            Err::<(), FungibleTokenError>(FungibleTokenError::LessThanZero)
        } else if spec_balance(*old(st), from) < amount {
            Err::<(), FungibleTokenError>(FungibleTokenError::InsufficientBalance)
        } else {
            Ok::<(), FungibleTokenError>(())
        },
        r is Err ==> *final(st) == *old(st),
        r is Ok ==> {
            &&& forall|a: u32| spec_balance(*final(st), a) == spec_balance(*old(st), a) - (
            if a == from {
                amount as int
            } else {
                0int
            })
            &&& final(st).total_supply == old(st).total_supply - amount
            &&& final(st).allowances == old(st).allowances
            &&& final(st).cap == old(st).cap
            &&& final(st).metadata == old(st).metadata
        },
{
    update(st, Some(from), None, amount)
}

/// Sets the maximum total supply.  Fails with `InvalidCap` on a
/// negative cap, leaving the ledger unchanged.
pub fn set_cap(st: &mut FungibleToken, cap: i128) -> (r: Result<(), FungibleTokenError>)
    requires
        wf(*old(st)),
    ensures
        wf(*final(st)),
        r == if cap < 0 {
            Err::<(), FungibleTokenError>(FungibleTokenError::InvalidCap)
        } else {
            Ok::<(), FungibleTokenError>(())
        },
        r is Err ==> *final(st) == *old(st),
        r is Ok ==> *final(st) == (FungibleToken { cap: Some(cap), ..*old(st) }),
{
    if cap < 0 {
        return Err(FungibleTokenError::InvalidCap);
    }
    st.cap = Some(cap);
    Ok(())
}

/// Returns the maximum total supply.  Fails with `CapNotSet` when no
/// cap has been recorded.
pub fn query_cap(st: &FungibleToken) -> (r: Result<i128, FungibleTokenError>)
    ensures
        r == (match st.cap {
            Some(c) => Ok::<i128, FungibleTokenError>(c),
            None => Err::<i128, FungibleTokenError>(FungibleTokenError::CapNotSet),
        }),
{
    match st.cap {
        Some(c) => Ok(c),
        None => Err(FungibleTokenError::CapNotSet),
    }
}

/// Law: cap enforcement.  Succeeds exactly when minting `amount` more
/// tokens keeps the total supply within the cap; fails with `CapNotSet`
/// when no cap was recorded and with `ExceededCap` when the cap would
/// be exceeded.
pub fn check_cap(st: &FungibleToken, amount: i128) -> (r: Result<(), FungibleTokenError>)
    requires
        wf(*st),
    ensures
        r == (match st.cap {
            None => Err::<(), FungibleTokenError>(FungibleTokenError::CapNotSet),
            Some(cap) => if cap < amount + st.total_supply {
                Err::<(), FungibleTokenError>(FungibleTokenError::ExceededCap)
            } else {
                Ok::<(), FungibleTokenError>(())
            },
        }),
{
    let cap = match st.cap {
        Some(c) => c,
        None => {
            return Err(FungibleTokenError::CapNotSet);
        },
    };
    match amount.checked_add(st.total_supply) {
        Some(sum) => {
            if cap < sum {
                Err(FungibleTokenError::ExceededCap)
            } else {
                Ok(())
            }
        },
        None => {
            // With a non-negative total supply the sum can only overflow
            // upward, past any representable cap.
            Err(FungibleTokenError::ExceededCap)
        },
    }
}

/// Records the token metadata, overriding any previous record.
pub fn set_metadata(st: &mut FungibleToken, decimals: u32, name: String, symbol: String)
    requires
        wf(*old(st)),
    ensures
        wf(*final(st)),
        *final(st) == (FungibleToken {
            metadata: Some(Metadata { decimals, name, symbol }),
            ..*old(st)
        }),
{
    st.metadata = Some(Metadata { decimals, name, symbol });
}

/// Returns the token metadata.  Fails with `UnsetMetadata` when none
/// was recorded.
pub fn get_metadata(st: &FungibleToken) -> (r: Result<Metadata, FungibleTokenError>)
    ensures
        match st.metadata {
            Some(m) => r is Ok && r->Ok_0.decimals == m.decimals && r->Ok_0.name@ == m.name@
                && r->Ok_0.symbol@ == m.symbol@,
            None => r == Err::<Metadata, FungibleTokenError>(FungibleTokenError::UnsetMetadata),
        },
{
    match &st.metadata {
        Some(m) => Ok(
            Metadata { decimals: m.decimals, name: m.name.clone(), symbol: m.symbol.clone() },
        ),
        None => Err(FungibleTokenError::UnsetMetadata),
    }
}

/// Returns the number of decimals of the token.
pub fn decimals(st: &FungibleToken) -> (r: Result<u32, FungibleTokenError>)
    ensures
        match st.metadata {
            Some(m) => r == Ok::<u32, FungibleTokenError>(m.decimals),
            None => r == Err::<u32, FungibleTokenError>(FungibleTokenError::UnsetMetadata),
        },
{
    match &st.metadata {
        Some(m) => Ok(m.decimals),
        None => Err(FungibleTokenError::UnsetMetadata),
    }
}

/// Returns the name of the token.
pub fn name(st: &FungibleToken) -> (r: Result<String, FungibleTokenError>)
    ensures
        match st.metadata {
            Some(m) => r is Ok && r->Ok_0@ == m.name@,
            None => r == Err::<String, FungibleTokenError>(FungibleTokenError::UnsetMetadata),
        },
{
    match &st.metadata {
        Some(m) => Ok(m.name.clone()),
        None => Err(FungibleTokenError::UnsetMetadata),
    }
}

/// Returns the symbol of the token.
pub fn symbol(st: &FungibleToken) -> (r: Result<String, FungibleTokenError>)
    ensures
        match st.metadata {
            Some(m) => r is Ok && r->Ok_0@ == m.symbol@,
            None => r == Err::<String, FungibleTokenError>(FungibleTokenError::UnsetMetadata),
        },
{
    match &st.metadata {
        Some(m) => Ok(m.symbol.clone()),
        None => Err(FungibleTokenError::UnsetMetadata),
    }
}

} // verus!
