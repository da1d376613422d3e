//! The non-fungible base ledger: per-token ownership, per-token
//! approvals, per-owner operator approvals, and collection metadata.
//!
//! A token is owned exactly when the owner map holds a record for it,
//! so each token has at most one owner by construction.  All mutation
//! of ownership and balances goes through [`Base::update`].  Accounts
//! and token identifiers are plain integers; the logical clock (the
//! ledger sequence number) is passed in by the caller.

use vstd::prelude::*;

use crate::errors::NonFungibleTokenError;
use crate::kvmap::{lemma_pair_key_injective, pair_key, spec_pair_key, KvMap};
use crate::sequential;
use vstd::string::{StrSliceExecFns, StringExecFns};

verus! {

/// The longest base URI a collection may record.
pub const MAX_BASE_URI_LEN: usize = 200;

/// A single-slot per-token approval: the approved account and the
/// ledger number at which the approval expires.
#[derive(Clone, Copy, Debug, PartialEq, Eq)]
pub struct ApprovalData {
    pub approved: u32,
    pub live_until_ledger: u32,
}

/// Collection metadata: base URI, name and symbol.
#[derive(Debug, PartialEq, Eq)]
pub struct Metadata {
    pub base_uri: String,
    pub name: String,
    pub symbol: String,
}

/// The base non-fungible ledger.
pub struct Base {
    /// Token identifier to owning account; one record per existing token.
    pub owners: KvMap<u32>,
    /// Account to number of tokens owned.
    pub balances: KvMap<u32>,
    /// Token identifier to its single approval slot.
    pub approvals: KvMap<ApprovalData>,
    /// (owner, operator) pair to the operator approval's expiry ledger.
    pub operators: KvMap<u32>,
    /// The sequential token identifier counter.
    pub counter: u32,
    /// Collection metadata, once set.
    pub metadata: Option<Metadata>,
}

impl Base {
    /// The owner of `token_id`, if the token exists.
    pub open spec fn spec_owner(self, token_id: u32) -> Option<u32> {
        if self.owners@.contains_key(token_id as u64) {
            Some(self.owners@[token_id as u64])
        } else {
            None
        }
    }

    /// The number of tokens `account` owns; absence means zero.
    pub open spec fn spec_balance(self, account: u32) -> u32 {
        if self.balances@.contains_key(account as u64) {
            self.balances@[account as u64]
        } else {
            0
        }
    }

    /// The raw approval slot of `token_id`, if any.
    pub open spec fn spec_approval(self, token_id: u32) -> Option<ApprovalData> {
        if self.approvals@.contains_key(token_id as u64) {
            Some(self.approvals@[token_id as u64])
        } else {
            None
        }
    }

    /// The account approved for `token_id` at `current_ledger`: an
    /// expired slot counts as no approval.
    pub open spec fn spec_approved(self, token_id: u32, current_ledger: u32) -> Option<u32> {
        match self.spec_approval(token_id) {
            Some(d) => if d.live_until_ledger >= current_ledger {
                Some(d.approved)
            } else {
                None
            },
            None => None,
        }
    }

    /// The expiry ledger of the operator approval of (owner, operator),
    /// if one is recorded.
    pub open spec fn spec_operator(self, owner: u32, operator: u32) -> Option<u32> {
        let k = spec_pair_key(owner, operator);
        if self.operators@.contains_key(k) {
            Some(self.operators@[k])
        } else {
            None
        }
    }

    /// Whether `operator` is a live operator for `owner` at
    /// `current_ledger`.
    pub open spec fn spec_is_operator(self, owner: u32, operator: u32, current_ledger: u32) -> bool {
        match self.spec_operator(owner, operator) {
            Some(live_until) => live_until >= current_ledger,
            None => false,
        }
    }

    /// Whether `spender` may move `token_id` out of `owner`'s holding:
    /// the owner themselves, a live operator, or the account in a live
    /// per-token approval slot.
    pub open spec fn spec_spender_approved(
        self,
        spender: u32,
        owner: u32,
        token_id: u32,
        current_ledger: u32,
    ) -> bool {
        ||| spender == owner
        ||| self.spec_is_operator(owner, spender, current_ledger)
        ||| self.spec_approved(token_id, current_ledger) == Some(spender)
    }

    /// Well-formedness: the four record maps are well-formed.
    pub open spec fn wf(self) -> bool {
        &&& self.owners.wf()
        &&& self.balances.wf()
        &&& self.approvals.wf()
        &&& self.operators.wf()
    }

    /// Creates an empty ledger: no tokens, no balances, no approvals,
    /// counter at zero, no metadata.
    pub fn new() -> (st: Base)
        ensures
            st.wf(),
            st.owners@ == Map::<u64, u32>::empty(),
            st.balances@ == Map::<u64, u32>::empty(),
            st.approvals@ == Map::<u64, ApprovalData>::empty(),
            st.operators@ == Map::<u64, u32>::empty(),
            forall|id: u32| st.spec_owner(id) is None,
            forall|a: u32| st.spec_balance(a) == 0,
            forall|id: u32| st.spec_approval(id) is None,
            forall|o: u32, p: u32| st.spec_operator(o, p) is None,
            st.counter == 0,
            st.metadata is None,
    {
        Base {
            owners: KvMap::new(),
            balances: KvMap::new(),
            approvals: KvMap::new(),
            operators: KvMap::new(),
            counter: 0,
            metadata: None,
        }
    }

    /// Returns the number of tokens held by `owner`; zero if no
    /// balance is recorded.
    pub fn balance(&self, owner: u32) -> (r: u32)
        requires
            self.wf(),
        ensures
            r == self.spec_balance(owner),
    {
        match self.balances.get(owner as u64) {
            Some(b) => b,
            None => 0,
        }
    }

    /// Returns the owner of `token_id`, failing with `NonExistentToken`
    /// when no owner record exists.
    pub fn owner_of(&self, token_id: u32) -> (r: Result<u32, NonFungibleTokenError>)
        requires
            self.wf(),
        ensures
            r == (match self.spec_owner(token_id) {
                Some(o) => Ok::<u32, NonFungibleTokenError>(o),
                None => Err::<u32, NonFungibleTokenError>(NonFungibleTokenError::NonExistentToken),
            }),
    {
        match self.owners.get(token_id as u64) {
            Some(o) => Ok(o),
            None => Err(NonFungibleTokenError::NonExistentToken),
        }
    }

    /// Adds `amount` to the balance of `to`.  Fails with `MathOverflow`
    /// when the balance would exceed the balance type's range, leaving
    /// the ledger unchanged.
    pub fn increase_balance(&mut self, to: u32, amount: u32) -> (r: Result<
        (),
        NonFungibleTokenError,
    >)
        requires
            old(self).wf(),
        ensures
            final(self).wf(),
            r == if old(self).spec_balance(to) + amount > u32::MAX {
                Err::<(), NonFungibleTokenError>(NonFungibleTokenError::MathOverflow)
            } else {
                Ok::<(), NonFungibleTokenError>(())
            },
            r is Err ==> *final(self) == *old(self),
            r is Ok ==> *final(self) == (Base {
                balances: final(self).balances,
                ..*old(self)
            }) && final(self).balances@ == old(self).balances@.insert(
                to as u64,
                (old(self).spec_balance(to) + amount) as u32,
            ),
    {
        let b = self.balance(to);
        match b.checked_add(amount) {
            Some(nb) => {
                self.balances.set(to as u64, nb);
                Ok(())
            },
            None => Err(NonFungibleTokenError::MathOverflow),
        }
    }

    /// Subtracts `amount` from the balance of `from`.  Fails with
    /// `MathOverflow` when the balance is smaller than `amount`,
    /// leaving the ledger unchanged.
    pub fn decrease_balance(&mut self, from: u32, amount: u32) -> (r: Result<
        (),
        NonFungibleTokenError,
    >)
        requires
            old(self).wf(),
        ensures
            final(self).wf(),
            r == if old(self).spec_balance(from) < amount {
                Err::<(), NonFungibleTokenError>(NonFungibleTokenError::MathOverflow)
            } else {
                Ok::<(), NonFungibleTokenError>(())
            },
            r is Err ==> *final(self) == *old(self),
            r is Ok ==> *final(self) == (Base {
                balances: final(self).balances,
                ..*old(self)
            }) && final(self).balances@ == old(self).balances@.insert(
                from as u64,
                (old(self).spec_balance(from) - amount) as u32,
            ),
    {
        let b = self.balance(from);
        match b.checked_sub(amount) {
            Some(nb) => {
                self.balances.set(from as u64, nb);
                Ok(())
            },
            None => Err(NonFungibleTokenError::MathOverflow),
        }
    }

    /// The failure, if any, of `update(from, to, token_id)` on ledger
    /// `self`: the recorded owner must equal `from`, the sender's
    /// balance must support a decrement and the receiver's an
    /// increment.
    pub open spec fn spec_update_error(self, from: Option<u32>, to: Option<u32>, token_id: u32)
        -> Option<NonFungibleTokenError> {
        if from is Some && self.spec_owner(token_id) is None {
            Some(NonFungibleTokenError::NonExistentToken)
        } else if from is Some && self.spec_owner(token_id) != Some(from->0) {
            Some(NonFungibleTokenError::IncorrectOwner)
        } else if from is Some && self.spec_balance(from->0) == 0 {
            Some(NonFungibleTokenError::MathOverflow)
        } else if to is Some && from != to && self.spec_balance(to->0) == u32::MAX {
            Some(NonFungibleTokenError::MathOverflow)
        } else {
            None
        }
    }

    /// Transfers `token_id` from `from` to `to`, or mints when `from`
    /// is absent, or burns when `to` is absent: verifies ownership,
    /// moves the balances, clears the approval slot, and rewrites the
    /// owner record.  The sole mutator of ownership.  All checks run
    /// before any write, so a failed call leaves the ledger unchanged.
    pub fn update(&mut self, from: Option<u32>, to: Option<u32>, token_id: u32) -> (r: Result<
        (),
        NonFungibleTokenError,
    >)
        requires
            old(self).wf(),
        ensures
            final(self).wf(),
            r == (match old(self).spec_update_error(from, to, token_id) {
                Some(e) => Err::<(), NonFungibleTokenError>(e),
                None => Ok::<(), NonFungibleTokenError>(()),
            }),
            r is Err ==> *final(self) == *old(self),
            r is Ok ==> {
                &&& final(self).spec_owner(token_id) == to
                &&& forall|id: u32|
                    id != token_id ==> final(self).spec_owner(id) == old(self).spec_owner(id)
                &&& forall|a: u32| final(self).spec_balance(a) == old(self).spec_balance(a) + (
                if to == Some(a) {
                    1int
                } else {
                    0int
                }) - (if from == Some(a) {
                    1int
                } else {
                    0int
                })
                &&& final(self).approvals@ == (if from is Some {
                    old(self).approvals@.remove(token_id as u64)
                } else {
                    old(self).approvals@
                })
                &&& final(self).operators == old(self).operators
                &&& final(self).counter == old(self).counter
                &&& final(self).metadata == old(self).metadata
            },
    {
        let ghost pre = *self;
        // Validation phase: surface the first violated condition
        // without touching any record.
        match from {
            Some(from_account) => {
                let owner = match self.owners.get(token_id as u64) {
                    Some(o) => o,
                    None => {
                        return Err(NonFungibleTokenError::NonExistentToken);
                    },
                };
                if owner != from_account {
                    return Err(NonFungibleTokenError::IncorrectOwner);
                }
                if self.balance(from_account) == 0 {
                    return Err(NonFungibleTokenError::MathOverflow);
                }
                match to {
                    Some(to_account) => {
                        if to_account != from_account && self.balance(to_account) == u32::MAX {
                            return Err(NonFungibleTokenError::MathOverflow);
                        }
                    },
                    None => (),
                }
            },
            None => {
                match to {
                    Some(to_account) => {
                        if self.balance(to_account) == u32::MAX {
                            return Err(NonFungibleTokenError::MathOverflow);
                        }
                    },
                    None => (),
                }
            },
        }
        // Write phase: every step below is now known to succeed.
        match from {
            Some(from_account) => {
                match self.decrease_balance(from_account, 1) {
                    Ok(_) => (),
                    Err(e) => {
                        proof {
                            assert(false);
                        }
                        return Err(e);
                    },
                }
                self.approvals.remove(token_id as u64);
            },
            None => (),
        }
        match to {
            Some(to_account) => {
                match self.increase_balance(to_account, 1) {
                    Ok(_) => (),
                    Err(e) => {
                        proof {
                            assert(false);
                        }
                        return Err(e);
                    },
                }
                self.owners.set(token_id as u64, to_account);
            },
            None => {
                self.owners.remove(token_id as u64);
            },
        }
        Ok(())
    }

    /// Transfers `token_id` from `from` to `to`.  Authorization for
    /// `from` is the host's concern and is assumed here.
    ///
    /// On success the owner record of `token_id` points to `to` alone,
    /// `from`'s balance drops by one and `to`'s rises by one: ownership
    /// stays exclusive.
    pub fn transfer(&mut self, from: u32, to: u32, token_id: u32) -> (r: Result<
        (),
        NonFungibleTokenError,
    >)
        requires
            old(self).wf(),
        ensures
            final(self).wf(),
            r == (match old(self).spec_update_error(Some(from), Some(to), token_id) {
                Some(e) => Err::<(), NonFungibleTokenError>(e),
                None => Ok::<(), NonFungibleTokenError>(()),
            }),
            r is Err ==> *final(self) == *old(self),
            r is Ok ==> {
                &&& final(self).spec_owner(token_id) == Some(to)
                &&& forall|id: u32|
                    id != token_id ==> final(self).spec_owner(id) == old(self).spec_owner(id)
                &&& forall|a: u32| final(self).spec_balance(a) == old(self).spec_balance(a) + (
                if a == to {
                    1int
                } else {
                    0int
                }) - (if a == from {
                    1int
                } else {
                    0int
                })
                &&& final(self).approvals@ == old(self).approvals@.remove(token_id as u64)
                &&& final(self).operators == old(self).operators
                &&& final(self).counter == old(self).counter
                &&& final(self).metadata == old(self).metadata
            },
    {
        self.update(Some(from), Some(to), token_id)
    }

    /// Destroys `token_id`, which must be owned by `from`: the owner
    /// record is removed and `from`'s balance drops by one.
    /// Authorization for `from` is the host's concern and is assumed
    /// here.
    pub fn burn(&mut self, from: u32, token_id: u32) -> (r: Result<(), NonFungibleTokenError>)
        requires
            old(self).wf(),
        ensures
            final(self).wf(),
            r == (match old(self).spec_update_error(Some(from), None, token_id) {
                Some(e) => Err::<(), NonFungibleTokenError>(e),
                None => Ok::<(), NonFungibleTokenError>(()),
            }),
            r is Err ==> *final(self) == *old(self),
            r is Ok ==> {
                &&& final(self).spec_owner(token_id) is None
                &&& forall|id: u32|
                    id != token_id ==> final(self).spec_owner(id) == old(self).spec_owner(id)
                &&& forall|a: u32| final(self).spec_balance(a) == old(self).spec_balance(a) - (
                if a == from {
                    1int
                } else {
                    0int
                })
                &&& final(self).approvals@ == old(self).approvals@.remove(token_id as u64)
                &&& final(self).operators == old(self).operators
                &&& final(self).counter == old(self).counter
                &&& final(self).metadata == old(self).metadata
            },
    {
        self.update(Some(from), None, token_id)
    }
}



impl Base {
    /// Returns the account approved for `token_id`, if the approval
    /// slot is live at `current_ledger`.
    pub fn get_approved(&self, token_id: u32, current_ledger: u32) -> (r: Option<u32>)
        requires
            self.wf(),
        ensures
            r == self.spec_approved(token_id, current_ledger),
    {
        match self.approvals.get(token_id as u64) {
            Some(d) => {
                if d.live_until_ledger >= current_ledger {
                    Some(d.approved)
                } else {
                    None
                }
            },
            None => None,
        }
    }

    /// Whether `operator` holds a live blanket approval over all of
    /// `owner`'s tokens at `current_ledger`.
    pub fn is_approved_for_all(&self, owner: u32, operator: u32, current_ledger: u32) -> (r: bool)
        requires
            self.wf(),
        ensures
            r == self.spec_is_operator(owner, operator, current_ledger),
    {
        match self.operators.get(pair_key(owner, operator)) {
            Some(live_until) => live_until >= current_ledger,
            None => false,
        }
    }

    /// Grants or revokes `operator`'s blanket approval over all of
    /// `owner`'s tokens.  An expiry of zero is the explicit revoke
    /// signal; otherwise the expiry must not lie before
    /// `current_ledger` (`InvalidLiveUntilLedger`).  Authorization for
    /// `owner` is the host's concern and is assumed here.
    pub fn approve_for_all(
        &mut self,
        owner: u32,
        operator: u32,
        live_until_ledger: u32,
        current_ledger: u32,
    ) -> (r: Result<(), NonFungibleTokenError>)
        requires
            old(self).wf(),
        ensures
            final(self).wf(),
            r == if live_until_ledger != 0 && live_until_ledger < current_ledger {
                Err::<(), NonFungibleTokenError>(NonFungibleTokenError::InvalidLiveUntilLedger)
            } else {
                Ok::<(), NonFungibleTokenError>(())
            },
            r is Err ==> *final(self) == *old(self),
            r is Ok ==> {
                &&& final(self).operators@ == (if live_until_ledger == 0 {
                    old(self).operators@.remove(spec_pair_key(owner, operator))
                } else {
                    old(self).operators@.insert(spec_pair_key(owner, operator), live_until_ledger)
                })
                &&& final(self).spec_operator(owner, operator) == (if live_until_ledger == 0 {
                    None::<u32>
                } else {
                    Some(live_until_ledger)
                })
                &&& forall|o2: u32, p2: u32|
                    !(o2 == owner && p2 == operator) ==> final(self).spec_operator(o2, p2) == old(
                        self,
                    ).spec_operator(o2, p2)
                &&& final(self).owners == old(self).owners
                &&& final(self).balances == old(self).balances
                &&& final(self).approvals == old(self).approvals
                &&& final(self).counter == old(self).counter
                &&& final(self).metadata == old(self).metadata
            },
    {
        proof {
            lemma_pair_key_injective();
        }
        if live_until_ledger == 0 {
            self.operators.remove(pair_key(owner, operator));
            return Ok(());
        }
        if live_until_ledger < current_ledger {
            return Err(NonFungibleTokenError::InvalidLiveUntilLedger);
        }
        self.operators.set(pair_key(owner, operator), live_until_ledger);
        Ok(())
    }

    /// The failure, if any, of approving `token_id` on behalf of
    /// `owner`: the approver must be the owner or a live operator, and
    /// a non-zero expiry must not lie before `current_ledger`.
    pub open spec fn spec_approve_error(
        self,
        owner: u32,
        approver: u32,
        live_until_ledger: u32,
        current_ledger: u32,
    ) -> Option<NonFungibleTokenError> {
        if approver != owner && !self.spec_is_operator(owner, approver, current_ledger) {
            Some(NonFungibleTokenError::InvalidApprover)
        } else if live_until_ledger != 0 && live_until_ledger < current_ledger {
            Some(NonFungibleTokenError::InvalidLiveUntilLedger)
        } else {
            None
        }
    }

    /// Writes the approval slot of `token_id`, owned by `owner`, on
    /// the authority of `approver` (the owner or a live operator,
    /// `InvalidApprover` otherwise).
    pub fn approve_for_owner(
        &mut self,
        owner: u32,
        approver: u32,
        approved: u32,
        token_id: u32,
        live_until_ledger: u32,
        current_ledger: u32,
    ) -> (r: Result<(), NonFungibleTokenError>)
        requires
            old(self).wf(),
        ensures
            final(self).wf(),
            r == (match old(self).spec_approve_error(
                owner,
                approver,
                live_until_ledger,
                current_ledger,
            ) {
                Some(e) => Err::<(), NonFungibleTokenError>(e),
                None => Ok::<(), NonFungibleTokenError>(()),
            }),
            r is Err ==> *final(self) == *old(self),
            r is Ok ==> {
                &&& final(self).approvals@ == old(self).approvals@.insert(
                    token_id as u64,
                    ApprovalData { approved, live_until_ledger },
                )
                &&& final(self).spec_approval(token_id) == Some(ApprovalData {
                    approved,
                    live_until_ledger,
                })
                &&& forall|id: u32|
                    id != token_id ==> final(self).spec_approval(id) == old(self).spec_approval(id)
                &&& final(self).owners == old(self).owners
                &&& final(self).balances == old(self).balances
                &&& final(self).operators == old(self).operators
                &&& final(self).counter == old(self).counter
                &&& final(self).metadata == old(self).metadata
            },
    {
        let is_operator = self.is_approved_for_all(owner, approver, current_ledger);
        if approver != owner && !is_operator {
            return Err(NonFungibleTokenError::InvalidApprover);
        }
        if live_until_ledger != 0 && live_until_ledger < current_ledger {
            return Err(NonFungibleTokenError::InvalidLiveUntilLedger);
        }
        self.approvals.set(token_id as u64, ApprovalData { approved, live_until_ledger });
        Ok(())
    }

    /// Approves `approved` to transfer `token_id`: resolves the owner
    /// (`NonExistentToken` when there is none) and writes the approval
    /// slot on the authority of `approver`.  Authorization for
    /// `approver` is the host's concern and is assumed here.
    pub fn approve(
        &mut self,
        approver: u32,
        approved: u32,
        token_id: u32,
        live_until_ledger: u32,
        current_ledger: u32,
    ) -> (r: Result<(), NonFungibleTokenError>)
        requires
            old(self).wf(),
        ensures
            final(self).wf(),
            r == (match old(self).spec_owner(token_id) {
                None => Err::<(), NonFungibleTokenError>(NonFungibleTokenError::NonExistentToken),
                Some(owner) => match old(self).spec_approve_error(
                    owner,
                    approver,
                    live_until_ledger,
                    current_ledger,
                ) {
                    Some(e) => Err::<(), NonFungibleTokenError>(e),
                    None => Ok::<(), NonFungibleTokenError>(()),
                },
            }),
            r is Err ==> *final(self) == *old(self),
            r is Ok ==> {
                &&& final(self).approvals@ == old(self).approvals@.insert(
                    token_id as u64,
                    ApprovalData { approved, live_until_ledger },
                )
                &&& final(self).spec_approved(token_id, current_ledger) == (
                if live_until_ledger == 0 && current_ledger > 0 {
                    None::<u32>
                } else {
                    Some(approved)
                })
                &&& final(self).owners == old(self).owners
                &&& final(self).balances == old(self).balances
                &&& final(self).operators == old(self).operators
                &&& final(self).counter == old(self).counter
                &&& final(self).metadata == old(self).metadata
            },
    {
        let owner = match self.owner_of(token_id) {
            Ok(o) => o,
            Err(e) => {
                return Err(e);
            },
        };
        self.approve_for_owner(owner, approver, approved, token_id, live_until_ledger,
            current_ledger)
    }

    /// The shared check of the `_from` operations: succeeds exactly when
    /// `spender` is the owner, holds a live per-token approval, or is
    /// a live operator; fails with `InsufficientApproval` otherwise.
    pub fn check_spender_approval(
        &self,
        spender: u32,
        owner: u32,
        token_id: u32,
        current_ledger: u32,
    ) -> (r: Result<(), NonFungibleTokenError>)
        requires
            self.wf(),
        ensures
            r == if self.spec_spender_approved(spender, owner, token_id, current_ledger) {
                Ok::<(), NonFungibleTokenError>(())
            } else {
                Err::<(), NonFungibleTokenError>(NonFungibleTokenError::InsufficientApproval)
            },
    {
        let is_spender_owner = spender == owner;
        let is_spender_operator = self.is_approved_for_all(owner, spender, current_ledger);
        let has_token_approval = match self.get_approved(token_id, current_ledger) {
            Some(approved) => approved == spender,
            None => false,
        };
        if is_spender_owner || is_spender_operator || has_token_approval {
            Ok(())
        } else {
            Err(NonFungibleTokenError::InsufficientApproval)
        }
    }

    /// Transfers `token_id` from `from` to `to` on the authority of
    /// `spender`, who must pass the spender-approval check.
    /// Authorization for `spender` is the host's concern and is
    /// assumed here.
    pub fn transfer_from(&mut self, spender: u32, from: u32, to: u32, token_id: u32,
        current_ledger: u32) -> (r: Result<(), NonFungibleTokenError>)
        requires
            old(self).wf(),
        ensures
            final(self).wf(),
            r == if !old(self).spec_spender_approved(spender, from, token_id, current_ledger) {
                Err::<(), NonFungibleTokenError>(NonFungibleTokenError::InsufficientApproval)
            } else {
                match old(self).spec_update_error(Some(from), Some(to), token_id) {
                    Some(e) => Err::<(), NonFungibleTokenError>(e),
                    None => Ok::<(), NonFungibleTokenError>(()),
                }
            },
            r is Err ==> *final(self) == *old(self),
            r is Ok ==> {
                &&& final(self).spec_owner(token_id) == Some(to)
                &&& forall|id: u32|
                    id != token_id ==> final(self).spec_owner(id) == old(self).spec_owner(id)
                &&& forall|a: u32| final(self).spec_balance(a) == old(self).spec_balance(a) + (
                if a == to {
                    1int
                } else {
                    0int
                }) - (if a == from {
                    1int
                } else {
                    0int
                })
                &&& final(self).approvals@ == old(self).approvals@.remove(token_id as u64)
                &&& final(self).operators == old(self).operators
                &&& final(self).counter == old(self).counter
                &&& final(self).metadata == old(self).metadata
            },
    {
        match self.check_spender_approval(spender, from, token_id, current_ledger) {
            Ok(_) => (),
            Err(e) => {
                return Err(e);
            },
        }
        self.update(Some(from), Some(to), token_id)
    }

    /// Destroys `token_id`, owned by `from`, on the authority of
    /// `spender`, who must pass the spender-approval check.
    /// Authorization for `spender` is the host's concern and is
    /// assumed here.
    pub fn burn_from(&mut self, spender: u32, from: u32, token_id: u32, current_ledger: u32) -> (r:
        Result<(), NonFungibleTokenError>)
        requires
            old(self).wf(),
        ensures
            final(self).wf(),
            r == if !old(self).spec_spender_approved(spender, from, token_id, current_ledger) {
                Err::<(), NonFungibleTokenError>(NonFungibleTokenError::InsufficientApproval)
            } else {
                match old(self).spec_update_error(Some(from), None, token_id) {
                    Some(e) => Err::<(), NonFungibleTokenError>(e),
                    None => Ok::<(), NonFungibleTokenError>(()),
                }
            },
            r is Err ==> *final(self) == *old(self),
            r is Ok ==> {
                &&& final(self).spec_owner(token_id) is None
                &&& forall|id: u32|
                    id != token_id ==> final(self).spec_owner(id) == old(self).spec_owner(id)
                &&& forall|a: u32| final(self).spec_balance(a) == old(self).spec_balance(a) - (
                if a == from {
                    1int
                } else {
                    0int
                })
                &&& final(self).approvals@ == old(self).approvals@.remove(token_id as u64)
                &&& final(self).operators == old(self).operators
                &&& final(self).counter == old(self).counter
                &&& final(self).metadata == old(self).metadata
            },
    {
        match self.check_spender_approval(spender, from, token_id, current_ledger) {
            Ok(_) => (),
            Err(e) => {
                return Err(e);
            },
        }
        self.update(Some(from), None, token_id)
    }

    /// Mints the next sequential token identifier to `to` and returns
    /// it.  Fails with `MathOverflow` when the identifier counter or
    /// the receiver's balance would overflow, leaving the ledger
    /// unchanged.  Establishing who may mint is the caller's concern.
    pub fn sequential_mint(&mut self, to: u32) -> (r: Result<u32, NonFungibleTokenError>)
        requires
            old(self).wf(),
        ensures
            final(self).wf(),
            r == if old(self).counter == u32::MAX || old(self).spec_balance(to) == u32::MAX {
                Err::<u32, NonFungibleTokenError>(NonFungibleTokenError::MathOverflow)
            } else {
                Ok::<u32, NonFungibleTokenError>(old(self).counter)
            },
            r is Err ==> *final(self) == *old(self),
            r is Ok ==> {
                &&& final(self).counter == old(self).counter + 1
                &&& final(self).spec_owner(old(self).counter) == Some(to)
                &&& forall|id: u32|
                    id != old(self).counter ==> final(self).spec_owner(id) == old(self).spec_owner(
                        id,
                    )
                &&& forall|a: u32| final(self).spec_balance(a) == old(self).spec_balance(a) + (
                if a == to {
                    1int
                } else {
                    0int
                })
                &&& final(self).approvals@ == old(self).approvals@
                &&& final(self).operators == old(self).operators
                &&& final(self).metadata == old(self).metadata
            },
    {
        if self.counter == u32::MAX {
            return Err(NonFungibleTokenError::MathOverflow);
        }
        if self.balance(to) == u32::MAX {
            return Err(NonFungibleTokenError::MathOverflow);
        }
        let token_id = match sequential::increment_token_id(&mut self.counter, 1) {
            Ok(id) => id,
            Err(e) => {
                proof {
                    assert(false);
                }
                return Err(e);
            },
        };
        match self.update(None, Some(to), token_id) {
            Ok(_) => (),
            Err(e) => {
                proof {
                    assert(false);
                }
                return Err(e);
            },
        }
        Ok(token_id)
    }

    /// Mints the caller-chosen `token_id` to `to`.  Fails with
    /// `TokenIDInUse` when the token already has an owner and with
    /// `MathOverflow` when the receiver's balance would overflow,
    /// leaving the ledger unchanged.  Establishing who may mint is the
    /// caller's concern.
    pub fn mint(&mut self, to: u32, token_id: u32) -> (r: Result<(), NonFungibleTokenError>)
        requires
            old(self).wf(),
        ensures
            final(self).wf(),
            r == if old(self).spec_owner(token_id) is Some {
                Err::<(), NonFungibleTokenError>(NonFungibleTokenError::TokenIDInUse)
            } else if old(self).spec_balance(to) == u32::MAX {
                Err::<(), NonFungibleTokenError>(NonFungibleTokenError::MathOverflow)
            } else {
                Ok::<(), NonFungibleTokenError>(())
            },
            r is Err ==> *final(self) == *old(self),
            r is Ok ==> {
                &&& final(self).spec_owner(token_id) == Some(to)
                &&& forall|id: u32|
                    id != token_id ==> final(self).spec_owner(id) == old(self).spec_owner(id)
                &&& forall|a: u32| final(self).spec_balance(a) == old(self).spec_balance(a) + (
                if a == to {
                    1int
                } else {
                    0int
                })
                &&& final(self).approvals@ == old(self).approvals@
                &&& final(self).operators == old(self).operators
                &&& final(self).counter == old(self).counter
                &&& final(self).metadata == old(self).metadata
            },
    {
        if self.owners.has(token_id as u64) {
            return Err(NonFungibleTokenError::TokenIDInUse);
        }
        self.update(None, Some(to), token_id)
    }
}



/// The decimal digit character for `d` in 0..=9.
pub open spec fn spec_digit_char(d: int) -> char {
    if d == 0 {
        '0'
    } else if d == 1 {
        '1'
    } else if d == 2 {
        '2'
    } else if d == 3 {
        '3'
    } else if d == 4 {
        '4'
    } else if d == 5 {
        '5'
    } else if d == 6 {
        '6'
    } else if d == 7 {
        '7'
    } else if d == 8 {
        '8'
    } else {
        '9'
    }
}

/// The decimal rendering of `n`, most significant digit first, with no
/// leading zeroes (a single zero for `n == 0`).
pub open spec fn spec_dec_digits(n: nat) -> Seq<char>
    decreases n,
{
    if n < 10 {
        seq![spec_digit_char(n as int)]
    } else {
        spec_dec_digits(n / 10) + seq![spec_digit_char((n % 10) as int)]
    }
}

fn digit_str(d: u32) -> (r: &'static str)
    requires
        d < 10,
    ensures
        r@ == seq![spec_digit_char(d as int)],
{
    proof {
        reveal_strlit("0");
        reveal_strlit("1");
        reveal_strlit("2");
        reveal_strlit("3");
        reveal_strlit("4");
        reveal_strlit("5");
        reveal_strlit("6");
        reveal_strlit("7");
        reveal_strlit("8");
        reveal_strlit("9");
    }
    let r: &'static str = if d == 0 {
        "0"
    } else if d == 1 {
        "1"
    } else if d == 2 {
        "2"
    } else if d == 3 {
        "3"
    } else if d == 4 {
        "4"
    } else if d == 5 {
        "5"
    } else if d == 6 {
        "6"
    } else if d == 7 {
        "7"
    } else if d == 8 {
        "8"
    } else {
        "9"
    };
    proof {
        assert(r@ =~= seq![spec_digit_char(d as int)]);
    }
    r
}

/// Renders `n` in decimal.
fn to_decimal(n: u32) -> (r: String)
    ensures
        r@ == spec_dec_digits(n as nat),
    decreases n,
{
    if n < 10 {
        String::from_str(digit_str(n))
    } else {
        let mut s = to_decimal(n / 10);
        s.append(digit_str(n % 10));
        proof {
            assert(s@ == spec_dec_digits(n as nat));
        }
        s
    }
}

/// Appends the decimal rendering of `token_id` to the collection's
/// base URI.
pub fn compose_uri_for_token(base_uri: &str, token_id: u32) -> (r: String)
    ensures
        r@ == base_uri@ + spec_dec_digits(token_id as nat),
{
    let mut uri = String::from_str(base_uri);
    let digits = to_decimal(token_id);
    uri.append(digits.as_str());
    uri
}

impl Base {
    /// Records the collection metadata, overriding any previous
    /// record.  Fails with `BaseUriMaxLenExceeded` when the base URI
    /// is longer than [`MAX_BASE_URI_LEN`] characters, leaving the
    /// ledger unchanged.
    pub fn set_metadata(&mut self, base_uri: String, name: String, symbol: String) -> (r: Result<
        (),
        NonFungibleTokenError,
    >)
        requires
            old(self).wf(),
        ensures
            final(self).wf(),
            r == if base_uri@.len() > MAX_BASE_URI_LEN {
                Err::<(), NonFungibleTokenError>(NonFungibleTokenError::BaseUriMaxLenExceeded)
            } else {
                Ok::<(), NonFungibleTokenError>(())
            },
            r is Err ==> *final(self) == *old(self),
            r is Ok ==> *final(self) == (Base {
                metadata: Some(Metadata { base_uri, name, symbol }),
                ..*old(self)
            }),
    {
        if base_uri.as_str().unicode_len() > MAX_BASE_URI_LEN {
            return Err(NonFungibleTokenError::BaseUriMaxLenExceeded);
        }
        self.metadata = Some(Metadata { base_uri, name, symbol });
        Ok(())
    }

    /// Returns the collection's base URI.  Fails with `UnsetMetadata`
    /// when no metadata was recorded.
    pub fn base_uri(&self) -> (r: Result<String, NonFungibleTokenError>)
        ensures
            match self.metadata {
                Some(m) => r is Ok && r->Ok_0@ == m.base_uri@,
                None => r == Err::<String, NonFungibleTokenError>(
                    NonFungibleTokenError::UnsetMetadata,
                ),
            },
    {
        match &self.metadata {
            Some(m) => Ok(m.base_uri.clone()),
            None => Err(NonFungibleTokenError::UnsetMetadata),
        }
    }

    /// Returns the collection's name.  Fails with `UnsetMetadata` when
    /// no metadata was recorded.
    pub fn name(&self) -> (r: Result<String, NonFungibleTokenError>)
        ensures
            match self.metadata {
                Some(m) => r is Ok && r->Ok_0@ == m.name@,
                None => r == Err::<String, NonFungibleTokenError>(
                    NonFungibleTokenError::UnsetMetadata,
                ),
            },
    {
        match &self.metadata {
            Some(m) => Ok(m.name.clone()),
            None => Err(NonFungibleTokenError::UnsetMetadata),
        }
    }

    /// Returns the collection's symbol.  Fails with `UnsetMetadata`
    /// when no metadata was recorded.
    pub fn symbol(&self) -> (r: Result<String, NonFungibleTokenError>)
        ensures
            match self.metadata {
                Some(m) => r is Ok && r->Ok_0@ == m.symbol@,
                None => r == Err::<String, NonFungibleTokenError>(
                    NonFungibleTokenError::UnsetMetadata,
                ),
            },
    {
        match &self.metadata {
            Some(m) => Ok(m.symbol.clone()),
            None => Err(NonFungibleTokenError::UnsetMetadata),
        }
    }

    /// Returns the URI of `token_id`: the base URI with the token's
    /// decimal identifier appended.  Fails with `NonExistentToken` for
    /// a token without an owner and with `UnsetMetadata` when no
    /// metadata was recorded.
    pub fn token_uri(&self, token_id: u32) -> (r: Result<String, NonFungibleTokenError>)
        requires
            self.wf(),
        ensures
            self.spec_owner(token_id) is None ==> r == Err::<String, NonFungibleTokenError>(
                NonFungibleTokenError::NonExistentToken,
            ),
            self.spec_owner(token_id) is Some && self.metadata is None ==> r == Err::<
                String,
                NonFungibleTokenError,
            >(NonFungibleTokenError::UnsetMetadata),
            self.spec_owner(token_id) is Some && self.metadata is Some ==> r is Ok && r->Ok_0@
                == self.metadata->0.base_uri@ + spec_dec_digits(token_id as nat),
    {
        match self.owner_of(token_id) {
            Ok(_) => (),
            Err(e) => {
                return Err(e);
            },
        }
        match &self.metadata {
            Some(m) => Ok(compose_uri_for_token(m.base_uri.as_str(), token_id)),
            None => Err(NonFungibleTokenError::UnsetMetadata),
        }
    }
}



/// Law: ownership exclusivity.  When `st1` follows `st0` by minting
/// `token` to `a` and `st2` follows `st1` by transferring `token`
/// from `a` to `b` — the state changes the contracts of [`Base::mint`]
/// and [`Base::transfer`] describe — then `token` resolves to `b`
/// alone, `a`'s balance dropped by one and `b`'s rose by one, and no
/// other token changed hands.
pub proof fn lemma_ownership_exclusive(st0: Base, st1: Base, st2: Base, a: u32, b: u32, token: u32)
    requires
        a != b,
        st1.spec_owner(token) == Some(a),
        forall|id: u32| id != token ==> st1.spec_owner(id) == st0.spec_owner(id),
        forall|x: u32| st1.spec_balance(x) == st0.spec_balance(x) + (if x == a {
            1int
        } else {
            0int
        }),
        st2.spec_owner(token) == Some(b),
        forall|id: u32| id != token ==> st2.spec_owner(id) == st1.spec_owner(id),
        forall|x: u32| st2.spec_balance(x) == st1.spec_balance(x) + (if x == b {
            1int
        } else {
            0int
        }) - (if x == a {
            1int
        } else {
            0int
        }),
    ensures
        st2.spec_owner(token) == Some(b),
        st2.spec_balance(a) == st1.spec_balance(a) - 1,
        st2.spec_balance(b) == st1.spec_balance(b) + 1,
        forall|id: u32| id != token ==> st2.spec_owner(id) == st0.spec_owner(id),
{
}

} // verus!
