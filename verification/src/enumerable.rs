//! The enumerable non-fungible ledger: owner-local and global token
//! lists layered on the base ledger.
//!
//! Each owner's tokens are kept in a dense list simulated by two
//! paired maps — forward ((owner, index) to token) and reverse (token
//! to index) — so membership removal swaps the last entry into the
//! freed slot and costs one lookup.  The global list mirrors this for
//! all existing tokens and is maintained only by the non-sequential
//! operations: under sequential minting the token identifier itself
//! acts as the global index.
//!
//! The enumeration invariant is a bijection: the slots of owner `a`
//! below `a`'s balance hold exactly the tokens the base ledger records
//! as owned by `a`, each once.

use vstd::prelude::*;

use crate::errors::NonFungibleTokenError;
use crate::kvmap::{lemma_pair_key_injective, pair_key, spec_pair_key, KvMap};
use crate::non_fungible::Base;

verus! {

/// The enumerable ledger: the base ledger's records plus the paired
/// enumeration maps and the token count.
pub struct Enumerable {
    pub base: Base,
    /// (owner, index) pair to the token held at that slot.
    pub owner_tokens: KvMap<u32>,
    /// Token to its index in its owner's list.
    pub owner_index: KvMap<u32>,
    /// Global index to token (non-sequential minting only).
    pub global_tokens: KvMap<u32>,
    /// Token to its global index (non-sequential minting only).
    pub global_index: KvMap<u32>,
    /// The number of existing tokens.
    pub total_supply: u32,
}

impl Enumerable {
    /// The token at slot `index` of `owner`'s list, if any.
    pub open spec fn spec_owner_token(self, owner: u32, index: u32) -> Option<u32> {
        let k = spec_pair_key(owner, index);
        if self.owner_tokens@.contains_key(k) {
            Some(self.owner_tokens@[k])
        } else {
            None
        }
    }

    /// The slot of `token` in its owner's list, if any.
    pub open spec fn spec_owner_index(self, token: u32) -> Option<u32> {
        if self.owner_index@.contains_key(token as u64) {
            Some(self.owner_index@[token as u64])
        } else {
            None
        }
    }

    /// The token at slot `index` of the global list, if any.
    pub open spec fn spec_global_token(self, index: u32) -> Option<u32> {
        if self.global_tokens@.contains_key(index as u64) {
            Some(self.global_tokens@[index as u64])
        } else {
            None
        }
    }

    /// The slot of `token` in the global list, if any.
    pub open spec fn spec_global_index(self, token: u32) -> Option<u32> {
        if self.global_index@.contains_key(token as u64) {
            Some(self.global_index@[token as u64])
        } else {
            None
        }
    }

    /// Well-formedness of the record maps.
    pub open spec fn wf(self) -> bool {
        &&& self.base.wf()
        &&& self.owner_tokens.wf()
        &&& self.owner_index.wf()
        &&& self.global_tokens.wf()
        &&& self.global_index.wf()
    }

    /// The owner-enumeration invariant: for every account `a`, the
    /// slots below `a`'s balance are exactly the tokens the base
    /// ledger records as owned by `a`, with forward and reverse
    /// pointers inverse to each other.
    pub open spec fn owner_enum_wf(self) -> bool {
        &&& forall|a: u32, i: u32|
            i < self.base.spec_balance(a) ==> (#[trigger] self.spec_owner_token(a, i)) is Some
        &&& forall|a: u32, i: u32|
            (#[trigger] self.spec_owner_token(a, i)) is Some ==> i < self.base.spec_balance(a)
                && self.base.spec_owner(self.spec_owner_token(a, i)->0) == Some(a)
                && self.spec_owner_index(self.spec_owner_token(a, i)->0) == Some(i)
        &&& forall|t: u32|
            (#[trigger] self.spec_owner_index(t)) is Some ==> self.base.spec_owner(t) is Some
        &&& forall|t: u32|
            (#[trigger] self.base.spec_owner(t)) is Some ==> self.spec_owner_index(t) is Some
                && self.spec_owner_token(
                self.base.spec_owner(t)->0,
                self.spec_owner_index(t)->0,
            ) == Some(t)
    }

    /// The global-enumeration invariant (non-sequential minting): the
    /// slots below the total supply are exactly the existing tokens,
    /// with forward and reverse pointers inverse to each other.
    pub open spec fn global_enum_wf(self) -> bool {
        &&& forall|i: u32|
            i < self.total_supply ==> (#[trigger] self.spec_global_token(i)) is Some
        &&& forall|i: u32|
            (#[trigger] self.spec_global_token(i)) is Some ==> i < self.total_supply
                && self.base.spec_owner(self.spec_global_token(i)->0) is Some
                && self.spec_global_index(self.spec_global_token(i)->0) == Some(i)
        &&& forall|t: u32|
            (#[trigger] self.spec_global_index(t)) is Some ==> self.base.spec_owner(t) is Some
        &&& forall|t: u32|
            (#[trigger] self.base.spec_owner(t)) is Some ==> self.spec_global_index(t) is Some
                && self.spec_global_token(self.spec_global_index(t)->0) == Some(t)
    }

    /// Creates an empty enumerable ledger.
    pub fn new() -> (st: Enumerable)
        ensures
            st.wf(),
            st.owner_enum_wf(),
            st.global_enum_wf(),
            st.total_supply == 0,
            st.base.counter == 0,
            forall|id: u32| st.base.spec_owner(id) is None,
            forall|a: u32| st.base.spec_balance(a) == 0,
    {
        Enumerable {
            base: Base::new(),
            owner_tokens: KvMap::new(),
            owner_index: KvMap::new(),
            global_tokens: KvMap::new(),
            global_index: KvMap::new(),
            total_supply: 0,
        }
    }

    /// Returns the total number of existing tokens.
    pub fn total_supply(&self) -> (r: u32)
        ensures
            r == self.total_supply,
    {
        self.total_supply
    }

    /// Returns the token at slot `index` of `owner`'s list, failing
    /// with `TokenNotFoundInOwnerList` for an empty slot.
    pub fn get_owner_token_id(&self, owner: u32, index: u32) -> (r: Result<
        u32,
        NonFungibleTokenError,
    >)
        requires
            self.wf(),
        ensures
            r == (match self.spec_owner_token(owner, index) {
                Some(t) => Ok::<u32, NonFungibleTokenError>(t),
                None => Err::<u32, NonFungibleTokenError>(
                    NonFungibleTokenError::TokenNotFoundInOwnerList,
                ),
            }),
    {
        match self.owner_tokens.get(pair_key(owner, index)) {
            Some(t) => Ok(t),
            None => Err(NonFungibleTokenError::TokenNotFoundInOwnerList),
        }
    }

    /// Returns the token at slot `index` of the global list, failing
    /// with `TokenNotFoundInGlobalList` for an empty slot.  Only
    /// meaningful under non-sequential minting.
    pub fn get_token_id(&self, index: u32) -> (r: Result<u32, NonFungibleTokenError>)
        requires
            self.wf(),
        ensures
            r == (match self.spec_global_token(index) {
                Some(t) => Ok::<u32, NonFungibleTokenError>(t),
                None => Err::<u32, NonFungibleTokenError>(
                    NonFungibleTokenError::TokenNotFoundInGlobalList,
                ),
            }),
    {
        match self.global_tokens.get(index as u64) {
            Some(t) => Ok(t),
            None => Err(NonFungibleTokenError::TokenNotFoundInGlobalList),
        }
    }

    /// Raises the token count by one and returns the old count.
    /// Fails with `TokenIDsAreDepleted` when the count is exhausted,
    /// leaving the ledger unchanged.
    pub fn increment_total_supply(&mut self) -> (r: Result<u32, NonFungibleTokenError>)
        ensures
            r == if old(self).total_supply == u32::MAX {
                Err::<u32, NonFungibleTokenError>(NonFungibleTokenError::TokenIDsAreDepleted)
            } else {
                Ok::<u32, NonFungibleTokenError>(old(self).total_supply)
            },
            r is Err ==> *final(self) == *old(self),
            r is Ok ==> *final(self) == (Enumerable {
                total_supply: (old(self).total_supply + 1) as u32,
                ..*old(self)
            }),
    {
        match self.total_supply.checked_add(1) {
            Some(n) => {
                let old_supply = self.total_supply;
                self.total_supply = n;
                Ok(old_supply)
            },
            None => Err(NonFungibleTokenError::TokenIDsAreDepleted),
        }
    }

    /// Lowers the token count by one and returns the new count.
    /// Fails with `MathOverflow` when no tokens exist, leaving the
    /// ledger unchanged.
    pub fn decrement_total_supply(&mut self) -> (r: Result<u32, NonFungibleTokenError>)
        ensures
            r == if old(self).total_supply == 0 {
                Err::<u32, NonFungibleTokenError>(NonFungibleTokenError::MathOverflow)
            } else {
                Ok::<u32, NonFungibleTokenError>((old(self).total_supply - 1) as u32)
            },
            r is Err ==> *final(self) == *old(self),
            r is Ok ==> *final(self) == (Enumerable {
                total_supply: (old(self).total_supply - 1) as u32,
                ..*old(self)
            }),
    {
        match self.total_supply.checked_sub(1) {
            Some(n) => {
                self.total_supply = n;
                Ok(n)
            },
            None => Err(NonFungibleTokenError::MathOverflow),
        }
    }

    /// Appends `token_id` to `owner`'s list at slot `balance - 1`.
    /// Runs after the balance has been raised, so it fails with
    /// `MathOverflow` when the balance is still zero, leaving the
    /// ledger unchanged.
    pub fn add_to_owner_enumeration(&mut self, owner: u32, token_id: u32) -> (r: Result<
        (),
        NonFungibleTokenError,
    >)
        requires
            old(self).wf(),
        ensures
            final(self).wf(),
            r == if old(self).base.spec_balance(owner) == 0 {
                Err::<(), NonFungibleTokenError>(NonFungibleTokenError::MathOverflow)
            } else {
                Ok::<(), NonFungibleTokenError>(())
            },
            r is Err ==> *final(self) == *old(self),
            r is Ok ==> {
                &&& final(self).owner_tokens@ == old(self).owner_tokens@.insert(
                    spec_pair_key(owner, (old(self).base.spec_balance(owner) - 1) as u32),
                    token_id,
                )
                &&& final(self).owner_index@ == old(self).owner_index@.insert(
                    token_id as u64,
                    (old(self).base.spec_balance(owner) - 1) as u32,
                )
                &&& final(self).base == old(self).base
                &&& final(self).global_tokens == old(self).global_tokens
                &&& final(self).global_index == old(self).global_index
                &&& final(self).total_supply == old(self).total_supply
            },
    {
        let balance = self.base.balance(owner);
        let index = match balance.checked_sub(1) {
            Some(i) => i,
            None => {
                return Err(NonFungibleTokenError::MathOverflow);
            },
        };
        self.owner_tokens.set(pair_key(owner, index), token_id);
        self.owner_index.set(token_id as u64, index);
        Ok(())
    }

    /// The failure, if any, of removing `token` from `owner`'s list:
    /// the token must have a reverse pointer, and when it is not the
    /// last entry the last slot must be filled.
    pub open spec fn spec_remove_owner_enum_error(self, owner: u32, token: u32) -> Option<
        NonFungibleTokenError,
    > {
        if self.spec_owner_index(token) is None {
            Some(NonFungibleTokenError::TokenNotFoundInOwnerList)
        } else if self.spec_owner_index(token)->0 != self.base.spec_balance(owner)
            && self.spec_owner_token(owner, self.base.spec_balance(owner)) is None {
            Some(NonFungibleTokenError::TokenNotFoundInOwnerList)
        } else {
            None
        }
    }

    /// Removes `token` from `owner`'s list: when it is not the last
    /// entry, the last entry moves into its slot (updating that
    /// entry's reverse pointer), then the last slot and the removed
    /// token's reverse pointer are deleted.  Runs after the balance
    /// has been lowered, so the old balance value is the last slot's
    /// index.
    pub fn remove_from_owner_enumeration(&mut self, owner: u32, to_be_removed_id: u32) -> (r:
        Result<(), NonFungibleTokenError>)
        requires
            old(self).wf(),
        ensures
            final(self).wf(),
            r == (match old(self).spec_remove_owner_enum_error(owner, to_be_removed_id) {
                Some(e) => Err::<(), NonFungibleTokenError>(e),
                None => Ok::<(), NonFungibleTokenError>(()),
            }),
            r is Err ==> *final(self) == *old(self),
            r is Ok ==> ({
                let idx = old(self).spec_owner_index(to_be_removed_id)->0;
                let last = old(self).base.spec_balance(owner);
                let moved = old(self).spec_owner_token(owner, last)->0;
                &&& final(self).owner_tokens@ == (if idx != last {
                    old(self).owner_tokens@.insert(spec_pair_key(owner, idx), moved)
                } else {
                    old(self).owner_tokens@
                }).remove(spec_pair_key(owner, last))
                &&& final(self).owner_index@ == (if idx != last {
                    old(self).owner_index@.insert(moved as u64, idx)
                } else {
                    old(self).owner_index@
                }).remove(to_be_removed_id as u64)
                &&& final(self).base == old(self).base
                &&& final(self).global_tokens == old(self).global_tokens
                &&& final(self).global_index == old(self).global_index
                &&& final(self).total_supply == old(self).total_supply
            }),
    {
        let to_be_removed_index = match self.owner_index.get(to_be_removed_id as u64) {
            Some(i) => i,
            None => {
                return Err(NonFungibleTokenError::TokenNotFoundInOwnerList);
            },
        };
        let last_token_index = self.base.balance(owner);
        if to_be_removed_index != last_token_index {
            let last_token_id = match self.get_owner_token_id(owner, last_token_index) {
                Ok(t) => t,
                Err(e) => {
                    return Err(e);
                },
            };
            self.owner_tokens.set(pair_key(owner, to_be_removed_index), last_token_id);
            self.owner_index.set(last_token_id as u64, to_be_removed_index);
        }
        self.owner_tokens.remove(pair_key(owner, last_token_index));
        self.owner_index.remove(to_be_removed_id as u64);
        Ok(())
    }

    /// Records `token_id` at slot `total_supply` of the global list.
    pub fn add_to_global_enumeration(&mut self, token_id: u32, total_supply: u32)
        requires
            old(self).wf(),
        ensures
            final(self).wf(),
            final(self).global_tokens@ == old(self).global_tokens@.insert(
                total_supply as u64,
                token_id,
            ),
            final(self).global_index@ == old(self).global_index@.insert(
                token_id as u64,
                total_supply,
            ),
            final(self).base == old(self).base,
            final(self).owner_tokens == old(self).owner_tokens,
            final(self).owner_index == old(self).owner_index,
            final(self).total_supply == old(self).total_supply,
    {
        self.global_tokens.set(total_supply as u64, token_id);
        self.global_index.set(token_id as u64, total_supply);
    }

    /// The failure, if any, of removing `token` from the global list
    /// with `last` as the last occupied slot.
    pub open spec fn spec_remove_global_enum_error(self, token: u32, last: u32) -> Option<
        NonFungibleTokenError,
    > {
        if self.spec_global_index(token) is None {
            Some(NonFungibleTokenError::TokenNotFoundInGlobalList)
        } else if self.spec_global_token(last) is None {
            Some(NonFungibleTokenError::TokenNotFoundInGlobalList)
        } else {
            None
        }
    }

    /// Removes `token` from the global list: the entry at slot
    /// `last_token_index` moves into the removed token's slot
    /// (updating its reverse pointer), then the last slot and the
    /// removed token's reverse pointer are deleted.  The swap runs
    /// unconditionally; it is harmless when the removed entry is the
    /// last one.
    pub fn remove_from_global_enumeration(
        &mut self,
        to_be_removed_id: u32,
        last_token_index: u32,
    ) -> (r: Result<(), NonFungibleTokenError>)
        requires
            old(self).wf(),
        ensures
            final(self).wf(),
            r == (match old(self).spec_remove_global_enum_error(
                to_be_removed_id,
                last_token_index,
            ) {
                Some(e) => Err::<(), NonFungibleTokenError>(e),
                None => Ok::<(), NonFungibleTokenError>(()),
            }),
            r is Err ==> *final(self) == *old(self),
            r is Ok ==> ({
                let idx = old(self).spec_global_index(to_be_removed_id)->0;
                let moved = old(self).spec_global_token(last_token_index)->0;
                &&& final(self).global_tokens@ == old(self).global_tokens@.insert(
                    idx as u64,
                    moved,
                ).remove(last_token_index as u64)
                &&& final(self).global_index@ == old(self).global_index@.insert(
                    moved as u64,
                    idx,
                ).remove(to_be_removed_id as u64)
                &&& final(self).base == old(self).base
                &&& final(self).owner_tokens == old(self).owner_tokens
                &&& final(self).owner_index == old(self).owner_index
                &&& final(self).total_supply == old(self).total_supply
            }),
    {
        let to_be_removed_index = match self.global_index.get(to_be_removed_id as u64) {
            Some(i) => i,
            None => {
                return Err(NonFungibleTokenError::TokenNotFoundInGlobalList);
            },
        };
        let last_token_id = match self.get_token_id(last_token_index) {
            Ok(t) => t,
            Err(e) => {
                return Err(e);
            },
        };
        self.global_tokens.set(to_be_removed_index as u64, last_token_id);
        self.global_index.set(last_token_id as u64, to_be_removed_index);
        self.global_tokens.remove(last_token_index as u64);
        self.global_index.remove(to_be_removed_id as u64);
        Ok(())
    }
}

/// Law: enumeration bijection.  Under the owner-enumeration invariant,
/// the slots of account `a` below `a`'s balance each hold a token that
/// the base ledger records as owned by `a`, and no token appears in
/// two slots.
pub proof fn lemma_owner_enumeration_bijection(st: Enumerable, a: u32)
    requires
        st.owner_enum_wf(),
    ensures
        forall|i: u32|
            i < st.base.spec_balance(a) ==> (#[trigger] st.spec_owner_token(a, i)) is Some
                && st.base.spec_owner(st.spec_owner_token(a, i)->0) == Some(a),
        forall|i: u32, j: u32|
            i < j < st.base.spec_balance(a) ==> st.spec_owner_token(a, i) != st.spec_owner_token(
                a,
                j,
            ),
        forall|i: u32|
            i >= st.base.spec_balance(a) ==> (#[trigger] st.spec_owner_token(a, i)) is None,
{
    assert forall|i: u32, j: u32| i < j < st.base.spec_balance(a) implies st.spec_owner_token(a, i)
        != st.spec_owner_token(a, j) by {
        assert(st.spec_owner_token(a, i) is Some);
        assert(st.spec_owner_token(a, j) is Some);
        assert(st.spec_owner_index(st.spec_owner_token(a, i)->0) == Some(i));
        assert(st.spec_owner_index(st.spec_owner_token(a, j)->0) == Some(j));
    }
}



/// Appending a freshly minted token to its new owner's list keeps the
/// owner-enumeration bijection.
proof fn lemma_enum_append(st0: Enumerable, st1: Enumerable, to: u32, token: u32)
    requires
        st0.owner_enum_wf(),
        st0.base.spec_owner(token) is None,
        st1.base.spec_owner(token) == Some(to),
        forall|id: u32| id != token ==> st1.base.spec_owner(id) == st0.base.spec_owner(id),
        forall|a: u32| st1.base.spec_balance(a) == st0.base.spec_balance(a) + (if a == to {
            1int
        } else {
            0int
        }),
        st1.owner_tokens@ == st0.owner_tokens@.insert(
            spec_pair_key(to, st0.base.spec_balance(to)),
            token,
        ),
        st1.owner_index@ == st0.owner_index@.insert(token as u64, st0.base.spec_balance(to)),
    ensures
        st1.owner_enum_wf(),
{
    lemma_pair_key_injective();
    let m = st0.base.spec_balance(to);
    // The fresh token had no pointers before.
    assert(st0.spec_owner_index(token) is None);
    assert(st0.spec_owner_token(to, m) is None);
    assert forall|a: u32, i: u32| i < st1.base.spec_balance(a) implies (
    #[trigger] st1.spec_owner_token(a, i)) is Some by {
        if !(a == to && i == m) {
            assert(st0.spec_owner_token(a, i) is Some);
        }
    }
    assert forall|a: u32, i: u32| (#[trigger] st1.spec_owner_token(a, i)) is Some implies i
        < st1.base.spec_balance(a) && st1.base.spec_owner(st1.spec_owner_token(a, i)->0) == Some(a)
        && st1.spec_owner_index(st1.spec_owner_token(a, i)->0) == Some(i) by {
        if a == to && i == m {
        } else {
            assert(st0.spec_owner_token(a, i) == st1.spec_owner_token(a, i));
            let t = st0.spec_owner_token(a, i)->0;
            assert(st0.base.spec_owner(t) == Some(a));
            assert(t != token);
        }
    }
    assert forall|t: u32| (#[trigger] st1.spec_owner_index(t)) is Some implies st1.base.spec_owner(
        t,
    ) is Some by {
        if t != token {
            assert(st0.spec_owner_index(t) is Some);
        }
    }
    assert forall|t: u32| (#[trigger] st1.base.spec_owner(t)) is Some implies st1.spec_owner_index(
        t,
    ) is Some && st1.spec_owner_token(st1.base.spec_owner(t)->0, st1.spec_owner_index(t)->0)
        == Some(t) by {
        if t != token {
            assert(st0.base.spec_owner(t) is Some);
            let a = st0.base.spec_owner(t)->0;
            let i = st0.spec_owner_index(t)->0;
            assert(st0.spec_owner_token(a, i) == Some(t));
            assert(!(a == to && i == m));
        }
    }
}

/// Swap-removing a token from its owner's list after the owner record
/// was removed (a burn) keeps the owner-enumeration bijection.
proof fn lemma_enum_burn_shape(st0: Enumerable, st1: Enumerable, from: u32, token: u32)
    requires
        st0.owner_enum_wf(),
        st0.base.spec_owner(token) == Some(from),
        st1.base.spec_owner(token) is None,
        forall|id: u32| id != token ==> st1.base.spec_owner(id) == st0.base.spec_owner(id),
        forall|a: u32| st1.base.spec_balance(a) == st0.base.spec_balance(a) - (if a == from {
            1int
        } else {
            0int
        }),
        st1.owner_tokens@ == (if st0.spec_owner_index(token)->0 != st0.base.spec_balance(from)
            - 1 {
            st0.owner_tokens@.insert(
                spec_pair_key(from, st0.spec_owner_index(token)->0),
                st0.spec_owner_token(from, (st0.base.spec_balance(from) - 1) as u32)->0,
            )
        } else {
            st0.owner_tokens@
        }).remove(spec_pair_key(from, (st0.base.spec_balance(from) - 1) as u32)),
        st1.owner_index@ == (if st0.spec_owner_index(token)->0 != st0.base.spec_balance(from)
            - 1 {
            st0.owner_index@.insert(
                st0.spec_owner_token(from, (st0.base.spec_balance(from) - 1) as u32)->0 as u64,
                st0.spec_owner_index(token)->0,
            )
        } else {
            st0.owner_index@
        }).remove(token as u64),
    ensures
        st1.owner_enum_wf(),
{
    lemma_pair_key_injective();
    let idx = st0.spec_owner_index(token)->0;
    let n = st0.base.spec_balance(from);
    assert(st0.spec_owner_index(token) is Some);
    assert(st0.spec_owner_token(from, idx) == Some(token));
    assert(idx < n);
    let last = (n - 1) as u32;
    let moved = st0.spec_owner_token(from, last)->0;
    assert(st0.spec_owner_token(from, last) is Some);
    assert(st0.base.spec_owner(moved) == Some(from));
    assert(st0.spec_owner_index(moved) == Some(last));
    assert(idx == last ==> moved == token);
    assert(idx != last ==> moved != token);
    assert forall|a: u32, i: u32| i < st1.base.spec_balance(a) implies (
    #[trigger] st1.spec_owner_token(a, i)) is Some by {
        if a == from && i == idx && idx != last {
        } else {
            assert(st0.spec_owner_token(a, i) is Some);
        }
    }
    assert forall|a: u32, i: u32| (#[trigger] st1.spec_owner_token(a, i)) is Some implies i
        < st1.base.spec_balance(a) && st1.base.spec_owner(st1.spec_owner_token(a, i)->0) == Some(a)
        && st1.spec_owner_index(st1.spec_owner_token(a, i)->0) == Some(i) by {
        if a == from && i == idx && idx != last {
            // The moved entry.
            assert(st1.spec_owner_token(a, i) == Some(moved));
        } else {
            // An untouched slot.
            assert(!(a == from && i == last));
            assert(st1.spec_owner_token(a, i) == st0.spec_owner_token(a, i));
            let t = st0.spec_owner_token(a, i)->0;
            assert(st0.base.spec_owner(t) == Some(a));
            assert(st0.spec_owner_index(t) == Some(i));
            assert(t != token);
            assert(t != moved);
        }
    }
    assert forall|t: u32| (#[trigger] st1.spec_owner_index(t)) is Some implies st1.base.spec_owner(
        t,
    ) is Some by {
        if t != moved {
            assert(st0.spec_owner_index(t) is Some);
        }
    }
    assert forall|t: u32| (#[trigger] st1.base.spec_owner(t)) is Some implies st1.spec_owner_index(
        t,
    ) is Some && st1.spec_owner_token(st1.base.spec_owner(t)->0, st1.spec_owner_index(t)->0)
        == Some(t) by {
        assert(t != token);
        assert(st0.base.spec_owner(t) is Some);
        let a = st0.base.spec_owner(t)->0;
        let i = st0.spec_owner_index(t)->0;
        assert(st0.spec_owner_token(a, i) == Some(t));
        if t == moved && idx != last {
            assert(st1.spec_owner_index(t) == Some(idx));
            assert(st1.spec_owner_token(from, idx) == Some(moved));
        } else {
            assert(st1.spec_owner_index(t) == Some(i));
            assert(!(a == from && i == last));
            assert(!(a == from && i == idx && idx != last));
            assert(st1.spec_owner_token(a, i) == Some(t));
        }
    }
}

/// Moving a token between two owners' lists — swap-remove from the
/// sender's list, append to the receiver's — keeps the
/// owner-enumeration bijection.
proof fn lemma_enum_transfer_shape(st0: Enumerable, st1: Enumerable, from: u32, to: u32,
    token: u32)
    requires
        st0.owner_enum_wf(),
        from != to,
        st0.base.spec_owner(token) == Some(from),
        st1.base.spec_owner(token) == Some(to),
        forall|id: u32| id != token ==> st1.base.spec_owner(id) == st0.base.spec_owner(id),
        forall|a: u32| st1.base.spec_balance(a) == st0.base.spec_balance(a) + (if a == to {
            1int
        } else {
            0int
        }) - (if a == from {
            1int
        } else {
            0int
        }),
        st1.owner_tokens@ == (if st0.spec_owner_index(token)->0 != st0.base.spec_balance(from)
            - 1 {
            st0.owner_tokens@.insert(
                spec_pair_key(from, st0.spec_owner_index(token)->0),
                st0.spec_owner_token(from, (st0.base.spec_balance(from) - 1) as u32)->0,
            )
        } else {
            st0.owner_tokens@
        }).remove(spec_pair_key(from, (st0.base.spec_balance(from) - 1) as u32)).insert(
            spec_pair_key(to, st0.base.spec_balance(to)),
            token,
        ),
        st1.owner_index@ == (if st0.spec_owner_index(token)->0 != st0.base.spec_balance(from)
            - 1 {
            st0.owner_index@.insert(
                st0.spec_owner_token(from, (st0.base.spec_balance(from) - 1) as u32)->0 as u64,
                st0.spec_owner_index(token)->0,
            )
        } else {
            st0.owner_index@
        }).remove(token as u64).insert(token as u64, st0.base.spec_balance(to)),
    ensures
        st1.owner_enum_wf(),
{
    lemma_pair_key_injective();
    let idx = st0.spec_owner_index(token)->0;
    let n = st0.base.spec_balance(from);
    assert(st0.spec_owner_index(token) is Some);
    assert(st0.spec_owner_token(from, idx) == Some(token));
    assert(idx < n);
    let last = (n - 1) as u32;
    let moved = st0.spec_owner_token(from, last)->0;
    assert(st0.spec_owner_token(from, last) is Some);
    assert(st0.base.spec_owner(moved) == Some(from));
    assert(st0.spec_owner_index(moved) == Some(last));
    assert(idx == last ==> moved == token);
    assert(idx != last ==> moved != token);
    let m = st0.base.spec_balance(to);
    // The receiver's tail slot was empty before.
    assert(st0.spec_owner_token(to, m) is None);
    assert forall|a: u32, i: u32| i < st1.base.spec_balance(a) implies (
    #[trigger] st1.spec_owner_token(a, i)) is Some by {
        if a == to && i == m {
        } else if a == from && i == idx && idx != last {
        } else {
            assert(st0.spec_owner_token(a, i) is Some);
        }
    }
    assert forall|a: u32, i: u32| (#[trigger] st1.spec_owner_token(a, i)) is Some implies i
        < st1.base.spec_balance(a) && st1.base.spec_owner(st1.spec_owner_token(a, i)->0) == Some(a)
        && st1.spec_owner_index(st1.spec_owner_token(a, i)->0) == Some(i) by {
        if a == to && i == m {
            assert(st1.spec_owner_token(a, i) == Some(token));
        } else if a == from && i == idx && idx != last {
            assert(st1.spec_owner_token(a, i) == Some(moved));
            assert(moved != token);
        } else {
            assert(!(a == from && i == last));
            assert(st1.spec_owner_token(a, i) == st0.spec_owner_token(a, i));
            let t = st0.spec_owner_token(a, i)->0;
            assert(st0.base.spec_owner(t) == Some(a));
            assert(st0.spec_owner_index(t) == Some(i));
            assert(t != token);
            assert(t != moved);
        }
    }
    assert forall|t: u32| (#[trigger] st1.spec_owner_index(t)) is Some implies st1.base.spec_owner(
        t,
    ) is Some by {
        if t != moved && t != token {
            assert(st0.spec_owner_index(t) is Some);
        }
    }
    assert forall|t: u32| (#[trigger] st1.base.spec_owner(t)) is Some implies st1.spec_owner_index(
        t,
    ) is Some && st1.spec_owner_token(st1.base.spec_owner(t)->0, st1.spec_owner_index(t)->0)
        == Some(t) by {
        if t == token {
            assert(st1.spec_owner_index(t) == Some(m));
            assert(st1.spec_owner_token(to, m) == Some(token));
        } else {
            assert(st0.base.spec_owner(t) is Some);
            let a = st0.base.spec_owner(t)->0;
            let i = st0.spec_owner_index(t)->0;
            assert(st0.spec_owner_token(a, i) == Some(t));
            if t == moved && idx != last {
                assert(st1.spec_owner_index(t) == Some(idx));
                assert(st1.spec_owner_token(from, idx) == Some(moved));
            } else {
                assert(st1.spec_owner_index(t) == Some(i));
                assert(!(a == from && i == last));
                assert(!(a == from && i == idx && idx != last));
                assert(!(a == to && i == m));
                assert(st1.spec_owner_token(a, i) == Some(t));
            }
        }
    }
}

/// Appending a fresh token to the global list keeps the
/// global-enumeration bijection.
proof fn lemma_global_append(st0: Enumerable, st1: Enumerable, to: u32, token: u32)
    requires
        st0.global_enum_wf(),
        st0.base.spec_owner(token) is None,
        st1.base.spec_owner(token) == Some(to),
        forall|id: u32| id != token ==> st1.base.spec_owner(id) == st0.base.spec_owner(id),
        st1.total_supply == st0.total_supply + 1,
        st1.global_tokens@ == st0.global_tokens@.insert(st0.total_supply as u64, token),
        st1.global_index@ == st0.global_index@.insert(token as u64, st0.total_supply),
    ensures
        st1.global_enum_wf(),
{
    let m = st0.total_supply;
    assert(st0.spec_global_index(token) is None);
    assert(st0.spec_global_token(m) is None);
    assert forall|i: u32| i < st1.total_supply implies (#[trigger] st1.spec_global_token(i))
        is Some by {
        if i != m {
            assert(st0.spec_global_token(i) is Some);
        }
    }
    assert forall|i: u32| (#[trigger] st1.spec_global_token(i)) is Some implies i
        < st1.total_supply && st1.base.spec_owner(st1.spec_global_token(i)->0) is Some
        && st1.spec_global_index(st1.spec_global_token(i)->0) == Some(i) by {
        if i != m {
            assert(st0.spec_global_token(i) == st1.spec_global_token(i));
            let t = st0.spec_global_token(i)->0;
            assert(st0.base.spec_owner(t) is Some);
            assert(t != token);
        }
    }
    assert forall|t: u32| (#[trigger] st1.spec_global_index(t)) is Some
        implies st1.base.spec_owner(t) is Some by {
        if t != token {
            assert(st0.spec_global_index(t) is Some);
        }
    }
    assert forall|t: u32| (#[trigger] st1.base.spec_owner(t)) is Some
        implies st1.spec_global_index(t) is Some && st1.spec_global_token(
        st1.spec_global_index(t)->0,
    ) == Some(t) by {
        if t != token {
            assert(st0.base.spec_owner(t) is Some);
            let i = st0.spec_global_index(t)->0;
            assert(st0.spec_global_token(i) == Some(t));
            assert(i != m);
        }
    }
}

/// Swap-removing a burned token from the global list keeps the
/// global-enumeration bijection.
proof fn lemma_global_remove(st0: Enumerable, st1: Enumerable, token: u32)
    requires
        st0.global_enum_wf(),
        st0.base.spec_owner(token) is Some,
        st1.base.spec_owner(token) is None,
        forall|id: u32| id != token ==> st1.base.spec_owner(id) == st0.base.spec_owner(id),
        st0.total_supply >= 1,
        st1.total_supply == st0.total_supply - 1,
        st1.global_tokens@ == st0.global_tokens@.insert(
            st0.spec_global_index(token)->0 as u64,
            st0.spec_global_token((st0.total_supply - 1) as u32)->0,
        ).remove((st0.total_supply - 1) as u64),
        st1.global_index@ == st0.global_index@.insert(
            st0.spec_global_token((st0.total_supply - 1) as u32)->0 as u64,
            st0.spec_global_index(token)->0,
        ).remove(token as u64),
    ensures
        st1.global_enum_wf(),
{
    let idx = st0.spec_global_index(token)->0;
    let last = (st0.total_supply - 1) as u32;
    assert(st0.spec_global_index(token) is Some);
    assert(st0.spec_global_token(idx) == Some(token));
    assert(idx < st0.total_supply);
    let moved = st0.spec_global_token(last)->0;
    assert(st0.spec_global_token(last) is Some);
    assert(st0.base.spec_owner(moved) is Some);
    assert(st0.spec_global_index(moved) == Some(last));
    assert(idx == last ==> moved == token);
    assert(idx != last ==> moved != token);
    assert forall|i: u32| i < st1.total_supply implies (#[trigger] st1.spec_global_token(i))
        is Some by {
        if i != idx {
            assert(st0.spec_global_token(i) is Some);
        }
    }
    assert forall|i: u32| (#[trigger] st1.spec_global_token(i)) is Some implies i
        < st1.total_supply && st1.base.spec_owner(st1.spec_global_token(i)->0) is Some
        && st1.spec_global_index(st1.spec_global_token(i)->0) == Some(i) by {
        assert(i != last);
        if i == idx {
            assert(st1.spec_global_token(i) == Some(moved));
            assert(moved != token);
        } else {
            assert(st1.spec_global_token(i) == st0.spec_global_token(i));
            let t = st0.spec_global_token(i)->0;
            assert(st0.base.spec_owner(t) is Some);
            assert(st0.spec_global_index(t) == Some(i));
            assert(t != token);
            assert(t != moved);
        }
    }
    assert forall|t: u32| (#[trigger] st1.spec_global_index(t)) is Some
        implies st1.base.spec_owner(t) is Some by {
        if t != moved {
            assert(st0.spec_global_index(t) is Some);
        }
    }
    assert forall|t: u32| (#[trigger] st1.base.spec_owner(t)) is Some
        implies st1.spec_global_index(t) is Some && st1.spec_global_token(
        st1.spec_global_index(t)->0,
    ) == Some(t) by {
        assert(t != token);
        assert(st0.base.spec_owner(t) is Some);
        let i = st0.spec_global_index(t)->0;
        assert(st0.spec_global_token(i) == Some(t));
        if t == moved && idx != last {
            assert(st1.spec_global_index(t) == Some(idx));
            assert(st1.spec_global_token(idx) == Some(moved));
        } else {
            assert(st1.spec_global_index(t) == Some(i));
            assert(i != last);
            assert(i != idx || t == moved);
            assert(st1.spec_global_token(i) == Some(t));
        }
    }
}



/// A state change that touches neither the global lists nor which
/// tokens exist keeps the global-enumeration bijection.
proof fn lemma_global_same_existence(st0: Enumerable, st1: Enumerable)
    requires
        st0.global_enum_wf(),
        st1.global_tokens@ == st0.global_tokens@,
        st1.global_index@ == st0.global_index@,
        st1.total_supply == st0.total_supply,
        forall|t: u32|
            (#[trigger] st1.base.spec_owner(t)) is Some <==> (#[trigger] st0.base.spec_owner(t))
                is Some,
    ensures
        st1.global_enum_wf(),
{
    assert forall|i: u32| i < st1.total_supply implies (#[trigger] st1.spec_global_token(i))
        is Some by {
        assert(st0.spec_global_token(i) is Some);
    }
    assert forall|i: u32| (#[trigger] st1.spec_global_token(i)) is Some implies i
        < st1.total_supply && st1.base.spec_owner(st1.spec_global_token(i)->0) is Some
        && st1.spec_global_index(st1.spec_global_token(i)->0) == Some(i) by {
        assert(st0.spec_global_token(i) is Some);
        assert(st0.base.spec_owner(st0.spec_global_token(i)->0) is Some);
    }
    assert forall|t: u32| (#[trigger] st1.spec_global_index(t)) is Some
        implies st1.base.spec_owner(t) is Some by {
        assert(st0.spec_global_index(t) is Some);
        assert(st0.base.spec_owner(t) is Some);
    }
    assert forall|t: u32| (#[trigger] st1.base.spec_owner(t)) is Some
        implies st1.spec_global_index(t) is Some && st1.spec_global_token(
        st1.spec_global_index(t)->0,
    ) == Some(t) by {
        assert(st0.base.spec_owner(t) is Some);
    }
}

impl Enumerable {
    /// Mints the next sequential token identifier to `to`, appends it
    /// to `to`'s list and raises the token count.  The token
    /// identifier doubles as the global index, so the global lists
    /// are not touched.  Establishing who may mint is the caller's
    /// concern.
    pub fn sequential_mint(&mut self, to: u32) -> (r: Result<u32, NonFungibleTokenError>)
        requires
            old(self).wf(),
            old(self).owner_enum_wf(),
            old(self).base.spec_owner(old(self).base.counter) is None,
        ensures
            final(self).wf(),
            r == if old(self).base.counter == u32::MAX || old(self).base.spec_balance(to)
                == u32::MAX {
                Err::<u32, NonFungibleTokenError>(NonFungibleTokenError::MathOverflow)
            } else if old(self).total_supply == u32::MAX {
                Err::<u32, NonFungibleTokenError>(NonFungibleTokenError::TokenIDsAreDepleted)
            } else {
                Ok::<u32, NonFungibleTokenError>(old(self).base.counter)
            },
            r is Err ==> *final(self) == *old(self),
            r is Ok ==> {
                &&& final(self).owner_enum_wf()
                &&& final(self).base.counter == old(self).base.counter + 1
                &&& final(self).total_supply == old(self).total_supply + 1
                &&& final(self).base.spec_owner(old(self).base.counter) == Some(to)
                &&& forall|id: u32|
                    id != old(self).base.counter ==> final(self).base.spec_owner(id) == old(
                        self,
                    ).base.spec_owner(id)
                &&& forall|a: u32| final(self).base.spec_balance(a) == old(self).base.spec_balance(
                    a,
                ) + (if a == to {
                    1int
                } else {
                    0int
                })
                &&& final(self).spec_owner_token(to, old(self).base.spec_balance(to)) == Some(
                    old(self).base.counter,
                )
                &&& final(self).spec_owner_index(old(self).base.counter) == Some(
                    old(self).base.spec_balance(to),
                )
                &&& final(self).global_tokens == old(self).global_tokens
                &&& final(self).global_index == old(self).global_index
                &&& final(self).base.approvals@ == old(self).base.approvals@
                &&& final(self).base.operators == old(self).base.operators
                &&& final(self).base.metadata == old(self).base.metadata
            },
    {
        if self.base.counter == u32::MAX {
            return Err(NonFungibleTokenError::MathOverflow);
        }
        if self.base.balance(to) == u32::MAX {
            return Err(NonFungibleTokenError::MathOverflow);
        }
        if self.total_supply == u32::MAX {
            return Err(NonFungibleTokenError::TokenIDsAreDepleted);
        }
        let ghost st0 = *self;
        let token_id = match self.base.sequential_mint(to) {
            Ok(id) => id,
            Err(e) => {
                proof {
                    assert(false);
                }
                return Err(e);
            },
        };
        match self.add_to_owner_enumeration(to, token_id) {
            Ok(_) => (),
            Err(e) => {
                proof {
                    assert(false);
                }
                return Err(e);
            },
        }
        match self.increment_total_supply() {
            Ok(_) => (),
            Err(e) => {
                proof {
                    assert(false);
                }
                return Err(e);
            },
        }
        proof {
            lemma_enum_append(st0, *self, to, token_id);
        }
        Ok(token_id)
    }

    /// Mints the caller-chosen, previously unused `token_id` to `to`,
    /// appending it to `to`'s list and to the global list.
    /// Establishing who may mint is the caller's concern.
    pub fn non_sequential_mint(&mut self, to: u32, token_id: u32) -> (r: Result<
        (),
        NonFungibleTokenError,
    >)
        requires
            old(self).wf(),
            old(self).owner_enum_wf(),
            old(self).global_enum_wf(),
            old(self).base.spec_owner(token_id) is None,
        ensures
            final(self).wf(),
            r == if old(self).base.spec_balance(to) == u32::MAX {
                Err::<(), NonFungibleTokenError>(NonFungibleTokenError::MathOverflow)
            } else if old(self).total_supply == u32::MAX {
                Err::<(), NonFungibleTokenError>(NonFungibleTokenError::TokenIDsAreDepleted)
            } else {
                Ok::<(), NonFungibleTokenError>(())
            },
            r is Err ==> *final(self) == *old(self),
            r is Ok ==> {
                &&& final(self).owner_enum_wf()
                &&& final(self).global_enum_wf()
                &&& final(self).total_supply == old(self).total_supply + 1
                &&& final(self).base.spec_owner(token_id) == Some(to)
                &&& forall|id: u32|
                    id != token_id ==> final(self).base.spec_owner(id) == old(
                        self,
                    ).base.spec_owner(id)
                &&& forall|a: u32| final(self).base.spec_balance(a) == old(self).base.spec_balance(
                    a,
                ) + (if a == to {
                    1int
                } else {
                    0int
                })
                &&& final(self).spec_global_token(old(self).total_supply) == Some(token_id)
                &&& final(self).spec_global_index(token_id) == Some(old(self).total_supply)
                &&& final(self).base.counter == old(self).base.counter
                &&& final(self).base.operators == old(self).base.operators
                &&& final(self).base.metadata == old(self).base.metadata
            },
    {
        if self.base.balance(to) == u32::MAX {
            return Err(NonFungibleTokenError::MathOverflow);
        }
        if self.total_supply == u32::MAX {
            return Err(NonFungibleTokenError::TokenIDsAreDepleted);
        }
        let ghost st0 = *self;
        match self.base.update(None, Some(to), token_id) {
            Ok(_) => (),
            Err(e) => {
                proof {
                    assert(false);
                }
                return Err(e);
            },
        }
        match self.add_to_owner_enumeration(to, token_id) {
            Ok(_) => (),
            Err(e) => {
                proof {
                    assert(false);
                }
                return Err(e);
            },
        }
        let total_supply = match self.increment_total_supply() {
            Ok(t) => t,
            Err(e) => {
                proof {
                    assert(false);
                }
                return Err(e);
            },
        };
        self.add_to_global_enumeration(token_id, total_supply);
        proof {
            lemma_enum_append(st0, *self, to, token_id);
            lemma_global_append(st0, *self, to, token_id);
        }
        Ok(())
    }

    /// Destroys `token_id`, owned by `from`, removing it from `from`'s
    /// list and lowering the token count.  For sequential identifiers
    /// the global lists are not maintained.  Authorization for `from`
    /// is the host's concern and is assumed here.
    pub fn sequential_burn(&mut self, from: u32, token_id: u32) -> (r: Result<
        (),
        NonFungibleTokenError,
    >)
        requires
            old(self).wf(),
            old(self).owner_enum_wf(),
        ensures
            final(self).wf(),
            r == (match old(self).base.spec_update_error(Some(from), None, token_id) {
                Some(e) => Err::<(), NonFungibleTokenError>(e),
                None => if old(self).total_supply == 0 {
                    Err::<(), NonFungibleTokenError>(NonFungibleTokenError::MathOverflow)
                } else {
                    Ok::<(), NonFungibleTokenError>(())
                },
            }),
            r is Err ==> *final(self) == *old(self),
            r is Ok ==> {
                &&& final(self).owner_enum_wf()
                &&& final(self).base.spec_owner(token_id) is None
                &&& forall|id: u32|
                    id != token_id ==> final(self).base.spec_owner(id) == old(
                        self,
                    ).base.spec_owner(id)
                &&& forall|a: u32| final(self).base.spec_balance(a) == old(self).base.spec_balance(
                    a,
                ) - (if a == from {
                    1int
                } else {
                    0int
                })
                &&& final(self).total_supply == old(self).total_supply - 1
                &&& final(self).global_tokens == old(self).global_tokens
                &&& final(self).global_index == old(self).global_index
                &&& final(self).base.counter == old(self).base.counter
                &&& final(self).base.approvals@ == old(self).base.approvals@.remove(
                    token_id as u64,
                )
                &&& final(self).base.operators == old(self).base.operators
                &&& final(self).base.metadata == old(self).base.metadata
            },
    {
        // Validation phase: the base ledger's checks take precedence
        // over the token-count check.
        match self.base.owner_of(token_id) {
            Ok(o) => {
                if o != from {
                    return Err(NonFungibleTokenError::IncorrectOwner);
                }
            },
            Err(e) => {
                return Err(e);
            },
        }
        if self.base.balance(from) == 0 {
            return Err(NonFungibleTokenError::MathOverflow);
        }
        if self.total_supply == 0 {
            return Err(NonFungibleTokenError::MathOverflow);
        }
        // Write phase: every step below is now known to succeed.
        let ghost st0 = *self;
        match self.base.burn(from, token_id) {
            Ok(_) => (),
            Err(e) => {
                proof {
                    assert(false);
                }
                return Err(e);
            },
        }
        match self.remove_from_owner_enumeration(from, token_id) {
            Ok(_) => (),
            Err(e) => {
                proof {
                    assert(false);
                }
                return Err(e);
            },
        }
        match self.decrement_total_supply() {
            Ok(_) => (),
            Err(e) => {
                proof {
                    assert(false);
                }
                return Err(e);
            },
        }
        proof {
            lemma_enum_burn_shape(st0, *self, from, token_id);
        }
        Ok(())
    }

    /// Destroys `token_id`, owned by `from`, on the authority of
    /// `spender`, who must pass the spender-approval check; otherwise
    /// as [`Enumerable::sequential_burn`].  Authorization for
    /// `spender` is the host's concern and is assumed here.
    pub fn sequential_burn_from(&mut self, spender: u32, from: u32, token_id: u32,
        current_ledger: u32) -> (r: Result<(), NonFungibleTokenError>)
        requires
            old(self).wf(),
            old(self).owner_enum_wf(),
        ensures
            final(self).wf(),
            r == if !old(self).base.spec_spender_approved(spender, from, token_id,
                current_ledger) {
                Err::<(), NonFungibleTokenError>(NonFungibleTokenError::InsufficientApproval)
            } else {
                match old(self).base.spec_update_error(Some(from), None, token_id) {
                    Some(e) => Err::<(), NonFungibleTokenError>(e),
                    None => if old(self).total_supply == 0 {
                        Err::<(), NonFungibleTokenError>(NonFungibleTokenError::MathOverflow)
                    } else {
                        Ok::<(), NonFungibleTokenError>(())
                    },
                }
            },
            r is Err ==> *final(self) == *old(self),
            r is Ok ==> {
                &&& final(self).owner_enum_wf()
                &&& final(self).base.spec_owner(token_id) is None
                &&& forall|id: u32|
                    id != token_id ==> final(self).base.spec_owner(id) == old(
                        self,
                    ).base.spec_owner(id)
                &&& forall|a: u32| final(self).base.spec_balance(a) == old(self).base.spec_balance(
                    a,
                ) - (if a == from {
                    1int
                } else {
                    0int
                })
                &&& final(self).total_supply == old(self).total_supply - 1
                &&& final(self).global_tokens == old(self).global_tokens
                &&& final(self).global_index == old(self).global_index
                &&& final(self).base.counter == old(self).base.counter
                &&& final(self).base.operators == old(self).base.operators
                &&& final(self).base.metadata == old(self).base.metadata
            },
    {
        match self.base.check_spender_approval(spender, from, token_id, current_ledger) {
            Ok(_) => (),
            Err(e) => {
                return Err(e);
            },
        }
        self.sequential_burn(from, token_id)
    }

    /// Destroys `token_id`, owned by `from`, removing it from `from`'s
    /// list and from the global list and lowering the token count.
    /// Authorization for `from` is the host's concern and is assumed
    /// here.
    pub fn non_sequential_burn(&mut self, from: u32, token_id: u32) -> (r: Result<
        (),
        NonFungibleTokenError,
    >)
        requires
            old(self).wf(),
            old(self).owner_enum_wf(),
            old(self).global_enum_wf(),
        ensures
            final(self).wf(),
            r == (match old(self).base.spec_update_error(Some(from), None, token_id) {
                Some(e) => Err::<(), NonFungibleTokenError>(e),
                None => if old(self).total_supply == 0 {
                    Err::<(), NonFungibleTokenError>(NonFungibleTokenError::MathOverflow)
                } else {
                    Ok::<(), NonFungibleTokenError>(())
                },
            }),
            r is Err ==> *final(self) == *old(self),
            r is Ok ==> {
                &&& final(self).owner_enum_wf()
                &&& final(self).global_enum_wf()
                &&& final(self).base.spec_owner(token_id) is None
                &&& forall|id: u32|
                    id != token_id ==> final(self).base.spec_owner(id) == old(
                        self,
                    ).base.spec_owner(id)
                &&& forall|a: u32| final(self).base.spec_balance(a) == old(self).base.spec_balance(
                    a,
                ) - (if a == from {
                    1int
                } else {
                    0int
                })
                &&& final(self).total_supply == old(self).total_supply - 1
                &&& final(self).base.counter == old(self).base.counter
                &&& final(self).base.operators == old(self).base.operators
                &&& final(self).base.metadata == old(self).base.metadata
            },
    {
        match self.base.owner_of(token_id) {
            Ok(o) => {
                if o != from {
                    return Err(NonFungibleTokenError::IncorrectOwner);
                }
            },
            Err(e) => {
                return Err(e);
            },
        }
        if self.base.balance(from) == 0 {
            return Err(NonFungibleTokenError::MathOverflow);
        }
        if self.total_supply == 0 {
            return Err(NonFungibleTokenError::MathOverflow);
        }
        let ghost st0 = *self;
        match self.base.burn(from, token_id) {
            Ok(_) => (),
            Err(e) => {
                proof {
                    assert(false);
                }
                return Err(e);
            },
        }
        match self.remove_from_owner_enumeration(from, token_id) {
            Ok(_) => (),
            Err(e) => {
                proof {
                    assert(false);
                }
                return Err(e);
            },
        }
        let total_supply = match self.decrement_total_supply() {
            Ok(t) => t,
            Err(e) => {
                proof {
                    assert(false);
                }
                return Err(e);
            },
        };
        match self.remove_from_global_enumeration(token_id, total_supply) {
            Ok(_) => (),
            Err(e) => {
                proof {
                    assert(false);
                }
                return Err(e);
            },
        }
        proof {
            lemma_enum_burn_shape(st0, *self, from, token_id);
            lemma_global_remove(st0, *self, token_id);
        }
        Ok(())
    }

    /// Destroys `token_id`, owned by `from`, on the authority of
    /// `spender`, who must pass the spender-approval check; otherwise
    /// as [`Enumerable::non_sequential_burn`].  Authorization for
    /// `spender` is the host's concern and is assumed here.
    pub fn non_sequential_burn_from(&mut self, spender: u32, from: u32, token_id: u32,
        current_ledger: u32) -> (r: Result<(), NonFungibleTokenError>)
        requires
            old(self).wf(),
            old(self).owner_enum_wf(),
            old(self).global_enum_wf(),
        ensures
            final(self).wf(),
            r == if !old(self).base.spec_spender_approved(spender, from, token_id,
                current_ledger) {
                Err::<(), NonFungibleTokenError>(NonFungibleTokenError::InsufficientApproval)
            } else {
                match old(self).base.spec_update_error(Some(from), None, token_id) {
                    Some(e) => Err::<(), NonFungibleTokenError>(e),
                    None => if old(self).total_supply == 0 {
                        Err::<(), NonFungibleTokenError>(NonFungibleTokenError::MathOverflow)
                    } else {
                        Ok::<(), NonFungibleTokenError>(())
                    },
                }
            },
            r is Err ==> *final(self) == *old(self),
            r is Ok ==> {
                &&& final(self).owner_enum_wf()
                &&& final(self).global_enum_wf()
                &&& final(self).base.spec_owner(token_id) is None
                &&& forall|id: u32|
                    id != token_id ==> final(self).base.spec_owner(id) == old(
                        self,
                    ).base.spec_owner(id)
                &&& forall|a: u32| final(self).base.spec_balance(a) == old(self).base.spec_balance(
                    a,
                ) - (if a == from {
                    1int
                } else {
                    0int
                })
                &&& final(self).total_supply == old(self).total_supply - 1
                &&& final(self).base.counter == old(self).base.counter
                &&& final(self).base.operators == old(self).base.operators
                &&& final(self).base.metadata == old(self).base.metadata
            },
    {
        match self.base.check_spender_approval(spender, from, token_id, current_ledger) {
            Ok(_) => (),
            Err(e) => {
                return Err(e);
            },
        }
        self.non_sequential_burn(from, token_id)
    }

    /// Transfers `token_id` from `from` to `to`, moving it between the
    /// two owners' lists.  A self-transfer fails with
    /// `TokenNotFoundInOwnerList`: the swap slot it would need lies
    /// one past the end of the list.  Authorization for `from` is the
    /// host's concern and is assumed here.
    pub fn transfer(&mut self, from: u32, to: u32, token_id: u32) -> (r: Result<
        (),
        NonFungibleTokenError,
    >)
        requires
            old(self).wf(),
            old(self).owner_enum_wf(),
        ensures
            final(self).wf(),
            r == (match old(self).base.spec_update_error(Some(from), Some(to), token_id) {
                Some(e) => Err::<(), NonFungibleTokenError>(e),
                None => if from == to {
                    Err::<(), NonFungibleTokenError>(
                        NonFungibleTokenError::TokenNotFoundInOwnerList,
                    )
                } else {
                    Ok::<(), NonFungibleTokenError>(())
                },
            }),
            r is Err ==> *final(self) == *old(self),
            r is Ok ==> {
                &&& final(self).owner_enum_wf()
                &&& (old(self).global_enum_wf() ==> final(self).global_enum_wf())
                &&& final(self).base.spec_owner(token_id) == Some(to)
                &&& forall|id: u32|
                    id != token_id ==> final(self).base.spec_owner(id) == old(
                        self,
                    ).base.spec_owner(id)
                &&& forall|a: u32| final(self).base.spec_balance(a) == old(self).base.spec_balance(
                    a,
                ) + (if a == to {
                    1int
                } else {
                    0int
                }) - (if a == from {
                    1int
                } else {
                    0int
                })
                &&& final(self).spec_owner_token(to, old(self).base.spec_balance(to)) == Some(
                    token_id,
                )
                &&& final(self).spec_owner_index(token_id) == Some(old(self).base.spec_balance(to))
                &&& final(self).total_supply == old(self).total_supply
                &&& final(self).global_tokens == old(self).global_tokens
                &&& final(self).global_index == old(self).global_index
                &&& final(self).base.counter == old(self).base.counter
                &&& final(self).base.approvals@ == old(self).base.approvals@.remove(
                    token_id as u64,
                )
                &&& final(self).base.operators == old(self).base.operators
                &&& final(self).base.metadata == old(self).base.metadata
            },
    {
        // Validation phase.
        match self.base.owner_of(token_id) {
            Ok(o) => {
                if o != from {
                    return Err(NonFungibleTokenError::IncorrectOwner);
                }
            },
            Err(e) => {
                return Err(e);
            },
        }
        if self.base.balance(from) == 0 {
            return Err(NonFungibleTokenError::MathOverflow);
        }
        if to != from && self.base.balance(to) == u32::MAX {
            return Err(NonFungibleTokenError::MathOverflow);
        }
        if from == to {
            return Err(NonFungibleTokenError::TokenNotFoundInOwnerList);
        }
        // Write phase: every step below is now known to succeed.
        let ghost st0 = *self;
        match self.base.transfer(from, to, token_id) {
            Ok(_) => (),
            Err(e) => {
                proof {
                    assert(false);
                }
                return Err(e);
            },
        }
        match self.remove_from_owner_enumeration(from, token_id) {
            Ok(_) => (),
            Err(e) => {
                proof {
                    assert(false);
                }
                return Err(e);
            },
        }
        match self.add_to_owner_enumeration(to, token_id) {
            Ok(_) => (),
            Err(e) => {
                proof {
                    assert(false);
                }
                return Err(e);
            },
        }
        proof {
            lemma_enum_transfer_shape(st0, *self, from, to, token_id);
            if st0.global_enum_wf() {
                lemma_global_same_existence(st0, *self);
            }
        }
        Ok(())
    }

    /// Transfers `token_id` from `from` to `to` on the authority of
    /// `spender`, who must pass the spender-approval check; otherwise
    /// as [`Enumerable::transfer`].  Authorization for `spender` is
    /// the host's concern and is assumed here.
    pub fn transfer_from(&mut self, spender: u32, from: u32, to: u32, token_id: u32,
        current_ledger: u32) -> (r: Result<(), NonFungibleTokenError>)
        requires
            old(self).wf(),
            old(self).owner_enum_wf(),
        ensures
            final(self).wf(),
            r == if !old(self).base.spec_spender_approved(spender, from, token_id,
                current_ledger) {
                Err::<(), NonFungibleTokenError>(NonFungibleTokenError::InsufficientApproval)
            } else {
                match old(self).base.spec_update_error(Some(from), Some(to), token_id) {
                    Some(e) => Err::<(), NonFungibleTokenError>(e),
                    None => if from == to {
                        Err::<(), NonFungibleTokenError>(
                            NonFungibleTokenError::TokenNotFoundInOwnerList,
                        )
                    } else {
                        Ok::<(), NonFungibleTokenError>(())
                    },
                }
            },
            r is Err ==> *final(self) == *old(self),
            r is Ok ==> {
                &&& final(self).owner_enum_wf()
                &&& (old(self).global_enum_wf() ==> final(self).global_enum_wf())
                &&& final(self).base.spec_owner(token_id) == Some(to)
                &&& forall|id: u32|
                    id != token_id ==> final(self).base.spec_owner(id) == old(
                        self,
                    ).base.spec_owner(id)
                &&& forall|a: u32| final(self).base.spec_balance(a) == old(self).base.spec_balance(
                    a,
                ) + (if a == to {
                    1int
                } else {
                    0int
                }) - (if a == from {
                    1int
                } else {
                    0int
                })
                &&& final(self).total_supply == old(self).total_supply
                &&& final(self).global_tokens == old(self).global_tokens
                &&& final(self).global_index == old(self).global_index
                &&& final(self).base.counter == old(self).base.counter
                &&& final(self).base.operators == old(self).base.operators
                &&& final(self).base.metadata == old(self).base.metadata
            },
    {
        match self.base.check_spender_approval(spender, from, token_id, current_ledger) {
            Ok(_) => (),
            Err(e) => {
                return Err(e);
            },
        }
        self.transfer(from, to, token_id)
    }
}

} // verus!
