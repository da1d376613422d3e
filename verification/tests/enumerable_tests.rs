//! Tests of the enumerable ledger: owner-local and global token lists
//! under sequential and non-sequential minting.

use token_ledger::enumerable::Enumerable;
use token_ledger::errors::NonFungibleTokenError;

#[test]
fn enumeration_bijection_after_burn() {
    // Law scenario: mint four tokens to one account, burn the token at
    // local index two; the list keeps three distinct, still-owned
    // entries.
    let mut e = Enumerable::new();
    let owner: u32 = 1;
    let n: u32 = 4;
    let mut i: u32 = 0;
    while i < n {
        e.sequential_mint(owner).unwrap();
        i += 1;
    }
    assert_eq!(e.base.balance(owner), n);
    assert_eq!(e.total_supply(), n);
    let victim = e.get_owner_token_id(owner, 2).unwrap();
    e.sequential_burn(owner, victim).unwrap();
    assert_eq!(e.base.balance(owner), n - 1);
    assert_eq!(e.total_supply(), n - 1);
    let t0 = e.get_owner_token_id(owner, 0).unwrap();
    let t1 = e.get_owner_token_id(owner, 1).unwrap();
    let t2 = e.get_owner_token_id(owner, 2).unwrap();
    assert_ne!(t0, t1);
    assert_ne!(t0, t2);
    assert_ne!(t1, t2);
    assert_eq!(e.base.owner_of(t0), Ok(owner));
    assert_eq!(e.base.owner_of(t1), Ok(owner));
    assert_eq!(e.base.owner_of(t2), Ok(owner));
    assert_ne!(t0, victim);
    assert_ne!(t1, victim);
    assert_ne!(t2, victim);
    // The freed slot is gone.
    assert_eq!(
        e.get_owner_token_id(owner, 3),
        Err(NonFungibleTokenError::TokenNotFoundInOwnerList)
    );
}

#[test]
fn sequential_mint_assigns_increasing_ids() {
    let mut e = Enumerable::new();
    let a = e.sequential_mint(7).unwrap();
    let b = e.sequential_mint(7).unwrap();
    let c = e.sequential_mint(8).unwrap();
    assert_eq!(a, 0);
    assert_eq!(b, 1);
    assert_eq!(c, 2);
    assert_eq!(e.total_supply(), 3);
    assert_eq!(e.get_owner_token_id(7, 0), Ok(0));
    assert_eq!(e.get_owner_token_id(7, 1), Ok(1));
    assert_eq!(e.get_owner_token_id(8, 0), Ok(2));
}

#[test]
fn non_sequential_mint_maintains_global_list() {
    let mut e = Enumerable::new();
    e.non_sequential_mint(1, 7).unwrap();
    e.non_sequential_mint(1, 42).unwrap();
    e.non_sequential_mint(2, 99).unwrap();
    assert_eq!(e.total_supply(), 3);
    assert_eq!(e.get_token_id(0), Ok(7));
    assert_eq!(e.get_token_id(1), Ok(42));
    assert_eq!(e.get_token_id(2), Ok(99));
    assert_eq!(
        e.get_token_id(3),
        Err(NonFungibleTokenError::TokenNotFoundInGlobalList)
    );
}

#[test]
fn non_sequential_burn_swaps_last_into_slot() {
    let mut e = Enumerable::new();
    e.non_sequential_mint(1, 7).unwrap();
    e.non_sequential_mint(1, 42).unwrap();
    e.non_sequential_mint(1, 99).unwrap();
    e.non_sequential_burn(1, 42).unwrap();
    assert_eq!(e.total_supply(), 2);
    // The last entry moved into the freed slot.
    assert_eq!(e.get_token_id(0), Ok(7));
    assert_eq!(e.get_token_id(1), Ok(99));
    assert_eq!(
        e.get_token_id(2),
        Err(NonFungibleTokenError::TokenNotFoundInGlobalList)
    );
    assert_eq!(e.base.owner_of(42), Err(NonFungibleTokenError::NonExistentToken));
}

#[test]
fn enumerable_transfer_moves_between_lists() {
    let mut e = Enumerable::new();
    let a: u32 = 1;
    let b: u32 = 2;
    e.sequential_mint(a).unwrap();
    e.sequential_mint(a).unwrap();
    e.sequential_mint(a).unwrap();
    e.transfer(a, b, 1).unwrap();
    assert_eq!(e.base.balance(a), 2);
    assert_eq!(e.base.balance(b), 1);
    assert_eq!(e.base.owner_of(1), Ok(b));
    assert_eq!(e.get_owner_token_id(b, 0), Ok(1));
    // The sender's list was compacted by a swap with its last entry.
    let s0 = e.get_owner_token_id(a, 0).unwrap();
    let s1 = e.get_owner_token_id(a, 1).unwrap();
    assert_ne!(s0, s1);
    assert_ne!(s0, 1);
    assert_ne!(s1, 1);
    assert_eq!(e.total_supply(), 3);
}

#[test]
fn enumerable_self_transfer_fails() {
    let mut e = Enumerable::new();
    e.sequential_mint(1).unwrap();
    assert_eq!(
        e.transfer(1, 1, 0),
        Err(NonFungibleTokenError::TokenNotFoundInOwnerList)
    );
    assert_eq!(e.base.owner_of(0), Ok(1));
}

#[test]
fn enumerable_transfer_from_requires_approval() {
    let mut e = Enumerable::new();
    e.sequential_mint(1).unwrap();
    assert_eq!(
        e.transfer_from(2, 1, 3, 0, 0),
        Err(NonFungibleTokenError::InsufficientApproval)
    );
    e.base.approve(1, 2, 0, 1000, 0).unwrap();
    e.transfer_from(2, 1, 3, 0, 0).unwrap();
    assert_eq!(e.base.owner_of(0), Ok(3));
}

#[test]
fn enumerable_burn_from_variants_work() {
    let mut e = Enumerable::new();
    e.sequential_mint(1).unwrap();
    e.base.approve_for_all(1, 2, 1000, 0).unwrap();
    e.sequential_burn_from(2, 1, 0, 0).unwrap();
    assert_eq!(e.base.balance(1), 0);
    assert_eq!(e.total_supply(), 0);

    let mut e2 = Enumerable::new();
    e2.non_sequential_mint(1, 7).unwrap();
    assert_eq!(
        e2.non_sequential_burn_from(2, 1, 7, 0),
        Err(NonFungibleTokenError::InsufficientApproval)
    );
    e2.base.approve(1, 2, 7, 1000, 0).unwrap();
    e2.non_sequential_burn_from(2, 1, 7, 0).unwrap();
    assert_eq!(e2.total_supply(), 0);
    assert_eq!(
        e2.get_token_id(0),
        Err(NonFungibleTokenError::TokenNotFoundInGlobalList)
    );
}

#[test]
fn get_owner_token_id_of_empty_slot_fails() {
    let e = Enumerable::new();
    assert_eq!(
        e.get_owner_token_id(1, 0),
        Err(NonFungibleTokenError::TokenNotFoundInOwnerList)
    );
}

#[test]
fn decrement_total_supply_at_zero_fails() {
    let mut e = Enumerable::new();
    assert_eq!(
        e.decrement_total_supply(),
        Err(NonFungibleTokenError::MathOverflow)
    );
    e.increment_total_supply().unwrap();
    assert_eq!(e.decrement_total_supply(), Ok(0));
}

#[test]
fn burn_last_slot_token_works() {
    // Removing the token that already sits in the last slot skips the
    // swap.
    let mut e = Enumerable::new();
    e.sequential_mint(1).unwrap();
    e.sequential_mint(1).unwrap();
    let last = e.get_owner_token_id(1, 1).unwrap();
    e.sequential_burn(1, last).unwrap();
    assert_eq!(e.base.balance(1), 1);
    assert_eq!(e.get_owner_token_id(1, 0), Ok(0));
    assert_eq!(
        e.get_owner_token_id(1, 1),
        Err(NonFungibleTokenError::TokenNotFoundInOwnerList)
    );
}
