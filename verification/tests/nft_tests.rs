//! Tests of the base non-fungible ledger: ownership, approvals,
//! operators, minting, burning and metadata.

use token_ledger::errors::NonFungibleTokenError;
use token_ledger::non_fungible::Base;

#[test]
fn metadata_works() {
    let mut b = Base::new();
    let owner: u32 = 1;
    b.set_metadata(
        String::from("https://smth.com/"),
        String::from("My NFT collection"),
        String::from("NFT"),
    )
    .unwrap();
    let token_id: u32 = 4294967295;
    b.mint(owner, token_id).unwrap();
    let uri = b.token_uri(token_id).unwrap();
    assert_eq!(uri, "https://smth.com/4294967295");
    assert_eq!(b.name().unwrap(), "My NFT collection");
    assert_eq!(b.symbol().unwrap(), "NFT");
}

#[test]
fn token_uri_of_small_ids() {
    let mut b = Base::new();
    b.set_metadata(String::from("ipfs://x/"), String::from("N"), String::from("N"))
        .unwrap();
    b.mint(1, 0).unwrap();
    b.mint(1, 907).unwrap();
    assert_eq!(b.token_uri(0).unwrap(), "ipfs://x/0");
    assert_eq!(b.token_uri(907).unwrap(), "ipfs://x/907");
    assert_eq!(b.token_uri(5), Err(NonFungibleTokenError::NonExistentToken));
}

#[test]
fn base_uri_too_long_fails() {
    let mut b = Base::new();
    let long_uri: String = std::iter::repeat('a').take(201).collect();
    assert_eq!(
        b.set_metadata(long_uri, String::from("N"), String::from("N")),
        Err(NonFungibleTokenError::BaseUriMaxLenExceeded)
    );
    assert_eq!(b.name().err(), Some(NonFungibleTokenError::UnsetMetadata));
}

#[test]
fn token_uri_without_metadata_fails() {
    let mut b = Base::new();
    b.mint(1, 3).unwrap();
    assert_eq!(b.token_uri(3), Err(NonFungibleTokenError::UnsetMetadata));
}

#[test]
fn approve_for_all_works() {
    let mut b = Base::new();
    let owner: u32 = 1;
    let operator: u32 = 2;
    b.approve_for_all(owner, operator, 1000, 0).unwrap();
    assert!(b.is_approved_for_all(owner, operator, 0));
}

#[test]
fn revoke_approve_for_all_works() {
    let mut b = Base::new();
    let owner: u32 = 1;
    let operator: u32 = 2;
    b.approve_for_all(owner, operator, 1000, 0).unwrap();
    assert!(b.is_approved_for_all(owner, operator, 0));
    b.approve_for_all(owner, operator, 0, 0).unwrap();
    assert!(!b.is_approved_for_all(owner, operator, 0));
}

#[test]
fn operator_approval_expires() {
    let mut b = Base::new();
    b.approve_for_all(1, 2, 1000, 0).unwrap();
    assert!(b.is_approved_for_all(1, 2, 1000));
    assert!(!b.is_approved_for_all(1, 2, 1001));
}

#[test]
fn approve_nft_works() {
    let mut b = Base::new();
    let owner: u32 = 1;
    let approved: u32 = 2;
    let token_id: u32 = 1;
    b.mint(owner, token_id).unwrap();
    b.approve(owner, approved, token_id, 1000, 0).unwrap();
    assert_eq!(b.get_approved(token_id, 0), Some(approved));
}

#[test]
fn approve_with_operator_works() {
    let mut b = Base::new();
    let owner: u32 = 1;
    let operator: u32 = 2;
    let approved: u32 = 3;
    let token_id: u32 = 1;
    b.mint(owner, token_id).unwrap();
    b.approve_for_all(owner, operator, 1000, 0).unwrap();
    // The operator approves on behalf of the owner.
    b.approve(operator, approved, token_id, 1000, 0).unwrap();
    assert_eq!(b.get_approved(token_id, 0), Some(approved));
}

#[test]
fn token_approval_expires() {
    let mut b = Base::new();
    b.mint(1, 9).unwrap();
    b.approve(1, 2, 9, 1000, 0).unwrap();
    assert_eq!(b.get_approved(9, 1000), Some(2));
    assert_eq!(b.get_approved(9, 1001), None);
}

#[test]
fn transfer_nft_works() {
    let mut b = Base::new();
    let owner: u32 = 1;
    let recipient: u32 = 2;
    let token_id = b.sequential_mint(owner).unwrap();
    b.transfer(owner, recipient, token_id).unwrap();
    assert_eq!(b.balance(owner), 0);
    assert_eq!(b.balance(recipient), 1);
    assert_eq!(b.owner_of(token_id), Ok(recipient));
}

#[test]
fn transfer_from_nft_approved_works() {
    let mut b = Base::new();
    let owner: u32 = 1;
    let spender: u32 = 2;
    let recipient: u32 = 3;
    let token_id = b.sequential_mint(owner).unwrap();
    b.approve(owner, spender, token_id, 1000, 0).unwrap();
    b.transfer_from(spender, owner, recipient, token_id, 0).unwrap();
    assert_eq!(b.balance(owner), 0);
    assert_eq!(b.balance(recipient), 1);
    assert_eq!(b.owner_of(token_id), Ok(recipient));
}

#[test]
fn transfer_from_nft_operator_works() {
    let mut b = Base::new();
    let owner: u32 = 1;
    let spender: u32 = 2;
    let recipient: u32 = 3;
    let token_id = b.sequential_mint(owner).unwrap();
    b.approve_for_all(owner, spender, 1000, 0).unwrap();
    b.transfer_from(spender, owner, recipient, token_id, 0).unwrap();
    assert_eq!(b.balance(owner), 0);
    assert_eq!(b.balance(recipient), 1);
    assert_eq!(b.owner_of(token_id), Ok(recipient));
}

#[test]
fn transfer_from_nft_owner_works() {
    let mut b = Base::new();
    let owner: u32 = 1;
    let recipient: u32 = 2;
    let token_id = b.sequential_mint(owner).unwrap();
    b.transfer_from(owner, owner, recipient, token_id, 0).unwrap();
    assert_eq!(b.balance(owner), 0);
    assert_eq!(b.balance(recipient), 1);
    assert_eq!(b.owner_of(token_id), Ok(recipient));
}

#[test]
fn transfer_nft_invalid_owner_fails() {
    let mut b = Base::new();
    let owner: u32 = 1;
    let unauthorized: u32 = 2;
    let recipient: u32 = 3;
    let token_id = b.sequential_mint(owner).unwrap();
    assert_eq!(
        b.transfer(unauthorized, recipient, token_id),
        Err(NonFungibleTokenError::IncorrectOwner)
    );
    assert_eq!(b.owner_of(token_id), Ok(owner));
}

#[test]
fn transfer_from_nft_insufficient_approval_fails() {
    let mut b = Base::new();
    let owner: u32 = 1;
    let spender: u32 = 2;
    let recipient: u32 = 3;
    let token_id = b.sequential_mint(owner).unwrap();
    assert_eq!(
        b.transfer_from(spender, owner, recipient, token_id, 0),
        Err(NonFungibleTokenError::InsufficientApproval)
    );
}

#[test]
fn owner_of_non_existent_token_fails() {
    let b = Base::new();
    assert_eq!(b.owner_of(1), Err(NonFungibleTokenError::NonExistentToken));
}

#[test]
fn approve_with_invalid_live_until_ledger_fails() {
    let mut b = Base::new();
    let owner: u32 = 1;
    let approved: u32 = 2;
    let token_id = b.sequential_mint(owner).unwrap();
    assert_eq!(
        b.approve(owner, approved, token_id, 1, 10),
        Err(NonFungibleTokenError::InvalidLiveUntilLedger)
    );
}

#[test]
fn approve_with_invalid_approver_fails() {
    let mut b = Base::new();
    let owner: u32 = 1;
    let invalid_approver: u32 = 2;
    let token_id = b.sequential_mint(owner).unwrap();
    assert_eq!(
        b.approve(invalid_approver, owner, token_id, 1000, 0),
        Err(NonFungibleTokenError::InvalidApprover)
    );
}

#[test]
fn update_with_math_overflow_fails() {
    let mut b = Base::new();
    let owner: u32 = 1;
    let recipient: u32 = 2;
    let token_id = b.sequential_mint(owner).unwrap();
    b.increase_balance(recipient, u32::MAX).unwrap();
    assert_eq!(
        b.update(Some(owner), Some(recipient), token_id),
        Err(NonFungibleTokenError::MathOverflow)
    );
    assert_eq!(b.owner_of(token_id), Ok(owner));
}

#[test]
fn balance_of_non_existent_account_is_zero() {
    let b = Base::new();
    assert_eq!(b.balance(42), 0);
}

#[test]
fn transfer_from_incorrect_owner_fails() {
    let mut b = Base::new();
    let owner: u32 = 1;
    let incorrect_owner: u32 = 2;
    let spender: u32 = 3;
    let recipient: u32 = 4;
    let token_id = b.sequential_mint(owner).unwrap();
    b.approve(owner, spender, token_id, 1000, 0).unwrap();
    assert_eq!(
        b.transfer_from(spender, incorrect_owner, recipient, token_id, 0),
        Err(NonFungibleTokenError::IncorrectOwner)
    );
}

#[test]
fn transfer_from_unauthorized_spender_fails() {
    let mut b = Base::new();
    let owner: u32 = 1;
    let unauthorized_spender: u32 = 2;
    let recipient: u32 = 3;
    let token_id = b.sequential_mint(owner).unwrap();
    assert_eq!(
        b.transfer_from(unauthorized_spender, owner, recipient, token_id, 0),
        Err(NonFungibleTokenError::InsufficientApproval)
    );
}

#[test]
fn test_mint_works() {
    let mut b = Base::new();
    let account: u32 = 1;
    let _token_id = b.sequential_mint(account).unwrap();
    assert_eq!(b.balance(account), 1);
}

#[test]
fn test_counter_works() {
    let mut b = Base::new();
    let owner: u32 = 1;
    let token_id1 = b.sequential_mint(owner).unwrap();
    let token_id2 = b.sequential_mint(owner).unwrap();
    assert_eq!(token_id1, 0);
    assert_eq!(token_id2, 1);
}

#[test]
fn test_mint_base_implementation_has_no_auth() {
    // Minting carries no authorization check of its own; access control
    // is the caller's concern.
    let mut b = Base::new();
    let account: u32 = 1;
    b.sequential_mint(account).unwrap();
    assert_eq!(b.balance(account), 1);
}

#[test]
fn mint_existing_token_fails() {
    let mut b = Base::new();
    b.mint(1, 7).unwrap();
    assert_eq!(b.mint(2, 7), Err(NonFungibleTokenError::TokenIDInUse));
    assert_eq!(b.owner_of(7), Ok(1));
}

#[test]
fn ownership_exclusive_after_transfer() {
    // Law scenario: after mint to A and transfer to B the token
    // resolves to B alone, A's balance dropped by one and B's rose by
    // one.
    let mut b = Base::new();
    let a: u32 = 1;
    let recipient: u32 = 2;
    b.mint(a, 5).unwrap();
    b.mint(a, 6).unwrap();
    let bal_a = b.balance(a);
    let bal_b = b.balance(recipient);
    b.transfer(a, recipient, 5).unwrap();
    assert_eq!(b.owner_of(5), Ok(recipient));
    assert_eq!(b.balance(a), bal_a - 1);
    assert_eq!(b.balance(recipient), bal_b + 1);
    assert_eq!(b.owner_of(6), Ok(a));
}

#[test]
fn transfer_clears_token_approval() {
    let mut b = Base::new();
    b.mint(1, 4).unwrap();
    b.approve(1, 2, 4, 1000, 0).unwrap();
    b.transfer(1, 3, 4).unwrap();
    assert_eq!(b.get_approved(4, 0), None);
}

#[test]
fn burn_removes_token() {
    let mut b = Base::new();
    b.mint(1, 4).unwrap();
    b.burn(1, 4).unwrap();
    assert_eq!(b.owner_of(4), Err(NonFungibleTokenError::NonExistentToken));
    assert_eq!(b.balance(1), 0);
}

#[test]
fn burn_from_requires_approval() {
    let mut b = Base::new();
    b.mint(1, 4).unwrap();
    assert_eq!(
        b.burn_from(2, 1, 4, 0),
        Err(NonFungibleTokenError::InsufficientApproval)
    );
    b.approve(1, 2, 4, 1000, 0).unwrap();
    b.burn_from(2, 1, 4, 0).unwrap();
    assert_eq!(b.owner_of(4), Err(NonFungibleTokenError::NonExistentToken));
}
