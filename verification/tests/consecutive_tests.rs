//! Tests of the consecutive ledger: batch minting, inferred ownership,
//! boundary repair on transfer and burn.

use token_ledger::consecutive::Consecutive;
use token_ledger::errors::NonFungibleTokenError;
use token_ledger::sequential::next_token_id;

#[test]
fn consecutive_batch_mint_works() {
    let mut c = Consecutive::new();
    let owner: u32 = 1;
    let amount: u32 = 100;
    c.batch_mint(owner, amount).unwrap();
    assert_eq!(next_token_id(&c.base.counter), amount);
    assert_eq!(c.base.balance(owner), amount);
    // The boundary record sits at the first identifier of the batch.
    assert_eq!(c.owner_of(0), Ok(owner));
    assert_eq!(c.owner_of(50), Ok(owner));
    // A second batch follows on from the first.
    let last_id = c.batch_mint(owner, amount).unwrap();
    assert_eq!(last_id, 2 * amount - 1);
    assert_eq!(c.base.balance(owner), 2 * amount);
}

#[test]
fn consecutive_owner_of_on_nonexistent_token_fails() {
    let mut c = Consecutive::new();
    let user: u32 = 1;
    c.batch_mint(user, 5).unwrap();
    // Token 5 is out of range.
    assert_eq!(c.owner_of(5), Err(NonFungibleTokenError::NonExistentToken));
}

#[test]
fn consecutive_owner_of_panics_on_burnt_token_fails() {
    let mut c = Consecutive::new();
    let user: u32 = 1;
    c.batch_mint(user, 10).unwrap();
    c.burn(user, 2).unwrap();
    assert_eq!(c.owner_of(2), Err(NonFungibleTokenError::NonExistentToken));
}

#[test]
fn consecutive_transfer_works() {
    let mut c = Consecutive::new();
    let owner: u32 = 1;
    let recipient: u32 = 2;
    let amount: u32 = 100;
    c.batch_mint(owner, amount).unwrap();
    assert_eq!(c.base.balance(owner), amount);
    c.transfer(owner, recipient, 50).unwrap();
    assert_eq!(c.owner_of(50), Ok(recipient));
    assert_eq!(c.base.balance(recipient), 1);
    // The boundary was repaired: the successor still belongs to the
    // previous owner.
    assert_eq!(c.owner_of(51), Ok(owner));
}

#[test]
fn consecutive_transfer_edge_works() {
    let mut c = Consecutive::new();
    let owner: u32 = 1;
    let recipient: u32 = 2;
    let amount: u32 = 100;
    c.batch_mint(owner, amount).unwrap();
    assert_eq!(c.owner_of(0), Ok(owner));
    c.transfer(owner, recipient, 0).unwrap();
    assert_eq!(c.owner_of(0), Ok(recipient));
    assert_eq!(c.owner_of(1), Ok(owner));
    c.transfer(owner, recipient, 99).unwrap();
    assert_eq!(c.owner_of(99), Ok(recipient));
    assert_eq!(c.base.balance(recipient), 2);
}

#[test]
fn consecutive_transfer_from_works() {
    let mut c = Consecutive::new();
    let spender: u32 = 1;
    let owner: u32 = 2;
    let recipient: u32 = 3;
    let amount: u32 = 100;
    let token_id: u32 = 50;
    c.batch_mint(owner, amount).unwrap();
    assert_eq!(c.base.balance(owner), amount);
    c.approve(owner, spender, token_id, 100, 0).unwrap();
    c.transfer_from(spender, owner, recipient, token_id, 0).unwrap();
    assert_eq!(c.owner_of(token_id), Ok(recipient));
    assert_eq!(c.base.balance(recipient), 1);
    assert_eq!(c.owner_of(token_id + 1), Ok(owner));
}

#[test]
fn consecutive_burn_works() {
    let mut c = Consecutive::new();
    let owner: u32 = 1;
    let amount: u32 = 100;
    let token_id: u32 = 50;
    c.batch_mint(owner, amount).unwrap();
    assert_eq!(c.base.balance(owner), amount);
    c.burn(owner, token_id).unwrap();
    assert_eq!(c.base.balance(owner), amount - 1);
    // The burned token has no owner record; its successor got one.
    assert_eq!(
        c.owner_of(token_id),
        Err(NonFungibleTokenError::NonExistentToken)
    );
    assert_eq!(c.owner_of(token_id + 1), Ok(owner));
}

#[test]
fn consecutive_burn_from_works() {
    let mut c = Consecutive::new();
    let owner: u32 = 1;
    let spender: u32 = 2;
    let amount: u32 = 100;
    let token_id: u32 = 42;
    c.batch_mint(owner, amount).unwrap();
    c.approve(owner, spender, token_id, 100, 0).unwrap();
    c.burn_from(spender, owner, token_id, 0).unwrap();
    assert_eq!(c.base.balance(owner), amount - 1);
    assert_eq!(
        c.owner_of(token_id),
        Err(NonFungibleTokenError::NonExistentToken)
    );
    assert_eq!(c.owner_of(token_id + 1), Ok(owner));
}

#[test]
fn consecutive_set_owner_for_works() {
    let mut c = Consecutive::new();
    let user1: u32 = 1;
    let user2: u32 = 2;
    let user3: u32 = 3;
    c.batch_mint(user1, 5).unwrap();
    // An existing, unowned, unburned identifier gets the record.
    c.set_owner_for(user2, 2);
    assert_eq!(c.owner_of(2), Ok(user2));
    // Beyond the minted range: does nothing.
    c.set_owner_for(user2, 5);
    assert_eq!(c.owner_of(5), Err(NonFungibleTokenError::NonExistentToken));
    // With an owner record already present: does nothing.
    c.set_owner_for(user3, 3);
    c.set_owner_for(user2, 3);
    assert_eq!(c.owner_of(3), Ok(user3));
    // On a burned token: does nothing.
    c.burn(user1, 0).unwrap();
    c.set_owner_for(user2, 0);
    assert_eq!(c.owner_of(0), Err(NonFungibleTokenError::NonExistentToken));
}

#[test]
fn consecutive_inference_scenario() {
    // Law scenario: a batch of one hundred belongs entirely to the
    // minter; transferring the fiftieth moves exactly that one token.
    let mut c = Consecutive::new();
    let owner: u32 = 1;
    let other: u32 = 2;
    c.batch_mint(owner, 100).unwrap();
    assert_eq!(c.owner_of(0), Ok(owner));
    assert_eq!(c.owner_of(99), Ok(owner));
    c.transfer(owner, other, 50).unwrap();
    assert_eq!(c.owner_of(50), Ok(other));
    assert_eq!(c.owner_of(51), Ok(owner));
    assert_eq!(c.owner_of(49), Ok(owner));
}

#[test]
fn consecutive_burn_chain_keeps_inference() {
    // Burning a run of neighbours keeps every surviving token with
    // its owner: each burn repairs the next boundary.
    let mut c = Consecutive::new();
    let owner: u32 = 1;
    c.batch_mint(owner, 10).unwrap();
    c.burn(owner, 4).unwrap();
    c.burn(owner, 5).unwrap();
    c.burn(owner, 6).unwrap();
    assert_eq!(c.owner_of(3), Ok(owner));
    assert_eq!(c.owner_of(4), Err(NonFungibleTokenError::NonExistentToken));
    assert_eq!(c.owner_of(5), Err(NonFungibleTokenError::NonExistentToken));
    assert_eq!(c.owner_of(6), Err(NonFungibleTokenError::NonExistentToken));
    assert_eq!(c.owner_of(7), Ok(owner));
    assert_eq!(c.base.balance(owner), 7);
}

#[test]
fn consecutive_transfer_wrong_owner_fails() {
    let mut c = Consecutive::new();
    c.batch_mint(1, 10).unwrap();
    assert_eq!(
        c.transfer(2, 3, 5),
        Err(NonFungibleTokenError::IncorrectOwner)
    );
    assert_eq!(c.owner_of(5), Ok(1));
}

#[test]
fn consecutive_transfer_from_without_approval_fails() {
    let mut c = Consecutive::new();
    c.batch_mint(1, 10).unwrap();
    assert_eq!(
        c.transfer_from(2, 1, 3, 5, 0),
        Err(NonFungibleTokenError::InsufficientApproval)
    );
}

#[test]
fn consecutive_approve_on_burned_token_fails() {
    let mut c = Consecutive::new();
    c.batch_mint(1, 10).unwrap();
    c.burn(1, 5).unwrap();
    assert_eq!(
        c.approve(1, 2, 5, 100, 0),
        Err(NonFungibleTokenError::NonExistentToken)
    );
}

#[test]
fn consecutive_batch_mint_zero_counter_overflow_fails() {
    let mut c = Consecutive::new();
    c.batch_mint(1, u32::MAX).unwrap();
    assert_eq!(
        c.batch_mint(1, 1),
        Err(NonFungibleTokenError::MathOverflow)
    );
}

#[test]
fn consecutive_token_uri_works() {
    let mut c = Consecutive::new();
    c.base
        .set_metadata(
            String::from("https://smth.com/"),
            String::from("C"),
            String::from("C"),
        )
        .unwrap();
    c.batch_mint(1, 10).unwrap();
    assert_eq!(c.token_uri(7).unwrap(), "https://smth.com/7");
    assert_eq!(
        c.token_uri(10),
        Err(NonFungibleTokenError::NonExistentToken)
    );
}
