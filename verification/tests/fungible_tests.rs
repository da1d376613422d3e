//! Tests of the fungible ledger: balances, supply conservation,
//! allowances and their expiry, the cap, and metadata.

use token_ledger::errors::FungibleTokenError;
use token_ledger::fungible::{
    allowance, allowance_data, approve, balance, burn, check_cap, decimals, get_metadata, mint,
    name, new_fungible, query_cap, set_allowance, set_cap, set_metadata, spend_allowance, symbol,
    total_supply, transfer, transfer_from, update,
};

const MAX_LEDGER: u32 = 1_000_000;

#[test]
fn test_mint_under_cap() {
    let mut t = new_fungible();
    let user: u32 = 1;
    set_cap(&mut t, 1000).unwrap();
    check_cap(&t, 500).unwrap();
    mint(&mut t, user, 500).unwrap();
    assert_eq!(balance(&t, user), 500);
    assert_eq!(total_supply(&t), 500);
}

#[test]
fn test_mint_exact_cap() {
    let mut t = new_fungible();
    let user: u32 = 1;
    set_cap(&mut t, 1000).unwrap();
    check_cap(&t, 1000).unwrap();
    mint(&mut t, user, 1000).unwrap();
    assert_eq!(balance(&t, user), 1000);
    assert_eq!(total_supply(&t), 1000);
}

#[test]
fn test_mint_exceeds_cap() {
    let mut t = new_fungible();
    set_cap(&mut t, 1000).unwrap();
    assert_eq!(check_cap(&t, 1001), Err(FungibleTokenError::ExceededCap));
}

#[test]
fn test_mint_multiple_exceeds_cap() {
    let mut t = new_fungible();
    let user: u32 = 1;
    set_cap(&mut t, 1000).unwrap();
    check_cap(&t, 600).unwrap();
    mint(&mut t, user, 600).unwrap();
    assert_eq!(balance(&t, user), 600);
    assert_eq!(total_supply(&t), 600);
    assert_eq!(check_cap(&t, 500), Err(FungibleTokenError::ExceededCap));
}

#[test]
fn test_query_cap() {
    let mut t = new_fungible();
    set_cap(&mut t, 1000).unwrap();
    let cap = query_cap(&t).unwrap();
    assert_eq!(cap, 1000);
}

#[test]
fn test_cap_not_set() {
    let t = new_fungible();
    assert_eq!(query_cap(&t), Err(FungibleTokenError::CapNotSet));
    assert_eq!(check_cap(&t, 1), Err(FungibleTokenError::CapNotSet));
}

#[test]
fn test_invalid_cap() {
    let mut t = new_fungible();
    assert_eq!(set_cap(&mut t, -1), Err(FungibleTokenError::InvalidCap));
}

#[test]
fn mint_works() {
    let mut t = new_fungible();
    let account: u32 = 1;
    mint(&mut t, account, 100).unwrap();
    assert_eq!(balance(&t, account), 100);
    assert_eq!(total_supply(&t), 100);
}

#[test]
fn mint_base_implementation_has_no_auth() {
    // Minting carries no authorization check of its own; access control
    // is the caller's concern.
    let mut t = new_fungible();
    let account: u32 = 1;
    mint(&mut t, account, 100).unwrap();
    assert_eq!(balance(&t, account), 100);
}

#[test]
fn mint_negative_amount_fails() {
    let mut t = new_fungible();
    assert_eq!(mint(&mut t, 1, -5), Err(FungibleTokenError::LessThanZero));
}

#[test]
fn mint_overflow_fails() {
    let mut t = new_fungible();
    mint(&mut t, 1, i128::MAX).unwrap();
    assert_eq!(mint(&mut t, 2, 1), Err(FungibleTokenError::MathOverflow));
}

#[test]
fn transfer_moves_balance() {
    let mut t = new_fungible();
    mint(&mut t, 1, 70).unwrap();
    transfer(&mut t, 1, 2, 30).unwrap();
    assert_eq!(balance(&t, 1), 40);
    assert_eq!(balance(&t, 2), 30);
    assert_eq!(total_supply(&t), 70);
}

#[test]
fn transfer_insufficient_balance_fails() {
    let mut t = new_fungible();
    mint(&mut t, 1, 10).unwrap();
    assert_eq!(
        transfer(&mut t, 1, 2, 11),
        Err(FungibleTokenError::InsufficientBalance)
    );
    assert_eq!(balance(&t, 1), 10);
    assert_eq!(balance(&t, 2), 0);
}

#[test]
fn transfer_to_self_keeps_balance() {
    let mut t = new_fungible();
    mint(&mut t, 1, 10).unwrap();
    transfer(&mut t, 1, 1, 7).unwrap();
    assert_eq!(balance(&t, 1), 10);
    assert_eq!(total_supply(&t), 10);
}

#[test]
fn conservation_over_mint_transfer_burn() {
    // Law scenario: after any sequence of mints, transfers and burns
    // the total supply equals the sum of the touched balances.
    let mut t = new_fungible();
    mint(&mut t, 1, 100).unwrap();
    mint(&mut t, 2, 50).unwrap();
    transfer(&mut t, 1, 3, 25).unwrap();
    burn(&mut t, 2, 20).unwrap();
    transfer(&mut t, 3, 2, 5).unwrap();
    let sum = balance(&t, 1) + balance(&t, 2) + balance(&t, 3);
    assert_eq!(total_supply(&t), sum);
    assert_eq!(total_supply(&t), 130);
}

#[test]
fn burn_reduces_supply() {
    let mut t = new_fungible();
    mint(&mut t, 1, 100).unwrap();
    burn(&mut t, 1, 40).unwrap();
    assert_eq!(balance(&t, 1), 60);
    assert_eq!(total_supply(&t), 60);
    assert_eq!(burn(&mut t, 1, 61), Err(FungibleTokenError::InsufficientBalance));
}

#[test]
fn update_mint_and_burn_forms() {
    let mut t = new_fungible();
    update(&mut t, None, Some(1), 30).unwrap();
    assert_eq!(total_supply(&t), 30);
    update(&mut t, Some(1), None, 10).unwrap();
    assert_eq!(total_supply(&t), 20);
    assert_eq!(balance(&t, 1), 20);
    assert_eq!(
        update(&mut t, None, Some(1), -1),
        Err(FungibleTokenError::LessThanZero)
    );
}

#[test]
fn approve_and_allowance_work() {
    let mut t = new_fungible();
    approve(&mut t, 1, 2, 40, 100, 0, MAX_LEDGER).unwrap();
    assert_eq!(allowance(&t, 1, 2, 0), 40);
    let d = allowance_data(&t, 1, 2);
    assert_eq!(d.amount, 40);
    assert_eq!(d.live_until_ledger, 100);
}

#[test]
fn approve_invalid_live_until_fails() {
    let mut t = new_fungible();
    // Above the maximum storage lifetime.
    assert_eq!(
        approve(&mut t, 1, 2, 40, MAX_LEDGER + 1, 0, MAX_LEDGER),
        Err(FungibleTokenError::InvalidLiveUntilLedger)
    );
    // In the past with a positive amount.
    assert_eq!(
        approve(&mut t, 1, 2, 40, 4, 5, MAX_LEDGER),
        Err(FungibleTokenError::InvalidLiveUntilLedger)
    );
    // In the past with a zero amount is allowed.
    approve(&mut t, 1, 2, 0, 0, 5, MAX_LEDGER).unwrap();
    assert_eq!(allowance(&t, 1, 2, 5), 0);
}

#[test]
fn set_allowance_negative_amount_fails() {
    let mut t = new_fungible();
    assert_eq!(
        set_allowance(&mut t, 1, 2, -1, 10, 0, MAX_LEDGER),
        Err(FungibleTokenError::LessThanZero)
    );
}

#[test]
fn allowance_expiry() {
    // Law scenario: an allowance set to live until the fifth next
    // ledger reads as zero once the clock has advanced past it.
    let mut t = new_fungible();
    let current: u32 = 100;
    approve(&mut t, 1, 2, 10, current + 5, current, MAX_LEDGER).unwrap();
    assert_eq!(allowance(&t, 1, 2, current), 10);
    assert_eq!(allowance(&t, 1, 2, current + 5), 10);
    assert_eq!(allowance(&t, 1, 2, current + 6), 0);
}

#[test]
fn spend_allowance_monotonic() {
    // Law scenario: spending k leaves old - k, and overspending fails
    // with InsufficientAllowance.
    let mut t = new_fungible();
    approve(&mut t, 1, 2, 50, 100, 0, MAX_LEDGER).unwrap();
    spend_allowance(&mut t, 1, 2, 20, 0, MAX_LEDGER).unwrap();
    assert_eq!(allowance(&t, 1, 2, 0), 30);
    assert_eq!(
        spend_allowance(&mut t, 1, 2, 31, 0, MAX_LEDGER),
        Err(FungibleTokenError::InsufficientAllowance)
    );
    assert_eq!(allowance(&t, 1, 2, 0), 30);
    spend_allowance(&mut t, 1, 2, 30, 0, MAX_LEDGER).unwrap();
    assert_eq!(allowance(&t, 1, 2, 0), 0);
}

#[test]
fn transfer_from_spends_allowance() {
    let mut t = new_fungible();
    mint(&mut t, 1, 100).unwrap();
    approve(&mut t, 1, 2, 60, 100, 0, MAX_LEDGER).unwrap();
    transfer_from(&mut t, 2, 1, 3, 45, 0, MAX_LEDGER).unwrap();
    assert_eq!(balance(&t, 1), 55);
    assert_eq!(balance(&t, 3), 45);
    assert_eq!(allowance(&t, 1, 2, 0), 15);
    assert_eq!(
        transfer_from(&mut t, 2, 1, 3, 16, 0, MAX_LEDGER),
        Err(FungibleTokenError::InsufficientAllowance)
    );
}

#[test]
fn transfer_from_insufficient_balance_leaves_allowance() {
    let mut t = new_fungible();
    mint(&mut t, 1, 10).unwrap();
    approve(&mut t, 1, 2, 60, 100, 0, MAX_LEDGER).unwrap();
    assert_eq!(
        transfer_from(&mut t, 2, 1, 3, 20, 0, MAX_LEDGER),
        Err(FungibleTokenError::InsufficientBalance)
    );
    // The failed call left everything unchanged, allowance included.
    assert_eq!(allowance(&t, 1, 2, 0), 60);
    assert_eq!(balance(&t, 1), 10);
}

#[test]
fn metadata_roundtrip() {
    let mut t = new_fungible();
    assert_eq!(decimals(&t), Err(FungibleTokenError::UnsetMetadata));
    assert_eq!(get_metadata(&t).err(), Some(FungibleTokenError::UnsetMetadata));
    set_metadata(&mut t, 7, String::from("Token"), String::from("TOK"));
    assert_eq!(decimals(&t), Ok(7));
    assert_eq!(name(&t).unwrap(), "Token");
    assert_eq!(symbol(&t).unwrap(), "TOK");
    let m = get_metadata(&t).unwrap();
    assert_eq!(m.decimals, 7);
    assert_eq!(m.name, "Token");
    assert_eq!(m.symbol, "TOK");
}
