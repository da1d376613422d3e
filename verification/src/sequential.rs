//! The monotonic counter that assigns sequential token identifiers.

use vstd::prelude::*;

use crate::errors::NonFungibleTokenError;

verus! {

/// Returns the next token identifier the counter will assign.
pub fn next_token_id(counter: &u32) -> (r: u32)
    ensures
        r == *counter,
{
    *counter
}

/// Reserves `amount` consecutive token identifiers: returns the first
/// reserved identifier and advances the counter past the last one.
/// Fails with `MathOverflow` when the identifier space is exhausted,
/// leaving the counter unchanged.
pub fn increment_token_id(counter: &mut u32, amount: u32) -> (r: Result<
    u32,
    NonFungibleTokenError,
>)
    ensures
        r == if old(counter) + amount <= u32::MAX {
            Ok::<u32, NonFungibleTokenError>(*old(counter))
        } else {
            Err::<u32, NonFungibleTokenError>(NonFungibleTokenError::MathOverflow)
        },
        *final(counter) == if old(counter) + amount <= u32::MAX {
            (old(counter) + amount) as u32
        } else {
            *old(counter)
        },
{
    let current_id = *counter;
    match current_id.checked_add(amount) {
        Some(next_id) => {
            *counter = next_id;
            Ok(current_id)
        },
        None => Err(NonFungibleTokenError::MathOverflow),
    }
}

} // verus!
