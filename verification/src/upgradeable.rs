//! The upgrade and migration sequencing state machine.
//!
//! A contract's upgrade flag moves from `Initial` (migration allowed)
//! to `Migrated` (rollback allowed) to `RolledBack` (nothing allowed).

use vstd::prelude::*;

use crate::errors::UpgradeableError;

verus! {

/// The current upgrade state of a contract.  A contract that never
/// recorded a state is in `Initial`.
#[derive(Clone, Copy, Debug, PartialEq, Eq)]
pub enum UpgradeState {
    Initial,
    Migrated,
    RolledBack,
}

/// Marks the beginning of a migration process by resetting the state
/// to `Initial`.
pub fn start_migration(state: &mut UpgradeState)
    ensures
        *final(state) == UpgradeState::Initial,
{
    *state = UpgradeState::Initial;
}

/// Migration is allowed only in the `Initial` state.
pub fn can_migrate(state: &UpgradeState) -> (r: bool)
    ensures
        r == (*state is Initial),
{
    matches!(state, UpgradeState::Initial)
}

/// Rollback is allowed only in the `Migrated` state.
pub fn can_rollback(state: &UpgradeState) -> (r: bool)
    ensures
        r == (*state is Migrated),
{
    matches!(state, UpgradeState::Migrated)
}

/// Completes the migration process.
pub fn complete_migration(state: &mut UpgradeState)
    ensures
        *final(state) == UpgradeState::Migrated,
{
    *state = UpgradeState::Migrated;
}

/// Completes a rollback.
pub fn complete_rollback(state: &mut UpgradeState)
    ensures
        *final(state) == UpgradeState::RolledBack,
{
    *state = UpgradeState::RolledBack;
}

/// Fails with `MigrationNotAllowed` unless the state allows migration.
pub fn ensure_can_migrate(state: &UpgradeState) -> (r: Result<(), UpgradeableError>)
    ensures
        r == if *state is Initial {
            Ok::<(), UpgradeableError>(())
        } else {
            Err::<(), UpgradeableError>(UpgradeableError::MigrationNotAllowed)
        },
{
    if can_migrate(state) {
        Ok(())
    } else {
        Err(UpgradeableError::MigrationNotAllowed)
    }
}

/// Fails with `RollbackNotAllowed` unless the state allows rollback.
pub fn ensure_can_rollback(state: &UpgradeState) -> (r: Result<(), UpgradeableError>)
    ensures
        r == if *state is Migrated {
            Ok::<(), UpgradeableError>(())
        } else {
            Err::<(), UpgradeableError>(UpgradeableError::RollbackNotAllowed)
        },
{
    if can_rollback(state) {
        Ok(())
    } else {
        Err(UpgradeableError::RollbackNotAllowed)
    }
}

} // verus!
