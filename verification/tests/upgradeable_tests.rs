//! Tests of the upgrade and migration state machine.

use token_ledger::errors::UpgradeableError;
use token_ledger::upgradeable::{
    can_migrate, can_rollback, complete_migration, complete_rollback, ensure_can_migrate,
    ensure_can_rollback, start_migration, UpgradeState,
};

#[test]
fn upgrade_flow_works() {
    // A contract that never recorded a state is in the initial state.
    let mut state = UpgradeState::Initial;

    assert!(can_migrate(&state));
    assert!(!can_rollback(&state));

    start_migration(&mut state);
    assert!(can_migrate(&state));
    assert!(!can_rollback(&state));

    complete_migration(&mut state);
    assert!(!can_migrate(&state));
    assert!(can_rollback(&state));

    complete_rollback(&mut state);
    assert!(!can_migrate(&state));
    assert!(!can_rollback(&state));
}

#[test]
fn upgrade_ensure_can_migrate_fails_if_not_initial() {
    let mut state = UpgradeState::Initial;
    complete_migration(&mut state);
    assert_eq!(
        ensure_can_migrate(&state),
        Err(UpgradeableError::MigrationNotAllowed)
    );
}

#[test]
fn upgrade_ensure_can_rollback_fails_if_not_migrated() {
    let mut state = UpgradeState::Initial;
    complete_rollback(&mut state);
    assert_eq!(
        ensure_can_rollback(&state),
        Err(UpgradeableError::RollbackNotAllowed)
    );
}

#[test]
fn upgrade_ensure_ok_in_right_states() {
    let mut state = UpgradeState::Initial;
    assert_eq!(ensure_can_migrate(&state), Ok(()));
    complete_migration(&mut state);
    assert_eq!(ensure_can_rollback(&state), Ok(()));
}
