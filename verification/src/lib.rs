//! Accounting core for fungible and non-fungible token ledgers.
//!
//! The ledgers keep their records in small verified key-value maps that stand
//! for the host's tiered store; accounts and token identifiers are plain
//! integers.  Every operation states in its contract how it changes the
//! records and exactly when it fails, and the module-level invariants
//! (supply conservation, enumeration bijection, consecutive ownership
//! inference) are proved to be preserved by every operation.

pub mod consecutive;
pub mod enumerable;
pub mod errors;
pub mod fungible;
pub mod kvmap;
pub mod non_fungible;
pub mod sequential;
pub mod upgradeable;
