//! Tests of the key-value map and the pair-key composition the
//! ledgers store their records in.

use token_ledger::kvmap::{pair_key, KvMap};
use token_ledger::sequential::{increment_token_id, next_token_id};

#[test]
fn kvmap_set_get_remove() {
    let mut m: KvMap<i128> = KvMap::new();
    assert_eq!(m.len(), 0);
    assert_eq!(m.get(3), None);
    m.set(3, 30);
    m.set(4, 40);
    assert_eq!(m.get(3), Some(30));
    assert_eq!(m.get(4), Some(40));
    assert!(m.has(3));
    assert!(!m.has(5));
    assert_eq!(m.len(), 2);
    m.set(3, 33);
    assert_eq!(m.get(3), Some(33));
    assert_eq!(m.len(), 2);
    m.remove(3);
    assert_eq!(m.get(3), None);
    assert_eq!(m.len(), 1);
    m.remove(9);
    assert_eq!(m.len(), 1);
}

#[test]
fn pair_key_distinguishes_components() {
    assert_ne!(pair_key(1, 2), pair_key(2, 1));
    assert_ne!(pair_key(0, 1), pair_key(1, 0));
    assert_eq!(pair_key(7, 9), pair_key(7, 9));
    assert_eq!(pair_key(1, 2), 0x1_0000_0002u64);
}

#[test]
fn token_id_counter_reserves_ranges() {
    let mut counter: u32 = 0;
    assert_eq!(next_token_id(&counter), 0);
    assert_eq!(increment_token_id(&mut counter, 5), Ok(0));
    assert_eq!(next_token_id(&counter), 5);
    assert_eq!(increment_token_id(&mut counter, 1), Ok(5));
    assert_eq!(next_token_id(&counter), 6);
    let mut near_max: u32 = u32::MAX - 1;
    assert!(increment_token_id(&mut near_max, 2).is_err());
    assert_eq!(near_max, u32::MAX - 1);
}
