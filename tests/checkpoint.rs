use std::collections::HashSet;

use solana_address::Address as SolAddress;
use uploader::{PdaSqlite, PublishedSet};

#[test]
fn checkpoint_file_of_a_hash_set_is_read() {
    let set: HashSet<SolAddress> =
        [1u8, 2, 3].iter().map(|k| SolAddress::new_from_array([*k; 32])).collect();
    let bytes = bincode::serialize(&set).unwrap();
    let p = PublishedSet::from_checkpoint_bytes(&bytes);
    assert_eq!(p.len(), 3);
    assert!(p.contains(&[2; 32]));
    assert!(!p.contains(&[4; 32]));
}

#[test]
fn corrupt_checkpoint_is_empty() {
    let set: HashSet<SolAddress> = [SolAddress::new_from_array([1; 32])].into_iter().collect();
    let mut bytes = bincode::serialize(&set).unwrap();
    bytes.pop();
    assert_eq!(PublishedSet::from_checkpoint_bytes(&bytes).len(), 0);
    assert_eq!(PublishedSet::from_checkpoint_bytes(&[1, 2]).len(), 0);
    assert_eq!(PublishedSet::from_checkpoint_bytes(&[]).len(), 0);
}

#[test]
fn checkpoint_bytes_are_a_hash_set_file() {
    let p = PublishedSet::from_addresses(vec![[3; 32], [1; 32], [3; 32]]);
    let bytes = p.to_checkpoint_bytes();
    assert_eq!(bytes.len(), 8 + 64);
    assert_eq!(&bytes[..8], &2u64.to_le_bytes());
    assert_eq!(&bytes[8..40], &[1; 32]);
    let back: HashSet<SolAddress> = bincode::deserialize(&bytes).unwrap();
    let expected: HashSet<SolAddress> =
        [1u8, 3].iter().map(|k| SolAddress::new_from_array([*k; 32])).collect();
    assert_eq!(back, expected);
    let again = PublishedSet::from_checkpoint_bytes(&bytes);
    assert_eq!(again.addresses(), vec![[1; 32], [3; 32]]);
}

#[test]
fn extending_adds_batch_addresses() {
    let mut p = PublishedSet::from_addresses(vec![[9; 32]]);
    let batch = vec![
        PdaSqlite { pda: [1; 32], seeds: vec![], program_id: [0; 32] },
        PdaSqlite { pda: [9; 32], seeds: vec![], program_id: [0; 32] },
        PdaSqlite { pda: [4; 32], seeds: vec![], program_id: [0; 32] },
    ];
    p.extend_with(&batch);
    assert_eq!(p.addresses(), vec![[1; 32], [4; 32], [9; 32]]);
    assert_eq!(p.len(), 3);
}

#[test]
fn set_orders_addresses_bytewise() {
    let mut hi = [0u8; 32];
    hi[0] = 1;
    let mut lo = [0xffu8; 32];
    lo[0] = 0;
    let p = PublishedSet::from_addresses(vec![hi, lo]);
    assert_eq!(p.addresses(), vec![lo, hi]);
    assert!(p.contains(&hi) && p.contains(&lo));
    assert!(!PublishedSet::new().contains(&hi));
    assert_eq!(PublishedSet::new().to_checkpoint_bytes(), vec![0u8; 8]);
}
