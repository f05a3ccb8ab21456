use uploader::merge::{is_blob_name, is_blob_source, is_sqlite_source, merge_entries};
use uploader::{PdaSqlite, PublishedSet};

fn rec(addr: u8, seed: &[u8]) -> PdaSqlite {
    PdaSqlite { pda: [addr; 32], seeds: vec![seed.to_vec()], program_id: [0xAA; 32] }
}

fn addresses(v: &[PdaSqlite]) -> Vec<[u8; 32]> {
    v.iter().map(|r| r.pda).collect()
}

#[test]
fn two_sources_overlapping() {
    let a = 1u8;
    let b = 2u8;
    let c = 3u8;
    let mut all = vec![rec(a, b"a"), rec(b, b"b1")];
    all.extend(vec![rec(b, b"b2"), rec(c, b"c")]);
    let out = merge_entries(all, &PublishedSet::new());
    assert_eq!(addresses(&out.entries), vec![[a; 32], [b; 32], [c; 32]]);
    assert_eq!(out.in_batch_duplicates, 1);
    assert_eq!(out.already_published, 0);
}

#[test]
fn checkpoint_holds_one_address() {
    let mut all = vec![rec(1, b"a"), rec(2, b"b1")];
    all.extend(vec![rec(2, b"b2"), rec(3, b"c")]);
    let published = PublishedSet::from_addresses(vec![[2; 32]]);
    let out = merge_entries(all, &published);
    assert_eq!(addresses(&out.entries), vec![[1; 32], [3; 32]]);
    assert_eq!(out.in_batch_duplicates, 1);
    assert_eq!(out.already_published, 1);
}

#[test]
fn second_merge_after_extending_checkpoint_is_empty() {
    let sources = || vec![rec(5, b"x"), rec(4, b"y"), rec(5, b"z"), rec(9, b"w")];
    let mut published = PublishedSet::from_addresses(vec![[4; 32]]);
    let first = merge_entries(sources(), &published);
    assert_eq!(addresses(&first.entries), vec![[5; 32], [9; 32]]);
    published.extend_with(&first.entries);
    let second = merge_entries(sources(), &published);
    assert!(second.entries.is_empty());
    assert_eq!(second.already_published, 3);
}

#[test]
fn merge_output_is_unique_and_unpublished() {
    let mut all = Vec::new();
    for i in 0..200u32 {
        let k = (i * 37 % 50) as u8;
        all.push(rec(k, &i.to_le_bytes()));
    }
    let published = PublishedSet::from_addresses((0..50u8).filter(|k| k % 3 == 0).map(|k| [k; 32]).collect());
    let out = merge_entries(all.clone(), &published);
    let got = addresses(&out.entries);
    let mut expected: Vec<[u8; 32]> = (0..50u8).filter(|k| k % 3 != 0).map(|k| [k; 32]).collect();
    expected.sort();
    assert_eq!(got, expected);
    for r in &out.entries {
        assert!(all.contains(r));
    }
    assert_eq!(out.in_batch_duplicates, 150);
    assert_eq!(out.already_published, 17);
}

#[test]
fn merge_of_nothing_is_nothing() {
    let out = merge_entries(Vec::new(), &PublishedSet::new());
    assert!(out.entries.is_empty());
    assert_eq!(out.in_batch_duplicates, 0);
    assert_eq!(out.already_published, 0);
}

#[test]
fn blob_sources_need_name_and_age() {
    let old = 5_000_000_001u128;
    assert!(is_blob_source("pda_collector_7.blob", old));
    assert!(!is_blob_source("pda_collector_7.blob", 5_000_000_000));
    assert!(!is_blob_source("pda_collector_7.blob", 0));
    assert!(!is_blob_source("collector_7.blob", old));
    assert!(!is_blob_source("pda_collector_7.blob.tmp", old));
    assert!(is_blob_source("pda_collector_.blob", old));
    assert!(!is_blob_source("pda_collector_", old));
    assert!(is_blob_name("pda_collector_7.blob"));
    assert!(!is_blob_name("pda_collector_7.sqlite"));
}

#[test]
fn sqlite_sources_go_by_extension() {
    assert!(is_sqlite_source("sqlite"));
    assert!(!is_sqlite_source("sqlite3"));
    assert!(!is_sqlite_source("SQLITE"));
    assert!(!is_sqlite_source(""));
}
