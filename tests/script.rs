use uploader::script::{build_insert_script, prepare_import, to_blob_literal};
use uploader::PdaSqlite;

const HEADER: &str = "INSERT OR IGNORE INTO pda_registry (pda, program_id, seed_count, seed_bytes) VALUES\n";

fn rec(addr: u8, seeds: Vec<Vec<u8>>) -> PdaSqlite {
    PdaSqlite { pda: [addr; 32], seeds, program_id: [0xAB; 32] }
}

#[test]
fn blob_literal_is_uppercase_hex() {
    assert_eq!(to_blob_literal(&[]), "X''");
    assert_eq!(to_blob_literal(&[0x00, 0xff, 0x1a]), "X'00FF1A'");
}

#[test]
fn no_records_no_script() {
    assert_eq!(build_insert_script(&[]), None);
    assert!(prepare_import(&[]).is_none());
}

#[test]
fn one_record_script_is_exact() {
    let script = build_insert_script(&[rec(1, vec![vec![1, 2]])]).unwrap();
    let expected = format!(
        "{HEADER}(X'{}', X'{}', 1, X'010000000000000002000000000000000102');\n",
        "01".repeat(32),
        "AB".repeat(32)
    );
    assert_eq!(script, expected);
}

#[test]
fn rows_are_separated_and_seeds_counted() {
    let script = build_insert_script(&[rec(1, vec![]), rec(2, vec![vec![], vec![7]])]).unwrap();
    let expected = format!(
        "{HEADER}(X'{}', X'{}', 0, X'0000000000000000'),\n(X'{}', X'{}', 2, X'02000000000000000000000000000000010000000000000007');\n",
        "01".repeat(32),
        "AB".repeat(32),
        "02".repeat(32),
        "AB".repeat(32)
    );
    assert_eq!(script, expected);
}

#[test]
fn statements_hold_at_most_500_rows() {
    let entries: Vec<PdaSqlite> = (0..1001u32).map(|i| rec((i % 251) as u8, vec![])).collect();
    let script = build_insert_script(&entries).unwrap();
    assert_eq!(script.matches("INSERT OR IGNORE").count(), 3);
    assert_eq!(script.matches(";\n").count(), 3);
    assert_eq!(script.matches("),\n").count(), 1001 - 3);
    let statements: Vec<&str> = script.split_inclusive(";\n").collect();
    assert_eq!(statements.len(), 3);
    assert_eq!(statements[0].matches("(X'").count(), 500);
    assert_eq!(statements[1].matches("(X'").count(), 500);
    assert_eq!(statements[2].matches("(X'").count(), 1);
}

#[test]
fn checksum_is_md5_of_script() {
    let entries = vec![rec(3, vec![b"seed".to_vec()]), rec(4, vec![])];
    let p = prepare_import(&entries).unwrap();
    assert_eq!(p.script, build_insert_script(&entries).unwrap());
    assert_eq!(p.checksum, format!("{:x}", md5::compute(p.script.as_bytes())));
    assert_eq!(p.checksum.len(), 32);
}

#[test]
fn checksum_is_deterministic() {
    let make = || vec![rec(3, vec![b"seed".to_vec()]), rec(8, vec![vec![1], vec![2, 3]])];
    let a = prepare_import(&make()).unwrap();
    let b = prepare_import(&make()).unwrap();
    assert_eq!(a.script, b.script);
    assert_eq!(a.checksum, b.checksum);
    let c = prepare_import(&[rec(3, vec![b"seeD".to_vec()])]).unwrap();
    assert_ne!(a.checksum, c.checksum);
}

#[test]
fn record_without_seeds_has_an_empty_seed_list() {
    let r = PdaSqlite { pda: [0; 32], seeds: vec![], program_id: [1; 32] };
    let expected = format!(
        "{HEADER}(X'{}', X'{}', 0, X'0000000000000000');\n",
        "00".repeat(32),
        "01".repeat(32)
    );
    assert_eq!(build_insert_script(&[r]), Some(expected));
}
