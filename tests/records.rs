use uploader::{decode_address, decode_seeds_from_storage, record_from_row};

fn seed_storage(seeds: &[&[u8]]) -> Vec<u8> {
    let mut out = (seeds.len() as u32).to_le_bytes().to_vec();
    for s in seeds {
        out.extend_from_slice(&(s.len() as u32).to_le_bytes());
        out.extend_from_slice(s);
    }
    out
}

#[test]
fn address_of_32_bytes_is_kept() {
    let bytes: Vec<u8> = (0u8..32).collect();
    let a = decode_address(bytes.clone(), "pda", "/data/a.sqlite").unwrap();
    assert_eq!(a.to_vec(), bytes);
}

#[test]
fn address_of_other_length_names_file_and_field() {
    let e = decode_address(vec![1, 2, 3], "program_id", "/data/a.sqlite").unwrap_err();
    assert_eq!(e.path, "/data/a.sqlite");
    assert_eq!(e.field, "program_id");
    assert_eq!(e.len, 3);
    let e = decode_address(vec![0; 33], "pda", "/x").unwrap_err();
    assert_eq!(e.len, 33);
}

#[test]
fn seeds_decode_in_order() {
    let raw = seed_storage(&[b"abc", b"", &[0xff, 0x00]]);
    let seeds = decode_seeds_from_storage(&raw);
    assert_eq!(seeds, vec![b"abc".to_vec(), vec![], vec![0xff, 0x00]]);
}

#[test]
fn seeds_of_short_column_are_empty() {
    assert!(decode_seeds_from_storage(&[]).is_empty());
    assert!(decode_seeds_from_storage(&[1, 0, 0]).is_empty());
}

#[test]
fn seeds_truncated_at_every_boundary_give_a_prefix() {
    let seeds: Vec<Vec<u8>> = vec![b"first".to_vec(), b"se".to_vec(), vec![], b"fourth seed".to_vec()];
    let refs: Vec<&[u8]> = seeds.iter().map(|s| s.as_slice()).collect();
    let raw = seed_storage(&refs);
    for cut in 0..=raw.len() {
        let got = decode_seeds_from_storage(&raw[..cut]);
        assert!(got.len() <= seeds.len());
        assert_eq!(got[..], seeds[..got.len()], "cut at {cut}");
    }
    assert_eq!(decode_seeds_from_storage(&raw), seeds);
}

#[test]
fn seed_count_larger_than_data_stops_at_the_end() {
    let mut raw = seed_storage(&[b"xy"]);
    raw[0] = 200;
    assert_eq!(decode_seeds_from_storage(&raw), vec![b"xy".to_vec()]);
}

#[test]
fn seed_length_past_the_end_stops() {
    let mut raw = seed_storage(&[b"ok", b"cut"]);
    let n = raw.len();
    raw.truncate(n - 1);
    assert_eq!(decode_seeds_from_storage(&raw), vec![b"ok".to_vec()]);
}

#[test]
fn row_becomes_record() {
    let raw = seed_storage(&[b"s"]);
    let r = record_from_row(vec![7; 32], vec![9; 32], &raw, "/db.sqlite").unwrap();
    assert_eq!(r.pda, [7; 32]);
    assert_eq!(r.program_id, [9; 32]);
    assert_eq!(r.seeds, vec![b"s".to_vec()]);
}

#[test]
fn row_with_bad_addresses_reports_first_bad_field() {
    let e = record_from_row(vec![7; 31], vec![9; 5], &[], "/db.sqlite").unwrap_err();
    assert_eq!((e.field.as_str(), e.len), ("pda", 31));
    let e = record_from_row(vec![7; 32], vec![9; 5], &[], "/db.sqlite").unwrap_err();
    assert_eq!((e.field.as_str(), e.len, e.path.as_str()), ("program_id", 5, "/db.sqlite"));
}
