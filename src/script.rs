//! The bulk insert script: rows rendered as SQL blob literals, in statements
//! of at most `ROWS_PER_STATEMENT` rows, and the checksum of the script.

use crate::published::le_u64_bytes;
use crate::record::{seeds_view, PdaSqlite};
use vstd::prelude::*;

verus! {

/// The most rows that one `INSERT` statement carries.
pub const ROWS_PER_STATEMENT: usize = 500;

/// The uppercase hexadecimal digit of `d`.
pub open spec fn hex_char(d: int) -> char {
    "0123456789ABCDEF"@[d]
}

/// The decimal digit of `d`.
pub open spec fn decimal_char(d: int) -> char {
    "0123456789"@[d]
}

/// Two uppercase hexadecimal digits per byte.
pub open spec fn hex_upper(b: Seq<u8>) -> Seq<char>
    decreases b.len(),
{
    if b.len() == 0 {
        Seq::empty()
    } else {
        hex_upper(b.drop_last()) + seq![hex_char(b.last() as int / 16), hex_char(b.last() as int % 16)]
    }
}

/// A SQL blob literal: `X'` then the hexadecimal digits, then `'`.
pub open spec fn blob_literal(b: Seq<u8>) -> Seq<char> {
    "X'"@ + hex_upper(b) + "'"@
}

/// The decimal digits of `n`.
pub open spec fn decimal(n: nat) -> Seq<char>
    decreases n,
{
    if n < 10 {
        seq![decimal_char(n as int)]
    } else {
        decimal(n / 10) + seq![decimal_char((n % 10) as int)]
    }
}

/// The items of a seed list, each its length as 8 little-endian bytes
/// followed by its bytes.
pub open spec fn seed_items_encoding(seeds: Seq<Seq<u8>>) -> Seq<u8>
    decreases seeds.len(),
{
    if seeds.len() == 0 {
        Seq::empty()
    } else {
        seed_items_encoding(seeds.drop_last()) + le_u64_bytes(seeds.last().len()) + seeds.last()
    }
}

/// The binary form of a seed list stored in the `seed_bytes` column: the seed
/// count as 8 little-endian bytes, then the seeds.
pub open spec fn seed_list_encoding(seeds: Seq<Seq<u8>>) -> Seq<u8> {
    le_u64_bytes(seeds.len()) + seed_items_encoding(seeds)
}

/// One row of values: address, program, seed count and encoded seeds.
#[verifier::opaque]
pub open spec fn row_text(r: PdaSqlite) -> Seq<char> {
    "("@ + blob_literal(r.pda@) + ", "@ + blob_literal(r.program_id@) + ", "@ + decimal(
        r.seeds@.len(),
    ) + ", "@ + blob_literal(seed_list_encoding(seeds_view(r.seeds@))) + ")"@
}

/// The head of each statement.
pub open spec fn insert_header() -> Seq<char> {
    "INSERT OR IGNORE INTO pda_registry (pda, program_id, seed_count, seed_bytes) VALUES\n"@
}

/// Rows, each followed by a comma and a line break.
pub open spec fn rows_text(rows: Seq<PdaSqlite>) -> Seq<char>
    decreases rows.len(),
{
    if rows.len() == 0 {
        Seq::empty()
    } else {
        rows_text(rows.drop_last()) + row_text(rows.last()) + ",\n"@
    }
}

/// One statement inserting the given (non-empty) rows.
#[verifier::opaque]
pub open spec fn statement_text(rows: Seq<PdaSqlite>) -> Seq<char> {
    insert_header() + rows_text(rows.drop_last()) + row_text(rows.last()) + ";\n"@
}

/// The whole script: one statement per run of at most `ROWS_PER_STATEMENT`
/// records, in order.
pub open spec fn insert_script(entries: Seq<PdaSqlite>) -> Seq<char>
    decreases entries.len(),
{
    if entries.len() == 0 {
        Seq::empty()
    } else if entries.len() <= ROWS_PER_STATEMENT {
        statement_text(entries)
    } else {
        statement_text(entries.take(ROWS_PER_STATEMENT as int)) + insert_script(
            entries.skip(ROWS_PER_STATEMENT as int),
        )
    }
}

/// The MD5 digest of the UTF-8 bytes of a text, as 32 lowercase hexadecimal
/// digits.
pub uninterp spec fn md5_hex_of(text: Seq<char>) -> Seq<char>;

/// Relies on `md5::compute` over the text's bytes and on the digest's
/// `LowerHex`, which writes each of its 16 bytes as two digits.
#[verifier::external_body]
fn md5_hex(text: &str) -> (r: String)
    ensures
        r@ == md5_hex_of(text@),
        r@.len() == 32,
{
    format!("{:x}", md5::compute(text.as_bytes()))
}

/// Relies on `bincode::serialize` with its default options: a sequence is its
/// length as 8 little-endian bytes followed by its items, and a byte is itself.
/// With those options there is no size limit, and a sequence of known length,
/// as a `Vec` always is, cannot make it fail.
#[verifier::external_body]
fn encode_seed_list(seeds: &Vec<Vec<u8>>) -> (r: Vec<u8>)
    ensures
        r@ == seed_list_encoding(seeds_view(seeds@)),
{
    bincode::serialize(seeds).expect("a list of byte strings always encodes")
}

fn hex_digit_text(d: u8) -> (r: &'static str)
    requires
        d < 16,
    ensures
        r@ == seq![hex_char(d as int)],
{
    proof {
        reveal_strlit("0123456789ABCDEF");
    }
    let r = if d < 8 {
        if d < 4 {
            if d == 0 { "0" } else if d == 1 { "1" } else if d == 2 { "2" } else { "3" }
        } else {
            if d == 4 { "4" } else if d == 5 { "5" } else if d == 6 { "6" } else { "7" }
        }
    } else {
        if d < 12 {
            if d == 8 { "8" } else if d == 9 { "9" } else if d == 10 { "A" } else { "B" }
        } else {
            if d == 12 { "C" } else if d == 13 { "D" } else if d == 14 { "E" } else { "F" }
        }
    };
    proof {
        reveal_strlit("0"); reveal_strlit("1"); reveal_strlit("2"); reveal_strlit("3");
        reveal_strlit("4"); reveal_strlit("5"); reveal_strlit("6"); reveal_strlit("7");
        reveal_strlit("8"); reveal_strlit("9"); reveal_strlit("A"); reveal_strlit("B");
        reveal_strlit("C"); reveal_strlit("D"); reveal_strlit("E"); reveal_strlit("F");
    }
    assert(r@ =~= seq![hex_char(d as int)]);
    r
}

fn decimal_digit_text(d: u64) -> (r: &'static str)
    requires
        d < 10,
    ensures
        r@ == seq![decimal_char(d as int)],
{
    proof {
        reveal_strlit("0123456789");
    }
    let r = if d < 5 {
        if d == 0 { "0" } else if d == 1 { "1" } else if d == 2 { "2" } else if d == 3 { "3" } else { "4" }
    } else {
        if d == 5 { "5" } else if d == 6 { "6" } else if d == 7 { "7" } else if d == 8 { "8" } else { "9" }
    };
    proof {
        reveal_strlit("0"); reveal_strlit("1"); reveal_strlit("2"); reveal_strlit("3");
        reveal_strlit("4"); reveal_strlit("5"); reveal_strlit("6"); reveal_strlit("7");
        reveal_strlit("8"); reveal_strlit("9");
    }
    assert(r@ =~= seq![decimal_char(d as int)]);
    r
}

/// Appends the decimal digits of `n`.
pub(crate) fn push_decimal(s: &mut String, n: u64)
    ensures
        final(s)@ == old(s)@ + decimal(n as nat),
    decreases n,
{
    if n >= 10 {
        push_decimal(s, n / 10);
    }
    s.append(decimal_digit_text(n % 10));
    if n >= 10 {
        assert(final(s)@ =~= old(s)@ + decimal(n as nat));
    } else {
        assert(final(s)@ =~= old(s)@ + decimal(n as nat));
    }
}

/// Appends the blob literal of `bytes`.
fn push_blob_literal(s: &mut String, bytes: &[u8])
    ensures
        final(s)@ == old(s)@ + blob_literal(bytes@),
{
    let ghost start = s@;
    s.append("X'");
    let mut i: usize = 0;
    while i < bytes.len()
        invariant
            0 <= i <= bytes@.len(),
            s@ == start + "X'"@ + hex_upper(bytes@.subrange(0, i as int)),
        decreases bytes@.len() - i,
    {
        let b = bytes[i];
        s.append(hex_digit_text(b / 16));
        s.append(hex_digit_text(b % 16));
        let ghost p = bytes@.subrange(0, i + 1);
        assert(p.drop_last() =~= bytes@.subrange(0, i as int));
        i = i + 1;
        assert(s@ =~= start + "X'"@ + hex_upper(bytes@.subrange(0, i as int)));
    }
    assert(bytes@.subrange(0, bytes@.len() as int) =~= bytes@);
    s.append("'");
    assert(s@ =~= start + blob_literal(bytes@));
}

/// The SQL blob literal of `bytes`, its digits uppercase: `X''` when empty.
pub fn to_blob_literal(bytes: &[u8]) -> (r: String)
    ensures
        r@ == blob_literal(bytes@),
{
    let mut s = String::new();
    push_blob_literal(&mut s, bytes);
    assert(s@ =~= blob_literal(bytes@));
    s
}

/// Appends the row of one record.
fn push_row(s: &mut String, r: &PdaSqlite)
    ensures
        final(s)@ == old(s)@ + row_text(*r),
{
    let encoded = encode_seed_list(&r.seeds);
    let ghost start = s@;
    s.append("(");
    push_blob_literal(s, &r.pda);
    s.append(", ");
    push_blob_literal(s, &r.program_id);
    s.append(", ");
    push_decimal(s, r.seeds.len() as u64);
    s.append(", ");
    push_blob_literal(s, encoded.as_slice());
    s.append(")");
    reveal(row_text);
    assert(s@ =~= start + row_text(*r));
}

/// Appends one statement inserting `entries[start..end]`.
fn push_statement(s: &mut String, entries: &[PdaSqlite], start: usize, end: usize)
    requires
        start < end <= entries@.len(),
    ensures
        final(s)@ == old(s)@ + statement_text(entries@.subrange(start as int, end as int)),
{
    let ghost before = s@;
    let ghost rows = entries@.subrange(start as int, end as int);
    s.append("INSERT OR IGNORE INTO pda_registry (pda, program_id, seed_count, seed_bytes) VALUES\n");
    let mut i: usize = start;
    while i + 1 < end
        invariant
            start < end <= entries@.len(),
            start <= i < end,
            s@ == before + insert_header() + rows_text(entries@.subrange(start as int, i as int)),
        decreases end - i,
    {
        push_row(s, &entries[i]);
        s.append(",\n");
        let ghost p = entries@.subrange(start as int, i + 1);
        assert(p.drop_last() =~= entries@.subrange(start as int, i as int));
        i = i + 1;
        assert(s@ =~= before + insert_header() + rows_text(entries@.subrange(start as int, i as int)));
    }
    push_row(s, &entries[i]);
    s.append(";\n");
    reveal(statement_text);
    assert(rows.drop_last() =~= entries@.subrange(start as int, i as int));
    assert(s@ =~= before + statement_text(rows));
}

proof fn lemma_insert_script_nonempty(entries: Seq<PdaSqlite>)
    requires
        entries.len() > 0,
    ensures
        insert_script(entries).len() > 0,
    decreases entries.len(),
{
    reveal(statement_text);
    reveal_strlit("INSERT OR IGNORE INTO pda_registry (pda, program_id, seed_count, seed_bytes) VALUES\n");
    if entries.len() > ROWS_PER_STATEMENT {
        let head = entries.take(ROWS_PER_STATEMENT as int);
        assert(statement_text(head).len() >= insert_header().len());
    } else {
        assert(statement_text(entries).len() >= insert_header().len());
    }
}

/// Renders the insert script of the records: `None` for no records.
pub fn build_insert_script(entries: &[PdaSqlite]) -> (r: Option<String>)
    ensures
        r is Some <==> entries@.len() > 0,
        r matches Some(s) ==> s@ == insert_script(entries@) && s@.len() > 0,
{
    let n = entries.len();
    if n == 0 {
        return None;
    }
    let mut s = String::new();
    let mut start: usize = 0;
    assert(entries@.subrange(0, n as int) =~= entries@);
    assert(s@ + insert_script(entries@) =~= insert_script(entries@));
    while start < n
        invariant
            n == entries@.len(),
            0 <= start <= n,
            s@ + insert_script(entries@.subrange(start as int, n as int)) == insert_script(entries@),
        decreases n - start,
    {
        let end = if n - start > ROWS_PER_STATEMENT {
            start + ROWS_PER_STATEMENT
        } else {
            n
        };
        let ghost rest = entries@.subrange(start as int, n as int);
        let ghost rows = entries@.subrange(start as int, end as int);
        proof {
            if rest.len() > ROWS_PER_STATEMENT {
                assert(rest.take(ROWS_PER_STATEMENT as int) =~= rows);
                assert(rest.skip(ROWS_PER_STATEMENT as int) =~= entries@.subrange(end as int, n as int));
            } else {
                assert(rest =~= rows);
                assert(entries@.subrange(end as int, n as int) =~= Seq::<PdaSqlite>::empty());
            }
            assert(insert_script(rest) == statement_text(rows) + insert_script(
                entries@.subrange(end as int, n as int),
            ));
        }
        let ghost before = s@;
        push_statement(&mut s, entries, start, end);
        start = end;
        assert(s@ + insert_script(entries@.subrange(start as int, n as int)) =~= before + insert_script(rest));
    }
    assert(entries@.subrange(0, n as int) =~= entries@);
    assert(entries@.subrange(n as int, n as int) =~= Seq::<PdaSqlite>::empty());
    assert(s@ =~= insert_script(entries@));
    proof {
        lemma_insert_script_nonempty(entries@);
    }
    Some(s)
}

/// A rendered script with its checksum, the idempotency key of its import.
#[derive(Debug)]
pub struct ImportPayload {
    pub script: String,
    pub checksum: String,
}

/// `p` is the payload of `entries`: their script and its digest.
pub open spec fn payload_of(entries: Seq<PdaSqlite>, p: ImportPayload) -> bool {
    p.script@ == insert_script(entries) && p.checksum@ == md5_hex_of(insert_script(entries))
}

/// Renders the records and digests the script: `None` for no records.
pub fn prepare_import(entries: &[PdaSqlite]) -> (r: Option<ImportPayload>)
    ensures
        r is Some <==> entries@.len() > 0,
        r matches Some(p) ==> payload_of(entries@, p) && p.checksum@.len() == 32,
{
    match build_insert_script(entries) {
        Some(script) => {
            let checksum = md5_hex(script.as_str());
            Some(ImportPayload { script, checksum })
        },
        None => None,
    }
}

/// Two records with equal addresses, programs and seed bytes.
pub open spec fn same_content(a: PdaSqlite, b: PdaSqlite) -> bool {
    a.pda == b.pda && a.program_id == b.program_id && seeds_view(a.seeds@) == seeds_view(b.seeds@)
}

/// Two record lists that agree record by record.
pub open spec fn same_records(a: Seq<PdaSqlite>, b: Seq<PdaSqlite>) -> bool {
    a.len() == b.len() && forall|i: int| 0 <= i < a.len() ==> same_content(#[trigger] a[i], b[i])
}

proof fn lemma_rows_text_same(a: Seq<PdaSqlite>, b: Seq<PdaSqlite>)
    requires
        same_records(a, b),
    ensures
        rows_text(a) == rows_text(b),
    decreases a.len(),
{
    if a.len() > 0 {
        assert(same_content(a[a.len() - 1], b[b.len() - 1]));
        lemma_rows_text_same(a.drop_last(), b.drop_last());
        reveal(row_text);
        assert(a.last().seeds@.len() == seeds_view(a.last().seeds@).len());
        assert(b.last().seeds@.len() == seeds_view(b.last().seeds@).len());
        assert(row_text(a.last()) == row_text(b.last()));
    }
}

proof fn lemma_insert_script_same(a: Seq<PdaSqlite>, b: Seq<PdaSqlite>)
    requires
        same_records(a, b),
    ensures
        insert_script(a) == insert_script(b),
    decreases a.len(),
{
    reveal(statement_text);
    reveal(row_text);
    if a.len() > 0 {
        let k = if a.len() <= ROWS_PER_STATEMENT { a.len() as int } else { ROWS_PER_STATEMENT as int };
        let (ha, hb) = (a.take(k), b.take(k));
        assert(same_records(ha, hb));
        lemma_rows_text_same(ha.drop_last(), hb.drop_last());
        assert(same_content(ha.last(), hb.last()));
        assert(ha.last().seeds@.len() == seeds_view(ha.last().seeds@).len());
        assert(hb.last().seeds@.len() == seeds_view(hb.last().seeds@).len());
        assert(statement_text(ha) == statement_text(hb));
        if a.len() <= ROWS_PER_STATEMENT {
            assert(ha =~= a);
            assert(hb =~= b);
        } else {
            assert(same_records(a.skip(k), b.skip(k)));
            lemma_insert_script_same(a.skip(k), b.skip(k));
        }
    }
}

/// Payloads prepared from two record lists that agree byte for byte carry the
/// same script and the same checksum.
pub proof fn lemma_checksum_deterministic(
    a: Seq<PdaSqlite>,
    b: Seq<PdaSqlite>,
    pa: ImportPayload,
    pb: ImportPayload,
)
    requires
        same_records(a, b),
        payload_of(a, pa),
        payload_of(b, pb),
    ensures
        pa.script@ == pb.script@,
        pa.checksum@ == pb.checksum@,
{
    lemma_insert_script_same(a, b);
}

} // verus!
