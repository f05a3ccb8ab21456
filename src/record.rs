//! The record model and the column decoding of local SQL stores.

use vstd::prelude::*;

verus! {

/// A 32-byte account address.
pub type Address = [u8; 32];

/// One address-derivation record: the derived address, the program that
/// derived it, and the ordered seeds it was derived from.
#[derive(Clone, Debug, PartialEq, Eq)]
pub struct PdaSqlite {
    pub pda: Address,
    pub seeds: Vec<Vec<u8>>,
    pub program_id: Address,
}

/// The addresses that a list of records holds.
pub open spec fn address_set(records: Seq<PdaSqlite>) -> Set<Address> {
    records.map_values(|r: PdaSqlite| r.pda).to_set()
}

/// An address is in the set exactly when some record holds it.
pub proof fn lemma_address_set_contains(records: Seq<PdaSqlite>, a: Address)
    ensures
        address_set(records).contains(a) <==> exists|i: int|
            0 <= i < records.len() && (#[trigger] records[i]).pda == a,
{
    let pdas = records.map_values(|r: PdaSqlite| r.pda);
    if address_set(records).contains(a) {
        let i = choose|i: int| 0 <= i < pdas.len() && pdas[i] == a;
        assert(records[i].pda == a);
    }
    if exists|i: int| 0 <= i < records.len() && (#[trigger] records[i]).pda == a {
        let i = choose|i: int| 0 <= i < records.len() && (#[trigger] records[i]).pda == a;
        assert(pdas[i] == a);
    }
}

/// Lists with the same records hold the same addresses.
pub proof fn lemma_address_set_same_multiset(s1: Seq<PdaSqlite>, s2: Seq<PdaSqlite>)
    requires
        s1.to_multiset() == s2.to_multiset(),
    ensures
        address_set(s1) == address_set(s2),
        forall|r: PdaSqlite| s1.contains(r) <==> s2.contains(r),
{
    s1.to_multiset_ensures();
    s2.to_multiset_ensures();
    assert forall|r: PdaSqlite| s1.contains(r) <==> s2.contains(r) by {
        assert(s1.contains(r) <==> s1.to_multiset().count(r) > 0);
        assert(s2.contains(r) <==> s2.to_multiset().count(r) > 0);
    }
    assert forall|a: Address| address_set(s1).contains(a) <==> address_set(s2).contains(a) by {
        lemma_address_set_contains(s1, a);
        lemma_address_set_contains(s2, a);
        if address_set(s1).contains(a) {
            let i = choose|i: int| 0 <= i < s1.len() && (#[trigger] s1[i]).pda == a;
            assert(s1.contains(s1[i]));
            let j = choose|j: int| 0 <= j < s2.len() && s2[j] == s1[i];
            assert(s2[j].pda == a);
        }
        if address_set(s2).contains(a) {
            let i = choose|i: int| 0 <= i < s2.len() && (#[trigger] s2[i]).pda == a;
            assert(s2.contains(s2[i]));
            let j = choose|j: int| 0 <= j < s1.len() && s1[j] == s2[i];
            assert(s1[j].pda == a);
        }
    }
    assert(address_set(s1) =~= address_set(s2));
}

/// Adding a record to a list adds its address to the address set.
pub proof fn lemma_address_set_push(records: Seq<PdaSqlite>, r: PdaSqlite)
    ensures
        address_set(records.push(r)) == address_set(records).insert(r.pda),
{
    assert(records.push(r).map_values(|x: PdaSqlite| x.pda) =~= records.map_values(
        |x: PdaSqlite| x.pda,
    ).push(r.pda));
    records.map_values(|x: PdaSqlite| x.pda).lemma_push_to_set_commute(r.pda);
}

/// Putting a record in front of a list adds its address to the address set.
pub proof fn lemma_address_set_prepend(records: Seq<PdaSqlite>, r: PdaSqlite)
    ensures
        address_set(seq![r] + records) == address_set(records).insert(r.pda),
{
    assert forall|a: Address| address_set(seq![r] + records).contains(a) <==> address_set(
        records,
    ).insert(r.pda).contains(a) by {
        lemma_address_set_contains(seq![r] + records, a);
        lemma_address_set_contains(records, a);
        if address_set(records).contains(a) {
            let i = choose|i: int| 0 <= i < records.len() && (#[trigger] records[i]).pda == a;
            assert((seq![r] + records)[i + 1] == records[i]);
        }
        if a == r.pda {
            assert((seq![r] + records)[0] == r);
        }
        if address_set(seq![r] + records).contains(a) {
            let i = choose|i: int| 0 <= i < records.len() + 1 && (#[trigger] (seq![r] + records)[i]).pda == a;
            if i > 0 {
                assert(records[i - 1] == (seq![r] + records)[i]);
            }
        }
    }
    assert(address_set(seq![r] + records) =~= address_set(records).insert(r.pda));
}

/// The seeds of a record as byte sequences.
pub open spec fn seeds_view(seeds: Seq<Vec<u8>>) -> Seq<Seq<u8>> {
    seeds.map_values(|s: Vec<u8>| s@)
}

/// A column that should have held an address held another number of bytes.
#[derive(Clone, Debug, PartialEq, Eq)]
pub struct DecodeError {
    pub path: String,
    pub field: String,
    pub len: usize,
}

/// Reads an address column: it must hold exactly 32 bytes.
pub fn decode_address(bytes: Vec<u8>, field: &str, path: &str) -> (r: Result<Address, DecodeError>)
    ensures
        r is Ok <==> bytes@.len() == 32,
        r matches Ok(a) ==> a@ == bytes@,
        r matches Err(e) ==> e.path@ == path@ && e.field@ == field@ && e.len == bytes@.len(),
{
    if bytes.len() != 32 {
        return Err(DecodeError { path: path.to_string(), field: field.to_string(), len: bytes.len() });
    }
    let mut a: Address = [0u8; 32];
    let mut i: usize = 0;
    while i < 32
        invariant
            bytes@.len() == 32,
            0 <= i <= 32,
            forall|j: int| 0 <= j < i ==> a@[j] == bytes@[j],
        decreases 32 - i,
    {
        a[i] = bytes[i];
        i = i + 1;
    }
    assert(a@ =~= bytes@);
    Ok(a)
}

/// The little-endian 32-bit number stored at `at`.
pub open spec fn le_u32_at(raw: Seq<u8>, at: int) -> int {
    raw[at] + raw[at + 1] * 256 + raw[at + 2] * 65536 + raw[at + 3] * 16777216
}

/// At most `remaining` seeds read from `cursor` on, each a 32-bit length
/// followed by that many bytes; reading stops at the first seed that is cut off.
pub open spec fn seeds_from(raw: Seq<u8>, cursor: int, remaining: nat) -> Seq<Seq<u8>>
    decreases remaining,
{
    if remaining == 0 || cursor < 0 || cursor + 4 > raw.len() {
        Seq::empty()
    } else {
        let start = cursor + 4;
        let end = start + le_u32_at(raw, cursor);
        if end > raw.len() {
            Seq::empty()
        } else {
            seq![raw.subrange(start, end)] + seeds_from(raw, end, (remaining - 1) as nat)
        }
    }
}

/// The seed list of a seed-storage column: a 32-bit seed count, then the seeds.
/// A column too short for the count holds no seeds.
pub open spec fn seed_storage(raw: Seq<u8>) -> Seq<Seq<u8>> {
    if raw.len() < 4 {
        Seq::empty()
    } else {
        seeds_from(raw, 4, le_u32_at(raw, 0) as nat)
    }
}

fn le_u32_exec(raw: &[u8], at: usize) -> (r: u64)
    requires
        at + 4 <= raw@.len(),
    ensures
        r == le_u32_at(raw@, at as int),
        r < 0x1_0000_0000,
{
    raw[at] as u64 + raw[at + 1] as u64 * 256 + raw[at + 2] as u64 * 65536 + raw[at + 3] as u64
        * 16777216
}

fn copy_range(raw: &[u8], start: usize, end: usize) -> (r: Vec<u8>)
    requires
        start <= end <= raw@.len(),
    ensures
        r@ == raw@.subrange(start as int, end as int),
{
    let mut out: Vec<u8> = Vec::new();
    let mut i: usize = start;
    while i < end
        invariant
            start <= i <= end <= raw@.len(),
            out@ == raw@.subrange(start as int, i as int),
        decreases end - i,
    {
        out.push(raw[i]);
        i = i + 1;
        assert(out@ =~= raw@.subrange(start as int, i as int));
    }
    out
}

/// Decodes a seed-storage column. Data cut off anywhere yields the seeds that
/// are whole, never an error.
pub fn decode_seeds_from_storage(seeds_raw: &[u8]) -> (seeds: Vec<Vec<u8>>)
    ensures
        seeds_view(seeds@) == seed_storage(seeds_raw@),
{
    let mut seeds: Vec<Vec<u8>> = Vec::new();
    if seeds_raw.len() < 4 {
        assert(seeds_view(seeds@) =~= Seq::<Seq<u8>>::empty());
        return seeds;
    }
    let ghost raw = seeds_raw@;
    let num_seeds = le_u32_exec(seeds_raw, 0);
    let mut remaining: u64 = num_seeds;
    let mut cursor: usize = 4;
    while remaining > 0
        invariant_except_break
            4 <= cursor <= raw.len(),
            raw == seeds_raw@,
            seeds_view(seeds@) + seeds_from(raw, cursor as int, remaining as nat) == seed_storage(raw),
        ensures
            seeds_view(seeds@) == seed_storage(raw),
        decreases remaining,
    {
        if seeds_raw.len() - cursor < 4 {
            assert(seeds_from(raw, cursor as int, remaining as nat) =~= Seq::<Seq<u8>>::empty());
            assert(seeds_view(seeds@) =~= seeds_view(seeds@) + Seq::<Seq<u8>>::empty());
            break;
        }
        let seed_len = le_u32_exec(seeds_raw, cursor);
        let start = cursor + 4;
        if seed_len > (seeds_raw.len() - start) as u64 {
            assert(seeds_from(raw, cursor as int, remaining as nat) =~= Seq::<Seq<u8>>::empty());
            assert(seeds_view(seeds@) =~= seeds_view(seeds@) + Seq::<Seq<u8>>::empty());
            break;
        }
        let end = start + seed_len as usize;
        let seed = copy_range(seeds_raw, start, end);
        let ghost before = seeds_view(seeds@);
        seeds.push(seed);
        assert(seeds_view(seeds@) =~= before + seq![raw.subrange(start as int, end as int)]);
        assert(seeds_from(raw, cursor as int, remaining as nat) == seq![raw.subrange(start as int, end as int)]
            + seeds_from(raw, end as int, (remaining - 1) as nat));
        assert(seeds_view(seeds@) + seeds_from(raw, end as int, (remaining - 1) as nat)
            =~= before + seeds_from(raw, cursor as int, remaining as nat));
        cursor = end;
        remaining = remaining - 1;
    }
    assert(remaining == 0 ==> seeds_from(raw, cursor as int, remaining as nat) =~= Seq::<Seq<u8>>::empty());
    seeds
}

/// `a` is an initial part of `b`.
pub open spec fn is_prefix_of<A>(a: Seq<A>, b: Seq<A>) -> bool {
    a.len() <= b.len() && a == b.subrange(0, a.len() as int)
}

/// The 4 little-endian bytes of `n`.
pub open spec fn le_u32_bytes(n: nat) -> Seq<u8> {
    seq![(n % 256) as u8, (n / 256 % 256) as u8, (n / 256 / 256 % 256) as u8, (n / 256 / 256 / 256 % 256) as u8]
}

/// Seeds as stored after the count: each its 32-bit length, then its bytes.
pub open spec fn seed_items_storage(seeds: Seq<Seq<u8>>) -> Seq<u8>
    decreases seeds.len(),
{
    if seeds.len() == 0 {
        Seq::empty()
    } else {
        le_u32_bytes(seeds[0].len()) + seeds[0] + seed_items_storage(seeds.drop_first())
    }
}

/// The seed-storage column of a seed list.
pub open spec fn seed_storage_encoding(seeds: Seq<Seq<u8>>) -> Seq<u8> {
    le_u32_bytes(seeds.len()) + seed_items_storage(seeds)
}

/// The count and every length fit in 32 bits.
pub open spec fn fits_seed_storage(seeds: Seq<Seq<u8>>) -> bool {
    seeds.len() < 0x1_0000_0000 && forall|i: int| 0 <= i < seeds.len() ==> (#[trigger] seeds[i]).len() < 0x1_0000_0000
}

proof fn lemma_le_u32_bytes(n: nat, t: Seq<u8>, c: int)
    requires
        n < 0x1_0000_0000,
        0 <= c,
        c + 4 <= t.len(),
        t.subrange(c, c + 4) == le_u32_bytes(n),
    ensures
        le_u32_at(t, c) == n,
{
    let b = le_u32_bytes(n);
    assert(t[c] == b[0] && t[c + 1] == b[1] && t[c + 2] == b[2] && t[c + 3] == b[3]) by {
        assert(t.subrange(c, c + 4)[0] == t[c]);
        assert(t.subrange(c, c + 4)[1] == t[c + 1]);
        assert(t.subrange(c, c + 4)[2] == t[c + 2]);
        assert(t.subrange(c, c + 4)[3] == t[c + 3]);
    }
    let q1 = n / 256;
    let q2 = q1 / 256;
    let q3 = q2 / 256;
    assert(n == q1 * 256 + n % 256);
    assert(q1 == q2 * 256 + q1 % 256);
    assert(q2 == q3 * 256 + q2 % 256);
    assert(q3 < 256);
}

proof fn lemma_truncated_items(items: Seq<Seq<u8>>, t: Seq<u8>, c: int, m: nat)
    requires
        fits_seed_storage(items),
        4 <= c <= t.len(),
        t.len() - c <= seed_items_storage(items).len(),
        t.subrange(c, t.len() as int) == seed_items_storage(items).subrange(0, t.len() - c),
    ensures
        is_prefix_of(seeds_from(t, c, m), items),
        t.len() - c == seed_items_storage(items).len() && m == items.len() ==> seeds_from(t, c, m) == items,
    decreases m,
{
    let enc = seed_items_storage(items);
    if m == 0 || c + 4 > t.len() {
        if items.len() > 0 && t.len() - c == enc.len() {
            assert(enc.len() >= 4);
        }
        assert(items.len() == 0 ==> enc.len() == 0);
        assert(seeds_from(t, c, m) =~= Seq::<Seq<u8>>::empty());
        assert(Seq::<Seq<u8>>::empty() =~= items.subrange(0, 0));
        if t.len() - c == enc.len() && m == items.len() {
            if items.len() > 0 {
                assert(enc.len() >= 4);
            }
            assert(items =~= Seq::<Seq<u8>>::empty());
        }
    } else {
        if items.len() == 0 {
            assert(enc.len() == 0);
        }
        let first = items[0];
        let rest = items.drop_first();
        let len = first.len();
        let rest_enc = seed_items_storage(rest);
        assert(enc == le_u32_bytes(len) + first + rest_enc);
        assert(fits_seed_storage(rest)) by {
            assert forall|i: int| 0 <= i < rest.len() implies (#[trigger] rest[i]).len() < 0x1_0000_0000 by {
                assert(rest[i] == items[i + 1]);
            }
        }
        assert(t.subrange(c, c + 4) =~= le_u32_bytes(len)) by {
            assert forall|k: int| 0 <= k < 4 implies t.subrange(c, c + 4)[k] == le_u32_bytes(len)[k] by {
                assert(t.subrange(c, t.len() as int)[k] == enc.subrange(0, t.len() - c)[k]);
            }
        }
        lemma_le_u32_bytes(len, t, c);
        let start = c + 4;
        let end = start + len;
        if end > t.len() {
            assert(seeds_from(t, c, m) =~= Seq::<Seq<u8>>::empty());
            assert(Seq::<Seq<u8>>::empty() =~= items.subrange(0, 0));
        } else {
            assert(t.subrange(start, end) =~= first) by {
                assert forall|k: int| 0 <= k < len implies t.subrange(start, end)[k] == first[k] by {
                    assert(t.subrange(c, t.len() as int)[4 + k] == enc.subrange(0, t.len() - c)[4 + k]);
                    assert(enc[4 + k] == first[k]);
                }
            }
            assert(t.subrange(end, t.len() as int) =~= rest_enc.subrange(0, t.len() - end)) by {
                assert forall|k: int| 0 <= k < t.len() - end implies t.subrange(end, t.len() as int)[k]
                    == rest_enc.subrange(0, t.len() - end)[k] by {
                    assert(t.subrange(c, t.len() as int)[4 + len + k] == enc.subrange(0, t.len() - c)[4 + len + k]);
                    assert(enc[4 + len + k] == rest_enc[k]);
                }
            }
            lemma_truncated_items(rest, t, end, (m - 1) as nat);
            let tail = seeds_from(t, end, (m - 1) as nat);
            assert(seeds_from(t, c, m) == seq![first] + tail);
            assert(seq![first] + tail =~= items.subrange(0, tail.len() as int + 1)) by {
                assert forall|k: int| 0 <= k < tail.len() + 1 implies (seq![first] + tail)[k]
                    == items.subrange(0, tail.len() as int + 1)[k] by {
                    if k > 0 {
                        assert(tail[k - 1] == rest.subrange(0, tail.len() as int)[k - 1]);
                    }
                }
            }
            if t.len() - c == enc.len() && m == items.len() {
                assert(tail == rest);
                assert(seq![first] + rest =~= items);
            }
        }
    }
}

/// Decoding a seed-storage column cut off after any number of bytes yields
/// the first seeds of the list it was written from, possibly none; decoding
/// the whole column yields the whole list.
pub proof fn lemma_truncated_seed_storage(seeds: Seq<Seq<u8>>, k: int)
    requires
        fits_seed_storage(seeds),
        0 <= k <= seed_storage_encoding(seeds).len(),
    ensures
        is_prefix_of(seed_storage(seed_storage_encoding(seeds).subrange(0, k)), seeds),
        seed_storage(seed_storage_encoding(seeds)) == seeds,
{
    let enc = seed_storage_encoding(seeds);
    let items = seed_items_storage(seeds);
    assert forall|j: int| 4 <= j <= enc.len() implies {
        let t = #[trigger] enc.subrange(0, j);
        &&& le_u32_at(t, 0) == seeds.len()
        &&& t.subrange(4, t.len() as int) == items.subrange(0, t.len() - 4)
    } by {
        let t = enc.subrange(0, j);
        assert(t.subrange(0, 4) =~= le_u32_bytes(seeds.len())) by {
            assert forall|i: int| 0 <= i < 4 implies t.subrange(0, 4)[i] == le_u32_bytes(seeds.len())[i] by {
                assert(enc[i] == le_u32_bytes(seeds.len())[i]);
            }
        }
        lemma_le_u32_bytes(seeds.len(), t, 0);
        assert(t.subrange(4, t.len() as int) =~= items.subrange(0, t.len() - 4)) by {
            assert forall|i: int| 0 <= i < t.len() - 4 implies t.subrange(4, t.len() as int)[i]
                == items.subrange(0, t.len() - 4)[i] by {
                assert(enc[4 + i] == items[i]);
            }
        }
    }
    let t = enc.subrange(0, k);
    if k < 4 {
        assert(seed_storage(t) =~= Seq::<Seq<u8>>::empty());
        assert(Seq::<Seq<u8>>::empty() =~= seeds.subrange(0, 0));
    } else {
        lemma_truncated_items(seeds, t, 4, seeds.len());
    }
    assert(enc.subrange(0, enc.len() as int) =~= enc);
    lemma_truncated_items(seeds, enc.subrange(0, enc.len() as int), 4, seeds.len());
}

/// Builds a record from the three columns of a `pda_registry` row of the SQL
/// store at `path`; the first address column that is not 32 bytes long is
/// reported.
pub fn record_from_row(pda: Vec<u8>, program_id: Vec<u8>, seed_bytes: &[u8], path: &str) -> (r:
    Result<PdaSqlite, DecodeError>)
    ensures
        r is Ok <==> pda@.len() == 32 && program_id@.len() == 32,
        r matches Ok(rec) ==> rec.pda@ == pda@ && rec.program_id@ == program_id@ && seeds_view(
            rec.seeds@,
        ) == seed_storage(seed_bytes@),
        r matches Err(e) ==> e.path@ == path@ && if pda@.len() != 32 {
            e.field@ == "pda"@ && e.len == pda@.len()
        } else {
            e.field@ == "program_id"@ && e.len == program_id@.len()
        },
{
    let seeds = decode_seeds_from_storage(seed_bytes);
    let pda = decode_address(pda, "pda", path)?;
    let program_id = decode_address(program_id, "program_id", path)?;
    Ok(PdaSqlite { pda, seeds, program_id })
}

} // verus!
