//! The dedup merge engine: the records of all sources, collapsed to one per
//! address, without the addresses that are already published.

use crate::order::{
    compare_addresses, lemma_lex_lt_irreflexive, lemma_lex_lt_le, lex_le, lex_lt,
    sort_records_by_address, sorted_by_address, AddressOrder,
};
use crate::published::{
    checkpoint_decodes_to, checkpoint_encoding, checkpoint_is_whole, lemma_checkpoint_round_trip,
    PublishedSet,
};
use crate::text::{has_prefix, has_suffix, text_has_prefix, text_has_suffix};
use crate::record::{
    address_set, lemma_address_set_contains, lemma_address_set_prepend, lemma_address_set_push,
    lemma_address_set_same_multiset, Address, PdaSqlite,
};
use vstd::prelude::*;

verus! {

/// No two records share an address.
pub open spec fn distinct_addresses(v: Seq<PdaSqlite>) -> bool {
    forall|i: int, j: int| 0 <= i < v.len() && 0 <= j < v.len() && i != j ==> (#[trigger] v[i]).pda != (#[trigger] v[j]).pda
}

/// Records ascend strictly by address.
pub open spec fn strictly_ascending(v: Seq<PdaSqlite>) -> bool {
    forall|i: int, j: int| 0 <= i < j < v.len() ==> lex_lt((#[trigger] v[i]).pda@, (#[trigger] v[j]).pda@)
}

/// What a merge of `input` against the published set `published` may return:
/// one record of `input` for each of its addresses that is not published.
pub open spec fn merge_result(input: Seq<PdaSqlite>, published: Set<Address>, out: Seq<PdaSqlite>) -> bool {
    &&& distinct_addresses(out)
    &&& address_set(out) == address_set(input).difference(published)
    &&& forall|i: int| 0 <= i < out.len() ==> input.contains(#[trigger] out[i])
}

/// The new records of a merge, with what was dropped on the way.
#[derive(Debug)]
pub struct MergeOutcome {
    /// One record per new address, ascending by address.
    pub entries: Vec<PdaSqlite>,
    /// Records dropped because another record had the same address.
    pub in_batch_duplicates: usize,
    /// Distinct addresses dropped because they were already published.
    pub already_published: usize,
}

proof fn lemma_strictly_ascending_distinct(v: Seq<PdaSqlite>)
    requires
        strictly_ascending(v),
    ensures
        distinct_addresses(v),
{
    assert forall|i: int, j: int| 0 <= i < v.len() && 0 <= j < v.len() && i != j implies (#[trigger] v[i]).pda
        != (#[trigger] v[j]).pda by {
        lemma_lex_lt_irreflexive(v[i].pda@);
        if i < j {
            assert(lex_lt(v[i].pda@, v[j].pda@));
        } else {
            assert(lex_lt(v[j].pda@, v[i].pda@));
        }
    }
}

/// Sorts the records by address, keeps one record per address, and drops
/// those whose address is published.
pub fn merge_entries(entries: Vec<PdaSqlite>, published: &PublishedSet) -> (r: MergeOutcome)
    ensures
        merge_result(entries@, published@, r.entries@),
        strictly_ascending(r.entries@),
        r.in_batch_duplicates == entries@.len() - address_set(entries@).len(),
        r.entries@.len() + r.already_published == address_set(entries@).len(),
{
    let ghost input = entries@;
    let mut entries = entries;
    sort_records_by_address(&mut entries);
    let ghost s = entries@;
    let ghost n = s.len();
    let total = entries.len();
    assert(n == total);
    proof {
        lemma_address_set_same_multiset(input, s);
    }
    let mut desc: Vec<PdaSqlite> = Vec::new();
    let mut last: Option<Address> = None;
    let mut dups: usize = 0;
    let mut already: usize = 0;
    let ghost mut kept: Seq<Address> = Seq::empty();
    while entries.len() > 0
        invariant
            n == s.len(),
            n <= usize::MAX,
            entries@.len() <= n,
            entries@ == s.subrange(0, entries@.len() as int),
            sorted_by_address(s),
            forall|x: PdaSqlite| s.contains(x) <==> input.contains(x),
            entries@.len() == n ==> last is None && kept.len() == 0,
            entries@.len() < n ==> last == Some(s[entries@.len() as int].pda),
            kept.no_duplicates(),
            kept.to_set() == address_set(s.subrange(entries@.len() as int, n as int)),
            dups + kept.len() == n - entries@.len(),
            already + desc@.len() == kept.len(),
            address_set(desc@) == kept.to_set().difference(published@),
            forall|i: int, j: int| 0 <= i < j < desc@.len() ==> lex_lt((#[trigger] desc@[j]).pda@, (#[trigger] desc@[i]).pda@),
            entries@.len() < n ==> forall|i: int| 0 <= i < desc@.len() ==> lex_le(s[entries@.len() as int].pda@, (#[trigger] desc@[i]).pda@),
            forall|i: int| 0 <= i < desc@.len() ==> s.contains(#[trigger] desc@[i]),
        decreases entries@.len(),
    {
        let ghost m = entries@.len() as int;
        let ghost before_desc = desc@;
        let r = entries.pop().unwrap();
        assert(r == s[m - 1]);
        assert(s.subrange(m - 1, n as int) =~= seq![r] + s.subrange(m, n as int));
        proof {
            lemma_address_set_prepend(s.subrange(m, n as int), r);
        }
        let same = match last {
            Some(l) => match compare_addresses(&l, &r.pda) {
                AddressOrder::Equal => true,
                _ => false,
            },
            None => false,
        };
        if same {
            proof {
                assert(address_set(s.subrange(m, n as int)).contains(r.pda)) by {
                    lemma_address_set_contains(s.subrange(m, n as int), r.pda);
                    assert(s.subrange(m, n as int)[0] == s[m]);
                }
                assert(kept.to_set().insert(r.pda) =~= kept.to_set());
                assert forall|i: int| 0 <= i < desc@.len() implies lex_le(s[m - 1].pda@, (#[trigger] desc@[i]).pda@) by {
                    assert(s[m - 1].pda == s[m].pda);
                }
            }
            dups = dups + 1;
        } else {
            proof {
                if m < n {
                    assert(lex_le(r.pda@, s[m].pda@));
                    assert(r.pda != s[m].pda);
                    assert(r.pda@ != s[m].pda@);
                    assert(lex_lt(r.pda@, s[m].pda@));
                }
                assert(!kept.to_set().contains(r.pda)) by {
                    if kept.to_set().contains(r.pda) {
                        lemma_address_set_contains(s.subrange(m, n as int), r.pda);
                        let k = choose|k: int| 0 <= k < n - m && (#[trigger] s.subrange(m, n as int)[k]).pda == r.pda;
                        assert(s.subrange(m, n as int)[k] == s[m + k]);
                        if k > 0 {
                            assert(lex_le(s[m].pda@, s[m + k].pda@));
                        }
                        lemma_lex_lt_irreflexive(r.pda@);
                        lemma_lex_lt_le(r.pda@, s[m].pda@, r.pda@);
                    }
                }
                kept.lemma_push_to_set_commute(r.pda);
                assert forall|i: int| 0 <= i < desc@.len() implies lex_lt(r.pda@, (#[trigger] desc@[i]).pda@) by {
                    lemma_lex_lt_le(r.pda@, s[m].pda@, desc@[i].pda@);
                }
            }
            let ghost old_kept = kept;
            proof {
                kept = kept.push(r.pda);
                assert forall|i: int, j: int| 0 <= i < kept.len() && 0 <= j < kept.len() && i != j implies kept[i] != kept[j] by {
                    if i < old_kept.len() && j < old_kept.len() {
                        assert(kept[i] == old_kept[i] && kept[j] == old_kept[j]);
                    } else if i == old_kept.len() {
                        assert(old_kept.to_set().contains(kept[j]));
                    } else {
                        assert(old_kept.to_set().contains(kept[i]));
                    }
                }
            }
            last = Some(r.pda);
            if published.contains(&r.pda) {
                already = already + 1;
                assert(kept.to_set().difference(published@) =~= old_kept.to_set().difference(published@));
            } else {
                proof {
                    lemma_address_set_push(desc@, r);
                    assert(kept.to_set().difference(published@) =~= old_kept.to_set().difference(
                        published@,
                    ).insert(r.pda));
                    assert(s.contains(r)) by {
                        assert(s[m - 1] == r);
                    }
                }
                desc.push(r);
                proof {
                    assert forall|i: int, j: int| 0 <= i < j < desc@.len() implies lex_lt(
                        (#[trigger] desc@[j]).pda@,
                        (#[trigger] desc@[i]).pda@,
                    ) by {
                        if j < before_desc.len() {
                            assert(desc@[i] == before_desc[i] && desc@[j] == before_desc[j]);
                        } else {
                            assert(desc@[j] == r);
                            assert(desc@[i] == before_desc[i]);
                        }
                    }
                    assert forall|i: int| 0 <= i < desc@.len() implies s.contains(#[trigger] desc@[i]) by {
                        if i < before_desc.len() {
                            assert(desc@[i] == before_desc[i]);
                        }
                    }
                }
            }
            proof {
                assert forall|i: int| 0 <= i < desc@.len() implies lex_le(s[m - 1].pda@, (#[trigger] desc@[i]).pda@) by {
                    if i < before_desc.len() {
                        assert(desc@[i] == before_desc[i]);
                        assert(lex_lt(r.pda@, before_desc[i].pda@));
                    }
                }
            }
        }
    }
    assert(s.subrange(0, n as int) =~= s);
    let ghost d = desc@;
    let mut out: Vec<PdaSqlite> = Vec::new();
    while desc.len() > 0
        invariant
            desc@.len() + out@.len() == d.len(),
            desc@ == d.subrange(0, desc@.len() as int),
            forall|i: int| 0 <= i < out@.len() ==> #[trigger] out@[i] == d[d.len() - 1 - i],
        decreases desc@.len(),
    {
        let r = desc.pop().unwrap();
        out.push(r);
    }
    proof {
        assert forall|i: int, j: int| 0 <= i < j < out@.len() implies lex_lt((#[trigger] out@[i]).pda@, (#[trigger] out@[j]).pda@) by {
            assert(out@[i] == d[d.len() - 1 - i]);
            assert(out@[j] == d[d.len() - 1 - j]);
        }
        lemma_strictly_ascending_distinct(out@);
        assert forall|a: Address| address_set(out@).contains(a) <==> address_set(d).contains(a) by {
            lemma_address_set_contains(out@, a);
            lemma_address_set_contains(d, a);
            if address_set(d).contains(a) {
                let k = choose|k: int| 0 <= k < d.len() && (#[trigger] d[k]).pda == a;
                assert(out@[d.len() - 1 - k] == d[k]);
            }
        }
        assert(address_set(out@) =~= address_set(d));
        assert forall|i: int| 0 <= i < out@.len() implies input.contains(#[trigger] out@[i]) by {
            assert(out@[i] == d[d.len() - 1 - i]);
            assert(s.contains(d[d.len() - 1 - i]));
        }
        kept.unique_seq_to_set();
    }
    MergeOutcome { entries: out, in_batch_duplicates: dups, already_published: already }
}

/// Merging the same records a second time, against the published set
/// extended with the addresses that the first merge returned, yields no
/// records.
pub proof fn lemma_merge_idempotent(
    input: Seq<PdaSqlite>,
    published: Set<Address>,
    first: Seq<PdaSqlite>,
    second: Seq<PdaSqlite>,
)
    requires
        merge_result(input, published, first),
        merge_result(input, published.union(address_set(first)), second),
    ensures
        second.len() == 0,
{
    if second.len() > 0 {
        lemma_address_set_contains(second, second[0].pda);
        assert(address_set(second).contains(second[0].pda));
    }
}

/// The same holds when the extended set goes through its checkpoint file:
/// written as the bytes of a list of its addresses and read back, it makes a
/// second merge of the same records return nothing.
pub proof fn lemma_merge_idempotent_through_checkpoint(
    input: Seq<PdaSqlite>,
    published: Set<Address>,
    first: Seq<PdaSqlite>,
    saved: Seq<Address>,
    reloaded: Seq<Address>,
    second: Seq<PdaSqlite>,
)
    requires
        merge_result(input, published, first),
        saved.to_set() == published.union(address_set(first)),
        saved.len() < 0x1_0000_0000_0000_0000,
        checkpoint_is_whole(checkpoint_encoding(saved)) ==> checkpoint_decodes_to(
            checkpoint_encoding(saved),
            reloaded,
        ),
        merge_result(input, reloaded.to_set(), second),
    ensures
        second.len() == 0,
{
    lemma_checkpoint_round_trip(saved, reloaded);
    lemma_merge_idempotent(input, published, first, second);
}

/// A merge never returns two records with one address, nor a record whose
/// address was published before it ran.
pub proof fn lemma_merge_set_correct(
    input: Seq<PdaSqlite>,
    published: Set<Address>,
    out: Seq<PdaSqlite>,
)
    requires
        merge_result(input, published, out),
    ensures
        forall|i: int, j: int| 0 <= i < j < out.len() ==> (#[trigger] out[i]).pda != (#[trigger] out[j]).pda,
        forall|i: int| 0 <= i < out.len() ==> !published.contains((#[trigger] out[i]).pda),
{
    assert forall|i: int| 0 <= i < out.len() implies !published.contains((#[trigger] out[i]).pda) by {
        lemma_address_set_contains(out, out[i].pda);
    }
}

/// Blob sources must have been left alone for longer than this, in nanoseconds.
pub const BLOB_QUIESCENCE_NANOS: u128 = 5_000_000_000;

/// The two kinds of source file.
#[derive(Clone, Copy, Debug, PartialEq, Eq)]
pub enum SourceKind {
    /// A serialized list of records written by a collector.
    Blob,
    /// A local SQL store with a `pda_registry` table.
    Sqlite,
}

/// A file is a blob source when its name is `pda_collector_*.blob` and it was
/// last modified more than five seconds ago.
pub open spec fn blob_source_spec(file_name: Seq<char>, age_nanos: u128) -> bool {
    has_prefix(file_name, "pda_collector_"@) && has_suffix(file_name, ".blob"@) && age_nanos
        > BLOB_QUIESCENCE_NANOS
}

/// Whether a file name has the form of a blob source, `pda_collector_*.blob`.
pub fn is_blob_name(file_name: &str) -> (r: bool)
    ensures
        r == (has_prefix(file_name@, "pda_collector_"@) && has_suffix(file_name@, ".blob"@)),
{
    text_has_prefix(file_name, "pda_collector_") && text_has_suffix(file_name, ".blob")
}

/// Whether a directory entry with this name and age is a blob source.
pub fn is_blob_source(file_name: &str, age_nanos: u128) -> (r: bool)
    ensures
        r == blob_source_spec(file_name@, age_nanos),
{
    is_blob_name(file_name) && age_nanos > BLOB_QUIESCENCE_NANOS
}

/// Whether a file with this extension is a SQL store source.
pub fn is_sqlite_source(extension: &str) -> (r: bool)
    ensures
        r == (extension@ == "sqlite"@),
{
    let e = extension.unicode_len();
    let w = "sqlite".unicode_len();
    assert(extension@.subrange(0, extension@.len() as int) =~= extension@);
    e == w && text_has_prefix(extension, "sqlite")
}

} // verus!
