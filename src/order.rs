//! Byte-wise lexicographic order of addresses, the order in which std sorts
//! arrays of bytes.

use crate::record::{Address, PdaSqlite};
use vstd::prelude::*;

verus! {

/// `a` comes strictly before `b`: they agree up to some index, where `a`
/// holds the smaller byte.
pub open spec fn lex_lt(a: Seq<u8>, b: Seq<u8>) -> bool {
    exists|i: int|
        0 <= i < a.len() && i < b.len() && a.subrange(0, i) == b.subrange(0, i) && a[i] < b[i]
}

/// `a` comes before `b` or equals it.
pub open spec fn lex_le(a: Seq<u8>, b: Seq<u8>) -> bool {
    a == b || lex_lt(a, b)
}

/// Records are ordered by address, ascending.
pub open spec fn sorted_by_address(v: Seq<PdaSqlite>) -> bool {
    forall|i: int, j: int| 0 <= i < j < v.len() ==> lex_le(#[trigger] v[i].pda@, #[trigger] v[j].pda@)
}

/// Addresses are ordered ascending.
pub open spec fn sorted_addresses(v: Seq<Address>) -> bool {
    forall|i: int, j: int| 0 <= i < j < v.len() ==> lex_le(#[trigger] v[i]@, #[trigger] v[j]@)
}

/// Addresses are ordered strictly ascending.
pub open spec fn strictly_sorted(v: Seq<Address>) -> bool {
    forall|i: int, j: int| 0 <= i < j < v.len() ==> lex_lt(#[trigger] v[i]@, #[trigger] v[j]@)
}

/// No address comes strictly before itself.
pub proof fn lemma_lex_lt_irreflexive(a: Seq<u8>)
    ensures
        !lex_lt(a, a),
{
}

/// Coming strictly before is transitive.
pub proof fn lemma_lex_lt_transitive(a: Seq<u8>, b: Seq<u8>, c: Seq<u8>)
    requires
        lex_lt(a, b),
        lex_lt(b, c),
    ensures
        lex_lt(a, c),
{
    let i = choose|i: int|
        0 <= i < a.len() && i < b.len() && a.subrange(0, i) == b.subrange(0, i) && a[i] < b[i];
    let j = choose|j: int|
        0 <= j < b.len() && j < c.len() && b.subrange(0, j) == c.subrange(0, j) && b[j] < c[j];
    if i < j {
        assert(b[i] == b.subrange(0, j)[i]);
        assert(c[i] == c.subrange(0, j)[i]);
        assert(a.subrange(0, i) =~= c.subrange(0, i)) by {
            assert forall|k: int| 0 <= k < i implies a.subrange(0, i)[k] == c.subrange(0, i)[k] by {
                assert(a.subrange(0, i)[k] == b.subrange(0, i)[k]);
                assert(b.subrange(0, j)[k] == c.subrange(0, j)[k]);
            }
        }
        assert(0 <= i < a.len() && i < c.len() && a.subrange(0, i) == c.subrange(0, i) && a[i] < c[i]);
    } else if j < i {
        assert(a[j] == a.subrange(0, i)[j]);
        assert(b[j] == b.subrange(0, i)[j]);
        assert(a.subrange(0, j) =~= c.subrange(0, j)) by {
            assert forall|k: int| 0 <= k < j implies a.subrange(0, j)[k] == c.subrange(0, j)[k] by {
                assert(a.subrange(0, i)[k] == b.subrange(0, i)[k]);
                assert(b.subrange(0, j)[k] == c.subrange(0, j)[k]);
            }
        }
        assert(0 <= j < a.len() && j < c.len() && a.subrange(0, j) == c.subrange(0, j) && a[j] < c[j]);
    } else {
        assert(a.subrange(0, i) =~= c.subrange(0, i));
        assert(0 <= i < a.len() && i < c.len() && a.subrange(0, i) == c.subrange(0, i) && a[i] < c[i]);
    }
}

/// `lt` then `le`, or `le` then `lt`, is `lt`.
pub proof fn lemma_lex_lt_le(a: Seq<u8>, b: Seq<u8>, c: Seq<u8>)
    requires
        (lex_lt(a, b) && lex_le(b, c)) || (lex_le(a, b) && lex_lt(b, c)),
    ensures
        lex_lt(a, c),
{
    if a != b && b != c {
        lemma_lex_lt_transitive(a, b, c);
    }
}

/// How one address compares with another.
#[derive(Clone, Copy, Debug, PartialEq, Eq)]
pub enum AddressOrder {
    Less,
    Equal,
    Greater,
}

/// Compares two addresses byte by byte.
pub fn compare_addresses(a: &Address, b: &Address) -> (r: AddressOrder)
    ensures
        r == AddressOrder::Less <==> lex_lt(a@, b@),
        r == AddressOrder::Equal <==> a == b,
        r == AddressOrder::Greater <==> lex_lt(b@, a@),
{
    let mut i: usize = 0;
    while i < 32
        invariant
            0 <= i <= 32,
            a@.len() == 32,
            b@.len() == 32,
            a@.subrange(0, i as int) == b@.subrange(0, i as int),
        decreases 32 - i,
    {
        if a[i] != b[i] {
            proof {
                if a[i as int] < b[i as int] {
                    assert(lex_lt(a@, b@));
                    assert(!lex_lt(b@, a@)) by {
                        if lex_lt(b@, a@) {
                            lemma_lex_lt_transitive(a@, b@, a@);
                        }
                    }
                } else {
                    assert(lex_lt(b@, a@)) by {
                        assert(b@.subrange(0, i as int) == a@.subrange(0, i as int));
                    }
                    assert(!lex_lt(a@, b@)) by {
                        if lex_lt(a@, b@) {
                            lemma_lex_lt_transitive(a@, b@, a@);
                        }
                    }
                }
                assert(a@ != b@) by {
                    assert(a@[i as int] != b@[i as int]);
                }
            }
            if a[i] < b[i] {
                return AddressOrder::Less;
            } else {
                return AddressOrder::Greater;
            }
        }
        assert(a@.subrange(0, i + 1) =~= b@.subrange(0, i + 1)) by {
            assert(a@.subrange(0, i + 1) =~= a@.subrange(0, i as int).push(a@[i as int]));
            assert(b@.subrange(0, i + 1) =~= b@.subrange(0, i as int).push(b@[i as int]));
        }
        i = i + 1;
    }
    assert(a@ =~= a@.subrange(0, 32));
    assert(b@ =~= b@.subrange(0, 32));
    assert(a@ == b@);
    proof {
        broadcast use vstd::array::group_array_axioms;
        assert(*a =~= *b);
        lemma_lex_lt_irreflexive(a@);
    }
    AddressOrder::Equal
}

/// Relies on `slice::sort_by_key`: it permutes the records so that their
/// keys, here the address arrays whose `Ord` is lexicographic, ascend.
#[verifier::external_body]
pub(crate) fn sort_records_by_address(v: &mut Vec<PdaSqlite>)
    ensures
        final(v)@.to_multiset() == old(v)@.to_multiset(),
        final(v)@.len() == old(v)@.len(),
        sorted_by_address(final(v)@),
{
    v.sort_by_key(|r| r.pda)
}

/// Relies on `slice::sort_unstable`: it permutes the addresses so that they
/// ascend in the lexicographic `Ord` of byte arrays.
#[verifier::external_body]
pub(crate) fn sort_addresses(v: &mut Vec<Address>)
    ensures
        final(v)@.to_multiset() == old(v)@.to_multiset(),
        final(v)@.len() == old(v)@.len(),
        sorted_addresses(final(v)@),
{
    v.sort_unstable()
}

} // verus!
