//! The checkpoint: the set of addresses already durably published, and its
//! on-disk form.

use crate::order::{
    compare_addresses, lemma_lex_lt_irreflexive, lemma_lex_lt_le,
    lex_le, lex_lt, sort_addresses, sorted_addresses, strictly_sorted, AddressOrder,
};
use crate::record::{address_set, Address, PdaSqlite};
use vstd::prelude::*;

verus! {

/// A set of addresses, held as a strictly ascending list.
#[derive(Debug)]
pub struct PublishedSet {
    addrs: Vec<Address>,
}

impl View for PublishedSet {
    type V = Set<Address>;

    closed spec fn view(&self) -> Set<Address> {
        self.addrs@.to_set()
    }
}

/// Keeps the first of each run of equal addresses in an ascending list.
fn dedup_sorted(v: &Vec<Address>) -> (out: Vec<Address>)
    requires
        sorted_addresses(v@),
    ensures
        strictly_sorted(out@),
        out@.to_set() == v@.to_set(),
{
    let mut out: Vec<Address> = Vec::new();
    let mut i: usize = 0;
    while i < v.len()
        invariant
            0 <= i <= v@.len(),
            sorted_addresses(v@),
            strictly_sorted(out@),
            out@.to_set() == v@.subrange(0, i as int).to_set(),
            i > 0 ==> out@.len() > 0 && out@.last() == v@[i - 1],
            i == 0 ==> out@.len() == 0,
        decreases v@.len() - i,
    {
        let x = v[i];
        let ghost prefix = v@.subrange(0, i as int);
        assert(v@.subrange(0, i + 1) =~= prefix.push(x));
        let fresh = if out.len() == 0 {
            true
        } else {
            match compare_addresses(&out[out.len() - 1], &x) {
                AddressOrder::Equal => false,
                _ => true,
            }
        };
        if fresh {
            proof {
                if out@.len() > 0 {
                    assert(lex_le(v@[i - 1]@, x@));
                    assert(out@.last() != x);
                    assert(out@.last()@ != x@);
                    assert forall|k: int| 0 <= k < out@.len() implies lex_lt(out@[k]@, x@) by {
                        if k < out@.len() - 1 {
                            assert(lex_lt(out@[k]@, out@[out@.len() - 1]@));
                            lemma_lex_lt_le(out@[k]@, out@.last()@, x@);
                        }
                    }
                }
            }
            let ghost before = out@;
            out.push(x);
            proof {
                assert(out@ == before.push(x));
                before.lemma_push_to_set_commute(x);
                prefix.lemma_push_to_set_commute(x);
                assert forall|a: int, b: int| 0 <= a < b < out@.len() implies lex_lt(
                    #[trigger] out@[a]@,
                    #[trigger] out@[b]@,
                ) by {
                    if b < before.len() {
                        assert(out@[a] == before[a] && out@[b] == before[b]);
                    }
                }
            }
        } else {
            proof {
                assert(out@.last() == x);
                assert(out@.to_set().contains(x)) by {
                    assert(out@[out@.len() - 1] == x);
                }
                prefix.lemma_push_to_set_commute(x);
                assert(out@.to_set().insert(x) =~= out@.to_set());
            }
        }
        i = i + 1;
    }
    assert(v@.subrange(0, v@.len() as int) =~= v@);
    out
}

/// A strictly ascending list holds each address once.
proof fn lemma_strictly_sorted_no_duplicates(v: Seq<Address>)
    requires
        strictly_sorted(v),
    ensures
        v.no_duplicates(),
{
    assert forall|i: int, j: int| 0 <= i < v.len() && 0 <= j < v.len() && i != j implies v[i]
        != v[j] by {
        if i < j {
            assert(lex_lt(v[i]@, v[j]@));
        } else {
            assert(lex_lt(v[j]@, v[i]@));
        }
        lemma_lex_lt_irreflexive(v[i]@);
    }
}

/// Relies on `bincode::serialize` with its default options: a sequence is its
/// length as 8 little-endian bytes followed by its items, and an address, a
/// newtype over 32 bytes, is those 32 bytes. With those options there is no
/// size limit, and a sequence of known length, as a `Vec` always is, cannot
/// make it fail.
#[verifier::external_body]
fn encode_addresses(addrs: &Vec<Address>) -> (r: Vec<u8>)
    ensures
        r@ == checkpoint_encoding(addrs@),
{
    let v: Vec<solana_address::Address> =
        addrs.iter().map(|a| solana_address::Address::new_from_array(*a)).collect();
    bincode::serialize(&v).expect("a list of addresses always encodes")
}

/// Relies on `bincode::deserialize` with its default options, reading a
/// sequence of addresses: 8 little-endian bytes give the count, then each
/// address takes 32 bytes; bytes left over are allowed, too few are an error.
#[verifier::external_body]
fn decode_addresses(bytes: &[u8]) -> (r: Option<Vec<Address>>)
    ensures
        r is Some <==> checkpoint_is_whole(bytes@),
        r matches Some(v) ==> checkpoint_decodes_to(bytes@, v@),
{
    bincode::deserialize::<Vec<solana_address::Address>>(bytes)
        .ok()
        .map(|v| v.iter().map(|a| a.to_bytes()).collect())
}

/// The 8 little-endian bytes of `n`.
pub open spec fn le_u64_bytes(n: nat) -> Seq<u8> {
    let q1 = n / 0x100;
    let q2 = q1 / 0x100;
    let q3 = q2 / 0x100;
    let q4 = q3 / 0x100;
    let q5 = q4 / 0x100;
    let q6 = q5 / 0x100;
    let q7 = q6 / 0x100;
    seq![
        (n % 0x100) as u8,
        (q1 % 0x100) as u8,
        (q2 % 0x100) as u8,
        (q3 % 0x100) as u8,
        (q4 % 0x100) as u8,
        (q5 % 0x100) as u8,
        (q6 % 0x100) as u8,
        (q7 % 0x100) as u8,
    ]
}

/// The little-endian 64-bit number stored at `at`.
pub open spec fn le_u64_at(b: Seq<u8>, at: int) -> int {
    b[at] + b[at + 1] * 0x100 + b[at + 2] * 0x1_0000 + b[at + 3] * 0x100_0000 + b[at + 4]
        * 0x1_0000_0000 + b[at + 5] * 0x100_0000_0000 + b[at + 6] * 0x1_0000_0000_0000 + b[at + 7]
        * 0x100_0000_0000_0000
}

/// The bytes of the addresses, one after the other.
pub open spec fn concat_addresses(addrs: Seq<Address>) -> Seq<u8>
    decreases addrs.len(),
{
    if addrs.len() == 0 {
        Seq::empty()
    } else {
        concat_addresses(addrs.drop_last()) + addrs.last()@
    }
}

/// A checkpoint file: the address count, then the addresses.
pub open spec fn checkpoint_encoding(addrs: Seq<Address>) -> Seq<u8> {
    le_u64_bytes(addrs.len()) + concat_addresses(addrs)
}

/// The bytes hold a count and at least as many addresses.
pub open spec fn checkpoint_is_whole(b: Seq<u8>) -> bool {
    b.len() >= 8 && b.len() - 8 >= 32 * le_u64_at(b, 0)
}

/// `v` lists the addresses that the bytes hold, in order.
pub open spec fn checkpoint_decodes_to(b: Seq<u8>, v: Seq<Address>) -> bool {
    &&& v.len() == le_u64_at(b, 0)
    &&& forall|k: int| 0 <= k < v.len() ==> (#[trigger] v[k])@ == b.subrange(8 + 32 * k, 8 + 32 * k + 32)
}

proof fn lemma_le_u64_bytes(n: nat, t: Seq<u8>)
    requires
        n < 0x1_0000_0000_0000_0000,
        8 <= t.len(),
        t.subrange(0, 8) == le_u64_bytes(n),
    ensures
        le_u64_at(t, 0) == n,
{
    let b = le_u64_bytes(n);
    assert forall|i: int| 0 <= i < 8 implies t[i] == b[i] by {
        assert(t.subrange(0, 8)[i] == t[i]);
    }
    let q1 = n / 0x100;
    let q2 = q1 / 0x100;
    let q3 = q2 / 0x100;
    let q4 = q3 / 0x100;
    let q5 = q4 / 0x100;
    let q6 = q5 / 0x100;
    let q7 = q6 / 0x100;
    assert(n == q1 * 0x100 + n % 0x100);
    assert(q1 == q2 * 0x100 + q1 % 0x100);
    assert(q2 == q3 * 0x100 + q2 % 0x100);
    assert(q3 == q4 * 0x100 + q3 % 0x100);
    assert(q4 == q5 * 0x100 + q4 % 0x100);
    assert(q5 == q6 * 0x100 + q5 % 0x100);
    assert(q6 == q7 * 0x100 + q6 % 0x100);
    assert(q7 < 0x100) by {
        assert(q1 < 0x100_0000_0000_0000);
        assert(q2 < 0x1_0000_0000_0000);
        assert(q3 < 0x100_0000_0000);
        assert(q4 < 0x1_0000_0000);
        assert(q5 < 0x100_0000);
        assert(q6 < 0x1_0000);
    }
    assert(le_u64_at(t, 0) == n % 0x100 + 0x100 * (q1 % 0x100 + 0x100 * (q2 % 0x100 + 0x100 * (q3
        % 0x100 + 0x100 * (q4 % 0x100 + 0x100 * (q5 % 0x100 + 0x100 * (q6 % 0x100 + 0x100 * q7)))))));
}

proof fn lemma_concat_addresses(v: Seq<Address>)
    ensures
        concat_addresses(v).len() == 32 * v.len(),
        forall|k: int| 0 <= k < v.len() ==> concat_addresses(v).subrange(32 * k, 32 * k + 32) == (#[trigger] v[k])@,
    decreases v.len(),
{
    if v.len() > 0 {
        let init = v.drop_last();
        lemma_concat_addresses(init);
        let c = concat_addresses(v);
        assert(c == concat_addresses(init) + v.last()@);
        assert forall|k: int| 0 <= k < v.len() implies c.subrange(32 * k, 32 * k + 32) == (#[trigger] v[k])@ by {
            if k < v.len() - 1 {
                assert(c.subrange(32 * k, 32 * k + 32) =~= concat_addresses(init).subrange(32 * k, 32 * k + 32));
                assert(init[k] == v[k]);
            } else {
                assert(c.subrange(32 * k, 32 * k + 32) =~= v.last()@);
            }
        }
    }
}

/// The addresses read back from the checkpoint bytes of a list are that list:
/// a set written and read again is the same set.
pub proof fn lemma_checkpoint_round_trip(v: Seq<Address>, w: Seq<Address>)
    requires
        v.len() < 0x1_0000_0000_0000_0000,
        checkpoint_is_whole(checkpoint_encoding(v)) ==> checkpoint_decodes_to(checkpoint_encoding(v), w),
    ensures
        checkpoint_is_whole(checkpoint_encoding(v)),
        w == v,
{
    broadcast use vstd::array::group_array_axioms;
    let b = checkpoint_encoding(v);
    lemma_concat_addresses(v);
    assert(b.subrange(0, 8) =~= le_u64_bytes(v.len()));
    lemma_le_u64_bytes(v.len(), b);
    assert forall|k: int| 0 <= k < v.len() implies w[k] == v[k] by {
        assert(b.subrange(8 + 32 * k, 8 + 32 * k + 32) =~= concat_addresses(v).subrange(32 * k, 32 * k + 32));
        assert(w[k]@ == v[k]@);
        assert(w[k] =~= v[k]);
    }
    assert(w =~= v);
}

impl PublishedSet {
    #[verifier::type_invariant]
    spec fn inv(self) -> bool {
        strictly_sorted(self.addrs@)
    }

    /// The empty set.
    pub fn new() -> (r: PublishedSet)
        ensures
            r@ == Set::<Address>::empty(),
    {
        let r = PublishedSet { addrs: Vec::new() };
        assert(r@ =~= Set::<Address>::empty());
        r
    }

    /// The set of the given addresses.
    pub fn from_addresses(v: Vec<Address>) -> (r: PublishedSet)
        ensures
            r@ == v@.to_set(),
    {
        let mut v = v;
        let ghost given = v@;
        sort_addresses(&mut v);
        proof {
            assert(v@.to_set() =~= given.to_set()) by {
                assert forall|a: Address| v@.to_set().contains(a) <==> given.to_set().contains(a) by {
                    v@.to_multiset_ensures();
                    given.to_multiset_ensures();
                    assert(v@.contains(a) <==> v@.to_multiset().count(a) > 0);
                    assert(given.contains(a) <==> given.to_multiset().count(a) > 0);
                }
            }
        }
        let addrs = dedup_sorted(&v);
        PublishedSet { addrs }
    }

    /// Whether the address is in the set.
    pub fn contains(&self, a: &Address) -> (r: bool)
        ensures
            r == self@.contains(*a),
    {
        proof {
            use_type_invariant(self);
        }
        let mut lo: usize = 0;
        let mut hi: usize = self.addrs.len();
        while lo < hi
            invariant
                0 <= lo <= hi <= self.addrs@.len(),
                strictly_sorted(self.addrs@),
                forall|k: int| 0 <= k < lo ==> lex_lt((#[trigger] self.addrs@[k])@, a@),
                forall|k: int| hi <= k < self.addrs@.len() ==> lex_lt(a@, (#[trigger] self.addrs@[k])@),
            decreases hi - lo,
        {
            let mid = lo + (hi - lo) / 2;
            match compare_addresses(&self.addrs[mid], a) {
                AddressOrder::Equal => {
                    assert(self.addrs@.to_set().contains(self.addrs@[mid as int]));
                    return true;
                },
                AddressOrder::Less => {
                    assert forall|k: int| 0 <= k < mid + 1 implies lex_lt((#[trigger] self.addrs@[k])@, a@) by {
                        if k < mid {
                            lemma_lex_lt_le(self.addrs@[k]@, self.addrs@[mid as int]@, a@);
                        }
                    }
                    lo = mid + 1;
                },
                AddressOrder::Greater => {
                    assert forall|k: int| mid <= k < self.addrs@.len() implies lex_lt(a@, (#[trigger] self.addrs@[k])@) by {
                        if k > mid {
                            lemma_lex_lt_le(a@, self.addrs@[mid as int]@, self.addrs@[k]@);
                        }
                    }
                    hi = mid;
                },
            }
        }
        proof {
            if self.addrs@.to_set().contains(*a) {
                let k = choose|k: int| 0 <= k < self.addrs@.len() && self.addrs@[k] == *a;
                lemma_lex_lt_irreflexive(a@);
                if k < lo {
                    assert(lex_lt(self.addrs@[k]@, a@));
                } else {
                    assert(lex_lt(a@, self.addrs@[k]@));
                }
            }
        }
        false
    }

    /// The number of addresses in the set.
    pub fn len(&self) -> (r: usize)
        ensures
            r == self@.len(),
    {
        proof {
            use_type_invariant(self);
            lemma_strictly_sorted_no_duplicates(self.addrs@);
            self.addrs@.unique_seq_to_set();
        }
        self.addrs.len()
    }

    /// The addresses of the set, ascending.
    pub fn addresses(&self) -> (r: Vec<Address>)
        ensures
            r@.to_set() == self@,
            r@.no_duplicates(),
            strictly_sorted(r@),
    {
        proof {
            use_type_invariant(self);
            lemma_strictly_sorted_no_duplicates(self.addrs@);
        }
        let mut out: Vec<Address> = Vec::new();
        let mut i: usize = 0;
        while i < self.addrs.len()
            invariant
                0 <= i <= self.addrs@.len(),
                out@ == self.addrs@.subrange(0, i as int),
            decreases self.addrs@.len() - i,
        {
            out.push(self.addrs[i]);
            i = i + 1;
            assert(out@ =~= self.addrs@.subrange(0, i as int));
        }
        assert(out@ =~= self.addrs@);
        out
    }

    /// Adds the address of every record.
    pub fn extend_with(&mut self, records: &[PdaSqlite])
        ensures
            final(self)@ == old(self)@.union(address_set(records@)),
    {
        let mut all = self.addresses();
        let ghost mine = all@;
        let mut i: usize = 0;
        while i < records.len()
            invariant
                0 <= i <= records@.len(),
                all@ == mine + records@.subrange(0, i as int).map_values(|r: PdaSqlite| r.pda),
            decreases records@.len() - i,
        {
            all.push(records[i].pda);
            i = i + 1;
            assert(all@ =~= mine + records@.subrange(0, i as int).map_values(|r: PdaSqlite| r.pda));
        }
        assert(records@.subrange(0, records@.len() as int) =~= records@);
        let ghost pdas = records@.map_values(|r: PdaSqlite| r.pda);
        assert(all@.to_set() =~= mine.to_set().union(pdas.to_set())) by {
            assert forall|a: Address| all@.to_set().contains(a) <==> mine.to_set().union(pdas.to_set()).contains(a) by {
                if all@.contains(a) {
                    let k = choose|k: int| 0 <= k < all@.len() && all@[k] == a;
                    if k >= mine.len() {
                        assert(pdas[k - mine.len()] == a);
                    }
                }
                if mine.contains(a) {
                    let k = choose|k: int| 0 <= k < mine.len() && mine[k] == a;
                    assert(all@[k] == a);
                }
                if pdas.contains(a) {
                    let k = choose|k: int| 0 <= k < pdas.len() && pdas[k] == a;
                    assert(all@[mine.len() + k] == a);
                }
            }
        }
        *self = PublishedSet::from_addresses(all);
    }

    /// Reads a checkpoint file. A file that holds fewer addresses than its
    /// count announces is treated as empty.
    pub fn from_checkpoint_bytes(bytes: &[u8]) -> (r: PublishedSet)
        ensures
            !checkpoint_is_whole(bytes@) ==> r@ == Set::<Address>::empty(),
            checkpoint_is_whole(bytes@) ==> exists|v: Seq<Address>|
                checkpoint_decodes_to(bytes@, v) && r@ == v.to_set(),
    {
        match decode_addresses(bytes) {
            Some(v) => {
                let ghost decoded = v@;
                let r = PublishedSet::from_addresses(v);
                assert(checkpoint_decodes_to(bytes@, decoded) && r@ == decoded.to_set());
                r
            },
            None => PublishedSet::new(),
        }
    }

    /// The checkpoint file of this set, its addresses ascending.
    pub fn to_checkpoint_bytes(&self) -> (r: Vec<u8>)
        ensures
            exists|v: Seq<Address>|
                v.to_set() == self@ && v.no_duplicates() && strictly_sorted(v) && v.len()
                    < 0x1_0000_0000_0000_0000 && r@ == checkpoint_encoding(v),
    {
        let addrs = self.addresses();
        let count = addrs.len();
        assert(count == addrs@.len());
        let r = encode_addresses(&addrs);
        assert(addrs@.to_set() == self@ && addrs@.no_duplicates() && strictly_sorted(addrs@)
            && addrs@.len() < 0x1_0000_0000_0000_0000);
        r
    }
}

} // verus!
