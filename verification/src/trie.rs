//! The parts of the state trie that are the project's own: key spaces for
//! child tries, and the ordering of a batch of changes before it is applied
//! to a trie.
use vstd::prelude::*;
use std::marker::PhantomData;

verus! {

/// A key prefix of the trie database: the prefix bytes and an optional
/// padded half byte.
pub type PrefixView = (Seq<u8>, Option<u8>);

/// Joins a key space and a prefix into the prefix used in the underlying
/// database: the key space bytes, then the prefix bytes, and the same half
/// byte.
pub fn keyspace_as_prefix_alloc(ks: &[u8], prefix: (&[u8], Option<u8>)) -> (r: (Vec<u8>, Option<u8>))
    ensures
        r.0@ == ks@ + prefix.0@,
        r.1 == prefix.1,
{
    let mut result: Vec<u8> = Vec::new();
    let mut i: usize = 0;
    while i < ks.len()
        invariant
            i <= ks@.len(),
            result@ == ks@.subrange(0, i as int),
        decreases ks@.len() - i,
    {
        result.push(ks[i]);
        i += 1;
        assert(result@ =~= ks@.subrange(0, i as int));
    }
    let mut j: usize = 0;
    while j < prefix.0.len()
        invariant
            j <= prefix.0@.len(),
            result@ == ks@ + prefix.0@.subrange(0, j as int),
        decreases prefix.0@.len() - j,
    {
        result.push(prefix.0[j]);
        j += 1;
        assert(result@ =~= ks@ + prefix.0@.subrange(0, j as int));
    }
    assert(result@ =~= ks@ + prefix.0@);
    (result, prefix.1)
}

/// A read-only database seen through a key space: every prefix it is asked
/// for is looked up with the key space in front.
pub struct KeySpacedDB<'a, DB: ?Sized, H>(&'a DB, &'a [u8], PhantomData<H>);

impl<'a, DB: ?Sized, H> KeySpacedDB<'a, DB, H> {
    /// The key space.
    pub closed spec fn spec_keyspace(&self) -> Seq<u8> {
        self.1@
    }

    /// The underlying database.
    pub closed spec fn spec_db(&self) -> &'a DB {
        self.0
    }

    /// instantiate new keyspaced db
    pub fn new(db: &'a DB, ks: &'a [u8]) -> (r: Self)
        ensures
            r.spec_keyspace() == ks@,
            r.spec_db() == db,
    {
        KeySpacedDB(db, ks, PhantomData)
    }

    /// The underlying database.
    pub fn db(&self) -> (r: &'a DB)
        ensures
            r == self.spec_db(),
    {
        self.0
    }

    /// The prefix that a lookup under `prefix` uses in the underlying
    /// database.
    pub fn derive_prefix(&self, prefix: (&[u8], Option<u8>)) -> (r: (Vec<u8>, Option<u8>))
        ensures
            r.0@ == self.spec_keyspace() + prefix.0@,
            r.1 == prefix.1,
    {
        keyspace_as_prefix_alloc(self.1, prefix)
    }
}

/// A writable database seen through a key space: every prefix it is asked
/// for is used with the key space in front.
pub struct KeySpacedDBMut<'a, DB: ?Sized, H>(&'a mut DB, &'a [u8], PhantomData<H>);

impl<'a, DB: ?Sized, H> KeySpacedDBMut<'a, DB, H> {
    /// The key space.
    pub closed spec fn spec_keyspace(&self) -> Seq<u8> {
        self.1@
    }

    /// instantiate new keyspaced db
    pub fn new(db: &'a mut DB, ks: &'a [u8]) -> (r: Self)
        ensures
            r.spec_keyspace() == ks@,
    {
        KeySpacedDBMut(db, ks, PhantomData)
    }

    /// The underlying database and the key space.
    pub fn into_parts(self) -> (r: (&'a mut DB, &'a [u8]))
        ensures
            r.1@ == self.spec_keyspace(),
    {
        (self.0, self.1)
    }

    /// The prefix that an operation under `prefix` uses in the underlying
    /// database.
    pub fn derive_prefix(&self, prefix: (&[u8], Option<u8>)) -> (r: (Vec<u8>, Option<u8>))
        ensures
            r.0@ == self.spec_keyspace() + prefix.0@,
            r.1 == prefix.1,
    {
        keyspace_as_prefix_alloc(self.1, prefix)
    }
}

/// The trie layout of the chain (no extension nodes, empty tries allowed,
/// values up to 30000 bytes stored inline).
pub struct LayoutV0<H>(PhantomData<H>);

/// Whether the trie layout uses extension nodes.
pub const USE_EXTENSION: bool = false;

/// Whether the trie layout allows an empty trie.
pub const ALLOW_EMPTY: bool = true;

/// The largest value, in bytes, that the trie layout stores inline.
pub const MAX_INLINE_VALUE: u32 = 30000;

/// The `len` bytes of `n`, least significant first.
pub open spec fn le_bytes(n: nat, len: nat) -> Seq<u8> {
    Seq::new(len, |i: int| ((n as int / crate::account::pow256(i)) % 256) as u8)
}

/// The SCALE compact encoding of `n`: below 2^6 one byte `n << 2`; below
/// 2^14 two little-endian bytes of `(n << 2) | 1`; below 2^30 four
/// little-endian bytes of `(n << 2) | 2`; otherwise the byte 3 followed by
/// the four little-endian bytes of `n`.
pub open spec fn scale_compact_u32(n: u32) -> Seq<u8> {
    if n < 0x40 {
        seq![(n * 4) as u8]
    } else if n < 0x4000 {
        le_bytes((n * 4 + 1) as nat, 2)
    } else if n < 0x4000_0000 {
        le_bytes((n * 4 + 2) as nat, 4)
    } else {
        seq![3u8] + le_bytes(n as nat, 4)
    }
}

/// Calls parity-scale-codec `Encode::encode` on `Compact(n)`. Claims what
/// its source shows: the compact encoding of a `u32`, in its four modes.
#[verifier::external_body]
fn compact_encode_u32(n: u32) -> (r: Vec<u8>)
    ensures
        r@ == scale_compact_u32(n),
{
    parity_scale_codec::Encode::encode(&parity_scale_codec::Compact(n))
}

impl<H> LayoutV0<H> {
    /// The encoding of an index as a trie key: its SCALE compact encoding.
    pub fn encode_index(input: u32) -> (r: Vec<u8>)
        ensures
            r@ == scale_compact_u32(input),
    {
        compact_encode_u32(input)
    }
}

// ---------------------------------------------------------------------
// Ordering a batch of changes
// ---------------------------------------------------------------------

/// A change to a trie: set the key to a value, or remove it (`None`).
pub type DeltaChange = (Vec<u8>, Option<Vec<u8>>);

/// Lexicographic order of byte strings, as Rust orders byte slices: the
/// first differing byte decides, and a proper prefix comes first.
pub open spec fn lex_le(a: Seq<u8>, b: Seq<u8>) -> bool
    decreases a.len(),
{
    if a.len() == 0 {
        true
    } else if b.len() == 0 {
        false
    } else if a[0] < b[0] {
        true
    } else if a[0] > b[0] {
        false
    } else {
        lex_le(a.drop_first(), b.drop_first())
    }
}

/// Every byte string precedes itself.
pub proof fn lemma_lex_le_reflexive(a: Seq<u8>)
    ensures
        lex_le(a, a),
    decreases a.len(),
{
    if a.len() > 0 {
        lemma_lex_le_reflexive(a.drop_first());
    }
}

/// Of two byte strings, one precedes the other.
pub proof fn lemma_lex_le_total(a: Seq<u8>, b: Seq<u8>)
    ensures
        lex_le(a, b) || lex_le(b, a),
    decreases a.len(),
{
    if a.len() > 0 && b.len() > 0 && a[0] == b[0] {
        lemma_lex_le_total(a.drop_first(), b.drop_first());
    }
}

/// The order of byte strings is transitive.
pub proof fn lemma_lex_le_transitive(a: Seq<u8>, b: Seq<u8>, c: Seq<u8>)
    requires
        lex_le(a, b),
        lex_le(b, c),
    ensures
        lex_le(a, c),
    decreases a.len(),
{
    if a.len() > 0 && b.len() > 0 && c.len() > 0 && a[0] == b[0] && b[0] == c[0] {
        lemma_lex_le_transitive(a.drop_first(), b.drop_first(), c.drop_first());
    }
}

/// Whether `a` precedes or equals `b` in the order of byte strings.
pub fn bytes_le(a: &[u8], b: &[u8]) -> (r: bool)
    ensures
        r == lex_le(a@, b@),
{
    let mut i: usize = 0;
    assert(a@.skip(0) =~= a@);
    assert(b@.skip(0) =~= b@);
    while i < a.len() && i < b.len()
        invariant
            i <= a@.len(),
            i <= b@.len(),
            lex_le(a@, b@) == lex_le(a@.skip(i as int), b@.skip(i as int)),
        decreases a@.len() - i,
    {
        if a[i] < b[i] {
            return true;
        }
        if a[i] > b[i] {
            return false;
        }
        assert(a@.skip(i as int).drop_first() =~= a@.skip(i + 1));
        assert(b@.skip(i as int).drop_first() =~= b@.skip(i + 1));
        i += 1;
    }
    i == a.len()
}

/// The changes of `d` to key `k`, in order.
pub open spec fn changes_of(d: Seq<DeltaChange>, k: Seq<u8>) -> Seq<DeltaChange> {
    d.filter(|x: DeltaChange| x.0@ == k)
}

/// Whether the changes are ordered by key.
pub open spec fn key_sorted(d: Seq<DeltaChange>) -> bool {
    forall|i: int, j: int| 0 <= i < j < d.len() ==> lex_le(#[trigger] d[i].0@, #[trigger] d[j].0@)
}

/// Whether two batches hold the same changes to every key, in the same order.
pub open spec fn same_changes_per_key(a: Seq<DeltaChange>, b: Seq<DeltaChange>) -> bool {
    forall|k: Seq<u8>| #[trigger] changes_of(a, k) == changes_of(b, k)
}

proof fn lemma_changes_of_push(d: Seq<DeltaChange>, e: DeltaChange, k: Seq<u8>)
    ensures
        changes_of(d.push(e), k) == if e.0@ == k {
            changes_of(d, k).push(e)
        } else {
            changes_of(d, k)
        },
{
    reveal(Seq::filter);
    assert(d.push(e).drop_last() =~= d);
}

proof fn lemma_changes_of_concat(a: Seq<DeltaChange>, b: Seq<DeltaChange>, k: Seq<u8>)
    ensures
        changes_of(a + b, k) == changes_of(a, k) + changes_of(b, k),
{
    Seq::filter_distributes_over_add(a, b, |x: DeltaChange| x.0@ == k);
}

proof fn lemma_changes_of_none(d: Seq<DeltaChange>, k: Seq<u8>)
    requires
        forall|i: int| 0 <= i < d.len() ==> (#[trigger] d[i]).0@ != k,
    ensures
        changes_of(d, k) == Seq::<DeltaChange>::empty(),
    decreases d.len(),
{
    reveal(Seq::filter);
    if d.len() > 0 {
        lemma_changes_of_none(d.drop_last(), k);
    }
}

/// Orders a batch of changes by key, keeping changes to the same key in
/// the order they were given (a stable sort by the bytes of the key).
pub fn sort_delta(delta: Vec<DeltaChange>) -> (r: Vec<DeltaChange>)
    ensures
        key_sorted(r@),
        same_changes_per_key(r@, delta@),
        r@.len() == delta@.len(),
{
    let ghost orig = delta@;
    let mut rest = delta;
    let mut out: Vec<DeltaChange> = Vec::new();
    let ghost mut done: Seq<DeltaChange> = Seq::empty();
    while rest.len() > 0
        invariant
            orig == done + rest@,
            key_sorted(out@),
            out@.len() == done.len(),
            forall|k: Seq<u8>| #[trigger] changes_of(out@, k) == changes_of(done, k),
        decreases rest@.len(),
    {
        let e = rest.remove(0);
        let mut p: usize = 0;
        while p < out.len() && bytes_le(out[p].0.as_slice(), e.0.as_slice())
            invariant
                p <= out@.len(),
                forall|j: int| 0 <= j < p ==> lex_le(#[trigger] out@[j].0@, e.0@),
            decreases out@.len() - p,
        {
            p += 1;
        }
        let ghost before = out@;
        proof {
            // every change from `p` on has a key greater than `e`'s
            assert forall|j: int| p <= j < before.len() implies !lex_le(
                #[trigger] before[j].0@,
                e.0@,
            ) by {
                if lex_le(before[j].0@, e.0@) {
                    assert(!lex_le(before[p as int].0@, e.0@));
                    if j > p {
                        lemma_lex_le_transitive(before[p as int].0@, before[j].0@, e.0@);
                    }
                }
            }
        }
        out.insert(p, e);
        proof {
            let front = before.subrange(0, p as int);
            let back = before.subrange(p as int, before.len() as int);
            assert(before =~= front + back);
            assert(out@ =~= front.push(e) + back);
            assert forall|i: int, j: int| 0 <= i < j < out@.len() implies lex_le(
                #[trigger] out@[i].0@,
                #[trigger] out@[j].0@,
            ) by {
                if j < p {
                } else if j == p {
                    assert(out@[i] == before[i]);
                } else if i < p {
                    assert(out@[i] == before[i]);
                    assert(out@[j] == before[j - 1]);
                } else if i == p {
                    assert(out@[j] == before[j - 1]);
                    assert(!lex_le(before[j - 1].0@, e.0@));
                    lemma_lex_le_total(before[j - 1].0@, e.0@);
                } else {
                    assert(out@[i] == before[i - 1]);
                    assert(out@[j] == before[j - 1]);
                }
            }
            assert forall|k: Seq<u8>| #[trigger] changes_of(out@, k) == changes_of(done.push(e), k) by {
                lemma_changes_of_concat(front.push(e), back, k);
                lemma_changes_of_concat(front, back, k);
                lemma_changes_of_push(front, e, k);
                lemma_changes_of_push(done, e, k);
                if e.0@ == k {
                    assert forall|i: int| 0 <= i < back.len() implies (#[trigger] back[i]).0@ != k by {
                        assert(back[i] == before[p + i]);
                        lemma_lex_le_reflexive(e.0@);
                    }
                    lemma_changes_of_none(back, k);
                    assert(changes_of(back, k) =~= Seq::<DeltaChange>::empty());
                }
            }
            done = done.push(e);
            assert(orig =~= done + rest@);
        }
    }
    assert(done =~= orig);
    out
}

// ---------------------------------------------------------------------
// Applying a batch of changes
// ---------------------------------------------------------------------

/// The contents of a trie after applying the changes of `d` in order.
pub open spec fn apply_delta(m: Map<Seq<u8>, Seq<u8>>, d: Seq<DeltaChange>) -> Map<
    Seq<u8>,
    Seq<u8>,
>
    decreases d.len(),
{
    if d.len() == 0 {
        m
    } else {
        let c = d.last();
        let m2 = apply_delta(m, d.drop_last());
        match c.1 {
            Some(v) => m2.insert(c.0@, v@),
            None => m2.remove(c.0@),
        }
    }
}

/// What key `k` holds after changes `cs` to it, starting from `m`: the
/// last change decides, and without changes `m`'s entry stays.
pub open spec fn entry_after(m: Map<Seq<u8>, Seq<u8>>, k: Seq<u8>, cs: Seq<DeltaChange>) -> Option<
    Seq<u8>,
> {
    if cs.len() == 0 {
        if m.dom().contains(k) {
            Some(m[k])
        } else {
            None
        }
    } else {
        match cs.last().1 {
            Some(v) => Some(v@),
            None => None,
        }
    }
}

proof fn lemma_apply_delta_entry(m: Map<Seq<u8>, Seq<u8>>, d: Seq<DeltaChange>, k: Seq<u8>)
    ensures
        entry_after(m, k, changes_of(d, k)) == (if apply_delta(m, d).dom().contains(k) {
            Some(apply_delta(m, d)[k])
        } else {
            None
        }),
    decreases d.len(),
{
    if d.len() > 0 {
        let prev = d.drop_last();
        lemma_apply_delta_entry(m, prev, k);
        lemma_changes_of_push(prev, d.last(), k);
        assert(prev.push(d.last()) =~= d);
    } else {
        reveal(Seq::filter);
    }
}

/// Ordering a batch of changes by key does not change what applying it
/// gives: applying two batches with the same changes to every key, in the
/// same order, gives the same contents. In particular `sort_delta` keeps
/// what the batch does to a trie.
pub proof fn law_sorted_delta_same_result(
    m: Map<Seq<u8>, Seq<u8>>,
    a: Seq<DeltaChange>,
    b: Seq<DeltaChange>,
)
    requires
        same_changes_per_key(a, b),
    ensures
        apply_delta(m, a) == apply_delta(m, b),
{
    assert forall|k: Seq<u8>| #[trigger] apply_delta(m, a).dom().contains(k) == apply_delta(
        m,
        b,
    ).dom().contains(k) && (apply_delta(m, a).dom().contains(k) ==> apply_delta(m, a)[k]
        == apply_delta(m, b)[k]) by {
        lemma_apply_delta_entry(m, a, k);
        lemma_apply_delta_entry(m, b, k);
        assert(changes_of(a, k) == changes_of(b, k));
    }
    assert(apply_delta(m, a) =~= apply_delta(m, b));
}

/// After applying a batch, a key holds the value of its last change in the
/// batch, or is absent if that change removes it; a key without changes
/// keeps its entry.
pub proof fn law_delta_last_change_wins(
    m: Map<Seq<u8>, Seq<u8>>,
    d: Seq<DeltaChange>,
    k: Seq<u8>,
)
    ensures
        entry_after(m, k, changes_of(d, k)) == (if apply_delta(m, d).dom().contains(k) {
            Some(apply_delta(m, d)[k])
        } else {
            None
        }),
{
    lemma_apply_delta_entry(m, d, k);
}

} // verus!
