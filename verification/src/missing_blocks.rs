//! The search for the missing descendants of a cid: the cids reachable
//! from it, through the links of blocks the store holds, whose data the
//! store does not hold. The cid itself is included when its data is
//! missing, so the search is safe to start from a cid the store does not
//! have yet.
//!
//! The search asks for one block at a time: the caller looks the asked key
//! up in the `Block` family of the store and hands the answer back, with
//! the links the store's codecs read from the data; a store with the
//! default codecs can leave the reading to the search.
use vstd::prelude::*;
use crate::block_store::{spec_get_block, StoreModel};
use crate::dag_cbor::{cbor_nesting_within, MAX_CBOR_NESTING};
use crate::ipld::{
    cid_codec, cid_multihash, default_block_references, default_refs, ipld_references, refs_view,
    store_key, DAG_CBOR,
};

verus! {

/// A reading of block data, as a store's codecs do it: for a cid and the
/// data of its block, the cids the data links to, in order; `None` if the
/// data cannot be read.
pub type Decoder = spec_fn(Seq<u8>, Seq<u8>) -> Option<Seq<Seq<u8>>>;

/// The reading of the default codecs: `default_refs`.
pub open spec fn default_decoder() -> Decoder {
    |c: Seq<u8>, d: Seq<u8>| default_refs(c, d)
}

/// What is known of one cid: `None` if the store does not hold its data;
/// otherwise its data and what the codecs read from it.
pub type Answer = Option<(Seq<u8>, Option<Seq<Seq<u8>>>)>;

/// What the search has learnt: the answer for each cid looked up.
pub type Answers = Map<Seq<u8>, Answer>;

/// The cids a block links to, from what its codecs read; none if they
/// could not read its data.
pub open spec fn read_links(refs: Option<Seq<Seq<u8>>>) -> Seq<Seq<u8>> {
    match refs {
        Some(r) => r,
        None => Seq::empty(),
    }
}

/// For each cid, `None` if it has no data; otherwise the cids its data
/// links to.
pub type LinksOf = spec_fn(Seq<u8>) -> Option<Seq<Seq<u8>>>;

/// Whether `p` has data under `g` that links to `c`.
pub open spec fn links_to(g: LinksOf, p: Seq<u8>, c: Seq<u8>) -> bool {
    match g(p) {
        Some(k) => k.contains(c),
        None => false,
    }
}

/// Whether `path` leads from `root` to `c`, each cid in it linked to by
/// the block of the one before, which has data under `g`.
pub open spec fn is_path(g: LinksOf, root: Seq<u8>, path: Seq<Seq<u8>>, c: Seq<u8>) -> bool {
    &&& path.len() > 0
    &&& path[0] == root
    &&& path.last() == c
    &&& forall|i: int| 0 <= i < path.len() - 1 ==> #[trigger] links_to(g, path[i], path[i + 1])
}

/// Whether `c` is reached from `root` through blocks that have data.
pub open spec fn reachable(g: LinksOf, root: Seq<u8>, c: Seq<u8>) -> bool {
    exists|path: Seq<Seq<u8>>| #[trigger] is_path(g, root, path, c)
}

/// The data the store `s` holds for each cid: what its `Block` family
/// holds under the multihash of the cid.
pub open spec fn stored_data(s: StoreModel) -> spec_fn(Seq<u8>) -> Option<Seq<u8>> {
    |c: Seq<u8>|
        match cid_multihash(c) {
            Some(k) => spec_get_block(s, k),
            None => None,
        }
}

/// The answer for `c` of the store `s` read with `dec`.
pub open spec fn store_answer(s: StoreModel, dec: Decoder, c: Seq<u8>) -> Answer {
    match stored_data(s)(c) {
        Some(d) => Some((d, dec(c, d))),
        None => None,
    }
}

/// The links of each cid in the store `s`, its blocks read with `dec`.
pub open spec fn store_links(s: StoreModel, dec: Decoder) -> LinksOf {
    |c: Seq<u8>|
        match stored_data(s)(c) {
            Some(d) => Some(read_links(dec(c, d))),
            None => None,
        }
}

/// The links known from answers.
pub open spec fn answered_links(a: Answers) -> LinksOf {
    |c: Seq<u8>|
        if a.dom().contains(c) {
            match a[c] {
                Some(dr) => Some(read_links(dr.1)),
                None => None,
            }
        } else {
            None
        }
}

/// Whether `c` is a missing descendant of `root` in the store `s`, its
/// blocks read with `dec`: reached from `root` through blocks the store
/// holds, without data itself.
pub open spec fn missing_descendant(s: StoreModel, dec: Decoder, root: Seq<u8>, c: Seq<u8>) -> bool {
    reachable(store_links(s, dec), root, c) && stored_data(s)(c) is None
}

/// Whether each answer is what the store `s` holds, read with `dec`.
pub open spec fn answers_agree(a: Answers, s: StoreModel, dec: Decoder) -> bool {
    forall|c: Seq<u8>| #[trigger] a.dom().contains(c) ==> a[c] == store_answer(s, dec, c)
}

/// An answer handed to the search, as plain values: the data, if any,
/// with the cids read from it.
pub open spec fn answer_view(data: Option<Vec<u8>>, refs: Option<Vec<Vec<u8>>>) -> Answer {
    match data {
        Some(d) => Some((d@, refs_view(refs))),
        None => None,
    }
}

/// An answer for the block of `cid` in a store with the default codecs.
pub open spec fn default_answer(cid: Seq<u8>, data: Option<Vec<u8>>) -> Answer {
    match data {
        Some(d) => Some((d@, default_refs(cid, d@))),
        None => None,
    }
}

proof fn lemma_reachable_mono(d1: LinksOf, d2: LinksOf, root: Seq<u8>, c: Seq<u8>)
    requires
        forall|p: Seq<u8>| #[trigger] d1(p) is Some ==> d2(p) == d1(p),
        reachable(d1, root, c),
    ensures
        reachable(d2, root, c),
{
    let path = choose|path: Seq<Seq<u8>>| #[trigger] is_path(d1, root, path, c);
    assert forall|i: int| 0 <= i < path.len() - 1 implies #[trigger] links_to(
        d2,
        path[i],
        path[i + 1],
    ) by {
        assert(links_to(d1, path[i], path[i + 1]));
        assert(d1(path[i]) is Some);
    }
    assert(is_path(d2, root, path, c));
}

proof fn lemma_reachable_root(data: LinksOf, root: Seq<u8>)
    ensures
        reachable(data, root, root),
{
    assert(is_path(data, root, seq![root], root));
}

proof fn lemma_reachable_step(data: LinksOf, root: Seq<u8>, p: Seq<u8>, c: Seq<u8>)
    requires
        reachable(data, root, p),
        links_to(data, p, c),
    ensures
        reachable(data, root, c),
{
    let path = choose|path: Seq<Seq<u8>>| #[trigger] is_path(data, root, path, p);
    let path2 = path.push(c);
    assert forall|i: int| 0 <= i < path2.len() - 1 implies #[trigger] links_to(
        data,
        path2[i],
        path2[i + 1],
    ) by {
        if i < path.len() - 1 {
            assert(links_to(data, path[i], path[i + 1]));
        }
    }
    assert(is_path(data, root, path2, c));
}

proof fn lemma_push_contains(s: Seq<Seq<u8>>, e: Seq<u8>, x: Seq<u8>)
    ensures
        s.push(e).contains(x) == (s.contains(x) || x == e),
{
    if s.contains(x) {
        let i = choose|i: int| 0 <= i < s.len() && s[i] == x;
        assert(s.push(e)[i] == x);
    }
    if x == e {
        assert(s.push(e)[s.len() as int] == x);
    }
    if s.push(e).contains(x) {
        let i = choose|i: int| 0 <= i < s.push(e).len() && s.push(e)[i] == x;
        if i < s.len() {
            assert(s[i] == x);
        }
    }
}

/// Whether a byte vector is in a list of byte vectors.
fn contains_bytes(v: &Vec<Vec<u8>>, x: &Vec<u8>) -> (r: bool)
    ensures
        r == v@.map_values(|b: Vec<u8>| b@).contains(x@),
{
    let ghost vv = v@.map_values(|b: Vec<u8>| b@);
    let mut i: usize = 0;
    while i < v.len()
        invariant
            i <= v@.len(),
            vv == v@.map_values(|b: Vec<u8>| b@),
            forall|j: int| 0 <= j < i ==> vv[j] != x@,
        decreases v@.len() - i,
    {
        if bytes_eq(&v[i], x) {
            assert(vv[i as int] == x@);
            return true;
        }
        i += 1;
    }
    false
}

/// Whether two byte vectors are equal.
fn bytes_eq(a: &Vec<u8>, b: &Vec<u8>) -> (r: bool)
    ensures
        r == (a@ == b@),
{
    if a.len() != b.len() {
        return false;
    }
    let mut i: usize = 0;
    while i < a.len()
        invariant
            a@.len() == b@.len(),
            i <= a@.len(),
            forall|j: int| 0 <= j < i ==> a@[j] == b@[j],
        decreases a@.len() - i,
    {
        if a[i] != b[i] {
            return false;
        }
        i += 1;
    }
    assert(a@ =~= b@);
    true
}

/// A search for the missing descendants of a cid, in progress.
pub struct MissingBlocks {
    root: Ghost<Seq<u8>>,
    // cids waiting to be looked up, and the keys to look them up by
    pending: Vec<Vec<u8>>,
    pending_keys: Vec<Vec<u8>>,
    // every cid met so far
    seen: Vec<Vec<u8>>,
    // the missing cids found so far
    missing: Vec<Vec<u8>>,
    answers: Ghost<Answers>,
}

impl MissingBlocks {
    pub closed spec fn pending_v(self) -> Seq<Seq<u8>> {
        self.pending@.map_values(|b: Vec<u8>| b@)
    }

    pub closed spec fn seen_v(self) -> Seq<Seq<u8>> {
        self.seen@.map_values(|b: Vec<u8>| b@)
    }

    pub closed spec fn missing_v(self) -> Seq<Seq<u8>> {
        self.missing@.map_values(|b: Vec<u8>| b@)
    }

    /// The cid the search started from.
    pub closed spec fn spec_root(self) -> Seq<u8> {
        self.root@
    }

    /// The answers handed to the search so far.
    pub closed spec fn answers(self) -> Answers {
        self.answers@
    }

    /// Whether the search still asks for a block.
    pub closed spec fn has_next(self) -> bool {
        self.pending@.len() > 0
    }

    /// The cid whose block the search asks for next.
    pub closed spec fn next_cid(self) -> Seq<u8> {
        self.pending@.last()@
    }

    /// The state of the search is consistent.
    pub closed spec fn wf(self) -> bool {
        let pend = self.pending_v();
        let seen = self.seen_v();
        let miss = self.missing_v();
        let a = self.answers@;
        let root = self.root@;
        &&& self.pending@.len() == self.pending_keys@.len()
        &&& forall|i: int|
            0 <= i < pend.len() ==> cid_multihash(#[trigger] pend[i]) == Some(
                self.pending_keys@[i]@,
            )
        &&& pend.no_duplicates()
        &&& miss.no_duplicates()
        &&& forall|c: Seq<u8>| #[trigger] pend.contains(c) ==> !a.dom().contains(c)
        &&& forall|c: Seq<u8>|
            #[trigger] a.dom().contains(c) ==> seen.contains(c) && cid_multihash(c) is Some
        &&& forall|c: Seq<u8>| #[trigger] pend.contains(c) ==> seen.contains(c)
        &&& forall|c: Seq<u8>|
            #[trigger] seen.contains(c) && cid_multihash(c) is Some ==> a.dom().contains(c)
                || pend.contains(c)
        &&& forall|c: Seq<u8>|
            #[trigger] miss.contains(c) == ((a.dom().contains(c) && a[c] is None) || (
            seen.contains(c) && cid_multihash(c) is None))
        &&& forall|c: Seq<u8>, ch: Seq<u8>|
            a.dom().contains(c) && #[trigger] links_to(answered_links(a), c, ch) ==> seen.contains(
                ch,
            )
        &&& forall|c: Seq<u8>| #[trigger] seen.contains(c) ==> reachable(answered_links(a), root, c)
        &&& seen.contains(root)
    }

    /// Starts a search from `root`.
    pub fn new(root: Vec<u8>) -> (r: Self)
        ensures
            r.wf(),
            r.spec_root() == root@,
            r.answers() == Map::<Seq<u8>, Answer>::empty(),
    {
        let ghost rv = root@;
        let mut seen: Vec<Vec<u8>> = Vec::new();
        seen.push(crate::block_store::copy_bytes(&root));
        let mut pending: Vec<Vec<u8>> = Vec::new();
        let mut pending_keys: Vec<Vec<u8>> = Vec::new();
        let mut missing: Vec<Vec<u8>> = Vec::new();
        match store_key(&root) {
            Some(k) => {
                pending.push(root);
                pending_keys.push(k);
            },
            None => {
                missing.push(root);
            },
        }
        let r = MissingBlocks {
            root: Ghost(rv),
            pending,
            pending_keys,
            seen,
            missing,
            answers: Ghost(Map::empty()),
        };
        proof {
            assert(r.seen_v() =~= seq![rv]);
            assert forall|x: Seq<u8>| #[trigger] r.seen_v().contains(x) implies x == rv by {
                lemma_push_contains(Seq::<Seq<u8>>::empty(), rv, x);
                assert(Seq::<Seq<u8>>::empty().push(rv) =~= seq![rv]);
            }
            assert(r.seen_v()[0] == rv);
            lemma_reachable_root(answered_links(r.answers@), rv);
            if cid_multihash(rv) is Some {
                assert(r.pending_v() =~= seq![rv]);
                assert(r.missing_v() =~= Seq::<Seq<u8>>::empty());
                assert forall|x: Seq<u8>| #[trigger] r.pending_v().contains(x) implies x == rv by {
                    assert(r.pending_v()[0] == rv);
                }
                assert(r.pending_v()[0] == rv);
            } else {
                assert(r.pending_v() =~= Seq::<Seq<u8>>::empty());
                assert(r.missing_v() =~= seq![rv]);
                assert forall|x: Seq<u8>| #[trigger] r.missing_v().contains(x) implies x == rv by {
                    assert(r.missing_v()[0] == rv);
                }
                assert(r.missing_v()[0] == rv);
            }
        }
        r
    }

    /// The key whose block the search asks for next, if it asks for one:
    /// the multihash of the next cid.
    pub fn next_key(&self) -> (r: Option<Vec<u8>>)
        requires
            self.wf(),
        ensures
            r is Some == self.has_next(),
            r matches Some(k) ==> cid_multihash(self.next_cid()) == Some(k@),
    {
        let n = self.pending_keys.len();
        if n == 0 {
            None
        } else {
            proof {
                assert(self.pending_v()[n - 1] == self.next_cid());
            }
            Some(crate::block_store::copy_bytes(&self.pending_keys[n - 1]))
        }
    }

    /// The cid whose block the search asks for next, if it asks for one.
    pub fn next_cid_bytes(&self) -> (r: Option<Vec<u8>>)
        requires
            self.wf(),
        ensures
            r is Some == self.has_next(),
            r matches Some(c) ==> c@ == self.next_cid(),
    {
        let n = self.pending.len();
        if n == 0 {
            None
        } else {
            Some(crate::block_store::copy_bytes(&self.pending[n - 1]))
        }
    }

    /// Hands the search the answer of a store with the default codecs for
    /// the block it asked for: its data, or `None` if the store does not
    /// hold it. The search reads the links of the data itself.
    pub fn found(&mut self, data: Option<Vec<u8>>)
        requires
            old(self).wf(),
            old(self).has_next(),
        ensures
            final(self).wf(),
            final(self).spec_root() == old(self).spec_root(),
            final(self).answers() == old(self).answers().insert(
                old(self).next_cid(),
                default_answer(old(self).next_cid(), data),
            ),
    {
        let n = self.pending.len();
        let refs = match &data {
            Some(d) => default_block_references(self.pending[n - 1].as_slice(), d.as_slice()),
            None => None,
        };
        proof {
            assert(self.pending_v()[n - 1] == self.next_cid());
            assert(answer_view(data, refs) == default_answer(self.next_cid(), data));
        }
        self.found_with_refs(data, refs);
    }

    /// Hands the search the store's answer for the block it asked for: its
    /// data, or `None` if the store does not hold it, and the cids the
    /// store's codecs read from the data (`None` if they could not read
    /// it).
    pub fn found_with_refs(&mut self, data: Option<Vec<u8>>, refs: Option<Vec<Vec<u8>>>)
        requires
            old(self).wf(),
            old(self).has_next(),
        ensures
            final(self).wf(),
            final(self).spec_root() == old(self).spec_root(),
            final(self).answers() == old(self).answers().insert(
                old(self).next_cid(),
                answer_view(data, refs),
            ),
    {
        let ghost old_a = self.answers@;
        let ghost old_pend = self.pending_v();
        let ghost old_seen = self.seen_v();
        let ghost old_miss = self.missing_v();
        let ghost root = self.root@;
        let cid = self.pending.pop().unwrap();
        let _ = self.pending_keys.pop();
        let ghost c = cid@;
        let ghost new_a = old_a.insert(c, answer_view(data, refs));
        self.answers = Ghost(new_a);
        proof {
            assert(old_pend.last() == c);
            assert(self.pending_v() =~= old_pend.drop_last());
            assert(old_pend.contains(c));
            assert forall|x: Seq<u8>| #[trigger]
                answered_links(old_a)(x) is Some implies answered_links(new_a)(x) == answered_links(
                old_a,
            )(x) by {
                assert(x != c);
            }
            assert forall|x: Seq<u8>| #[trigger] old_seen.contains(x) implies reachable(
                answered_links(new_a),
                root,
                x,
            ) by {
                lemma_reachable_mono(answered_links(old_a), answered_links(new_a), root, x);
            }
            assert(old_pend =~= self.pending_v().push(c));
            assert forall|x: Seq<u8>| #[trigger] self.pending_v().contains(x) == (old_pend.contains(x) && x != c) by {
                lemma_push_contains(self.pending_v(), c, x);
                if self.pending_v().contains(x) && x == c {
                    let i = choose|i: int| 0 <= i < self.pending_v().len() && self.pending_v()[i] == x;
                    assert(old_pend[i] == old_pend[old_pend.len() - 1]);
                }
            }
            assert forall|j: int| 0 <= j < self.pending_v().len() implies cid_multihash(
                #[trigger] self.pending_v()[j],
            ) == Some(self.pending_keys@[j]@) by {
                assert(old_pend[j] == self.pending_v()[j]);
            }
            assert(cid_multihash(c) is Some) by {
                assert(old_pend[old_pend.len() - 1] == c);
            }
            assert forall|x: Seq<u8>| #[trigger] new_a.dom().contains(x) implies old_seen.contains(x)
                && cid_multihash(x) is Some by {
                if x == c {
                    assert(old_pend.contains(c));
                }
            }
            assert forall|x: Seq<u8>| #[trigger] old_seen.contains(x) && cid_multihash(x) is Some implies
                new_a.dom().contains(x) || self.pending_v().contains(x) by {
            }
            assert forall|x: Seq<u8>| #[trigger] self.pending_v().contains(x) implies !new_a.dom().contains(x)
                && old_seen.contains(x) by {
            }
            assert forall|x: Seq<u8>, ch: Seq<u8>|
                new_a.dom().contains(x) && x != c && #[trigger] links_to(answered_links(new_a), x, ch)
                implies old_seen.contains(ch) by {
                assert(links_to(answered_links(old_a), x, ch));
            }
        }
        match data {
            None => {
                self.missing.push(cid);
                proof {
                    assert(self.missing_v() =~= old_miss.push(c));
                    assert(!old_miss.contains(c));
                    assert forall|x: Seq<u8>, ch: Seq<u8>|
                        new_a.dom().contains(x) && #[trigger] links_to(answered_links(new_a), x, ch)
                        implies self.seen_v().contains(ch) by {
                        assert(x != c);
                        assert(links_to(answered_links(old_a), x, ch));
                    }
                    assert forall|x: Seq<u8>| #[trigger]
                        self.missing_v().contains(x) == ((new_a.dom().contains(x) && new_a[x] is None)
                            || (self.seen_v().contains(x) && cid_multihash(x) is None)) by {
                        lemma_push_contains(old_miss, c, x);
                    }
                }
            },
            Some(d) => {
                let ghost given = refs_view(refs);
                let refs = match refs {
                    Some(r) => r,
                    None => Vec::new(),
                };
                let ghost kids = refs@.map_values(|b: Vec<u8>| b@);
                proof {
                    assert(kids =~= read_links(given));
                    assert(answered_links(new_a)(c) == Some(kids));
                }
                let mut i: usize = 0;
                while i < refs.len()
                    invariant
                        i <= refs@.len(),
                        kids == refs@.map_values(|b: Vec<u8>| b@),
                        answered_links(new_a)(c) == Some(kids),
                        self.answers@ == new_a,
                        self.root@ == root,
                        new_a.dom().contains(c),
                        cid_multihash(c) is Some,
                        reachable(answered_links(new_a), root, c),
                        self.pending@.len() == self.pending_keys@.len(),
                        forall|j: int|
                            0 <= j < self.pending_v().len() ==> cid_multihash(
                                #[trigger] self.pending_v()[j],
                            ) == Some(self.pending_keys@[j]@),
                        self.pending_v().no_duplicates(),
                        self.missing_v().no_duplicates(),
                        forall|x: Seq<u8>| #[trigger]
                            self.pending_v().contains(x) ==> !new_a.dom().contains(x),
                        forall|x: Seq<u8>| #[trigger]
                            new_a.dom().contains(x) ==> self.seen_v().contains(x) && cid_multihash(
                                x,
                            ) is Some,
                        forall|x: Seq<u8>| #[trigger]
                            self.pending_v().contains(x) ==> self.seen_v().contains(x),
                        forall|x: Seq<u8>| #[trigger]
                            self.seen_v().contains(x) && cid_multihash(x) is Some
                                ==> new_a.dom().contains(x) || self.pending_v().contains(x),
                        forall|x: Seq<u8>| #[trigger]
                            self.missing_v().contains(x) == ((new_a.dom().contains(x) && new_a[x] is None)
                                || (self.seen_v().contains(x) && cid_multihash(x) is None)),
                        forall|x: Seq<u8>, ch: Seq<u8>|
                            new_a.dom().contains(x) && x != c && #[trigger] links_to(
                                answered_links(new_a),
                                x,
                                ch,
                            ) ==> self.seen_v().contains(ch),
                        forall|j: int| 0 <= j < i ==> self.seen_v().contains(#[trigger] kids[j]),
                        forall|x: Seq<u8>| #[trigger]
                            self.seen_v().contains(x) ==> reachable(answered_links(new_a), root, x),
                        self.seen_v().contains(root),
                    decreases refs@.len() - i,
                {
                    let ch = &refs[i];
                    proof {
                        assert(kids[i as int] == ch@);
                        assert(kids.contains(ch@));
                        assert(links_to(answered_links(new_a), c, ch@));
                        lemma_reachable_step(answered_links(new_a), root, c, ch@);
                    }
                    if !contains_bytes(&self.seen, ch) {
                        let ghost pseen = self.seen_v();
                        let ghost ppend = self.pending_v();
                        let ghost pmiss = self.missing_v();
                        self.seen.push(crate::block_store::copy_bytes(ch));
                        proof {
                            assert(self.seen_v() =~= pseen.push(ch@));
                            assert forall|x: Seq<u8>| #[trigger] self.seen_v().contains(x) == (pseen.contains(x)
                                || x == ch@) by {
                                lemma_push_contains(pseen, ch@, x);
                            }
                        }
                        match store_key(ch.as_slice()) {
                            Some(k) => {
                                self.pending.push(crate::block_store::copy_bytes(ch));
                                self.pending_keys.push(k);
                                proof {
                                    assert(self.pending_v() =~= ppend.push(ch@));
                                    assert(!ppend.contains(ch@));
                                    assert(!new_a.dom().contains(ch@));
                                    assert forall|x: Seq<u8>| #[trigger]
                                        self.missing_v().contains(x) == ((new_a.dom().contains(x)
                                            && new_a[x] is None) || (self.seen_v().contains(x)
                                            && cid_multihash(x) is None)) by {
                                        assert(self.missing_v() == pmiss);
                                        lemma_push_contains(pseen, ch@, x);
                                    }
                                    assert forall|x: Seq<u8>| #[trigger]
                                        self.pending_v().contains(x) implies !new_a.dom().contains(x) by {
                                        lemma_push_contains(ppend, ch@, x);
                                    }
                                    assert forall|x: Seq<u8>| #[trigger]
                                        self.pending_v().contains(x) implies self.seen_v().contains(x) by {
                                        lemma_push_contains(ppend, ch@, x);
                                        lemma_push_contains(pseen, ch@, x);
                                    }
                                    assert forall|x: Seq<u8>| #[trigger]
                                        self.seen_v().contains(x) && cid_multihash(x) is Some
                                        implies new_a.dom().contains(x) || self.pending_v().contains(x) by {
                                        lemma_push_contains(ppend, ch@, x);
                                        lemma_push_contains(pseen, ch@, x);
                                    }
                                }
                            },
                            None => {
                                self.missing.push(crate::block_store::copy_bytes(ch));
                                proof {
                                    assert(self.missing_v() =~= pmiss.push(ch@));
                                    assert(!pmiss.contains(ch@));
                                    assert forall|x: Seq<u8>| #[trigger]
                                        self.missing_v().contains(x) == ((new_a.dom().contains(x)
                                            && new_a[x] is None) || (self.seen_v().contains(x)
                                            && cid_multihash(x) is None)) by {
                                        lemma_push_contains(pmiss, ch@, x);
                                        lemma_push_contains(pseen, ch@, x);
                                    }
                                    assert forall|x: Seq<u8>| #[trigger]
                                        self.seen_v().contains(x) && cid_multihash(x) is Some
                                        implies new_a.dom().contains(x) || self.pending_v().contains(x) by {
                                        lemma_push_contains(pseen, ch@, x);
                                    }
                                }
                            },
                        }
                    }
                    i += 1;
                }
                proof {
                    assert forall|x: Seq<u8>, ch: Seq<u8>|
                        new_a.dom().contains(x) && #[trigger] links_to(answered_links(new_a), x, ch)
                        implies self.seen_v().contains(ch) by {
                        if x == c {
                            let j = choose|j: int| 0 <= j < kids.len() && kids[j] == ch;
                            assert(self.seen_v().contains(kids[j]));
                        }
                    }
                }
            },
        }
    }

    /// The missing descendants found, once the search asks for nothing
    /// more: given answers that are what a store holds, its blocks read
    /// with some codecs, exactly the cids reached from the root through
    /// blocks the store holds whose own data it does not hold, each once.
    pub fn into_missing(self) -> (r: Vec<Vec<u8>>)
        requires
            self.wf(),
            !self.has_next(),
        ensures
            r@.map_values(|b: Vec<u8>| b@).no_duplicates(),
            forall|s: StoreModel, dec: Decoder|
                #[trigger] answers_agree(self.answers(), s, dec) ==> forall|c: Seq<u8>|
                    r@.map_values(|b: Vec<u8>| b@).contains(c) == #[trigger] missing_descendant(
                        s,
                        dec,
                        self.spec_root(),
                        c,
                    ),
    {
        proof {
            assert forall|s: StoreModel, dec: Decoder|
                #[trigger] answers_agree(self.answers(), s, dec) implies forall|c: Seq<u8>|
                self.missing_v().contains(c) == #[trigger] missing_descendant(
                    s,
                    dec,
                    self.spec_root(),
                    c,
                ) by {
                self.lemma_complete(s, dec);
            }
        }
        self.missing
    }

    proof fn lemma_complete(self, s: StoreModel, dec: Decoder)
        requires
            self.wf(),
            !self.has_next(),
            answers_agree(self.answers@, s, dec),
        ensures
            forall|c: Seq<u8>|
                self.missing_v().contains(c) == #[trigger] missing_descendant(s, dec, self.root@, c),
    {
        let a = self.answers@;
        let root = self.root@;
        let g = store_links(s, dec);
        assert(self.pending_v() =~= Seq::<Seq<u8>>::empty());
        assert forall|p: Seq<u8>| #[trigger]
            answered_links(a)(p) is Some implies g(p) == answered_links(a)(p) by {
            assert(a.dom().contains(p));
            assert(a[p] == store_answer(s, dec, p));
        }
        assert forall|c: Seq<u8>|
            self.missing_v().contains(c) == #[trigger] missing_descendant(s, dec, root, c) by {
            if self.missing_v().contains(c) {
                assert(self.seen_v().contains(c));
                lemma_reachable_mono(answered_links(a), g, root, c);
                if a.dom().contains(c) {
                    assert(a[c] == store_answer(s, dec, c));
                }
            }
            if missing_descendant(s, dec, root, c) {
                let path = choose|path: Seq<Seq<u8>>| #[trigger] is_path(g, root, path, c);
                self.lemma_seen_closed(s, dec, path, path.len() - 1);
            }
        }
    }

    proof fn lemma_seen_closed(self, s: StoreModel, dec: Decoder, path: Seq<Seq<u8>>, k: int)
        requires
            self.wf(),
            !self.has_next(),
            answers_agree(self.answers@, s, dec),
            path.len() > 0,
            path[0] == self.root@,
            forall|i: int|
                0 <= i < path.len() - 1 ==> #[trigger] links_to(
                    store_links(s, dec),
                    path[i],
                    path[i + 1],
                ),
            0 <= k < path.len(),
        ensures
            self.seen_v().contains(path[k]),
        decreases k,
    {
        let a = self.answers@;
        let g = store_links(s, dec);
        assert(self.pending_v() =~= Seq::<Seq<u8>>::empty());
        if k > 0 {
            self.lemma_seen_closed(s, dec, path, k - 1);
            let p = path[k - 1];
            assert(links_to(g, path[k - 1], path[(k - 1) + 1]));
            assert(g(p) is Some);
            assert(stored_data(s)(p) is Some);
            assert(cid_multihash(p) is Some);
            assert(a.dom().contains(p));
            assert(a[p] == store_answer(s, dec, p));
            assert(answered_links(a)(p) == g(p));
            assert(links_to(answered_links(a), p, path[k]));
        }
    }
}

/// A cid whose data the store does not hold is its own only missing
/// descendant: the search is safe to start from a cid the store does not
/// have, and gives back that cid, whatever codecs read the store's blocks.
pub proof fn law_missing_root_only(s: StoreModel, dec: Decoder, root: Seq<u8>, c: Seq<u8>)
    requires
        stored_data(s)(root) is None,
    ensures
        missing_descendant(s, dec, root, c) == (c == root),
{
    let g = store_links(s, dec);
    lemma_reachable_root(g, root);
    if c != root && reachable(g, root, c) {
        let path = choose|path: Seq<Seq<u8>>| #[trigger] is_path(g, root, path, c);
        assert(path.len() > 1);
        assert(links_to(g, path[0int], path[0int + 1]));
    }
}

/// A cid whose data the store holds is never among the missing
/// descendants of any cid, whatever codecs read the store's blocks.
pub proof fn law_stored_blocks_not_missing(s: StoreModel, dec: Decoder, root: Seq<u8>, c: Seq<u8>)
    requires
        stored_data(s)(c) is Some,
    ensures
        !missing_descendant(s, dec, root, c),
{
}

/// The default decoder reads what libipld's `references` reads, except
/// DAG-CBOR data nested more than `MAX_CBOR_NESTING` levels deep.
pub proof fn law_default_decoder_reads_references(c: Seq<u8>, d: Seq<u8>)
    ensures
        cid_codec(c) != Some(DAG_CBOR) ==> default_decoder()(c, d) == ipld_references(c, d),
        cbor_nesting_within(d, MAX_CBOR_NESTING as nat) ==> default_decoder()(c, d)
            == ipld_references(c, d),
{
}

/// Handing the search, with `found`, what a store holds for the cid it
/// asked for keeps its answers what the store holds, the store's blocks
/// read with the default codecs, whatever the codec of each block: so a
/// search fed by `found` from the store `s` ends with exactly the missing
/// descendants of `s` read with the default decoder (`into_missing`).
pub proof fn law_found_answers_agree_with_store(
    a: Answers,
    s: StoreModel,
    c: Seq<u8>,
    data: Option<Vec<u8>>,
)
    requires
        answers_agree(a, s, default_decoder()),
        data matches Some(d) ==> stored_data(s)(c) == Some(d@),
        data is None ==> stored_data(s)(c) is None,
    ensures
        answers_agree(a.insert(c, default_answer(c, data)), s, default_decoder()),
        data matches Some(d) ==> default_answer(c, data) == Some(
            (d@, default_decoder()(c, d@)),
        ),
{
    let b = a.insert(c, default_answer(c, data));
    assert forall|x: Seq<u8>| #[trigger] b.dom().contains(x) implies b[x] == store_answer(
        s,
        default_decoder(),
        x,
    ) by {
        if x == c {
            match data {
                Some(d) => {
                    assert(stored_data(s)(c) == Some(d@));
                },
                None => {},
            }
        }
    }
}

} // verus!
