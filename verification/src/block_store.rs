//! The rules of the block store: which column families it writes when a
//! block is put, and what the reads of `has_cid`, `has_block`, `get_cid` and
//! `get_block` give back.
//!
//! The store keeps three key-value column families, all keyed by the bytes
//! of a multihash: the default family and the `Cid` family map the multihash
//! of every link seen so far to the bytes of its cid, the `Block` family maps
//! the multihash of every stored block to its data.
//!
//! A store is modelled as a map from (column family, key) to value; the
//! functions here decide what to write and read, and the laws at the end
//! state what a read gives back after a write.
use vstd::prelude::*;

verus! {

/// The named column families of the store.
#[derive(Eq, Hash, PartialEq, Clone, Copy, Debug, Structural)]
pub enum CloumnNames {
    Cid,
    Block,
}

/// The name a column family is created with.
pub open spec fn column_name(c: CloumnNames) -> Seq<char> {
    match c {
        CloumnNames::Cid => "Cid"@,
        CloumnNames::Block => "Block"@,
    }
}

impl CloumnNames {
    /// The name the column family is created with.
    pub fn as_str(&self) -> (r: &'static str)
        ensures
            r@ == column_name(*self),
    {
        match self {
            CloumnNames::Cid => {
                proof {
                    reveal_strlit("Cid");
                }
                "Cid"
            },
            CloumnNames::Block => {
                proof {
                    reveal_strlit("Block");
                }
                "Block"
            },
        }
    }
}

/// A column family of the store: `None` is the default family.
pub type Column = Option<CloumnNames>;

/// The contents of a store: each (column family, key) with its value.
pub type StoreModel = Map<(Column, Seq<u8>), Seq<u8>>;

/// One write: `value` is stored under `key` in `column`.
pub struct CfPut {
    pub column: Column,
    pub key: Vec<u8>,
    pub value: Vec<u8>,
}

/// A write as plain values.
pub type PutView = (Column, Seq<u8>, Seq<u8>);

impl View for CfPut {
    type V = PutView;

    open spec fn view(&self) -> PutView {
        (self.column, self.key@, self.value@)
    }
}

/// The store after performing `puts` in order; a later write to a key
/// replaces an earlier one.
pub open spec fn apply_puts(s: StoreModel, puts: Seq<PutView>) -> StoreModel
    decreases puts.len(),
{
    if puts.len() == 0 {
        s
    } else {
        let last = puts.last();
        apply_puts(s, puts.drop_last()).insert((last.0, last.1), last.2)
    }
}

/// A link of a block: the multihash of the linked cid (`key`) and the bytes
/// of the cid itself.
pub struct BlockLink {
    pub key: Vec<u8>,
    pub cid: Vec<u8>,
}

/// A block ready to be stored: the multihash of its cid (`key`), its data,
/// and its links in the order its codec lists them.
pub struct PreparedBlock {
    pub key: Vec<u8>,
    pub data: Vec<u8>,
    pub links: Vec<BlockLink>,
}

/// A link as plain values: (multihash, cid).
pub type LinkView = (Seq<u8>, Seq<u8>);

/// A prepared block as plain values.
pub struct PreparedView {
    pub key: Seq<u8>,
    pub data: Seq<u8>,
    pub links: Seq<LinkView>,
}

impl View for BlockLink {
    type V = LinkView;

    open spec fn view(&self) -> LinkView {
        (self.key@, self.cid@)
    }
}

impl View for PreparedBlock {
    type V = PreparedView;

    open spec fn view(&self) -> PreparedView {
        PreparedView {
            key: self.key@,
            data: self.data@,
            links: self.links@.map_values(|l: BlockLink| l@),
        }
    }
}

/// The writes that record the links of a block: for each link, in order,
/// its cid under its multihash in the default family and in the `Cid` family.
pub open spec fn link_puts(links: Seq<LinkView>) -> Seq<PutView>
    decreases links.len(),
{
    if links.len() == 0 {
        Seq::empty()
    } else {
        let l = links.last();
        link_puts(links.drop_last()) + seq![
            (None, l.0, l.1),
            (Some(CloumnNames::Cid), l.0, l.1),
        ]
    }
}

/// The writes that store a block: its links, then its data under its
/// multihash in the `Block` family.
pub open spec fn block_puts(b: PreparedView) -> Seq<PutView> {
    link_puts(b.links).push((Some(CloumnNames::Block), b.key, b.data))
}

/// The writes of `put_block`: nothing if the block is stored already,
/// otherwise those of `block_puts`.
pub open spec fn put_block_puts(block_exists: bool, b: PreparedView) -> Seq<PutView> {
    if block_exists {
        Seq::empty()
    } else {
        block_puts(b)
    }
}

/// Whether the store holds the data of the block whose cid has multihash `key`.
pub open spec fn spec_has_block(s: StoreModel, key: Seq<u8>) -> bool {
    s.dom().contains((Some(CloumnNames::Block), key))
}

/// Whether the store knows the cid with multihash `key`: as a link of a
/// stored block, or as a stored block itself.
pub open spec fn spec_has_cid(s: StoreModel, key: Seq<u8>) -> bool {
    s.dom().contains((Some(CloumnNames::Cid), key)) || spec_has_block(s, key)
}

/// What a read of `key` in `column` gives back.
pub open spec fn spec_get(s: StoreModel, column: Column, key: Seq<u8>) -> Option<Seq<u8>> {
    if s.dom().contains((column, key)) {
        Some(s[(column, key)])
    } else {
        None
    }
}

/// What `get_block` gives back: the data stored under `key` in the `Block` family.
pub open spec fn spec_get_block(s: StoreModel, key: Seq<u8>) -> Option<Seq<u8>> {
    spec_get(s, Some(CloumnNames::Block), key)
}

/// What `get_cid` gives back: the cid bytes stored under `key` in the `Cid` family.
pub open spec fn spec_get_cid(s: StoreModel, key: Seq<u8>) -> Option<Seq<u8>> {
    spec_get(s, Some(CloumnNames::Cid), key)
}

/// The cid of the last link in `links` with multihash `key`, if any.
pub open spec fn last_link_cid(links: Seq<LinkView>, key: Seq<u8>) -> Option<Seq<u8>>
    decreases links.len(),
{
    if links.len() == 0 {
        None
    } else if links.last().0 == key {
        Some(links.last().1)
    } else {
        last_link_cid(links.drop_last(), key)
    }
}

/// The store after `put_block` of `b` on `s`.
pub open spec fn after_put_block(s: StoreModel, b: PreparedView) -> StoreModel {
    apply_puts(s, put_block_puts(spec_has_block(s, b.key), b))
}

/// Copies a byte vector.
pub(crate) fn copy_bytes(v: &Vec<u8>) -> (r: Vec<u8>)
    ensures
        r@ == v@,
{
    let mut r: Vec<u8> = Vec::new();
    let mut i: usize = 0;
    while i < v.len()
        invariant
            i <= v@.len(),
            r@ == v@.subrange(0, i as int),
        decreases v@.len() - i,
    {
        r.push(v[i]);
        i += 1;
        assert(r@ =~= v@.subrange(0, i as int));
    }
    assert(r@ =~= v@);
    r
}

/// The writes that `put_block` performs for `block`, given whether the
/// store already holds its data: none if it does; otherwise, for each link
/// in order, its cid under its multihash in the default and the `Cid`
/// family, and last the block's data under its multihash in the `Block`
/// family.
pub fn put_block_writes(block_exists: bool, block: &PreparedBlock) -> (r: Vec<CfPut>)
    ensures
        r@.map_values(|p: CfPut| p@) == put_block_puts(block_exists, block@),
{
    let mut puts: Vec<CfPut> = Vec::new();
    if block_exists {
        assert(puts@.map_values(|p: CfPut| p@) =~= Seq::<PutView>::empty());
        return puts;
    }
    let ghost links = block@.links;
    let mut i: usize = 0;
    while i < block.links.len()
        invariant
            i <= block.links@.len(),
            links == block@.links,
            puts@.map_values(|p: CfPut| p@) == link_puts(links.subrange(0, i as int)),
        decreases block.links@.len() - i,
    {
        let link = &block.links[i];
        puts.push(CfPut { column: None, key: copy_bytes(&link.key), value: copy_bytes(&link.cid) });
        puts.push(
            CfPut {
                column: Some(CloumnNames::Cid),
                key: copy_bytes(&link.key),
                value: copy_bytes(&link.cid),
            },
        );
        proof {
            let sub = links.subrange(0, i + 1);
            assert(sub.drop_last() =~= links.subrange(0, i as int));
            assert(sub.last() == link@);
            assert(puts@.map_values(|p: CfPut| p@) =~= link_puts(sub));
        }
        i += 1;
    }
    assert(links.subrange(0, links.len() as int) =~= links);
    puts.push(
        CfPut {
            column: Some(CloumnNames::Block),
            key: copy_bytes(&block.key),
            value: copy_bytes(&block.data),
        },
    );
    assert(puts@.map_values(|p: CfPut| p@) =~= block_puts(block@));
    puts
}

/// The answer of `has_cid`, from whether the `Cid` family and the `Block`
/// family hold the key.
pub fn cid_known(in_cid_column: bool, in_block_column: bool) -> (r: bool)
    ensures
        r == (in_cid_column || in_block_column),
{
    in_cid_column || in_block_column
}

// ---------------------------------------------------------------------
// Laws
// ---------------------------------------------------------------------

proof fn lemma_link_puts_facts(s: StoreModel, links: Seq<LinkView>)
    ensures
        forall|e: (Column, Seq<u8>)|
            s.dom().contains(e) ==> #[trigger] apply_puts(s, link_puts(links)).dom().contains(e),
        forall|e: (Column, Seq<u8>)|
            s.dom().contains(e) && e.0 != None::<CloumnNames> && e.0 != Some(CloumnNames::Cid)
                ==> #[trigger] apply_puts(s, link_puts(links))[e] == s[e],
        forall|e: (Column, Seq<u8>)|
            !s.dom().contains(e) && e.0 != None::<CloumnNames> && e.0 != Some(CloumnNames::Cid)
                ==> !#[trigger] apply_puts(s, link_puts(links)).dom().contains(e),
        forall|k: Seq<u8>|
            #[trigger] last_link_cid(links, k) is Some ==> {
                &&& apply_puts(s, link_puts(links)).dom().contains((Some(CloumnNames::Cid), k))
                &&& apply_puts(s, link_puts(links))[(Some(CloumnNames::Cid), k)]
                    == last_link_cid(links, k)->Some_0
                &&& apply_puts(s, link_puts(links)).dom().contains((None, k))
                &&& apply_puts(s, link_puts(links))[(None, k)] == last_link_cid(links, k)->Some_0
            },
        forall|k: Seq<u8>|
            #[trigger] last_link_cid(links, k) is None ==> {
                &&& apply_puts(s, link_puts(links)).dom().contains((Some(CloumnNames::Cid), k))
                    == s.dom().contains((Some(CloumnNames::Cid), k))
                &&& apply_puts(s, link_puts(links))[(Some(CloumnNames::Cid), k)] == s[(
                    Some(CloumnNames::Cid),
                    k,
                )]
                &&& apply_puts(s, link_puts(links)).dom().contains((None, k)) == s.dom().contains(
                    (None, k),
                )
                &&& apply_puts(s, link_puts(links))[(None, k)] == s[(None, k)]
            },
    decreases links.len(),
{
    if links.len() > 0 {
        let prev = links.drop_last();
        let l = links.last();
        lemma_link_puts_facts(s, prev);
        let p = link_puts(prev);
        let a = seq![(None, l.0, l.1), (Some(CloumnNames::Cid), l.0, l.1)];
        let all = link_puts(links);
        assert(all == p + a);
        assert((p + a).drop_last() =~= p.push((None, l.0, l.1)));
        assert(p.push((None, l.0, l.1)).drop_last() =~= p);
        let s1 = apply_puts(s, p);
        assert(apply_puts(s, p.push((None, l.0, l.1))) == s1.insert((None, l.0), l.1));
        assert(apply_puts(s, all) == s1.insert((None, l.0), l.1).insert(
            (Some(CloumnNames::Cid), l.0),
            l.1,
        ));
        assert forall|k: Seq<u8>| #[trigger] last_link_cid(links, k) is Some implies {
            &&& apply_puts(s, link_puts(links)).dom().contains((Some(CloumnNames::Cid), k))
            &&& apply_puts(s, link_puts(links))[(Some(CloumnNames::Cid), k)] == last_link_cid(
                links,
                k,
            )->Some_0
            &&& apply_puts(s, link_puts(links)).dom().contains((None, k))
            &&& apply_puts(s, link_puts(links))[(None, k)] == last_link_cid(links, k)->Some_0
        } by {
            if k != l.0 {
                assert(last_link_cid(prev, k) is Some);
            }
        }
        assert forall|k: Seq<u8>| #[trigger] last_link_cid(links, k) is None implies {
            &&& apply_puts(s, link_puts(links)).dom().contains((Some(CloumnNames::Cid), k))
                == s.dom().contains((Some(CloumnNames::Cid), k))
            &&& apply_puts(s, link_puts(links))[(Some(CloumnNames::Cid), k)] == s[(
                Some(CloumnNames::Cid),
                k,
            )]
            &&& apply_puts(s, link_puts(links)).dom().contains((None, k)) == s.dom().contains(
                (None, k),
            )
            &&& apply_puts(s, link_puts(links))[(None, k)] == s[(None, k)]
        } by {
            assert(k != l.0);
            assert(last_link_cid(prev, k) is None);
        }
    }
}

proof fn lemma_after_put_block(s: StoreModel, b: PreparedView)
    requires
        !spec_has_block(s, b.key),
    ensures
        after_put_block(s, b) == apply_puts(s, link_puts(b.links)).insert(
            (Some(CloumnNames::Block), b.key),
            b.data,
        ),
{
    let puts = block_puts(b);
    assert(puts.drop_last() =~= link_puts(b.links));
}

/// Putting a block that the store does not hold yet stores its data: a
/// later `has_block` and `has_cid` of its multihash answer `true`, and
/// `get_block` gives back its data.
pub proof fn law_put_then_get_block(s: StoreModel, b: PreparedView)
    requires
        !spec_has_block(s, b.key),
    ensures
        spec_has_block(after_put_block(s, b), b.key),
        spec_has_cid(after_put_block(s, b), b.key),
        spec_get_block(after_put_block(s, b), b.key) == Some(b.data),
{
    lemma_after_put_block(s, b);
}

/// After putting a block, `has_block` and `has_cid` of its multihash
/// answer `true` and `get_block` gives back its data, whether or not the
/// store held the block before, as long as what the store held under its
/// multihash, if anything, is this data (as in a store whose data is
/// addressed by its hash).
pub proof fn law_put_then_get_block_any(s: StoreModel, b: PreparedView)
    requires
        spec_get_block(s, b.key) is None || spec_get_block(s, b.key) == Some(b.data),
    ensures
        spec_has_block(after_put_block(s, b), b.key),
        spec_has_cid(after_put_block(s, b), b.key),
        spec_get_block(after_put_block(s, b), b.key) == Some(b.data),
{
    if !spec_has_block(s, b.key) {
        law_put_then_get_block(s, b);
    }
}

/// Putting a block records each of its links: a later `has_cid` of a link's
/// multihash answers `true`, and `get_cid` gives back the cid of the last
/// link with that multihash, whether or not the store held it before.
pub proof fn law_put_then_get_links(s: StoreModel, b: PreparedView, k: Seq<u8>)
    requires
        !spec_has_block(s, b.key),
        last_link_cid(b.links, k) is Some,
    ensures
        spec_has_cid(after_put_block(s, b), k),
        spec_get_cid(after_put_block(s, b), k) == last_link_cid(b.links, k),
        spec_get(after_put_block(s, b), None, k) == last_link_cid(b.links, k),
{
    lemma_after_put_block(s, b);
    lemma_link_puts_facts(s, b.links);
}

/// Putting a block that the store already holds changes nothing: in
/// particular, putting the same block twice leaves the store as putting it
/// once.
pub proof fn law_put_existing_is_noop(s: StoreModel, b: PreparedView)
    requires
        spec_has_block(s, b.key),
    ensures
        after_put_block(s, b) == s,
{
}

/// Putting a block twice leaves the store as putting it once.
pub proof fn law_put_block_idempotent(s: StoreModel, b: PreparedView)
    ensures
        after_put_block(after_put_block(s, b), b) == after_put_block(s, b),
{
    if !spec_has_block(s, b.key) {
        law_put_then_get_block(s, b);
    }
}

/// Putting a block never removes anything: every (family, key) the store
/// held is still held, and every entry of the `Block` family keeps its
/// value, so the data of a block, once stored, never changes.
pub proof fn law_put_block_keeps_entries(s: StoreModel, b: PreparedView, e: (Column, Seq<u8>))
    requires
        s.dom().contains(e),
    ensures
        after_put_block(s, b).dom().contains(e),
        e.0 == Some(CloumnNames::Block) ==> after_put_block(s, b)[e] == s[e],
{
    if !spec_has_block(s, b.key) {
        lemma_after_put_block(s, b);
        lemma_link_puts_facts(s, b.links);
    }
}

/// Putting a block makes no other block appear: `has_block` of any other
/// multihash answers as before.
pub proof fn law_put_block_adds_one_block(s: StoreModel, b: PreparedView, k: Seq<u8>)
    requires
        k != b.key,
    ensures
        spec_has_block(after_put_block(s, b), k) == spec_has_block(s, k),
{
    if !spec_has_block(s, b.key) {
        lemma_after_put_block(s, b);
        lemma_link_puts_facts(s, b.links);
    }
}

/// A store that holds the data of a block knows its cid.
pub proof fn law_has_block_implies_has_cid(s: StoreModel, key: Seq<u8>)
    requires
        spec_has_block(s, key),
    ensures
        spec_has_cid(s, key),
{
}

} // verus!
