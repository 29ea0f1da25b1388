//! IPLD blocks as the store sees them: cids, their multihashes, the links
//! a block's data holds, and the DAG-CBOR nodes of the chain.
//!
//! Cids and data are held as bytes; parsing a cid, reading the links of a
//! block, encoding a node and hashing are done by `libipld`.
use vstd::prelude::*;
use crate::block_store::{
    put_block_puts, put_block_writes, BlockLink, CfPut, LinkView, PreparedBlock, PreparedView,
};
use crate::dag_cbor::{cbor_nesting_within, dag_cbor_nesting_within, MAX_CBOR_NESTING};
use libipld::codec::Codec;
use libipld::multihash::MultihashDigest;

verus! {

/// The bytes of the multihash of the cid encoded at the start of `cid`, or
/// `None` if `cid` does not start with a cid (libipld `Cid::try_from`,
/// then `hash().to_bytes()`).
pub uninterp spec fn cid_multihash(cid: Seq<u8>) -> Option<Seq<u8>>;

/// The codec of the cid encoded at the start of `cid`, or `None` if
/// `cid` does not start with a cid (libipld `Cid::try_from`, then
/// `codec()`).
pub uninterp spec fn cid_codec(cid: Seq<u8>) -> Option<u64>;

/// The cids, as bytes, that the data of the block with cid `cid` links to,
/// in the order its codec lists them; `None` if `cid` is not a cid or the
/// data does not decode (libipld `Block::<DefaultParams>::references`).
pub uninterp spec fn ipld_references(cid: Seq<u8>, data: Seq<u8>) -> Option<Seq<Seq<u8>>>;

/// The DAG-CBOR encoding of a map with two entries: under `links_key` the
/// list of the links `links`, under `text_key` the string `text`; `None`
/// if a link is not a cid (libipld `DagCborCodec::encode` of an
/// `Ipld::StringMap`).
pub uninterp spec fn dag_cbor_links_text(
    links_key: Seq<char>,
    links: Seq<Seq<u8>>,
    text_key: Seq<char>,
    text: Seq<char>,
) -> Option<Seq<u8>>;

/// The field holding the links of a node.
pub open spec fn links_field() -> Seq<char> {
    "links"@
}

/// The field holding the text of a node.
pub open spec fn text_field() -> Seq<char> {
    "text"@
}

/// The DAG-CBOR encoding of a node with the given links and text: the map
/// of its two fields; `None` if a link is not a cid.
pub open spec fn node_dag_cbor(links: Seq<Seq<u8>>, text: Seq<char>) -> Option<Seq<u8>> {
    dag_cbor_links_text(links_field(), links, text_field(), text)
}

/// The bytes of the SHA2-256 multihash of `data` (multihash
/// `Code::Sha2_256.digest`).
pub uninterp spec fn sha2_256_multihash(data: Seq<u8>) -> Seq<u8>;

/// The bytes of the version 1 cid with codec `codec` and the multihash
/// encoded by `multihash`, or `None` if `multihash` is not one multihash
/// (cid `Cid::new_v1`, then `to_bytes`).
pub uninterp spec fn cid_v1(codec: u64, multihash: Seq<u8>) -> Option<Seq<u8>>;

/// Calls libipld `Cid::try_from` on `cid`, then `hash().to_bytes()`.
/// Claims that the result is `cid_multihash` of the bytes.
#[verifier::external_body]
fn cid_hash_bytes(cid: &[u8]) -> (r: Option<Vec<u8>>)
    ensures
        match r {
            Some(h) => cid_multihash(cid@) == Some(h@),
            None => cid_multihash(cid@) is None,
        },
{
    match libipld::Cid::try_from(cid) {
        Ok(c) => Some(c.hash().to_bytes()),
        Err(_) => None,
    }
}

/// Calls libipld `Cid::try_from` on `cid`, then `codec()`. Claims that
/// the result is `cid_codec` of the bytes.
#[verifier::external_body]
fn cid_codec_of(cid: &[u8]) -> (r: Option<u64>)
    ensures
        r == cid_codec(cid@),
{
    match libipld::Cid::try_from(cid) {
        Ok(c) => Some(c.codec()),
        Err(_) => None,
    }
}

/// Calls libipld `Block::<DefaultParams>::references` on the block with cid
/// `cid` and data `data`, and turns each cid into its bytes. Claims that
/// the result is `ipld_references` of the two. The DAG-CBOR reader of
/// libipld descends the call stack once per level of nesting, with no
/// limit, so deeply nested data would overflow the stack: for a DAG-CBOR
/// cid the data must nest at most `MAX_CBOR_NESTING` levels deep. The
/// other default codecs do not nest without bound (DAG-JSON stops at a
/// depth of 128, DAG-PB and raw data do not nest).
#[verifier::external_body]
fn block_references(cid: &[u8], data: &[u8]) -> (r: Option<Vec<Vec<u8>>>)
    requires
        cid_codec(cid@) == Some(DAG_CBOR) ==> cbor_nesting_within(data@, MAX_CBOR_NESTING as nat),
    ensures
        match r {
            Some(v) => ipld_references(cid@, data@) == Some(v@.map_values(|x: Vec<u8>| x@)),
            None => ipld_references(cid@, data@) is None,
        },
{
    let cid = match libipld::Cid::try_from(cid) {
        Ok(c) => c,
        Err(_) => return None,
    };
    let block = libipld::Block::<libipld::DefaultParams>::new_unchecked(cid, data.to_vec());
    let mut links: Vec<libipld::Cid> = Vec::new();
    match block.references(&mut links) {
        Ok(()) => Some(links.iter().map(|l| l.to_bytes()).collect()),
        Err(_) => None,
    }
}

/// Calls libipld `DagCborCodec::encode` on the map with the list of the
/// links (each parsed with `Cid::try_from`) under `links_key` and the
/// string `text` under `text_key`. Claims that the result is
/// `dag_cbor_links_text` of the four.
#[verifier::external_body]
fn encode_links_text(links_key: &str, links: &Vec<Vec<u8>>, text_key: &str, text: &str) -> (r: Option<
    Vec<u8>,
>)
    ensures
        match r {
            Some(v) => dag_cbor_links_text(
                links_key@,
                links@.map_values(|l: Vec<u8>| l@),
                text_key@,
                text@,
            ) == Some(v@),
            None => dag_cbor_links_text(
                links_key@,
                links@.map_values(|l: Vec<u8>| l@),
                text_key@,
                text@,
            ) is None,
        },
{
    let mut list = Vec::new();
    for l in links.iter() {
        match libipld::Cid::try_from(l.as_slice()) {
            Ok(c) => list.push(libipld::Ipld::Link(c)),
            Err(_) => return None,
        }
    }
    let mut map = std::collections::BTreeMap::new();
    map.insert(links_key.to_string(), libipld::Ipld::List(list));
    map.insert(text_key.to_string(), libipld::Ipld::String(text.to_string()));
    libipld::cbor::DagCborCodec.encode(&libipld::Ipld::StringMap(map)).ok()
}

/// Calls multihash `Code::Sha2_256.digest` on `data`, then `to_bytes`.
/// Claims that the result is `sha2_256_multihash` of the data.
#[verifier::external_body]
fn sha2_256_digest(data: &[u8]) -> (r: Vec<u8>)
    ensures
        r@ == sha2_256_multihash(data@),
{
    libipld::multihash::Code::Sha2_256.digest(data).to_bytes()
}

/// Calls libipld `Cid::new_v1` on `codec` and the multihash parsed from
/// `multihash` (`Multihash::from_bytes`), then `to_bytes`. Claims that the
/// result is `cid_v1` of the two.
#[verifier::external_body]
fn new_cid_v1(codec: u64, multihash: &[u8]) -> (r: Option<Vec<u8>>)
    ensures
        match r {
            Some(v) => cid_v1(codec, multihash@) == Some(v@),
            None => cid_v1(codec, multihash@) is None,
        },
{
    match libipld::Multihash::from_bytes(multihash) {
        Ok(mh) => Some(libipld::Cid::new_v1(codec, mh).to_bytes()),
        Err(_) => None,
    }
}

/// The bytes of the default cid: version 1, codec 0, and the empty
/// multihash (code 0, size 0).
pub open spec fn default_cid() -> Seq<u8> {
    seq![1u8, 0u8, 0u8, 0u8]
}

/// Calls libipld `Cid::default`, then `to_bytes`. Claims what the source
/// of the cid and multihash crates shows: version 1, codec 0, and a
/// multihash of code 0 and size 0, each written as one varint byte.
#[verifier::external_body]
pub(crate) fn default_cid_bytes() -> (r: Vec<u8>)
    ensures
        r@ == default_cid(),
{
    libipld::Cid::default().to_bytes()
}

/// The key a block or a cid is stored under: the bytes of the multihash of
/// its cid; `None` if `cid` is not a cid.
pub fn store_key(cid: &[u8]) -> (r: Option<Vec<u8>>)
    ensures
        match r {
            Some(h) => cid_multihash(cid@) == Some(h@),
            None => cid_multihash(cid@) is None,
        },
{
    cid_hash_bytes(cid)
}

/// The links of a block as (multihash, cid) pairs, from the cids it links
/// to; `None` if one of them is not a cid.
pub open spec fn links_with_keys(refs: Seq<Seq<u8>>) -> Option<Seq<LinkView>>
    decreases refs.len(),
{
    if refs.len() == 0 {
        Some(Seq::empty())
    } else {
        match (links_with_keys(refs.drop_last()), cid_multihash(refs.last())) {
            (Some(p), Some(h)) => Some(p.push((h, refs.last()))),
            _ => None,
        }
    }
}

/// The block with cid `cid` and data `data`, ready to be stored, given the
/// cids its data links to as the store's codecs read them (`None` if they
/// could not read the data): its key, its data and its links; `None` if
/// the cid does not parse, the data was not read, or a link is not a cid.
pub open spec fn prepared_from_refs(
    cid: Seq<u8>,
    data: Seq<u8>,
    refs: Option<Seq<Seq<u8>>>,
) -> Option<PreparedView> {
    match (cid_multihash(cid), refs) {
        (Some(k), Some(refs)) => match links_with_keys(refs) {
            Some(ls) => Some(PreparedView { key: k, data, links: ls }),
            None => None,
        },
        _ => None,
    }
}

/// The cids the default codecs read from the data of the block with cid
/// `cid`: those of `ipld_references`, but none (`None`) for DAG-CBOR data
/// nested more than `MAX_CBOR_NESTING` levels deep, whose reading the
/// stack would not hold.
pub open spec fn default_refs(cid: Seq<u8>, data: Seq<u8>) -> Option<Seq<Seq<u8>>> {
    if cid_codec(cid) == Some(DAG_CBOR) && !cbor_nesting_within(data, MAX_CBOR_NESTING as nat) {
        None
    } else {
        ipld_references(cid, data)
    }
}

/// The block with cid `cid` and data `data`, ready to be stored in a store
/// with the default codecs: its links are read by `default_refs`.
pub open spec fn prepared_block(cid: Seq<u8>, data: Seq<u8>) -> Option<PreparedView> {
    prepared_from_refs(cid, data, default_refs(cid, data))
}

/// The cids the default codecs read from the data of the block with cid
/// `cid` (`default_refs`): DAG-CBOR data nested too deeply is not read.
pub fn default_block_references(cid: &[u8], data: &[u8]) -> (r: Option<Vec<Vec<u8>>>)
    ensures
        refs_view(r) == default_refs(cid@, data@),
{
    let codec = cid_codec_of(cid);
    if codec == Some(DAG_CBOR) && !dag_cbor_nesting_within(data, MAX_CBOR_NESTING) {
        return None;
    }
    block_references(cid, data)
}

/// A list of cids as plain values.
pub open spec fn refs_view(refs: Option<Vec<Vec<u8>>>) -> Option<Seq<Seq<u8>>> {
    match refs {
        Some(v) => Some(v@.map_values(|x: Vec<u8>| x@)),
        None => None,
    }
}

/// Reads what `put_block` stores of the block with cid `cid` and data
/// `data`, in a store with the default codecs: the multihash of its cid,
/// its data, and each link it holds with the multihash of the link.
pub fn prepare_block(cid: &[u8], data: &[u8]) -> (r: Option<PreparedBlock>)
    ensures
        match r {
            Some(b) => prepared_block(cid@, data@) == Some(b@),
            None => prepared_block(cid@, data@) is None,
        },
{
    let refs = default_block_references(cid, data);
    prepare_block_with_refs(cid, data, refs)
}

/// Reads what `put_block` stores of the block with cid `cid` and data
/// `data`, given the cids the store's codecs read from the data (`None` if
/// they could not read it): the multihash of its cid, its data, and each
/// link with the multihash of the link.
pub fn prepare_block_with_refs(cid: &[u8], data: &[u8], refs: Option<Vec<Vec<u8>>>) -> (r: Option<
    PreparedBlock,
>)
    ensures
        match r {
            Some(b) => prepared_from_refs(cid@, data@, refs_view(refs)) == Some(b@),
            None => prepared_from_refs(cid@, data@, refs_view(refs)) is None,
        },
{
    let key = match cid_hash_bytes(cid) {
        Some(k) => k,
        None => return None,
    };
    let rs: &Vec<Vec<u8>> = match &refs {
        Some(v) => v,
        None => return None,
    };
    let ghost rv = rs@.map_values(|x: Vec<u8>| x@);
    assert(refs_view(refs) == Some(rv));
    assert(cid_multihash(cid@) == Some(key@));
    let mut links: Vec<BlockLink> = Vec::new();
    let mut i: usize = 0;
    while i < rs.len()
        invariant
            i <= rs@.len(),
            rv == rs@.map_values(|x: Vec<u8>| x@),
            refs_view(refs) == Some(rv),
            cid_multihash(cid@) == Some(key@),
            links_with_keys(rv.subrange(0, i as int)) == Some(
                links@.map_values(|l: BlockLink| l@),
            ),
        decreases rs@.len() - i,
    {
        let c = &rs[i];
        let sub = Ghost(rv.subrange(0, i + 1));
        assert(sub@.drop_last() =~= rv.subrange(0, i as int));
        assert(sub@.last() == c@);
        match cid_hash_bytes(c.as_slice()) {
            Some(h) => {
                let ghost before = links@;
                links.push(BlockLink { key: h, cid: crate::block_store::copy_bytes(c) });
                assert(links@.map_values(|l: BlockLink| l@) =~= before.map_values(
                    |l: BlockLink| l@,
                ).push((cid_multihash(c@)->Some_0, c@)));
            },
            None => {
                proof {
                    assert(links_with_keys(sub@) is None);
                    lemma_links_with_keys_none(rv, i as int + 1);
                }
                return None;
            },
        }
        i += 1;
    }
    assert(rv.subrange(0, rv.len() as int) =~= rv);
    let data_vec = slice_to_vec(data);
    let b = PreparedBlock { key, data: data_vec, links };
    assert(b@.links =~= links@.map_values(|l: BlockLink| l@));
    Some(b)
}

proof fn lemma_links_with_keys_none(refs: Seq<Seq<u8>>, n: int)
    requires
        0 < n <= refs.len(),
        links_with_keys(refs.subrange(0, n)) is None,
    ensures
        links_with_keys(refs) is None,
    decreases refs.len() - n,
{
    if n < refs.len() {
        let s = refs.subrange(0, n + 1);
        assert(s.drop_last() =~= refs.subrange(0, n));
        lemma_links_with_keys_none(refs, n + 1);
    } else {
        assert(refs.subrange(0, n) =~= refs);
    }
}

proof fn lemma_links_with_keys_all(refs: Seq<Seq<u8>>)
    requires
        forall|i: int| 0 <= i < refs.len() ==> #[trigger] cid_multihash(refs[i]) is Some,
    ensures
        links_with_keys(refs) matches Some(ls) && ls.len() == refs.len() && forall|i: int|
            0 <= i < refs.len() ==> #[trigger] ls[i] == (cid_multihash(refs[i])->Some_0, refs[i]),
    decreases refs.len(),
{
    if refs.len() > 0 {
        let init = refs.drop_last();
        assert forall|i: int| 0 <= i < init.len() implies #[trigger] cid_multihash(init[i]) is Some by {
            assert(init[i] == refs[i]);
        }
        lemma_links_with_keys_all(init);
        assert(cid_multihash(refs[refs.len() - 1]) is Some);
        let ls = links_with_keys(refs)->Some_0;
        let pl = links_with_keys(init)->Some_0;
        assert forall|i: int| 0 <= i < refs.len() implies #[trigger] ls[i] == (
            cid_multihash(refs[i])->Some_0,
            refs[i],
        ) by {
            if i < init.len() {
                assert(ls[i] == pl[i]);
                assert(init[i] == refs[i]);
            }
        }
    }
}

/// Preparing a block keeps every link its codecs read, in order: when its
/// cid and each cid read from its data parse, the prepared block has the
/// multihash of its cid as key, its data, and for the `i`-th cid read the
/// `i`-th link, that cid under its multihash; when one of them does not
/// parse, nothing is prepared.
pub proof fn law_prepared_keeps_every_link(cid: Seq<u8>, data: Seq<u8>, refs: Seq<Seq<u8>>)
    ensures
        (cid_multihash(cid) is Some && forall|i: int|
            0 <= i < refs.len() ==> #[trigger] cid_multihash(refs[i]) is Some) ==> (
        prepared_from_refs(cid, data, Some(refs)) matches Some(b) && b.key == cid_multihash(
            cid,
        )->Some_0 && b.data == data && b.links.len() == refs.len() && forall|i: int|
            0 <= i < refs.len() ==> #[trigger] b.links[i] == (cid_multihash(refs[i])->Some_0, refs[i])),
        cid_multihash(cid) is None ==> prepared_from_refs(cid, data, Some(refs)) is None,
        (exists|i: int| 0 <= i < refs.len() && #[trigger] cid_multihash(refs[i]) is None)
            ==> prepared_from_refs(cid, data, Some(refs)) is None,
        prepared_from_refs(cid, data, None) is None,
{
    if forall|i: int| 0 <= i < refs.len() ==> #[trigger] cid_multihash(refs[i]) is Some {
        lemma_links_with_keys_all(refs);
    }
    if exists|i: int| 0 <= i < refs.len() && #[trigger] cid_multihash(refs[i]) is None {
        let i = choose|i: int| 0 <= i < refs.len() && #[trigger] cid_multihash(refs[i]) is None;
        lemma_links_with_keys_none_at(refs, i);
    }
}

proof fn lemma_links_with_keys_none_at(refs: Seq<Seq<u8>>, i: int)
    requires
        0 <= i < refs.len(),
        cid_multihash(refs[i]) is None,
    ensures
        links_with_keys(refs) is None,
    decreases refs.len(),
{
    if i < refs.len() - 1 {
        let init = refs.drop_last();
        assert(init[i] == refs[i]);
        lemma_links_with_keys_none_at(init, i);
    }
}

/// The default codecs withhold links only from DAG-CBOR data nested more
/// than `MAX_CBOR_NESTING` levels deep: for any other block they read
/// what libipld's `references` reads.
pub proof fn law_default_refs_withhold_only_deep_dag_cbor(cid: Seq<u8>, data: Seq<u8>)
    ensures
        cid_codec(cid) != Some(DAG_CBOR) ==> default_refs(cid, data) == ipld_references(cid, data),
        cbor_nesting_within(data, MAX_CBOR_NESTING as nat) ==> default_refs(cid, data)
            == ipld_references(cid, data),
        (cid_codec(cid) == Some(DAG_CBOR) && !cbor_nesting_within(data, MAX_CBOR_NESTING as nat))
            ==> default_refs(cid, data) is None,
{
}

/// The writes of `put_block` for the block with cid `cid` and data `data`
/// in a store with the default codecs, given whether the store holds its
/// data already: none if it does; otherwise those of `put_block_writes`
/// for the prepared block, or `None` if the block cannot be prepared (its
/// cid does not parse, its data does not decode, or a link is not a cid).
pub fn put_block_plan(block_exists: bool, cid: &[u8], data: &[u8]) -> (r: Option<Vec<CfPut>>)
    ensures
        block_exists ==> (r matches Some(ps) && ps@.len() == 0),
        !block_exists ==> match prepared_block(cid@, data@) {
            Some(b) => (r matches Some(ps) && ps@.map_values(|p: CfPut| p@) == put_block_puts(false, b)),
            None => r is None,
        },
{
    if block_exists {
        return Some(Vec::new());
    }
    let refs = default_block_references(cid, data);
    put_block_plan_with_refs(false, cid, data, refs)
}

/// The writes of `put_block` for the block with cid `cid` and data `data`,
/// given whether the store holds its data already and the cids the store's
/// codecs read from the data (`None` if they could not read it): none if
/// the store holds the data; otherwise those of `put_block_writes` for the
/// prepared block, or `None` if the block cannot be prepared.
pub fn put_block_plan_with_refs(
    block_exists: bool,
    cid: &[u8],
    data: &[u8],
    refs: Option<Vec<Vec<u8>>>,
) -> (r: Option<Vec<CfPut>>)
    ensures
        block_exists ==> (r matches Some(ps) && ps@.len() == 0),
        !block_exists ==> match prepared_from_refs(cid@, data@, refs_view(refs)) {
            Some(b) => (r matches Some(ps) && ps@.map_values(|p: CfPut| p@) == put_block_puts(false, b)),
            None => r is None,
        },
{
    if block_exists {
        return Some(Vec::new());
    }
    match prepare_block_with_refs(cid, data, refs) {
        Some(b) => Some(put_block_writes(false, &b)),
        None => None,
    }
}

/// Copies a byte slice into a vector.
pub(crate) fn slice_to_vec(s: &[u8]) -> (r: Vec<u8>)
    ensures
        r@ == s@,
{
    let mut r: Vec<u8> = Vec::new();
    let mut i: usize = 0;
    while i < s.len()
        invariant
            i <= s@.len(),
            r@ == s@.subrange(0, i as int),
        decreases s@.len() - i,
    {
        r.push(s[i]);
        i += 1;
        assert(r@ =~= s@.subrange(0, i as int));
    }
    assert(r@ =~= s@);
    r
}

/// A node of the chain's block index: some text and the cids, as bytes, of
/// the blocks it links to.
pub struct BlockNode {
    links: Vec<Vec<u8>>,
    text: String,
}

impl View for BlockNode {
    type V = (Seq<Seq<u8>>, Seq<char>);

    closed spec fn view(&self) -> (Seq<Seq<u8>>, Seq<char>) {
        (self.links@.map_values(|l: Vec<u8>| l@), self.text@)
    }
}

impl BlockNode {
    /// A node without links.
    pub fn leaf(text: &str) -> (r: Self)
        ensures
            r@.0 == Seq::<Seq<u8>>::empty(),
            r@.1 == text@,
    {
        let r = Self { links: Vec::new(), text: text.to_owned() };
        assert(r@.0 =~= Seq::<Seq<u8>>::empty());
        r
    }

    /// A node linking to `links`, in order.
    pub fn branch(text: &str, links: Vec<Vec<u8>>) -> (r: Self)
        ensures
            r@.0 == links@.map_values(|l: Vec<u8>| l@),
            r@.1 == text@,
    {
        Self { links, text: text.to_owned() }
    }

    /// The DAG-CBOR encoding of the node; `None` if a link is not a cid.
    pub fn encode(&self) -> (r: Option<Vec<u8>>)
        ensures
            match r {
                Some(v) => node_dag_cbor(self@.0, self@.1) == Some(v@),
                None => node_dag_cbor(self@.0, self@.1) is None,
            },
    {
        proof {
            reveal_strlit("links");
            reveal_strlit("text");
        }
        encode_links_text("links", &self.links, "text", self.text.as_str())
    }
}

/// A block: its cid and its data, as bytes.
pub struct IpldBlock {
    pub cid: Vec<u8>,
    pub data: Vec<u8>,
}

/// The multicodec code of DAG-CBOR.
pub const DAG_CBOR: u64 = 0x71;

/// The block of a node: its DAG-CBOR encoding, with the version 1 DAG-CBOR
/// cid of the encoding's SHA2-256 multihash.
pub open spec fn node_block(links: Seq<Seq<u8>>, text: Seq<char>) -> Option<(Seq<u8>, Seq<u8>)> {
    match node_dag_cbor(links, text) {
        Some(data) => match cid_v1(DAG_CBOR, sha2_256_multihash(data)) {
            Some(cid) => Some((cid, data)),
            None => None,
        },
        None => None,
    }
}

/// The block of a node, if it encodes.
fn node_to_block(node: &BlockNode) -> (r: Option<IpldBlock>)
    ensures
        match r {
            Some(b) => node_block(node@.0, node@.1) == Some((b.cid@, b.data@)),
            None => node_block(node@.0, node@.1) is None,
        },
{
    let data = match node.encode() {
        Some(d) => d,
        None => return None,
    };
    let hash = sha2_256_digest(data.as_slice());
    match new_cid_v1(DAG_CBOR, hash.as_slice()) {
        Some(cid) => Some(IpldBlock { cid, data }),
        None => None,
    }
}

/// The block of a leaf node with text `name`.
pub fn gen_block(name: &str) -> (r: Option<IpldBlock>)
    ensures
        match r {
            Some(b) => node_block(Seq::empty(), name@) == Some((b.cid@, b.data@)),
            None => node_block(Seq::empty(), name@) is None,
        },
{
    let node = BlockNode::leaf(name);
    node_to_block(&node)
}

/// The block of a node with text `name` linking to the cids of `children`,
/// in order.
pub fn gen_link(name: &str, children: Vec<&IpldBlock>) -> (r: Option<IpldBlock>)
    ensures
        match r {
            Some(b) => node_block(children@.map_values(|c: &IpldBlock| c.cid@), name@) == Some(
                (b.cid@, b.data@),
            ),
            None => node_block(children@.map_values(|c: &IpldBlock| c.cid@), name@) is None,
        },
{
    let mut cids: Vec<Vec<u8>> = Vec::new();
    let mut i: usize = 0;
    while i < children.len()
        invariant
            i <= children@.len(),
            cids@.map_values(|l: Vec<u8>| l@) == children@.subrange(0, i as int).map_values(
                |c: &IpldBlock| c.cid@,
            ),
        decreases children@.len() - i,
    {
        let ghost before = cids@.map_values(|l: Vec<u8>| l@);
        let c = crate::block_store::copy_bytes(&children[i].cid);
        assert(c@ == children@[i as int].cid@);
        cids.push(c);
        assert(cids@.map_values(|l: Vec<u8>| l@) =~= before.push(children@[i as int].cid@));
        assert(children@.subrange(0, i + 1) =~= children@.subrange(0, i as int).push(
            children@[i as int],
        ));
        i += 1;
        assert(cids@.map_values(|l: Vec<u8>| l@) =~= children@.subrange(0, i as int).map_values(
            |c: &IpldBlock| c.cid@,
        ));
    }
    assert(children@.subrange(0, children@.len() as int) =~= children@);
    let node = BlockNode::branch(name, cids);
    node_to_block(&node)
}

} // verus!
