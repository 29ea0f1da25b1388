use libipld::cbor::DagCborCodec;
use libipld::codec::Codec;
use libipld::multihash::{Code, MultihashDigest};
use libipld::{Cid, Ipld};
use skchain::block_store::{cid_known, put_block_writes, CloumnNames};
use skchain::missing_blocks::MissingBlocks;
use skchain::dag_cbor::{dag_cbor_nesting_within, MAX_CBOR_NESTING};
use skchain::ipld::{
    default_block_references, gen_block, gen_link, prepare_block, prepare_block_with_refs, put_block_plan, put_block_plan_with_refs,
    store_key, BlockNode, IpldBlock, DAG_CBOR,
};
use std::collections::{BTreeMap, HashMap};

type Store = HashMap<(Option<CloumnNames>, Vec<u8>), Vec<u8>>;

/// Performs `put_block` on an in-memory map of (column family, key) to value.
fn put_block(store: &mut Store, block: &IpldBlock) {
    let key = store_key(&block.cid).unwrap();
    let exists = store.contains_key(&(Some(CloumnNames::Block), key));
    for p in put_block_plan(exists, &block.cid, &block.data).unwrap() {
        store.insert((p.column, p.key), p.value);
    }
}

fn has_block(store: &Store, cid: &[u8]) -> bool {
    store.contains_key(&(Some(CloumnNames::Block), store_key(cid).unwrap()))
}

fn has_cid(store: &Store, cid: &[u8]) -> bool {
    let key = store_key(cid).unwrap();
    cid_known(
        store.contains_key(&(Some(CloumnNames::Cid), key.clone())),
        store.contains_key(&(Some(CloumnNames::Block), key)),
    )
}

fn get_block(store: &Store, cid: &[u8]) -> Option<Vec<u8>> {
    store.get(&(Some(CloumnNames::Block), store_key(cid).unwrap())).cloned()
}

fn get_cid(store: &Store, cid: &[u8]) -> Option<Vec<u8>> {
    store.get(&(Some(CloumnNames::Cid), store_key(cid).unwrap())).cloned()
}

fn get_missing_blocks(store: &Store, cid: &[u8]) -> Vec<Vec<u8>> {
    let mut search = MissingBlocks::new(cid.to_vec());
    while let Some(key) = search.next_key() {
        let data = store.get(&(Some(CloumnNames::Block), key)).cloned();
        search.found(data);
    }
    search.into_missing()
}

fn sorted(mut v: Vec<Vec<u8>>) -> Vec<Vec<u8>> {
    v.sort();
    v
}

/// creates a simple leaf block
fn block(name: &str) -> IpldBlock {
    gen_block(name).unwrap()
}

/// creates a block with some links
fn links(name: &str, children: Vec<&IpldBlock>) -> IpldBlock {
    gen_link(name, children).unwrap()
}

/// The DAG-CBOR node and block, computed with libipld directly.
fn libipld_node(text: &str, links: Vec<Cid>) -> (Cid, Vec<u8>) {
    let mut map = BTreeMap::new();
    map.insert("links".to_string(), Ipld::List(links.into_iter().map(Ipld::Link).collect()));
    map.insert("text".to_string(), Ipld::String(text.to_string()));
    let bytes = DagCborCodec.encode(&Ipld::StringMap(map)).unwrap();
    let hash = Code::Sha2_256.digest(&bytes);
    (Cid::new_v1(0x71, hash), bytes)
}

#[test]
fn insert_get() {
    let b = block("b");
    let c = block("c");
    let a = links("a", vec![&b, &c, &c]);
    let mut store = Store::new();
    put_block(&mut store, &a);
    // we should have all three cids
    assert_eq!(has_cid(&store, &a.cid), true);
    assert_eq!(has_cid(&store, &b.cid), true);
    assert_eq!(has_cid(&store, &c.cid), true);
    // but only the first block
    assert_eq!(has_block(&store, &a.cid), true);
    assert_eq!(has_block(&store, &b.cid), false);
    assert_eq!(has_block(&store, &c.cid), false);
    // check the data
    assert_eq!(get_block(&store, &a.cid), Some(a.data.to_vec()));
    assert_eq!(get_cid(&store, &b.cid), Some(b.cid.to_vec()));
    assert_eq!(get_cid(&store, &c.cid), Some(c.cid.to_vec()));
    assert_ne!(get_block(&store, &a.cid), Some(b.data.to_vec()));
}

#[test]
fn put_twice_is_same_as_once() {
    let b = block("b");
    let a = links("a", vec![&b]);
    let mut once = Store::new();
    put_block(&mut once, &a);
    let mut twice = once.clone();
    put_block(&mut twice, &a);
    assert_eq!(once, twice);
    let key = store_key(&a.cid).unwrap();
    let prepared = prepare_block(&a.cid, &a.data).unwrap();
    assert_eq!(put_block_writes(true, &prepared).len(), 0);
    assert_eq!(prepared.key, key);
}

#[test]
fn writes_of_a_block() {
    let b = block("b");
    let c = block("c");
    let a = links("a", vec![&b, &c]);
    let prepared = prepare_block(&a.cid, &a.data).unwrap();
    let puts = put_block_writes(false, &prepared);
    let seen: Vec<(Option<CloumnNames>, Vec<u8>, Vec<u8>)> =
        puts.into_iter().map(|p| (p.column, p.key, p.value)).collect();
    let kb = store_key(&b.cid).unwrap();
    let kc = store_key(&c.cid).unwrap();
    let ka = store_key(&a.cid).unwrap();
    assert_eq!(
        seen,
        vec![
            (None, kb.clone(), b.cid.clone()),
            (Some(CloumnNames::Cid), kb, b.cid.clone()),
            (None, kc.clone(), c.cid.clone()),
            (Some(CloumnNames::Cid), kc, c.cid.clone()),
            (Some(CloumnNames::Block), ka, a.data.clone()),
        ]
    );
}

#[test]
fn column_names() {
    assert_eq!(CloumnNames::Cid.as_str(), "Cid");
    assert_eq!(CloumnNames::Block.as_str(), "Block");
}

#[test]
fn store_key_is_the_multihash() {
    let (cid, _) = libipld_node("x", vec![]);
    let bytes = cid.to_bytes();
    let key = store_key(&bytes).unwrap();
    assert_eq!(key, cid.hash().to_bytes());
    assert_ne!(key, bytes);
    assert_eq!(key.len(), 34);
    assert_eq!(&key[..2], &[0x12, 0x20]);
    assert_eq!(store_key(&[0xff, 0xff, 0xff]), None);
}

#[test]
fn prepare_block_reads_links_in_order() {
    let (cb, _) = libipld_node("b", vec![]);
    let (cc, _) = libipld_node("c", vec![]);
    let (ca, data) = libipld_node("a", vec![cb, cc, cc]);
    let p = prepare_block(&ca.to_bytes(), &data).unwrap();
    assert_eq!(p.key, ca.hash().to_bytes());
    assert_eq!(p.data, data);
    let ls: Vec<(Vec<u8>, Vec<u8>)> = p.links.iter().map(|l| (l.key.clone(), l.cid.clone())).collect();
    assert_eq!(
        ls,
        vec![
            (cb.hash().to_bytes(), cb.to_bytes()),
            (cc.hash().to_bytes(), cc.to_bytes()),
            (cc.hash().to_bytes(), cc.to_bytes()),
        ]
    );
}

#[test]
fn prepare_block_rejects_bad_input() {
    let (ca, data) = libipld_node("a", vec![]);
    assert!(prepare_block(&[0xff, 0xff], &data).is_none());
    // DAG-CBOR data that does not decode
    assert!(prepare_block(&ca.to_bytes(), &[0xff, 0x00, 0x13]).is_none());
}

#[test]
fn gen_block_matches_libipld() {
    let b = block("b");
    let (cb, db) = libipld_node("b", vec![]);
    assert_eq!(b.cid, cb.to_bytes());
    assert_eq!(b.data, db);
    assert_eq!(&b.cid[..4], &[0x01, DAG_CBOR as u8, 0x12, 0x20]);
    let a = links("a", vec![&b, &b]);
    let (ca, da) = libipld_node("a", vec![cb, cb]);
    assert_eq!(a.cid, ca.to_bytes());
    assert_eq!(a.data, da);
    let decoded: Ipld = DagCborCodec.decode(&a.data).unwrap();
    match decoded {
        Ipld::StringMap(m) => {
            assert_eq!(m.get("text"), Some(&Ipld::String("a".to_string())));
            assert_eq!(m.get("links"), Some(&Ipld::List(vec![Ipld::Link(cb), Ipld::Link(cb)])));
        }
        _ => panic!("not a map"),
    }
}

#[test]
fn block_node_encoding() {
    let leaf = BlockNode::leaf("t");
    let (_, d) = libipld_node("t", vec![]);
    assert_eq!(leaf.encode(), Some(d));
    let bad = BlockNode::branch("t", vec![vec![0xff]]);
    assert_eq!(bad.encode(), None);
    let (cb, _) = libipld_node("b", vec![]);
    let branch = BlockNode::branch("t", vec![cb.to_bytes()]);
    let (_, d2) = libipld_node("t", vec![cb]);
    assert_eq!(branch.encode(), Some(d2));
}

#[test]
fn missing_blocks_are_the_links_without_data() {
    let b = block("b");
    let c = block("c");
    let a = links("a", vec![&b, &c, &c]);
    let mut store = Store::new();
    put_block(&mut store, &a);
    // check missing blocks - should be b and c
    assert_eq!(
        sorted(get_missing_blocks(&store, &a.cid)),
        sorted(vec![b.cid.clone(), c.cid.clone()])
    );
    put_block(&mut store, &b);
    assert_eq!(get_missing_blocks(&store, &a.cid), vec![c.cid.clone()]);
    put_block(&mut store, &c);
    assert_eq!(get_missing_blocks(&store, &a.cid), Vec::<Vec<u8>>::new());
}

#[test]
fn missing_blocks_of_an_unknown_cid_is_itself() {
    let b = block("b");
    let store = Store::new();
    assert_eq!(get_missing_blocks(&store, &b.cid), vec![b.cid.clone()]);
    assert_eq!(get_missing_blocks(&store, &[0xff, 0xff]), vec![vec![0xff, 0xff]]);
}

#[test]
fn missing_blocks_follow_stored_blocks_deeply() {
    let b = block("b");
    let c = block("c");
    let a = links("a", vec![&b, &c]);
    let e = links("e", vec![&c]);
    let d = links("d", vec![&a, &e, &a]);
    let mut store = Store::new();
    put_block(&mut store, &d);
    put_block(&mut store, &a);
    assert_eq!(
        sorted(get_missing_blocks(&store, &d.cid)),
        sorted(vec![b.cid.clone(), c.cid.clone(), e.cid.clone()])
    );
    put_block(&mut store, &e);
    assert_eq!(
        sorted(get_missing_blocks(&store, &d.cid)),
        sorted(vec![b.cid.clone(), c.cid.clone()])
    );
}

#[test]
fn put_block_plan_cases() {
    let b = block("b");
    assert_eq!(put_block_plan(true, &b.cid, &b.data).unwrap().len(), 0);
    assert_eq!(put_block_plan(true, &[0xff], &[0xff]).unwrap().len(), 0);
    assert!(put_block_plan(false, &[0xff], &[0xff]).is_none());
    let puts = put_block_plan(false, &b.cid, &b.data).unwrap();
    assert_eq!(puts.len(), 1);
    assert_eq!(puts[0].column, Some(CloumnNames::Block));
    assert_eq!(puts[0].key, store_key(&b.cid).unwrap());
    assert_eq!(puts[0].value, b.data);
}

/// The cids libipld's default codecs read from a block, as bytes.
fn default_refs(cid: &[u8], data: &[u8]) -> Option<Vec<Vec<u8>>> {
    let cid = Cid::try_from(cid).ok()?;
    let block = libipld::Block::<libipld::DefaultParams>::new_unchecked(cid, data.to_vec());
    let mut links: Vec<Cid> = Vec::new();
    block.references(&mut links).ok()?;
    Some(links.iter().map(|l| l.to_bytes()).collect())
}

#[test]
fn put_block_plan_with_given_refs() {
    let b = block("b");
    let c = block("c");
    let a = links("a", vec![&b, &c]);
    // with what the default codecs read, the plan is the default one
    let refs = default_refs(&a.cid, &a.data);
    let given = put_block_plan_with_refs(false, &a.cid, &a.data, refs).unwrap();
    let default = put_block_plan(false, &a.cid, &a.data).unwrap();
    let as_tuples = |ps: &Vec<skchain::block_store::CfPut>| {
        ps.iter().map(|p| (p.column, p.key.clone(), p.value.clone())).collect::<Vec<_>>()
    };
    assert_eq!(as_tuples(&given), as_tuples(&default));
    assert_eq!(given.len(), 5);
    // codecs that cannot read the data: no plan
    assert!(put_block_plan_with_refs(false, &a.cid, &a.data, None).is_none());
    // a block already stored needs no writes, whatever was read
    assert_eq!(put_block_plan_with_refs(true, &a.cid, &a.data, None).unwrap().len(), 0);
    // the links are those the codecs read, not those of the default codecs
    let only_b = put_block_plan_with_refs(false, &a.cid, &a.data, Some(vec![b.cid.clone()])).unwrap();
    assert_eq!(only_b.len(), 3);
    assert_eq!(only_b[0].key, store_key(&b.cid).unwrap());
    assert_eq!(only_b[0].value, b.cid);
    // a link that is not a cid: no plan
    assert!(put_block_plan_with_refs(false, &a.cid, &a.data, Some(vec![vec![0xff]])).is_none());
    let p = prepare_block_with_refs(&a.cid, &a.data, Some(vec![])).unwrap();
    assert_eq!(p.key, store_key(&a.cid).unwrap());
    assert_eq!(p.data, a.data);
    assert!(p.links.is_empty());
}

#[test]
fn missing_blocks_with_given_refs() {
    let b = block("b");
    let c = block("c");
    let a = links("a", vec![&b, &c]);
    let mut store = Store::new();
    put_block(&mut store, &a);
    // a store whose codecs read no links from `a`: nothing below it is missing
    let mut search = MissingBlocks::new(a.cid.clone());
    while let Some(key) = search.next_key() {
        assert_eq!(search.next_cid_bytes(), Some(a.cid.clone()));
        let data = store.get(&(Some(CloumnNames::Block), key)).cloned();
        search.found_with_refs(data, Some(vec![]));
    }
    assert_eq!(search.next_cid_bytes(), None);
    assert_eq!(search.into_missing(), Vec::<Vec<u8>>::new());
    // codecs that read the links the default ones read give the default answer
    let mut search = MissingBlocks::new(a.cid.clone());
    while let Some(key) = search.next_key() {
        let cid = search.next_cid_bytes().unwrap();
        let data = store.get(&(Some(CloumnNames::Block), key)).cloned();
        let refs = data.as_ref().and_then(|d| default_refs(&cid, d));
        search.found_with_refs(data, refs);
    }
    assert_eq!(
        sorted(search.into_missing()),
        sorted(vec![b.cid.clone(), c.cid.clone()])
    );
}

/// The bytes of `depth` nested one-item arrays around `inner`.
fn nested_arrays(depth: usize, inner: &[u8]) -> Vec<u8> {
    let mut v = vec![0x81u8; depth];
    v.extend_from_slice(inner);
    v
}

/// A DAG-CBOR cid for `data`.
fn dag_cbor_cid(data: &[u8]) -> Vec<u8> {
    Cid::new_v1(DAG_CBOR, Code::Sha2_256.digest(data)).to_bytes()
}

#[test]
fn cbor_nesting_is_measured_item_by_item() {
    assert!(dag_cbor_nesting_within(&[], 1));
    assert!(dag_cbor_nesting_within(&[0x01], 1));
    // one array: two levels with the top one
    assert!(!dag_cbor_nesting_within(&[0x81, 0x01], 1));
    assert!(dag_cbor_nesting_within(&[0x81, 0x01], 2));
    // two arrays side by side in an array: three levels
    assert!(dag_cbor_nesting_within(&[0x82, 0x81, 0x01, 0x81, 0x01], 3));
    assert!(!dag_cbor_nesting_within(&[0x82, 0x81, 0x01, 0x81, 0x01], 2));
    // the bytes of a string are not items
    assert!(dag_cbor_nesting_within(&[0x43, 0x81, 0x81, 0x81], 1));
    // a string whose length points backwards
    assert!(!dag_cbor_nesting_within(&[0x5b, 0xff, 0xff, 0xff, 0xff, 0xff, 0xff, 0xff, 0xf0], 8));
    // indefinite maps and arrays, and a tag other than a link
    assert!(dag_cbor_nesting_within(&[0xbf, 0x61, 0x61, 0x9f, 0x01, 0xff, 0xff], 3));
    assert!(!dag_cbor_nesting_within(&[0xbf, 0x61, 0x61, 0x9f, 0x01, 0xff, 0xff], 2));
    assert!(!dag_cbor_nesting_within(&[0xd8, 0x01, 0x01], 1));
    assert!(dag_cbor_nesting_within(&[0xd8, 0x01, 0x01], 2));
    // deep data
    let deep = nested_arrays(100_000, &[0x01]);
    assert!(!dag_cbor_nesting_within(&deep, MAX_CBOR_NESTING));
    assert!(dag_cbor_nesting_within(&deep, 100_001));
}

#[test]
fn deeply_nested_blocks_are_not_read() {
    let deep = nested_arrays(100_000, &[0x01]);
    let cid = dag_cbor_cid(&deep);
    assert!(default_block_references(&cid, &deep).is_none());
    assert!(prepare_block(&cid, &deep).is_none());
    assert!(put_block_plan(false, &cid, &deep).is_none());
    let mut search = MissingBlocks::new(cid.clone());
    while search.next_key().is_some() {
        search.found(Some(deep.clone()));
    }
    assert_eq!(search.into_missing(), Vec::<Vec<u8>>::new());
}

#[test]
fn nested_blocks_within_the_bound_are_read() {
    let b = block("b");
    let mut link = vec![0xd8, 0x2a, 0x58, (b.cid.len() + 1) as u8, 0x00];
    link.extend_from_slice(&b.cid);
    let data = nested_arrays(MAX_CBOR_NESTING - 1, &link);
    let cid = dag_cbor_cid(&data);
    assert_eq!(default_block_references(&cid, &data), Some(vec![b.cid.clone()]));
    let p = prepare_block(&cid, &data).unwrap();
    assert_eq!(p.links.len(), 1);
    assert_eq!(p.links[0].cid, b.cid);
    // one level more is not read
    let data = nested_arrays(MAX_CBOR_NESTING, &link);
    let cid = dag_cbor_cid(&data);
    assert_eq!(default_block_references(&cid, &data), None);
    // raw data is never read as DAG-CBOR
    let raw = nested_arrays(100_000, &[0x01]);
    let raw_cid = Cid::new_v1(0x55, Code::Sha2_256.digest(&raw)).to_bytes();
    assert_eq!(default_block_references(&raw_cid, &raw), Some(vec![]));
}
