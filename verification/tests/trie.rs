use skchain::trie::{
    bytes_le, keyspace_as_prefix_alloc, sort_delta, DeltaChange, KeySpacedDB, KeySpacedDBMut,
    LayoutV0, ALLOW_EMPTY, MAX_INLINE_VALUE, USE_EXTENSION,
};
use std::collections::BTreeMap;

#[test]
fn keyspace_prefix_joins_bytes() {
    let (p, half) = keyspace_as_prefix_alloc(b"ks", (b"abc", Some(7)));
    assert_eq!(p, b"ksabc".to_vec());
    assert_eq!(half, Some(7));
    let (p, half) = keyspace_as_prefix_alloc(b"", (b"", None));
    assert_eq!(p, Vec::<u8>::new());
    assert_eq!(half, None);
}

#[test]
fn keyspaced_db_prefixes() {
    let db: Vec<u8> = vec![1, 2, 3];
    let ks = [9u8, 8];
    let k = KeySpacedDB::<Vec<u8>, ()>::new(&db, &ks);
    assert_eq!(k.db(), &db);
    assert_eq!(k.derive_prefix((&[1, 2], None)), (vec![9, 8, 1, 2], None));
    let mut db2: Vec<u8> = vec![];
    let km = KeySpacedDBMut::<Vec<u8>, ()>::new(&mut db2, &ks);
    assert_eq!(km.derive_prefix((&[5], Some(1))), (vec![9, 8, 5], Some(1)));
    let (inner, space) = km.into_parts();
    inner.push(4);
    assert_eq!(space, &[9, 8]);
    assert_eq!(db2, vec![4]);
}

#[test]
fn layout_constants() {
    assert!(!USE_EXTENSION);
    assert!(ALLOW_EMPTY);
    assert_eq!(MAX_INLINE_VALUE, 30000);
}

#[test]
fn bytes_le_agrees_with_slice_order() {
    let samples: Vec<Vec<u8>> = vec![
        vec![],
        vec![0],
        vec![1],
        vec![0, 0],
        vec![0, 1],
        vec![1, 0],
        vec![255],
        vec![1, 2, 3],
        vec![1, 2],
    ];
    for a in &samples {
        for b in &samples {
            assert_eq!(bytes_le(a, b), a.as_slice() <= b.as_slice(), "{:?} {:?}", a, b);
        }
    }
}

fn change(k: &[u8], v: Option<&[u8]>) -> DeltaChange {
    (k.to_vec(), v.map(|x| x.to_vec()))
}

#[test]
fn sort_delta_is_a_stable_sort_by_key() {
    let delta = vec![
        change(b"b", Some(b"1")),
        change(b"a", Some(b"2")),
        change(b"b", None),
        change(b"ab", Some(b"3")),
        change(b"a", Some(b"4")),
        change(b"", Some(b"5")),
    ];
    let mut expected = delta.clone();
    expected.sort_by(|l, r| l.0.cmp(&r.0));
    let sorted = sort_delta(delta);
    assert_eq!(sorted, expected);
    assert_eq!(
        sorted,
        vec![
            change(b"", Some(b"5")),
            change(b"a", Some(b"2")),
            change(b"a", Some(b"4")),
            change(b"ab", Some(b"3")),
            change(b"b", Some(b"1")),
            change(b"b", None),
        ]
    );
}

fn apply(m: &mut BTreeMap<Vec<u8>, Vec<u8>>, d: &[DeltaChange]) {
    for (k, v) in d {
        match v {
            Some(v) => {
                m.insert(k.clone(), v.clone());
            }
            None => {
                m.remove(k);
            }
        }
    }
}

#[test]
fn sorted_delta_gives_same_contents() {
    let delta = vec![
        change(b"k2", Some(b"x")),
        change(b"k1", Some(b"y")),
        change(b"k2", None),
        change(b"k3", None),
        change(b"k1", Some(b"z")),
    ];
    let mut start = BTreeMap::new();
    start.insert(b"k3".to_vec(), b"old".to_vec());
    start.insert(b"k4".to_vec(), b"keep".to_vec());
    let mut in_order = start.clone();
    apply(&mut in_order, &delta);
    let mut sorted_order = start.clone();
    apply(&mut sorted_order, &sort_delta(delta));
    assert_eq!(in_order, sorted_order);
    let mut expected = BTreeMap::new();
    expected.insert(b"k1".to_vec(), b"z".to_vec());
    expected.insert(b"k4".to_vec(), b"keep".to_vec());
    assert_eq!(sorted_order, expected);
}

#[test]
fn sort_delta_empty() {
    assert_eq!(sort_delta(vec![]), Vec::<DeltaChange>::new());
}

#[test]
fn encode_index_is_scale_compact() {
    assert_eq!(LayoutV0::<()>::encode_index(0), vec![0]);
    assert_eq!(LayoutV0::<()>::encode_index(1), vec![4]);
    assert_eq!(LayoutV0::<()>::encode_index(63), vec![252]);
    assert_eq!(LayoutV0::<()>::encode_index(64), vec![0x01, 0x01]);
    assert_eq!(LayoutV0::<()>::encode_index(16383), vec![0xfd, 0xff]);
    assert_eq!(LayoutV0::<()>::encode_index(16384), vec![0x02, 0x00, 0x01, 0x00]);
    assert_eq!(LayoutV0::<()>::encode_index(0x3fff_ffff), vec![0xfe, 0xff, 0xff, 0xff]);
    assert_eq!(LayoutV0::<()>::encode_index(0x4000_0000), vec![0x03, 0x00, 0x00, 0x00, 0x40]);
    assert_eq!(LayoutV0::<()>::encode_index(u32::MAX), vec![0x03, 0xff, 0xff, 0xff, 0xff]);
}
