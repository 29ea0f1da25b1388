use num_bigint::BigUint;
use skchain::account::{Account, Address};

fn identity() -> Vec<u8> {
    let mut v = vec![0u8; 32];
    v[0] = 1;
    v
}

#[test]
fn default_address_is_identity_point() {
    let a = Address::default();
    assert_eq!(a.to_bytes(), identity());
    assert_eq!(
        a.to_bytes(),
        ed25519_dalek::PublicKey::default().to_bytes().to_vec()
    );
}

#[test]
fn address_bytes_are_the_key_bytes() {
    let key = [7u8; 32];
    assert_eq!(Address::new(key).to_bytes(), key.to_vec());
    assert_eq!(Address::new(key).to_bytes().len(), 32);
    assert_eq!(bincode::serialize(&key).unwrap(), key.to_vec());
}

fn first_valid_ascii_key() -> String {
    for c in b'a'..=b'z' {
        let s = String::from_utf8(vec![c; 32]).unwrap();
        if ed25519_dalek::PublicKey::from_bytes(s.as_bytes()).is_ok() {
            return s;
        }
    }
    panic!("no ascii key found");
}

#[test]
fn set_did_takes_the_utf8_bytes() {
    let s = first_valid_ascii_key();
    let mut a = Address::default();
    a.set_did(s.clone());
    assert_eq!(a.to_bytes(), s.as_bytes().to_vec());
}

#[test]
fn try_set_did_rejects_bad_keys() {
    let mut a = Address::default();
    assert!(!a.try_set_did("short".to_string()));
    assert_eq!(a.to_bytes(), identity());
    for c in b'a'..=b'z' {
        let s = String::from_utf8(vec![c; 32]).unwrap();
        let valid = ed25519_dalek::PublicKey::from_bytes(s.as_bytes()).is_ok();
        let mut b = Address::default();
        assert_eq!(b.try_set_did(s.clone()), valid);
        if valid {
            assert_eq!(b.to_bytes(), s.as_bytes().to_vec());
        } else {
            assert_eq!(b.to_bytes(), identity());
        }
    }
}

fn le(n: u64) -> Vec<u8> {
    n.to_le_bytes().to_vec()
}

#[test]
fn new_account_bytes() {
    let acc = Account::new();
    let mut expected = Vec::new();
    expected.extend(le(32));
    expected.extend(identity());
    expected.extend(le(1));
    expected.push(0);
    expected.extend(le(1));
    expected.push(0);
    assert_eq!(acc.to_bytes(), expected);
}

#[test]
fn set_account_changes_the_bytes() {
    let s = first_valid_ascii_key();
    let mut acc = Account::new();
    acc.set_account(s.clone());
    let mut expected = Vec::new();
    expected.extend(le(32));
    expected.extend(s.as_bytes().to_vec());
    expected.extend(le(1));
    expected.push(0);
    expected.extend(le(1));
    expected.push(0);
    assert_eq!(acc.to_bytes(), expected);
    let mut other = Account::new();
    assert!(!other.try_set_account("x".to_string()));
    assert_eq!(other, Account::new());
}

#[test]
fn plus_blance_replaces_same_age() {
    let mut a = Account::new();
    a.plus_blance(BigUint::from(5u32), 1);
    a.plus_blance(BigUint::from(9u32), 1);
    a.plus_blance(BigUint::from(3u32), 2);
    let mut b = Account::new();
    b.plus_blance(BigUint::from(3u32), 2);
    b.plus_blance(BigUint::from(9u32), 1);
    assert_eq!(a, b);
    assert_ne!(a, Account::new());
}

#[test]
fn new_account_has_default_cids() {
    let shown = format!("{:?}", Account::new());
    assert!(shown.contains("storage_root: [1, 0, 0, 0]"));
    assert!(shown.contains("code_cid: [1, 0, 0, 0]"));
    assert_eq!(libipld::Cid::default().to_bytes(), vec![1, 0, 0, 0]);
}
