use skchain::chain_index::BlockStore;
use skchain::cid_buf::{CidBuf, MAX_SIZE};
use skchain::storage_config::{DurationParts, StorageConfig};
use skchain::temp_pin::TempPin;
use std::path::PathBuf;
use std::time::Duration;

#[test]
fn cid_buf_cuts_at_capacity() {
    let mut b = CidBuf::default();
    assert_eq!(b.len(), 0);
    assert_eq!(b.write(&[1u8; 30]), 30);
    assert_eq!(b.len(), 30);
    assert_eq!(b.write(&[2u8; 20]), 9);
    assert_eq!(b.len(), MAX_SIZE);
    assert_eq!(b.write(&[3u8; 5]), 0);
    assert_eq!(b.len(), 39);
    b.flush();
    assert_eq!(b.len(), 39);
}

#[test]
fn cid_buf_empty_write() {
    let mut b = CidBuf::default();
    assert_eq!(b.write(&[]), 0);
    assert_eq!(b.len(), 0);
}

#[test]
fn temp_pin_unused() {
    let p = TempPin::new();
    assert_eq!(p.id(), 0);
    assert!(!p.is_used());
    assert_eq!(p.expired_id(), None);
}

#[test]
fn lib_start_node() {
    println!("before start");
    let tmp = tempdir::TempDir::new("skfs").unwrap();
    let sweep_interval = Duration::from_millis(10000);
    let mut pb: PathBuf = PathBuf::new();
    pb.push(tmp.path());
    let storage_config = StorageConfig::new(Some(pb.clone()), None, 10, sweep_interval);
    assert_eq!(storage_config.path, Some(pb));
    assert_eq!(storage_config.access_db_path, None);
    assert_eq!(storage_config.cache_size_blocks, 10);
    assert_eq!(storage_config.cache_size_bytes, u64::MAX);
    assert_eq!(storage_config.gc_interval, sweep_interval);
    assert_eq!(storage_config.gc_min_blocks, usize::MAX);
    assert_eq!(
        storage_config.gc_target_duration,
        DurationParts { secs: u64::MAX, nanos: 1_000_000_000 - 1 }
    );
    let d = storage_config.gc_target_duration;
    assert_eq!(Duration::new(d.secs, d.nanos), Duration::MAX);
    assert_eq!(storage_config.clone(), storage_config);
}

#[test]
fn chain_index_calls() {
    let s = BlockStore::new();
    s.check_blocks();
    BlockStore::new().load_current_10k_blocks();
    BlockStore::new().set_root_cid(vec![1, 0, 0, 0]);
}
