use skchain::store_config::{Config, SizeTargets, StoreStats, Synchronous};

#[test]
fn size_targets_new_and_max() {
    let t = SizeTargets::new(3, 4000);
    assert_eq!(t.count, 3);
    assert_eq!(t.size, 4000);
    let m = SizeTargets::max_value();
    assert_eq!(m.count, u64::MAX);
    assert_eq!(m.size, u64::MAX);
    let d = SizeTargets::default();
    assert_eq!((d.count, d.size), (0, 0));
}

#[test]
fn size_targets_exceeded_on_empty_stats() {
    let stats = StoreStats::default();
    assert!(!SizeTargets::new(0, 0).exceeded(&stats));
    assert!(!SizeTargets::max_value().exceeded(&stats));
}

#[test]
fn store_stats_default_is_zero() {
    let s = StoreStats::default();
    assert_eq!(s.count(), 0);
    assert_eq!(s.size(), 0);
    assert_eq!(s.page_size(), 0);
    assert_eq!(s.used_pages(), 0);
    assert_eq!(s.free_pages(), 0);
    assert_eq!(s, StoreStats::default());
    assert!(s.size() as u128 <= s.used_pages() as u128 * s.page_size() as u128);
}

#[test]
fn synchronous_display_names() {
    assert_eq!(Synchronous::Full.to_string(), "FULL");
    assert_eq!(Synchronous::Normal.to_string(), "NORMAL");
    assert_eq!(Synchronous::Off.to_string(), "OFF");
}

#[test]
fn config_builders() {
    let c = Config::default();
    assert!(c.create());
    let c = c
        .with_read_only(true)
        .with_size_targets(10, 20)
        .with_pragma_synchronous(Synchronous::Off)
        .with_pragma_cache_pages(7);
    let shown = format!("{:?}", c);
    assert!(shown.contains("read_only: true"));
    assert!(shown.contains("count: 10"));
    assert!(shown.contains("size: 20"));
    assert!(shown.contains("Off"));
    assert!(shown.contains("pragma_cache_pages: 7"));
    assert!(c.create());
}

#[test]
fn config_default_values() {
    let shown = format!("{:?}", Config::default());
    assert!(shown.contains("pragma_synchronous: Full"));
    assert!(shown.contains("pragma_cache_pages: 8192"));
    assert!(shown.contains("read_only: false"));
    assert!(shown.contains("create: true"));
}
