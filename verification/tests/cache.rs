use vac_downloader_gui::cache::StalenessCache;

#[test]
fn a_new_cache_knows_nothing() {
    let cache = StalenessCache::new();
    assert_eq!(cache.lookup("LFPG"), None);
    assert!(!cache.is_pending("LFPG"));
}

#[test]
fn a_recorded_verdict_is_found_again() {
    let mut cache = StalenessCache::new();
    cache.record("LFPG", true);
    cache.record("LFLY", false);
    assert_eq!(cache.lookup("LFPG"), Some(true));
    assert_eq!(cache.lookup("LFLY"), Some(false));
    assert_eq!(cache.lookup("LFBO"), None);
}

#[test]
fn a_later_verdict_replaces_an_earlier_one() {
    let mut cache = StalenessCache::new();
    cache.record("LFPG", true);
    cache.record("LFPG", false);
    assert_eq!(cache.lookup("LFPG"), Some(false));
}

#[test]
fn an_evicted_verdict_is_unknown_again() {
    let mut cache = StalenessCache::new();
    cache.record("LFPG", false);
    cache.record("LFLY", true);
    cache.evict("LFPG");
    assert_eq!(cache.lookup("LFPG"), None);
    assert_eq!(cache.lookup("LFLY"), Some(true));
    cache.evict("LFPG");
    assert_eq!(cache.lookup("LFPG"), None);
}

#[test]
fn a_probe_is_requested_once_while_it_is_under_way() {
    let mut cache = StalenessCache::new();
    assert!(cache.request_probe("LFPG"));
    assert!(cache.is_pending("LFPG"));
    assert!(!cache.request_probe("LFPG"));
    assert!(!cache.request_probe("LFPG"));
    assert!(cache.request_probe("LFLY"));
    assert_eq!(cache.lookup("LFPG"), None);
}

#[test]
fn a_code_with_a_verdict_gets_no_probe() {
    let mut cache = StalenessCache::new();
    cache.record("LFPG", false);
    assert!(!cache.request_probe("LFPG"));
    assert!(!cache.is_pending("LFPG"));
}

#[test]
fn a_reported_probe_is_no_longer_under_way() {
    let mut cache = StalenessCache::new();
    assert!(cache.request_probe("LFPG"));
    cache.record("LFPG", true);
    assert!(!cache.is_pending("LFPG"));
    assert_eq!(cache.lookup("LFPG"), Some(true));
    cache.evict("LFPG");
    assert!(cache.request_probe("LFPG"));
}
