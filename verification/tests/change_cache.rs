use sids::cache_format::LoadError;
use sids::change_cache::ChangeCache;

#[test]
fn empty_cache_tracks_nothing() {
    let cache = ChangeCache::new();
    assert_eq!(cache.len(), 0);
    assert_eq!(cache.lookup("a.txt"), None);
}

#[test]
fn record_then_lookup() {
    let mut cache = ChangeCache::new();
    cache.record("a.txt", 10);
    cache.record("b.txt", 20);
    assert_eq!(cache.len(), 2);
    assert_eq!(cache.lookup("a.txt"), Some(10));
    assert_eq!(cache.lookup("b.txt"), Some(20));
    assert_eq!(cache.lookup("c.txt"), None);
}

#[test]
fn record_never_moves_backward() {
    let mut cache = ChangeCache::new();
    cache.record("a.txt", 10);
    cache.record("a.txt", 7);
    assert_eq!(cache.lookup("a.txt"), Some(10));
    cache.record("a.txt", 12);
    assert_eq!(cache.lookup("a.txt"), Some(12));
    cache.record("a.txt", 12);
    assert_eq!(cache.lookup("a.txt"), Some(12));
    assert_eq!(cache.len(), 1);
}

#[test]
fn missing_store_loads_empty() {
    let cache = ChangeCache::load(None).unwrap();
    assert_eq!(cache.len(), 0);
}

#[test]
fn persist_load_round_trip() {
    let mut cache = ChangeCache::new();
    cache.record("dir/a.txt", 1_700_000_000);
    cache.record("dir/b\u{e9}.txt", 5);
    cache.record("", u64::MAX);
    let bytes = cache.persist();
    let loaded = ChangeCache::load(Some(&bytes)).unwrap();
    assert_eq!(loaded.len(), 3);
    assert_eq!(loaded.lookup("dir/a.txt"), Some(1_700_000_000));
    assert_eq!(loaded.lookup("dir/b\u{e9}.txt"), Some(5));
    assert_eq!(loaded.lookup(""), Some(u64::MAX));
    assert_eq!(loaded.persist(), bytes);
}

#[test]
fn persisted_layout_is_exact() {
    let mut cache = ChangeCache::new();
    cache.record("ab", 0x0102);
    let bytes = cache.persist();
    let expected: Vec<u8> = vec![
        0x01, 0x00, 0x43, 0x43, 0x53, 0x44, 0x49, 0x53, // tag
        1, 0, 0, 0, 0, 0, 0, 0, // count
        2, 0, 0, 0, 0, 0, 0, 0, // path length
        b'a', b'b', // path
        0x02, 0x01, 0, 0, 0, 0, 0, 0, // timestamp
    ];
    assert_eq!(bytes, expected);
}

#[test]
fn load_rejects_corruption() {
    let mut cache = ChangeCache::new();
    cache.record("a", 1);
    cache.record("b", 2);
    let good = cache.persist();

    assert_eq!(ChangeCache::load(Some(&[])).err(), Some(LoadError::BadHeader));
    assert_eq!(ChangeCache::load(Some(&good[..15])).err(), Some(LoadError::BadHeader));

    let mut bad_tag = good.clone();
    bad_tag[0] ^= 0xff;
    assert_eq!(ChangeCache::load(Some(&bad_tag)).err(), Some(LoadError::BadHeader));

    let cut = &good[..good.len() - 1];
    assert_eq!(ChangeCache::load(Some(cut)).err(), Some(LoadError::Truncated));

    let mut longer = good.clone();
    longer.push(0);
    assert_eq!(ChangeCache::load(Some(&longer)).err(), Some(LoadError::TrailingBytes));

    let mut not_utf8 = good.clone();
    not_utf8[24] = 0xff;
    assert_eq!(ChangeCache::load(Some(&not_utf8)).err(), Some(LoadError::InvalidPath));

    let mut twice = good.clone();
    twice[24 + 1 + 8 + 8] = b'a';
    assert_eq!(ChangeCache::load(Some(&twice)).err(), Some(LoadError::DuplicatePath));

    let mut huge_len = good.clone();
    for b in &mut huge_len[16..24] {
        *b = 0xff;
    }
    assert_eq!(ChangeCache::load(Some(&huge_len)).err(), Some(LoadError::Truncated));
}

#[test]
fn records_keep_first_seen_order() {
    let mut cache = ChangeCache::new();
    cache.record("b", 2);
    cache.record("a", 1);
    cache.record("b", 5);
    let first = cache.get(0).unwrap();
    assert_eq!((first.path.as_str(), first.last_modified), ("b", 5));
    let second = cache.get(1).unwrap();
    assert_eq!((second.path.as_str(), second.last_modified), ("a", 1));
    assert!(cache.get(2).is_none());
}

#[test]
fn is_current_compares_with_the_recorded_time() {
    let mut cache = ChangeCache::new();
    cache.record("a", 10);
    assert!(cache.is_current("a", 9));
    assert!(cache.is_current("a", 10));
    assert!(!cache.is_current("a", 11));
    assert!(!cache.is_current("b", 0));
}
