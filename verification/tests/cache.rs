use doh_proxy::cache::{fresh_at, invalidate_cache, same_bytes, Cache};

#[test]
fn new_cache_holds_nothing() {
    let cache = Cache::new();
    assert!(!cache.contains_key(&[1, 2, 3]));
    assert!(cache.get(&[]).is_none());
}

#[test]
fn insert_then_get() {
    let mut cache = Cache::new();
    cache.insert(vec![1, 2, 3], 10, vec![9, 9]);
    assert!(cache.contains_key(&[1, 2, 3]));
    let entry = cache.get(&[1, 2, 3]).unwrap();
    assert_eq!(entry.key, vec![1, 2, 3]);
    assert_eq!(entry.inserted_at, 10);
    assert_eq!(entry.payload, vec![9, 9]);
    assert!(!cache.contains_key(&[1, 2]));
    assert!(!cache.contains_key(&[1, 2, 3, 4]));
}

#[test]
fn insert_overwrites_on_conflict() {
    let mut cache = Cache::new();
    cache.insert(vec![1], 10, vec![5]);
    cache.insert(vec![2], 11, vec![6]);
    cache.insert(vec![1], 20, vec![7, 7]);
    let first = cache.get(&[1]).unwrap();
    assert_eq!(first.inserted_at, 20);
    assert_eq!(first.payload, vec![7, 7]);
    let second = cache.get(&[2]).unwrap();
    assert_eq!(second.inserted_at, 11);
    assert_eq!(second.payload, vec![6]);
}

#[test]
fn entry_is_present_one_second_before_ttl_ends() {
    let mut cache = Cache::new();
    cache.insert(vec![1], 1000, vec![5]);
    invalidate_cache(&mut cache, 1000 + 3600 - 1, 3600, true);
    assert_eq!(cache.get(&[1]).unwrap().payload, vec![5]);
}

#[test]
fn entry_is_absent_one_second_after_ttl_ends() {
    let mut cache = Cache::new();
    cache.insert(vec![1], 1000, vec![5]);
    invalidate_cache(&mut cache, 1000 + 3600 + 1, 3600, true);
    assert!(cache.get(&[1]).is_none());
}

#[test]
fn entry_is_absent_when_its_age_equals_ttl() {
    let mut cache = Cache::new();
    cache.insert(vec![1], 1000, vec![5]);
    invalidate_cache(&mut cache, 1000 + 3600, 3600, true);
    assert!(!cache.contains_key(&[1]));
}

#[test]
fn sweep_keeps_fresh_and_drops_stale() {
    let mut cache = Cache::new();
    cache.insert(vec![1], 100, vec![1]);
    cache.insert(vec![2], 200, vec![2]);
    cache.insert(vec![3], 300, vec![3]);
    cache.insert(vec![4], 150, vec![4]);
    invalidate_cache(&mut cache, 310, 100, true);
    assert!(!cache.contains_key(&[1]));
    assert!(!cache.contains_key(&[2]));
    assert!(!cache.contains_key(&[4]));
    let kept = cache.get(&[3]).unwrap();
    assert_eq!(kept.inserted_at, 300);
    assert_eq!(kept.payload, vec![3]);
    invalidate_cache(&mut cache, 250, 100, true);
    assert!(cache.contains_key(&[3]));
}

#[test]
fn unforced_sweep_changes_nothing() {
    let mut cache = Cache::new();
    cache.insert(vec![1], 0, vec![1]);
    invalidate_cache(&mut cache, 1_000_000, 1, false);
    invalidate_cache(&mut cache, 1_000_000, 0, false);
    assert_eq!(cache.get(&[1]).unwrap().payload, vec![1]);
}

#[test]
fn zero_ttl_empties_the_cache() {
    let mut cache = Cache::new();
    cache.insert(vec![1], 50, vec![1]);
    cache.insert(vec![2], 60, vec![2]);
    invalidate_cache(&mut cache, 50, 0, true);
    assert!(!cache.contains_key(&[1]));
    assert!(!cache.contains_key(&[2]));
}

#[test]
fn clock_before_the_stamp_counts_as_age_zero() {
    let mut cache = Cache::new();
    cache.insert(vec![1], 500, vec![1]);
    invalidate_cache(&mut cache, 400, 1, true);
    assert!(cache.contains_key(&[1]));
    invalidate_cache(&mut cache, 400, 0, true);
    assert!(!cache.contains_key(&[1]));
}

#[test]
fn fresh_at_compares_age_with_ttl() {
    assert!(fresh_at(10, 10, 1));
    assert!(!fresh_at(10, 10, 0));
    assert!(fresh_at(10, 19, 10));
    assert!(!fresh_at(10, 20, 10));
    assert!(fresh_at(0, u64::MAX - 1, u64::MAX));
    assert!(!fresh_at(0, u64::MAX, u64::MAX));
    assert!(fresh_at(u64::MAX, 0, 1));
}

#[test]
fn same_bytes_compares_content() {
    assert!(same_bytes(&[], &[]));
    assert!(same_bytes(&[1, 2], &[1, 2]));
    assert!(!same_bytes(&[1, 2], &[1, 3]));
    assert!(!same_bytes(&[1, 2], &[1, 2, 3]));
}
