use worksteal::cache::Cache;

#[test]
fn values_are_stored_and_found() {
    let mut cache: Cache<u64> = Cache::new();
    assert_eq!(cache.len(), 0);
    assert_eq!(cache.get(10), None);
    cache.insert(10, 55);
    cache.insert(20, 6765);
    assert_eq!(cache.get(10), Some(55));
    assert_eq!(cache.get(20), Some(6765));
    assert_eq!(cache.get(30), None);
    assert_eq!(cache.len(), 2);
}

#[test]
fn inserting_again_overwrites_only_that_key() {
    let mut cache: Cache<u64> = Cache::new();
    cache.insert(1, 100);
    cache.insert(2, 200);
    cache.insert(1, 111);
    assert_eq!(cache.get(1), Some(111));
    assert_eq!(cache.get(2), Some(200));
    assert_eq!(cache.len(), 2);
}

#[test]
fn a_miss_computes_and_a_hit_does_not() {
    let mut cache: Cache<u64> = Cache::new();
    let mut calls: u32 = 0;
    let v = cache.get_or_insert_with(10, || {
        calls += 1;
        55
    });
    assert_eq!(v, 55);
    assert_eq!(calls, 1);
    let v2 = cache.get_or_insert_with(10, || {
        calls += 1;
        999
    });
    assert_eq!(v2, 55);
    assert_eq!(calls, 1);
    assert_eq!(cache.len(), 1);
}

#[test]
fn clearing_forgets_everything() {
    let mut cache: Cache<u64> = Cache::new();
    cache.insert(1, 2);
    cache.insert(3, 4);
    cache.clear();
    assert_eq!(cache.len(), 0);
    assert_eq!(cache.get(1), None);
    let v = cache.get_or_insert_with(1, || 9);
    assert_eq!(v, 9);
}
