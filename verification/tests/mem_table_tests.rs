use mini_lsm::iterators::StorageIterator;
use mini_lsm::mem_table::{Bound, GetResult, MemTable};

fn drain_keys(table: &MemTable, lower: Bound, upper: Bound) -> Vec<Vec<u8>> {
    let mut it = table.scan(lower, upper);
    let mut keys = Vec::new();
    while it.is_valid() {
        keys.push(it.key());
        it.next().unwrap();
    }
    keys
}

#[test]
fn put_then_get_found() {
    let mut t = MemTable::create(0);
    t.put(b"key", b"value").unwrap();
    assert_eq!(t.get(b"key"), GetResult::Found(b"value".to_vec()));
    assert_eq!(t.get(b"other"), GetResult::Missing);
}

#[test]
fn overwrite_replaces_value() {
    let mut t = MemTable::create(0);
    t.put(b"key", b"one").unwrap();
    t.put(b"key", b"two").unwrap();
    assert_eq!(t.get(b"key"), GetResult::Found(b"two".to_vec()));
}

#[test]
fn tombstone_not_found_and_not_missing() {
    let mut t = MemTable::create(0);
    t.put(b"key", b"value").unwrap();
    t.put(b"key", b"").unwrap();
    assert_eq!(t.get(b"key"), GetResult::Tombstoned);
    // a never-deleted key is told apart from a deleted one
    t.put(b"fresh", b"").unwrap();
    assert_eq!(t.get(b"fresh"), GetResult::Tombstoned);
    assert_eq!(t.get(b"absent"), GetResult::Missing);
}

#[test]
fn scan_bounds() {
    let mut t = MemTable::create(0);
    for k in [b"a", b"b", b"c", b"d"] {
        t.put(k, b"v").unwrap();
    }
    let keys = drain_keys(
        &t,
        Bound::Included(b"b".to_vec()),
        Bound::Excluded(b"d".to_vec()),
    );
    assert_eq!(keys, vec![b"b".to_vec(), b"c".to_vec()]);

    let all = drain_keys(&t, Bound::Unbounded, Bound::Unbounded);
    assert_eq!(
        all,
        vec![b"a".to_vec(), b"b".to_vec(), b"c".to_vec(), b"d".to_vec()]
    );
}

#[test]
fn scan_excluded_lower_included_upper() {
    let mut t = MemTable::create(0);
    for k in [b"a", b"b", b"c", b"d"] {
        t.put(k, b"v").unwrap();
    }
    let keys = drain_keys(
        &t,
        Bound::Excluded(b"a".to_vec()),
        Bound::Included(b"c".to_vec()),
    );
    assert_eq!(keys, vec![b"b".to_vec(), b"c".to_vec()]);
}

#[test]
fn scan_values_and_exhaustion_is_permanent() {
    let mut t = MemTable::create(0);
    t.put(b"k1", b"v1").unwrap();
    let mut it = t.scan(Bound::Unbounded, Bound::Unbounded);
    assert!(it.is_valid());
    assert_eq!(it.key(), b"k1".to_vec());
    assert_eq!(it.value(), b"v1".to_vec());
    it.next().unwrap();
    assert!(!it.is_valid());
    it.next().unwrap();
    assert!(!it.is_valid());
}

#[test]
fn scan_sees_keys_inserted_ahead_of_it() {
    // the cursor walks the live structure: a key written ahead of its
    // position, after the scan began, is surfaced
    let mut t = MemTable::create(0);
    t.put(b"a", b"1").unwrap();
    t.put(b"c", b"3").unwrap();
    let mut it = t.scan(Bound::Unbounded, Bound::Unbounded);
    assert_eq!(it.key(), b"a".to_vec());
    t.put(b"b", b"2").unwrap();
    it.next().unwrap();
    assert_eq!(it.key(), b"b".to_vec());
    it.next().unwrap();
    assert_eq!(it.key(), b"c".to_vec());
}

#[test]
fn approximate_size_counts_and_never_shrinks() {
    let mut t = MemTable::create(0);
    assert_eq!(t.approximate_size(), 0);
    t.put(b"key", b"value").unwrap();
    assert_eq!(t.approximate_size(), 8);
    let before = t.approximate_size();
    // an overwrite counts the pair again, by design
    t.put(b"key", b"value").unwrap();
    assert_eq!(t.approximate_size(), 16);
    assert!(t.approximate_size() >= before);
    // a tombstone still adds its key's bytes
    t.put(b"key", b"").unwrap();
    assert_eq!(t.approximate_size(), 19);
}

#[test]
fn size_monotone_over_a_sequence_of_puts() {
    let mut t = MemTable::create(7);
    let mut last = t.approximate_size();
    for i in 0..50u8 {
        t.put(&[i % 8], &[i, i]).unwrap();
        let now = t.approximate_size();
        assert!(now >= last);
        last = now;
    }
}

#[test]
fn identity_and_emptiness() {
    let mut t = MemTable::create(42);
    assert_eq!(t.id(), 42);
    assert!(t.is_empty());
    t.put(b"k", b"v").unwrap();
    assert!(!t.is_empty());
    assert!(t.sync_wal().is_ok());
}

#[test]
fn for_testing_slice_helpers() {
    let mut t = MemTable::create(1);
    t.for_testing_put_slice(b"k1", b"v1").unwrap();
    assert_eq!(t.for_testing_get_slice(b"k1"), GetResult::Found(b"v1".to_vec()));
    let mut it = t.for_testing_scan_slice(Bound::Unbounded, Bound::Unbounded);
    assert!(it.is_valid());
    assert_eq!(it.key(), b"k1".to_vec());
    it.next().unwrap();
    assert!(!it.is_valid());
}

#[test]
fn scan_of_an_empty_range_is_invalid() {
    let mut t = MemTable::create(0);
    t.put(b"a", b"1").unwrap();
    let it = t.scan(Bound::Excluded(b"a".to_vec()), Bound::Unbounded);
    assert!(!it.is_valid());
    let it2 = t.scan(Bound::Included(b"b".to_vec()), Bound::Excluded(b"c".to_vec()));
    assert!(!it2.is_valid());
}
