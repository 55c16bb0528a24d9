use mini_lsm::iterators::{Error, StorageIterator};
use mini_lsm::mem_table::{Bound, MemTable};
use mini_lsm::merge_iterator::MergeIterator;
use mini_lsm::mock_iterator::MockIterator;

fn entries(pairs: &[(&[u8], &[u8])]) -> Vec<(Vec<u8>, Vec<u8>)> {
    pairs.iter().map(|(k, v)| (k.to_vec(), v.to_vec())).collect()
}

fn drain(mut it: MergeIterator<MockIterator>) -> Vec<(Vec<u8>, Vec<u8>)> {
    let mut out = Vec::new();
    while it.is_valid() {
        out.push((it.key(), it.value()));
        it.next().unwrap();
    }
    out
}

#[test]
fn merge_orders_and_deduplicates() {
    let a = MockIterator::new(entries(&[(b"1", b"a1"), (b"3", b"a3"), (b"5", b"a5")]), None);
    let b = MockIterator::new(entries(&[(b"2", b"b2"), (b"3", b"b3"), (b"6", b"b6")]), None);
    let c = MockIterator::new(entries(&[(b"3", b"c3"), (b"4", b"c4")]), None);
    let merged = MergeIterator::create(vec![Box::new(a), Box::new(b), Box::new(c)]);
    let got = drain(merged);
    assert_eq!(
        got,
        vec![
            (b"1".to_vec(), b"a1".to_vec()),
            (b"2".to_vec(), b"b2".to_vec()),
            // key 3 is surfaced once, from the index-0 source only
            (b"3".to_vec(), b"a3".to_vec()),
            (b"4".to_vec(), b"c4".to_vec()),
            (b"5".to_vec(), b"a5".to_vec()),
            (b"6".to_vec(), b"b6".to_vec()),
        ]
    );
}

#[test]
fn ties_go_to_the_smallest_index() {
    let a = MockIterator::new(entries(&[(b"k", b"newest")]), None);
    let b = MockIterator::new(entries(&[(b"k", b"older")]), None);
    let c = MockIterator::new(entries(&[(b"k", b"oldest")]), None);
    let mut merged = MergeIterator::create(vec![Box::new(a), Box::new(b), Box::new(c)]);
    assert!(merged.is_valid());
    assert_eq!(merged.key(), b"k".to_vec());
    assert_eq!(merged.value(), b"newest".to_vec());
    merged.next().unwrap();
    assert!(!merged.is_valid());
}

#[test]
fn error_while_draining_a_duplicate_propagates() {
    // both cursors stand on key 3; draining the second must advance it,
    // which fails, and the failure surfaces instead of being swallowed
    let a = MockIterator::new(entries(&[(b"3", b"a3"), (b"5", b"a5")]), None);
    let b = MockIterator::new(entries(&[(b"3", b"b3"), (b"6", b"b6")]), Some(0));
    let mut merged = MergeIterator::create(vec![Box::new(a), Box::new(b)]);
    assert_eq!(merged.key(), b"3".to_vec());
    assert_eq!(merged.value(), b"a3".to_vec());
    let res = merged.next();
    assert_eq!(res, Err(Error));
    // the front cursor was not advanced past the failing point
    assert!(merged.is_valid());
    assert_eq!(merged.key(), b"3".to_vec());
}

#[test]
fn invalid_inputs_are_discarded_at_creation() {
    let empty = MockIterator::new(entries(&[]), None);
    let live = MockIterator::new(entries(&[(b"a", b"1")]), None);
    let merged = MergeIterator::create(vec![Box::new(empty), Box::new(live)]);
    let got = drain(merged);
    assert_eq!(got, vec![(b"a".to_vec(), b"1".to_vec())]);
}

#[test]
fn exhausted_merge_stays_invalid() {
    let a = MockIterator::new(entries(&[(b"a", b"1")]), None);
    let mut merged = MergeIterator::create(vec![Box::new(a)]);
    assert!(merged.is_valid());
    merged.next().unwrap();
    assert!(!merged.is_valid());
    for _ in 0..3 {
        merged.next().unwrap();
        assert!(!merged.is_valid());
    }
}

#[test]
fn merge_of_no_cursors_is_invalid() {
    let mut merged: MergeIterator<MockIterator> = MergeIterator::create(vec![]);
    assert!(!merged.is_valid());
    assert!(merged.next().is_ok());
    assert!(!merged.is_valid());
}

#[test]
fn merge_of_mem_table_scans_prefers_the_newer_table() {
    let mut newer = MemTable::create(1);
    let mut older = MemTable::create(0);
    older.put(b"a", b"old").unwrap();
    older.put(b"b", b"kept").unwrap();
    newer.put(b"a", b"new").unwrap();
    newer.put(b"c", b"fresh").unwrap();
    let ni = newer.scan(Bound::Unbounded, Bound::Unbounded);
    let oi = older.scan(Bound::Unbounded, Bound::Unbounded);
    let mut merged = MergeIterator::create(vec![Box::new(ni), Box::new(oi)]);
    let mut got = Vec::new();
    while merged.is_valid() {
        got.push((merged.key(), merged.value()));
        merged.next().unwrap();
    }
    assert_eq!(
        got,
        vec![
            (b"a".to_vec(), b"new".to_vec()),
            (b"b".to_vec(), b"kept".to_vec()),
            (b"c".to_vec(), b"fresh".to_vec()),
        ]
    );
}
