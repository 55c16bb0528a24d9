use mini_lsm::block::BlockBuilder;

#[test]
fn build_two_entries_exact_layout() {
    let mut b = BlockBuilder::new(4096);
    assert!(b.add(b"key1", b"val1"));
    assert!(b.add(b"key2", b"v2"));
    let block = b.build();
    let mut expected: Vec<u8> = Vec::new();
    expected.extend_from_slice(&[0, 4]);
    expected.extend_from_slice(b"key1");
    expected.extend_from_slice(&[0, 4]);
    expected.extend_from_slice(b"val1");
    expected.extend_from_slice(&[0, 4]);
    expected.extend_from_slice(b"key2");
    expected.extend_from_slice(&[0, 2]);
    expected.extend_from_slice(b"v2");
    assert_eq!(block.data, expected);
    assert_eq!(block.offsets, vec![0, 12]);
}

#[test]
fn estimated_size_formula() {
    let mut b = BlockBuilder::new(4096);
    // empty: only the trailing entry-count field
    assert_eq!(b.estimated_size(), 2);
    assert!(b.add(b"ab", b"cde"));
    // data 2 + 2 + 2 + 3 = 9, one offset = 2, count = 2
    assert_eq!(b.estimated_size(), 13);
}

#[test]
fn capacity_never_exceeded_after_successful_add() {
    let cap = 40;
    let mut b = BlockBuilder::new(cap);
    let mut accepted = 0;
    for i in 0..26u8 {
        let key = vec![b'a' + i];
        let value = vec![b'A' + i, b'A' + i];
        if b.add(&key, &value) {
            accepted += 1;
            assert!(b.estimated_size() <= cap, "estimated size above capacity");
        }
    }
    assert!(accepted > 0);
    assert!(accepted < 26, "a 40-byte block cannot hold all 26 entries");
}

#[test]
fn full_builder_refuses_and_keeps_state() {
    let mut b = BlockBuilder::new(20);
    assert!(b.add(b"a", b"1"));
    let before = b.estimated_size();
    // entry needs 3 + 9 + 6 = 18 more bytes, past the 20-byte cap
    assert!(!b.add(b"big", b"123456789"));
    assert_eq!(b.estimated_size(), before);
}

#[test]
fn first_entry_always_admitted() {
    let mut b = BlockBuilder::new(10);
    assert!(b.is_empty());
    assert!(b.add(b"quite-a-long-key", b"and-a-long-value"));
    assert!(!b.is_empty());
    assert!(b.estimated_size() > 10);
    // the second entry is held to the capacity again
    assert!(!b.add(b"x", b"y"));
}

#[test]
fn single_entry_block() {
    let mut b = BlockBuilder::new(64);
    assert!(b.add(b"", b"")); // empty key and value are representable
    let block = b.build();
    assert_eq!(block.data, vec![0, 0, 0, 0]);
    assert_eq!(block.offsets, vec![0]);
}
