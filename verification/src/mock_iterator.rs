//! A cursor over a fixed, pre-sorted list of entries.
//!
//! It backs the merge iterator's tests: besides walking its list it can be
//! told to fail at a chosen position, which is how error propagation through
//! a merge is exercised.

use vstd::prelude::*;
use crate::iterators::{Error, StorageIterator};
use crate::keys::{copy_bytes, lex_lt};

verus! {

/// A cursor over an owned list of entries whose keys ascend strictly; it can
/// be told to fail when asked to advance away from a chosen position.
pub struct MockIterator {
    data: Vec<(Vec<u8>, Vec<u8>)>,
    index: usize,
    error_when: Option<usize>,
}

/// Keys of the entries ascend strictly.
pub open spec fn entries_sorted(data: Seq<(Vec<u8>, Vec<u8>)>) -> bool {
    forall|i: int, j: int| 0 <= i < j < data.len() ==> lex_lt(#[trigger] data[i].0@, #[trigger] data[j].0@)
}

impl MockIterator {
    /// The entries the cursor was built over.
    pub closed spec fn spec_entries(&self) -> Seq<(Vec<u8>, Vec<u8>)> {
        self.data@
    }

    /// The position the cursor stands on.
    pub closed spec fn spec_pos(&self) -> int {
        self.index as int
    }

    /// The position, if any, an advance away from which fails.
    pub closed spec fn spec_error_when(&self) -> Option<usize> {
        self.error_when
    }

    /// A cursor standing on the first of `data`'s entries, which must be
    /// strictly sorted by key; when `error_when` names a position, asking to
    /// advance away from it fails, repeatedly, without moving.
    pub fn new(data: Vec<(Vec<u8>, Vec<u8>)>, error_when: Option<usize>) -> (r: MockIterator)
        requires
            entries_sorted(data@),
        ensures
            r.inv(),
            r.spec_valid() == (data@.len() > 0),
            data@.len() > 0 ==> r.spec_key() == data@[0].0@ && r.spec_value() == data@[0].1@,
    {
        MockIterator { data, index: 0, error_when }
    }
}

impl StorageIterator for MockIterator {
    closed spec fn inv(&self) -> bool {
        entries_sorted(self.data@)
    }

    /// One advance is fully determined: a run-out cursor stays put and
    /// succeeds; at the designated failure position the advance fails and
    /// moves nothing; anywhere else it steps to the next entry.
    open spec fn advance_rel(pre: Self, post: Self, r: Result<(), Error>) -> bool {
        if pre.spec_pos() >= pre.spec_entries().len() {
            r is Ok && post == pre
        } else if pre.spec_error_when() matches Some(e) && e as int == pre.spec_pos() {
            r is Err && post == pre
        } else {
            &&& r is Ok
            &&& post.spec_entries() == pre.spec_entries()
            &&& post.spec_error_when() == pre.spec_error_when()
            &&& post.spec_pos() == pre.spec_pos() + 1
        }
    }

    closed spec fn spec_valid(&self) -> bool {
        self.index < self.data@.len()
    }

    closed spec fn spec_key(&self) -> Seq<u8> {
        self.data@[self.index as int].0@
    }

    closed spec fn spec_value(&self) -> Seq<u8> {
        self.data@[self.index as int].1@
    }

    fn key(&self) -> (r: Vec<u8>) {
        copy_bytes(&self.data[self.index].0)
    }

    fn value(&self) -> (r: Vec<u8>) {
        copy_bytes(&self.data[self.index].1)
    }

    fn is_valid(&self) -> (r: bool) {
        self.index < self.data.len()
    }

    fn next(&mut self) -> (r: Result<(), Error>) {
        if self.index >= self.data.len() {
            return Ok(());
        }
        match self.error_when {
            Some(e) => {
                if e == self.index {
                    return Err(Error);
                }
            },
            None => {},
        }
        self.index = self.index + 1;
        Ok(())
    }
}

} // verus!
