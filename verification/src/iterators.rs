//! The cursor abstraction shared by every sorted data source.
//!
//! A cursor stands on one key-value entry of a sorted sequence and only moves
//! forward. While it is valid its key and value may be read; advancing may
//! fail, and a failure is handed back to the caller rather than swallowed.
//! Once a cursor has run out it never becomes valid again.

use vstd::prelude::*;
use crate::keys::lex_lt;

verus! {

/// A recoverable failure reported by advancing a cursor.
#[derive(Debug, Clone, Copy, PartialEq, Eq, Structural)]
pub struct Error;

/// A positionable, advance-only view over a sorted sequence of key-value
/// entries. Keys surface in strictly ascending lexicographic order.
pub trait StorageIterator: Sized {
    /// Internal consistency of the cursor; established by its constructor
    /// and kept by every successful operation.
    spec fn inv(&self) -> bool;

    /// Whether the cursor currently stands on an entry.
    spec fn spec_valid(&self) -> bool;

    /// The key of the current entry.
    spec fn spec_key(&self) -> Seq<u8>;

    /// The value of the current entry.
    spec fn spec_value(&self) -> Seq<u8>;

    /// The exact relation one advance establishes between the cursor's
    /// state before the call, its state after it, and the reported result.
    /// Each cursor type defines its own; `next` promises it, so what an
    /// advance of a given cursor can and cannot leave behind is part of
    /// that cursor's contract.
    spec fn advance_rel(pre: Self, post: Self, r: Result<(), Error>) -> bool;

    /// The key of the current entry. Calling this on an invalid cursor is a
    /// caller error.
    fn key(&self) -> (r: Vec<u8>)
        requires
            self.inv(),
            self.spec_valid(),
        ensures
            r@ == self.spec_key(),
    ;

    /// The value of the current entry. Calling this on an invalid cursor is
    /// a caller error.
    fn value(&self) -> (r: Vec<u8>)
        requires
            self.inv(),
            self.spec_valid(),
        ensures
            r@ == self.spec_value(),
    ;

    /// Whether the cursor currently stands on an entry.
    fn is_valid(&self) -> (r: bool)
        requires
            self.inv(),
        ensures
            r == self.spec_valid(),
    ;

    /// Moves one entry forward. On success the key strictly grows, so no key
    /// is ever surfaced twice; a cursor that has run out stays run out, on
    /// success and on failure alike. A failure is reported without moving
    /// the cursor: it stays consistent, its validity is as before, and if it
    /// stood on an entry it still surfaces the same pair.
    fn next(&mut self) -> (r: Result<(), Error>)
        requires
            old(self).inv(),
        ensures
            Self::advance_rel(*old(self), *final(self), r),
            r is Ok ==> final(self).inv(),
            r is Ok && old(self).spec_valid() && final(self).spec_valid() ==> lex_lt(
                old(self).spec_key(),
                final(self).spec_key(),
            ),
            !old(self).spec_valid() ==> final(self).inv() && !final(self).spec_valid(),
            r is Err ==> final(self).inv() && final(self).spec_valid() == old(self).spec_valid(),
            r is Err && old(self).spec_valid() ==> final(self).spec_key() == old(self).spec_key()
                && final(self).spec_value() == old(self).spec_value(),
    ;
}

} // verus!
