//! Core of a log-structured-merge key-value storage engine: the fixed-capacity
//! block encoding for persisted entries, an ordered in-memory table of live
//! edits backed by a concurrent skip list, and a k-way merge cursor that fans
//! many sorted sources into one ordered, deduplicated view.

pub mod block;
pub mod iterators;
pub mod keys;
pub mod mem_table;
pub mod merge_iterator;
pub mod mock_iterator;
