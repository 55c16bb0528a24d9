//! An ordered, concurrently shared table of live key-value edits.
//!
//! The table is backed by a lock-free skip list shared by reference: every
//! range cursor derived from the table holds its own handle and keeps the
//! backing structure alive. A zero-length value marks a tombstone — a logical
//! deletion, distinct from absence — so reads distinguish three outcomes. A
//! range cursor is weakly consistent: it walks the live structure by
//! repeatedly asking for the first entry past its last-seen key, so entries
//! ahead of it may appear or disappear under concurrent writers, while keys
//! already behind it are never revisited.

use vstd::prelude::*;
use std::sync::Arc;
use crossbeam_skiplist::SkipMap;
use crate::iterators::{Error, StorageIterator};
use crate::keys::{bytes_eq, bytes_lt, copy_bytes, lex_le, lex_lt, lemma_lex_le_lt_trans, lemma_lex_le_trans, lemma_lex_total, slice_to_vec};

verus! {

#[verifier::external_type_specification]
#[verifier::external_body]
#[verifier::reject_recursive_types(K)]
#[verifier::reject_recursive_types(V)]
pub struct ExSkipMap<K, V>(SkipMap<K, V>);

/// A shared handle to the skip list backing a mem-table.
pub type SharedMap = Arc<SkipMap<Vec<u8>, Vec<u8>>>;

/// The key-value entries the skip list currently holds.
pub uninterp spec fn map_contents(m: SharedMap) -> Map<Seq<u8>, Seq<u8>>;

/// Relies on crossbeam_skiplist::SkipMap::new: a fresh map holds no entry.
/// The Arc only wraps the new map for shared ownership.
#[verifier::external_body]
fn map_new() -> (r: SharedMap)
    ensures
        (map_contents(r) == Map::<Seq<u8>, Seq<u8>>::empty()),
{
    Arc::new(SkipMap::new())
}

/// Relies on crossbeam_skiplist::SkipMap::insert: inserts the pair, removing
/// any existing entry with this key first, so it overwrites.
#[verifier::external_body]
fn map_insert(m: &mut SharedMap, key: Vec<u8>, value: Vec<u8>)
    ensures
        map_contents(*final(m)) == map_contents(*old(m)).insert(key@, value@),
{
    m.insert(key, value);
}

/// Relies on crossbeam_skiplist::SkipMap::get: returns the entry at exactly
/// this key, or nothing when the key is absent.
#[verifier::external_body]
fn map_get(m: &SharedMap, key: &[u8]) -> (r: Option<Vec<u8>>)
    ensures
        r matches Some(v) ==> map_contents(*m).contains_key(key@) && v@ == map_contents(*m)[key@],
        r is None ==> !map_contents(*m).contains_key(key@),
{
    m.get(key).map(|e| e.value().clone())
}

/// Relies on crossbeam_skiplist::SkipMap::is_empty.
#[verifier::external_body]
fn map_is_empty(m: &SharedMap) -> (r: bool)
    ensures
        r == (map_contents(*m) == Map::<Seq<u8>, Seq<u8>>::empty()),
{
    m.is_empty()
}

/// Relies on crossbeam_skiplist::SkipMap::lower_bound, which returns the
/// lowest entry whose key is above the given bound. Because the structure is
/// concurrently shared, the contract claims only what holds of every
/// outcome: any entry handed back satisfies the bound.
#[verifier::external_body]
fn map_seek(m: &SharedMap, b: &Bound) -> (r: Option<(Vec<u8>, Vec<u8>)>)
    ensures
        r matches Some(p) ==> in_lower(p.0@, *b),
{
    let sb = match b {
        Bound::Included(x) => std::ops::Bound::Included(x),
        Bound::Excluded(x) => std::ops::Bound::Excluded(x),
        Bound::Unbounded => std::ops::Bound::Unbounded,
    };
    m.lower_bound(sb).map(|e| (e.key().clone(), e.value().clone()))
}

/// Relies on crossbeam_skiplist::SkipMap::lower_bound, as `map_seek` does,
/// but with the exact contract over the contents: the least entry whose key
/// lies above the bound, or nothing when no held key does. It is called
/// only on the table's own handle, which verified code never aliases and
/// mutates — a cursor's cloned handle, whose underlying structure the table
/// changes behind it, gets the weak `map_seek` instead.
#[verifier::external_body]
fn map_seek_first(m: &SharedMap, b: &Bound) -> (r: Option<(Vec<u8>, Vec<u8>)>)
    ensures
        r matches Some(p) ==> {
            &&& in_lower(p.0@, *b)
            &&& map_contents(*m).contains_key(p.0@)
            &&& map_contents(*m)[p.0@] == p.1@
            &&& forall|k: Seq<u8>|
                #[trigger] map_contents(*m).contains_key(k) && in_lower(k, *b) ==> !lex_lt(k, p.0@)
        },
        r is None ==> (forall|k: Seq<u8>|
            #[trigger] map_contents(*m).contains_key(k) ==> !in_lower(k, *b)),
{
    let sb = match b {
        Bound::Included(x) => std::ops::Bound::Included(x),
        Bound::Excluded(x) => std::ops::Bound::Excluded(x),
        Bound::Unbounded => std::ops::Bound::Unbounded,
    };
    m.lower_bound(sb).map(|e| (e.key().clone(), e.value().clone()))
}

/// Relies on std::sync::Arc::clone: the handle shares the same underlying
/// map; nothing is assumed of the entries seen through it.
#[verifier::external_body]
fn clone_map(m: &SharedMap) -> (r: SharedMap)
{
    Arc::clone(m)
}

/// One end of a scan range, each end independently inclusive, exclusive or
/// absent.
pub enum Bound {
    Included(Vec<u8>),
    Excluded(Vec<u8>),
    Unbounded,
}

/// Whether `k` lies at or past the range's lower end `b`.
pub open spec fn in_lower(k: Seq<u8>, b: Bound) -> bool {
    match b {
        Bound::Included(x) => lex_le(x@, k),
        Bound::Excluded(x) => lex_lt(x@, k),
        Bound::Unbounded => true,
    }
}

/// Whether `k` lies at or before the range's upper end `b`.
pub open spec fn in_upper(k: Seq<u8>, b: Bound) -> bool {
    match b {
        Bound::Included(x) => lex_le(k, x@),
        Bound::Excluded(x) => lex_lt(k, x@),
        Bound::Unbounded => true,
    }
}

/// Decides `in_upper`.
fn below_upper(k: &Vec<u8>, b: &Bound) -> (r: bool)
    ensures
        r == in_upper(k@, *b),
{
    match b {
        Bound::Included(x) => bytes_lt(k, x) || bytes_eq(k, x),
        Bound::Excluded(x) => bytes_lt(k, x),
        Bound::Unbounded => true,
    }
}

/// Turns a probe's outcome into a cursor's cached entry: the probed entry
/// itself when it lies within the range's upper end, the exhausted
/// sentinel — an empty pair — otherwise.
fn prime_item(probe: Option<(Vec<u8>, Vec<u8>)>, upper: &Bound) -> (r: (Vec<u8>, Vec<u8>))
    ensures
        probe matches Some(p) ==> (if in_upper(p.0@, *upper) {
            r.0@ == p.0@ && r.1@ == p.1@
        } else {
            r.0@.len() == 0
        }),
        probe is None ==> r.0@.len() == 0,
        r.0@.len() > 0 ==> in_upper(r.0@, *upper),
{
    match probe {
        Some((kk, vv)) => {
            if below_upper(&kk, upper) {
                (kk, vv)
            } else {
                (Vec::new(), Vec::new())
            }
        },
        None => (Vec::new(), Vec::new()),
    }
}

/// The three-way outcome of a point read: the key holds a live value, the
/// key was deleted, or the key was never written.
#[derive(Debug)]
pub enum GetResult {
    Tombstoned,
    Found(Vec<u8>),
    Missing,
}

impl PartialEq for GetResult {
    fn eq(&self, other: &GetResult) -> (r: bool) {
        match (self, other) {
            (GetResult::Tombstoned, GetResult::Tombstoned) => true,
            (GetResult::Missing, GetResult::Missing) => true,
            (GetResult::Found(a), GetResult::Found(b)) => bytes_eq(a, b),
            _ => false,
        }
    }
}

impl vstd::std_specs::cmp::PartialEqSpecImpl for GetResult {
    open spec fn obeys_eq_spec() -> bool {
        true
    }

    open spec fn eq_spec(&self, other: &GetResult) -> bool {
        match (self, other) {
            (GetResult::Tombstoned, GetResult::Tombstoned) => true,
            (GetResult::Missing, GetResult::Missing) => true,
            (GetResult::Found(a), GetResult::Found(b)) => a@ == b@,
            _ => false,
        }
    }
}

/// How a point read classifies the table's contents at one key: `Found`
/// exactly for a live, non-empty value, `Tombstoned` exactly for a recorded
/// empty value, `Missing` exactly for an absent key.
pub open spec fn classified(m: Map<Seq<u8>, Seq<u8>>, k: Seq<u8>, r: GetResult) -> bool {
    match r {
        GetResult::Tombstoned => m.contains_key(k) && m[k].len() == 0,
        GetResult::Found(v) => m.contains_key(k) && v@ == m[k] && v@.len() > 0,
        GetResult::Missing => !m.contains_key(k),
    }
}

/// Tombstone semantics: writing an empty value for a key and then reading
/// that key yields `Tombstoned` — never `Found` of an empty value, and never
/// `Missing`.
pub proof fn lemma_tombstone_read(m: Map<Seq<u8>, Seq<u8>>, k: Seq<u8>, r: GetResult)
    requires
        classified(m.insert(k, Seq::empty()), k, r),
    ensures
        r is Tombstoned,
{
}

/// An in-memory ordered table of the most recent, not-yet-persisted writes.
/// Its view is the map of entries it holds, tombstones included.
pub struct MemTable {
    map: SharedMap,
    id: usize,
    approximate_size: usize,
}

impl View for MemTable {
    type V = Map<Seq<u8>, Seq<u8>>;

    closed spec fn view(&self) -> Map<Seq<u8>, Seq<u8>> {
        map_contents(self.map)
    }
}

impl MemTable {
    /// Immutable numeric identity given at creation.
    pub closed spec fn spec_id(&self) -> usize {
        self.id
    }

    /// Running byte count of every inserted key and value; an overwrite
    /// counts its entry again, deliberately, so the figure is approximate.
    pub closed spec fn spec_approximate_size(&self) -> int {
        self.approximate_size as int
    }

    /// A new, empty table.
    pub fn create(id: usize) -> (r: MemTable)
        ensures
            r@ == Map::<Seq<u8>, Seq<u8>>::empty(),
            r.spec_id() == id,
            r.spec_approximate_size() == 0,
    {
        MemTable { map: map_new(), id, approximate_size: 0 }
    }

    /// Reads one key, telling a live value, a tombstone and an absent key
    /// apart.
    pub fn get(&self, key: &[u8]) -> (r: GetResult)
        ensures
            classified(self@, key@, r),
    {
        match map_get(&self.map, key) {
            Some(v) => {
                if v.len() == 0 {
                    GetResult::Tombstoned
                } else {
                    GetResult::Found(v)
                }
            },
            None => GetResult::Missing,
        }
    }

    /// Copies the pair into owned storage and inserts it, overwriting any
    /// prior value for the key. An empty value records a tombstone. The size
    /// counter grows by the pair's byte count — saturating at the machine
    /// limit — and in particular never shrinks.
    pub fn put(&mut self, key: &[u8], value: &[u8]) -> (r: Result<(), Error>)
        ensures
            r is Ok,
            final(self)@ == old(self)@.insert(key@, value@),
            final(self).spec_id() == old(self).spec_id(),
            final(self).spec_approximate_size() == if old(self).spec_approximate_size()
                + key@.len() + value@.len() <= usize::MAX {
                old(self).spec_approximate_size() + key@.len() + value@.len()
            } else {
                usize::MAX as int
            },
            old(self).spec_approximate_size() <= final(self).spec_approximate_size(),
    {
        let k = slice_to_vec(key);
        let v = slice_to_vec(value);
        let sz = match self.approximate_size.checked_add(key.len()) {
            Some(s) => s,
            None => usize::MAX,
        };
        let sz = match sz.checked_add(value.len()) {
            Some(s) => s,
            None => usize::MAX,
        };
        self.approximate_size = sz;
        map_insert(&mut self.map, k, v);
        Ok(())
    }

    /// Forces the mirrored write-ahead log to durable storage. This table
    /// carries no log handle, so there is nothing to flush and the call
    /// succeeds trivially.
    pub fn sync_wal(&self) -> (r: Result<(), Error>)
        ensures
            r is Ok,
    {
        Ok(())
    }

    /// A cursor over the keys the range admits, primed to its first entry:
    /// it stands on the least in-range entry the table holds, with its
    /// value, and on nothing exactly when the table holds no in-range key.
    /// The existence half is stated for a table without the empty key,
    /// which the exhausted sentinel cannot tell from a missing entry. The
    /// cursor shares the table by reference and observes the live
    /// structure, not a frozen snapshot.
    pub fn scan(&self, lower: Bound, upper: Bound) -> (r: MemTableIterator)
        ensures
            r.inv(),
            r.spec_upper() == upper,
            r.spec_valid() ==> {
                &&& self@.contains_key(r.spec_key())
                &&& self@[r.spec_key()] == r.spec_value()
                &&& in_lower(r.spec_key(), lower)
                &&& in_upper(r.spec_key(), upper)
                &&& forall|k: Seq<u8>|
                    #[trigger] self@.contains_key(k) && in_lower(k, lower) && in_upper(k, upper)
                        ==> !lex_lt(k, r.spec_key())
            },
            !self@.contains_key(Seq::<u8>::empty()) ==> (r.spec_valid() <==> exists|k: Seq<u8>|
                #[trigger] self@.contains_key(k) && in_lower(k, lower) && in_upper(k, upper)),
    {
        let handle = clone_map(&self.map);
        let first = map_seek_first(&self.map, &lower);
        let ghost first0 = first;
        let ghost upper0 = upper;
        let (ik, iv) = prime_item(first, &upper);
        let r = MemTableIterator { map: handle, upper, item_key: ik, item_value: iv };
        proof {
            if !self@.contains_key(Seq::<u8>::empty()) && (exists|k: Seq<u8>|
                #[trigger] self@.contains_key(k) && in_lower(k, lower) && in_upper(k, upper)) {
                let k = choose|k: Seq<u8>|
                    #[trigger] self@.contains_key(k) && in_lower(k, lower) && in_upper(k, upper);
                match first0 {
                    Some(p) => {
                        assert(!lex_lt(k, p.0@));
                        lemma_lex_total(p.0@, k);
                        match upper0 {
                            Bound::Included(x) => lemma_lex_le_trans(p.0@, k, x@),
                            Bound::Excluded(x) => lemma_lex_le_lt_trans(p.0@, k, x@),
                            Bound::Unbounded => {},
                        }
                        assert(in_upper(p.0@, upper0));
                        if p.0@.len() == 0 {
                            assert(p.0@ =~= Seq::<u8>::empty());
                        }
                        assert(r.spec_valid());
                    },
                    None => {
                        assert(false);
                    },
                }
            }
        }
        r
    }

    pub fn for_testing_put_slice(&mut self, key: &[u8], value: &[u8]) -> (r: Result<(), Error>)
        ensures
            r is Ok,
            final(self)@ == old(self)@.insert(key@, value@),
            final(self).spec_id() == old(self).spec_id(),
            final(self).spec_approximate_size() == if old(self).spec_approximate_size()
                + key@.len() + value@.len() <= usize::MAX {
                old(self).spec_approximate_size() + key@.len() + value@.len()
            } else {
                usize::MAX as int
            },
            old(self).spec_approximate_size() <= final(self).spec_approximate_size(),
    {
        self.put(key, value)
    }

    pub fn for_testing_get_slice(&self, key: &[u8]) -> (r: GetResult)
        ensures
            classified(self@, key@, r),
    {
        self.get(key)
    }

    pub fn for_testing_scan_slice(&self, lower: Bound, upper: Bound) -> (r: MemTableIterator)
        ensures
            r.inv(),
            r.spec_upper() == upper,
            r.spec_valid() ==> {
                &&& self@.contains_key(r.spec_key())
                &&& self@[r.spec_key()] == r.spec_value()
                &&& in_lower(r.spec_key(), lower)
                &&& in_upper(r.spec_key(), upper)
                &&& forall|k: Seq<u8>|
                    #[trigger] self@.contains_key(k) && in_lower(k, lower) && in_upper(k, upper)
                        ==> !lex_lt(k, r.spec_key())
            },
            !self@.contains_key(Seq::<u8>::empty()) ==> (r.spec_valid() <==> exists|k: Seq<u8>|
                #[trigger] self@.contains_key(k) && in_lower(k, lower) && in_upper(k, upper)),
    {
        self.scan(lower, upper)
    }

    pub fn id(&self) -> (r: usize)
        ensures
            r == self.spec_id(),
    {
        self.id
    }

    pub fn approximate_size(&self) -> (r: usize)
        ensures
            r == self.spec_approximate_size(),
    {
        self.approximate_size
    }

    /// True iff the table holds no entry. Reliable only once no concurrent
    /// writer remains.
    pub fn is_empty(&self) -> (r: bool)
        ensures
            r == (self@ == Map::<Seq<u8>, Seq<u8>>::empty()),
    {
        map_is_empty(&self.map)
    }
}

/// A cursor over one range of a mem-table. It holds a handle that keeps the
/// table alive, the range's upper end, and the current entry; an empty key
/// is the exhausted sentinel. It advances by asking the live table for the
/// first entry strictly past its current key, so keys already passed are
/// never revisited.
pub struct MemTableIterator {
    map: SharedMap,
    upper: Bound,
    item_key: Vec<u8>,
    item_value: Vec<u8>,
}

impl MemTableIterator {
    /// The range's upper end, fixed at creation and never changed.
    pub closed spec fn spec_upper(&self) -> Bound {
        self.upper
    }
}

impl StorageIterator for MemTableIterator {
    /// While the cursor stands on an entry, that entry lies within the
    /// range's upper end.
    closed spec fn inv(&self) -> bool {
        self.item_key@.len() > 0 ==> in_upper(self.item_key@, self.upper)
    }

    closed spec fn spec_valid(&self) -> bool {
        self.item_key@.len() > 0
    }

    /// One advance always succeeds; it keeps the range's upper end, leaves
    /// an exhausted cursor exactly as it was, and from an entry moves to a
    /// strictly greater key within the upper end — or to exhaustion. Which
    /// entry comes next depends on the live shared structure, so no more is
    /// determined by the cursor's own state.
    open spec fn advance_rel(pre: Self, post: Self, r: Result<(), Error>) -> bool {
        &&& r is Ok
        &&& post.spec_upper() == pre.spec_upper()
        &&& !pre.spec_valid() ==> post == pre
        &&& pre.spec_valid() && post.spec_valid() ==> lex_lt(pre.spec_key(), post.spec_key())
            && in_upper(post.spec_key(), post.spec_upper())
    }

    closed spec fn spec_key(&self) -> Seq<u8> {
        self.item_key@
    }

    closed spec fn spec_value(&self) -> Seq<u8> {
        self.item_value@
    }

    fn key(&self) -> (r: Vec<u8>) {
        copy_bytes(&self.item_key)
    }

    fn value(&self) -> (r: Vec<u8>) {
        copy_bytes(&self.item_value)
    }

    fn is_valid(&self) -> (r: bool) {
        self.item_key.len() > 0
    }

    /// Advances to the first in-range entry strictly past the current key;
    /// with none left the cursor is exhausted, permanently. This never
    /// fails, the range's upper end never changes, and whatever the cursor
    /// comes to stand on lies within that end.
    fn next(&mut self) -> (r: Result<(), Error>)
        ensures
            r is Ok,
            final(self).spec_upper() == old(self).spec_upper(),
            final(self).spec_valid() ==> in_upper(
                final(self).spec_key(),
                final(self).spec_upper(),
            ),
    {
        if self.item_key.len() == 0 {
            return Ok(());
        }
        let b = Bound::Excluded(copy_bytes(&self.item_key));
        let probe = map_seek(&self.map, &b);
        let (ik, iv) = prime_item(probe, &self.upper);
        self.item_key = ik;
        self.item_value = iv;
        Ok(())
    }
}

} // verus!
