//! Fixed-capacity block encoding of sorted key-value entries.
//!
//! A block holds a data section — the entries, each serialized as
//! `[key_len: u16][key bytes][value_len: u16][value bytes]` with the two
//! length fields big-endian — and an offset table with one `u16` byte offset
//! into the data section per entry, in insertion order. The builder admits
//! entries only while the encoded size (data, offset table, and a trailing
//! `u16` entry count) stays within the capacity fixed at construction; the
//! first entry is admitted regardless of size.

use vstd::prelude::*;

verus! {

/// Width in bytes of the length and offset fields of the encoding.
pub const SIZEOF_U16: usize = 2;

/// Big-endian encoding of a 16-bit length or offset field.
pub open spec fn enc_u16(n: int) -> Seq<u8> {
    seq![(n / 256) as u8, (n % 256) as u8]
}

/// Serialized form of one entry.
pub open spec fn enc_entry(k: Seq<u8>, v: Seq<u8>) -> Seq<u8> {
    enc_u16(k.len() as int) + k + enc_u16(v.len() as int) + v
}

/// Concatenation of the serialized entries, in order.
pub open spec fn enc_entries(es: Seq<(Seq<u8>, Seq<u8>)>) -> Seq<u8>
    decreases es.len(),
{
    if es.len() == 0 {
        Seq::empty()
    } else {
        enc_entries(es.drop_last()) + enc_entry(es.last().0, es.last().1)
    }
}

/// An immutable block: data section, offset table, and the entries they
/// encode, never built empty.
pub struct Block {
    /// Serialized entries, concatenated.
    pub data: Vec<u8>,
    /// Byte offset of each entry in `data`, one per entry, in order.
    pub offsets: Vec<u16>,
    /// The entries the block encodes.
    pub entries: Ghost<Seq<(Seq<u8>, Seq<u8>)>>,
}

impl Block {
    /// The data section is exactly the serialized entries and each offset
    /// marks where its entry's encoding starts.
    pub open spec fn wf(&self) -> bool {
        &&& self.entries@.len() >= 1
        &&& self.offsets@.len() == self.entries@.len()
        &&& self.data@ == enc_entries(self.entries@)
        &&& forall|i: int|
            0 <= i < self.entries@.len() ==> self.offsets@[i] as int == enc_entries(
                self.entries@.take(i),
            ).len()
    }
}

/// Accumulates sorted key-value entries into one block of bounded size.
pub struct BlockBuilder {
    offsets: Vec<u16>,
    data: Vec<u8>,
    block_size: usize,
    entries: Ghost<Seq<(Seq<u8>, Seq<u8>)>>,
}

impl BlockBuilder {
    /// The entries recorded so far.
    pub closed spec fn entries(&self) -> Seq<(Seq<u8>, Seq<u8>)> {
        self.entries@
    }

    /// Capacity ceiling fixed at construction.
    pub closed spec fn spec_block_size(&self) -> int {
        self.block_size as int
    }

    /// Encoded size of the builder's current contents: data section, offset
    /// table, and the trailing entry count.
    pub open spec fn spec_estimated_size(&self) -> int {
        enc_entries(self.entries()).len() + 2 * self.entries().len() + 2int
    }

    pub open spec fn is_empty_spec(&self) -> bool {
        self.entries().len() == 0
    }

    /// Internal consistency: the data section encodes exactly the recorded
    /// entries, the offsets index them, every recorded length fits the `u16`
    /// fields, and past the first entry the capacity ceiling holds.
    pub closed spec fn wf(&self) -> bool {
        &&& self.offsets@.len() == self.entries@.len()
        &&& self.data@ == enc_entries(self.entries@)
        &&& forall|i: int|
            0 <= i < self.entries@.len() ==> self.offsets@[i] as int == enc_entries(
                self.entries@.take(i),
            ).len()
        &&& forall|i: int|
            0 <= i < self.entries@.len() ==> #[trigger] self.entries@[i].0.len() <= 0xFFFF
                && self.entries@[i].1.len() <= 0xFFFF
        &&& self.entries@.len() <= 1 || self.spec_estimated_size() <= self.spec_block_size()
    }

    /// A new builder for a block of at most `block_size` encoded bytes.
    pub fn new(block_size: usize) -> (r: BlockBuilder)
        ensures
            r.wf(),
            r.is_empty_spec(),
            r.spec_block_size() == block_size,
            r.spec_estimated_size() == 2,
    {
        let r = BlockBuilder {
            offsets: Vec::new(),
            data: Vec::new(),
            block_size,
            entries: Ghost(Seq::empty()),
        };
        proof {
            assert(enc_entries(r.entries@) =~= Seq::<u8>::empty());
        }
        r
    }

    /// Encoded size the block would have if built now.
    pub fn estimated_size(&self) -> (r: usize)
        requires
            self.wf(),
        ensures
            r == self.spec_estimated_size(),
    {
        proof {
            if self.entries@.len() == 0 {
                assert(self.data@.len() == 0);
            } else if self.entries@.len() == 1 {
                let es = self.entries@;
                assert(es[0].0.len() <= 0xFFFF && es[0].1.len() <= 0xFFFF);
                assert(enc_entries(es.drop_last()).len() == 0);
                assert(self.data@.len() == enc_entry(es.last().0, es.last().1).len());
            }
        }
        self.data.len() + SIZEOF_U16 * self.offsets.len() + SIZEOF_U16
    }

    /// True iff no entry was recorded yet.
    pub fn is_empty(&self) -> (r: bool)
        requires
            self.wf(),
        ensures
            r == self.is_empty_spec(),
    {
        self.offsets.is_empty()
    }

    /// Tries to record one entry; refuses, changing nothing, when the entry
    /// would push the encoded size past the capacity — except the very first
    /// entry, which is always admitted. Keys are expected to arrive in
    /// strictly ascending order; the builder neither checks nor restores
    /// that, it is the caller's invariant. The length limits come from the
    /// `u16` fields of the encoding; the limit on the data section already
    /// held keeps the next offset representable.
    #[must_use]
    pub fn add(&mut self, key: &[u8], value: &[u8]) -> (r: bool)
        requires
            old(self).wf(),
            key@.len() <= 0xFFFF,
            value@.len() <= 0xFFFF,
            enc_entries(old(self).entries()).len() <= 0xFFFF,
        ensures
            final(self).wf(),
            r == (old(self).is_empty_spec() || old(self).spec_estimated_size() + key@.len()
                + value@.len() + 3 * 2 <= old(self).spec_block_size()),
            !r ==> *final(self) == *old(self),
            r ==> final(self).entries() == old(self).entries().push((key@, value@)),
            r ==> final(self).spec_estimated_size() == old(self).spec_estimated_size()
                + key@.len() + value@.len() + 3 * 2,
            final(self).spec_block_size() == old(self).spec_block_size(),
            r && !old(self).is_empty_spec() ==> final(self).spec_estimated_size()
                <= final(self).spec_block_size(),
    {
        proof {
            lemma_enc_entries_len_bound(self.entries@);
        }
        let size_increase = key.len() + value.len() + 3 * SIZEOF_U16;
        let est = self.estimated_size();
        if !self.is_empty() && est + size_increase > self.block_size {
            return false;
        }
        let ghost old_entries = self.entries@;
        self.offsets.push(self.data.len() as u16);
        push_u16(&mut self.data, key.len() as u16);
        extend_bytes(&mut self.data, key);
        push_u16(&mut self.data, value.len() as u16);
        extend_bytes(&mut self.data, value);
        proof {
            self.entries@ = old_entries.push((key@, value@));
            assert(self.entries@.drop_last() =~= old_entries);
            assert(self.data@ =~= enc_entries(old_entries) + enc_entry(key@, value@));
            assert forall|i: int| 0 <= i < self.entries@.len() implies self.offsets@[i] as int
                == enc_entries(self.entries@.take(i)).len() by {
                if i < old_entries.len() {
                    assert(self.entries@.take(i) =~= old_entries.take(i));
                } else {
                    assert(self.entries@.take(i) =~= old_entries);
                }
            }
        }
        true
    }

    /// Consumes the builder into an immutable block. A block is never built
    /// empty: calling this with no recorded entry is a caller error.
    pub fn build(self) -> (r: Block)
        requires
            self.wf(),
            !self.is_empty_spec(),
        ensures
            r.wf(),
            r.entries@ == self.entries(),
            r.data@ == enc_entries(self.entries()),
    {
        Block { data: self.data, offsets: self.offsets, entries: self.entries }
    }
}

/// Block capacity: once a builder holds more than one entry — that is, any
/// time past the always-admitted first entry — its encoded size is within
/// the capacity fixed at construction, whatever sequence of calls built it.
pub proof fn lemma_capacity_invariant(b: BlockBuilder)
    requires
        b.wf(),
        b.entries().len() >= 2,
    ensures
        b.spec_estimated_size() <= b.spec_block_size(),
{
}

/// The encoding of a list of entries with `u16`-sized lengths is at least 4
/// bytes per entry.
proof fn lemma_enc_entries_len_bound(es: Seq<(Seq<u8>, Seq<u8>)>)
    ensures
        enc_entries(es).len() >= 4 * es.len(),
    decreases es.len(),
{
    if es.len() > 0 {
        lemma_enc_entries_len_bound(es.drop_last());
    }
}

/// Appends the big-endian bytes of `n`.
fn push_u16(data: &mut Vec<u8>, n: u16) -> (r: ())
    ensures
        final(data)@ == old(data)@ + enc_u16(n as int),
{
    data.push((n / 256) as u8);
    data.push((n % 256) as u8);
    proof {
        assert(final(data)@ =~= old(data)@ + enc_u16(n as int));
    }
}

/// Appends a byte slice.
fn extend_bytes(data: &mut Vec<u8>, src: &[u8]) -> (r: ())
    ensures
        final(data)@ == old(data)@ + src@,
{
    let mut i: usize = 0;
    while i < src.len()
        invariant
            i <= src.len(),
            data@ == old(data)@ + src@.take(i as int),
        decreases src.len() - i,
    {
        data.push(src[i]);
        assert(data@ =~= old(data)@ + src@.take(i as int + 1));
        i = i + 1;
    }
    assert(old(data)@ + src@.take(src.len() as int) =~= old(data)@ + src@);
}

} // verus!
