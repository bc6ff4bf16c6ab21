//! The heap: an append-only byte store holding variable-size records
//! addressed by absolute byte offsets ("pointers"), plus the NIL sentinel.
//!
//! "Allocation" is purely "append at the current end, and the offset where
//! the record began is its pointer": there is no free list, no compaction
//! and no record deletion. Opening, reading and writing an actual file is a
//! caller's concern; the store itself is a byte vector and a read cursor.

use vstd::prelude::*;

verus! {

/// The sentinel pointer value meaning "absent".
pub const NIL: i64 = -1;

/// A random-access byte store with a read cursor.
///
/// Records are appended to `source` (the writer obtains the end offset
/// first, as the new record's pointer) and decoded by seeking the cursor
/// to a stored pointer and reading from there.
pub struct Heap {
    /// The raw bytes of the store.
    pub source: Vec<u8>,
    /// The read cursor: the next decode starts here.
    pub pos: usize,
}

impl Heap {
    /// A store over the given bytes, with the cursor at the start.
    pub fn new(source: Vec<u8>) -> (h: Heap)
        ensures
            h.source@ == source@,
            h.pos == 0,
    {
        Heap { source, pos: 0 }
    }

    /// Moves the read cursor to an absolute byte offset.
    pub fn seek(&mut self, start_offset: usize)
        ensures
            final(self).source@ == old(self).source@,
            final(self).pos == start_offset,
    {
        self.pos = start_offset;
    }

    /// Returns the current end-of-store offset: the pointer a record
    /// appended now would receive. Also leaves the cursor there.
    pub fn alloc_end(&mut self) -> (r: usize)
        ensures
            final(self).source@ == old(self).source@,
            r == old(self).source@.len(),
            final(self).pos == r,
    {
        let end = self.source.len();
        self.pos = end;
        end
    }
}

} // verus!
