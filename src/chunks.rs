use vstd::prelude::*;
use std::ops::Range;

verus! {

/// The bytes of the first chunk at or after position `i` whose range is
/// exactly `[start, end)`.
pub open spec fn chunk_from(s: Seq<(u64, u64, Seq<u8>)>, start: u64, end: u64, i: int) -> Option<Seq<u8>>
    decreases s.len() - i,
{
    if i < 0 || i >= s.len() {
        None
    } else if s[i].0 == start && s[i].1 == end {
        Some(s[i].2)
    } else {
        chunk_from(s, start, end, i + 1)
    }
}

/// The end of the first chunk at or after position `i` that starts at `offset`.
pub open spec fn end_from(s: Seq<(u64, u64, Seq<u8>)>, offset: u64, i: int) -> Option<u64>
    decreases s.len() - i,
{
    if i < 0 || i >= s.len() {
        None
    } else if s[i].0 == offset {
        Some(s[i].1)
    } else {
        end_from(s, offset, i + 1)
    }
}

/// Pieces of a binary's contents, each placed at its file offset.
pub struct BinaryChunks {
    chunks: Vec<(u64, u64, Vec<u8>)>,
}

impl BinaryChunks {
    /// Each chunk as (start, end, bytes).
    pub closed spec fn view(&self) -> Seq<(u64, u64, Seq<u8>)> {
        self.chunks@.map_values(|c: (u64, u64, Vec<u8>)| (c.0, c.1, c.2@))
    }

    pub fn new() -> (r: Self)
        ensures
            r@ == Seq::<(u64, u64, Seq<u8>)>::empty(),
    {
        BinaryChunks { chunks: Vec::new() }
    }

    pub fn len(&self) -> (r: usize)
        ensures
            r == self@.len(),
    {
        self.chunks.len()
    }

    /// Adds the bytes found at `offset`; they cover `[offset, offset + len)`.
    pub fn add(&mut self, offset: u64, bytes: Vec<u8>)
        requires
            offset + bytes@.len() <= u64::MAX,
        ensures
            final(self)@ == old(self)@.push((offset, (offset + bytes@.len()) as u64, bytes@)),
    {
        let end = offset + bytes.len() as u64;
        self.chunks.push((offset, end, bytes));
        proof {
            assert(self@ =~= old(self)@.push((offset, end, bytes@)));
        }
    }

    /// Range of the first chunk that starts at `offset`.
    pub fn range_by_offset(&self, offset: u64) -> (r: Option<Range<u64>>)
        ensures
            r matches Some(range) ==> exists|i: int|
                0 <= i < self@.len() && #[trigger] self@[i].0 == offset && range.start == offset
                    && range.end == self@[i].1,
            r is None <==> forall|i: int| 0 <= i < self@.len() ==> #[trigger] self@[i].0 != offset,
            r matches Some(range) ==> end_from(self@, offset, 0) == Some(range.end),
            r is None ==> end_from(self@, offset, 0) is None,
    {
        let mut i: usize = 0;
        while i < self.chunks.len()
            invariant
                i <= self@.len(),
                self@.len() == self.chunks@.len(),
                forall|q: int| 0 <= q < i ==> #[trigger] self@[q].0 != offset,
                end_from(self@, offset, 0) == end_from(self@, offset, i as int),
            decreases self@.len() - i,
        {
            if self.chunks[i].0 == offset {
                assert(self@[i as int].0 == offset);
                return Some(offset..self.chunks[i].1);
            }
            i = i + 1;
        }
        None
    }

    /// Bytes of the first chunk whose range is exactly `[start, end)`.
    pub fn get(&self, start: u64, end: u64) -> (r: Option<&Vec<u8>>)
        ensures
            r matches Some(b) ==> exists|i: int|
                0 <= i < self@.len() && #[trigger] self@[i].0 == start && self@[i].1 == end && b@ == self@[i].2,
            r is None <==> forall|i: int|
                0 <= i < self@.len() ==> !(#[trigger] self@[i].0 == start && self@[i].1 == end),
            r matches Some(b) ==> chunk_from(self@, start, end, 0) == Some(b@),
            r is None ==> chunk_from(self@, start, end, 0) is None,
    {
        let mut i: usize = 0;
        while i < self.chunks.len()
            invariant
                i <= self@.len(),
                self@.len() == self.chunks@.len(),
                forall|q: int| 0 <= q < i ==> !(#[trigger] self@[q].0 == start && self@[q].1 == end),
                chunk_from(self@, start, end, 0) == chunk_from(self@, start, end, i as int),
            decreases self@.len() - i,
        {
            if self.chunks[i].0 == start && self.chunks[i].1 == end {
                assert(self@[i as int].0 == start);
                return Some(&self.chunks[i].2);
            }
            i = i + 1;
        }
        None
    }

    /// Drops every chunk.
    pub fn clear(&mut self)
        ensures
            final(self)@ == Seq::<(u64, u64, Seq<u8>)>::empty(),
    {
        self.chunks = Vec::new();
        proof {
            assert(self@ =~= Seq::<(u64, u64, Seq<u8>)>::empty());
        }
    }
}

} // verus!
