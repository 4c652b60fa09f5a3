use vstd::prelude::*;
use vstd::slice::slice_to_vec;
use std::collections::HashMap;
use crate::codec::{Error, Sc3String, append_bytes};

verus! {

broadcast use vstd::std_specs::hash::group_hash_axioms;

/// The magic tag that opens a script container.
pub open spec fn magic() -> Seq<u8> {
    seq![0x53u8, 0x43u8, 0x33u8, 0x00u8]
}

/// The little-endian 32-bit value at `i`.
pub open spec fn le32(s: Seq<u8>, i: int) -> u32 {
    (s[i] as int + s[i + 1] as int * 0x100 + s[i + 2] as int * 0x10000 + s[i + 3] as int
        * 0x1000000) as u32
}

/// Little-endian bytes of a 32-bit value.
pub open spec fn le32_bytes(v: u32) -> Seq<u8> {
    seq![
        (v as int % 0x100) as u8,
        (v as int / 0x100 % 0x100) as u8,
        (v as int / 0x10000 % 0x100) as u8,
        (v as int / 0x1000000) as u8,
    ]
}

/// The little-endian bytes of a sequence of 32-bit values.
pub open spec fn le32_all(v: Seq<u32>) -> Seq<u8>
    decreases v.len(),
{
    if v.len() == 0 {
        Seq::empty()
    } else {
        le32_all(v.drop_last()) + le32_bytes(v.last())
    }
}

/// Byte range `[start, end)` of slot `i`: from its offset to the next
/// slot's offset, or to the end of the file for the last slot.
pub open spec fn slot_range(offsets: Seq<u32>, eof: u32, i: int) -> (u32, u32) {
    if i + 1 < offsets.len() {
        (offsets[i], offsets[i + 1])
    } else {
        (offsets[i], eof)
    }
}

/// The location of one slot in the file at the time it was looked up.
#[derive(Debug, Clone, Copy, PartialEq, Eq, Structural)]
pub struct StringHandle {
    pub start: u32,
    pub end: u32,
}

impl StringHandle {
    /// Number of bytes in the slot's range (none when the range is inverted).
    pub fn size(&self) -> (r: usize)
        ensures
            r == if self.end > self.start {
                self.end - self.start
            } else {
                0
            },
    {
        if self.end > self.start {
            (self.end - self.start) as usize
        } else {
            0
        }
    }
}

/// The offsets of a script's string slots and the end of its file.
#[derive(Debug, Clone)]
pub struct StringIndex {
    offsets: Vec<u32>,
    eof: u32,
}

impl View for StringIndex {
    type V = (Seq<u32>, u32);

    closed spec fn view(&self) -> (Seq<u32>, u32) {
        (self.offsets@, self.eof)
    }
}

impl StringIndex {
    pub fn new(offsets: Vec<u32>, eof: u32) -> (r: Self)
        ensures
            r@ == (offsets@, eof),
    {
        StringIndex { offsets, eof }
    }

    /// A reader of the slots' handles, from the first slot.
    pub fn iter(&self) -> (r: StringIndexIter<'_>)
        ensures
            r.index == self,
            r.pos == 0,
    {
        StringIndexIter { index: self, pos: 0 }
    }

    /// Number of slots.
    pub fn count(&self) -> (r: usize)
        ensures
            r == self@.0.len(),
    {
        self.offsets.len()
    }

    /// The handle of slot `index`, or `None` past the last slot.
    pub fn get(&self, index: usize) -> (r: Option<StringHandle>)
        ensures
            match r {
                Some(h) => index < self@.0.len() && (h.start, h.end) == slot_range(
                    self@.0,
                    self@.1,
                    index as int,
                ),
                None => index >= self@.0.len(),
            },
    {
        if index < self.offsets.len() {
            if index < self.offsets.len() - 1 {
                Some(StringHandle { start: self.offsets[index], end: self.offsets[index + 1] })
            } else {
                Some(StringHandle { start: self.offsets[index], end: self.eof })
            }
        } else {
            None
        }
    }
}

/// Hands out the handles of an index's slots in order.
pub struct StringIndexIter<'a> {
    pub index: &'a StringIndex,
    pub pos: usize,
}

impl<'a> StringIndexIter<'a> {
    /// The handle of the next slot, or `None` after the last one.
    pub fn next(&mut self) -> (r: Option<StringHandle>)
        ensures
            final(self).index == old(self).index,
            match r {
                Some(h) => old(self).pos < old(self).index@.0.len() && (h.start, h.end)
                    == slot_range(old(self).index@.0, old(self).index@.1, old(self).pos as int)
                    && final(self).pos == old(self).pos + 1,
                None => old(self).pos >= old(self).index@.0.len() && final(self).pos == old(
                    self,
                ).pos,
            },
    {
        let n = self.index.count();
        let next = self.index.get(self.pos);
        if next.is_some() {
            self.pos = self.pos + 1;
        }
        next
    }
}

/// The little-endian 32-bit value at `i`.
fn read_le32(s: &[u8], i: usize) -> (r: u32)
    requires
        i + 4 <= s@.len(),
    ensures
        r == le32(s@, i as int),
{
    s[i] as u32 + s[i + 1] as u32 * 0x100 + s[i + 2] as u32 * 0x10000 + s[i + 3] as u32
        * 0x1000000
}

/// Reads the 12-byte header: the magic tag, then the start and the end of
/// the string offset table.
pub fn parse_header(header: &[u8]) -> (r: Result<(u32, u32), Error>)
    ensures
        match r {
            Ok((start, end)) => header@.len() >= 12 && header@.take(4) == magic() && start == le32(
                header@,
                4,
            ) && end == le32(header@, 8),
            Err(e) => e == Error::UnrecognizedFormat && !(header@.len() >= 12 && header@.take(4)
                == magic()),
        },
{
    if header.len() < 12 || header[0] != 0x53 || header[1] != 0x43 || header[2] != 0x33
        || header[3] != 0 {
        proof {
            if header@.len() >= 12 && header@.take(4) == magic() {
                assert(header@[0] == header@.take(4)[0]);
                assert(header@[1] == header@.take(4)[1]);
                assert(header@[2] == header@.take(4)[2]);
                assert(header@[3] == header@.take(4)[3]);
            }
        }
        return Err(Error::UnrecognizedFormat);
    }
    assert(header@.take(4) =~= magic());
    Ok((read_le32(header, 4), read_le32(header, 8)))
}

/// Reads the offset table: one little-endian 32-bit offset for each whole
/// group of four bytes; trailing bytes that make no whole group are ignored.
pub fn parse_offsets(table: &[u8]) -> (r: Vec<u32>)
    ensures
        r@.len() == table@.len() / 4,
        forall|k: int| 0 <= k < r@.len() ==> #[trigger] r@[k] == le32(table@, 4 * k),
{
    let mut r: Vec<u32> = Vec::new();
    let len = table.len();
    let n = len / 4;
    let mut k: usize = 0;
    while k < n
        invariant
            len == table@.len(),
            n == len / 4,
            k <= n,
            r@.len() == k,
            forall|j: int| 0 <= j < k ==> #[trigger] r@[j] == le32(table@, 4 * j),
        decreases n - k,
    {
        assert(4 * k + 4 <= table@.len());
        r.push(read_le32(table, 4 * k));
        k = k + 1;
    }
    r
}

/// The bytes of each slot.
pub open spec fn slot_bytes(lines: Seq<Sc3String>) -> Seq<Seq<u8>> {
    lines.map_values(|l: Sc3String| l@)
}

/// The slots' bytes laid end to end.
pub open spec fn concat(ls: Seq<Seq<u8>>) -> Seq<u8>
    decreases ls.len(),
{
    if ls.len() == 0 {
        Seq::empty()
    } else {
        concat(ls.drop_last()) + ls.last()
    }
}

/// Sum of the slots' byte lengths.
pub open spec fn total_len(ls: Seq<Seq<u8>>) -> int
    decreases ls.len(),
{
    if ls.len() == 0 {
        0
    } else {
        total_len(ls.drop_last()) + ls.last().len()
    }
}

/// Offsets of slots laid end to end from `start`.
pub open spec fn packed_offsets(start: u32, ls: Seq<Seq<u8>>, offsets: Seq<u32>) -> bool {
    &&& offsets.len() == ls.len()
    &&& forall|i: int| 0 <= i < ls.len() ==> #[trigger] offsets[i] == start + total_len(ls.take(i))
}

proof fn lemma_concat_len(ls: Seq<Seq<u8>>)
    ensures
        concat(ls).len() == total_len(ls),
    decreases ls.len(),
{
    if ls.len() > 0 {
        lemma_concat_len(ls.drop_last());
    }
}

proof fn lemma_total_len_monotone(ls: Seq<Seq<u8>>, i: int, j: int)
    requires
        0 <= i <= j <= ls.len(),
    ensures
        total_len(ls.take(i)) <= total_len(ls.take(j)),
    decreases j - i,
{
    if i < j {
        lemma_total_len_monotone(ls, i, j - 1);
        assert(ls.take(j).drop_last() =~= ls.take(j - 1));
    }
}

/// The contents of every slot once `changes` are applied: the new bytes of
/// each changed slot, the current bytes of the others.
pub fn merge_changes(current: Vec<Sc3String>, changes: &HashMap<usize, Sc3String>) -> (r: Vec<
    Sc3String,
>)
    ensures
        r@.len() == current@.len(),
        forall|i: int|
            0 <= i < r@.len() ==> #[trigger] r@[i]@ == if changes@.contains_key(i as usize) {
                changes@[i as usize]@
            } else {
                current@[i]@
            },
{
    let mut r: Vec<Sc3String> = Vec::new();
    let mut i: usize = 0;
    while i < current.len()
        invariant
            i <= current@.len(),
            r@.len() == i,
            forall|j: int|
                0 <= j < i ==> #[trigger] r@[j]@ == if changes@.contains_key(j as usize) {
                    changes@[j as usize]@
                } else {
                    current@[j]@
                },
        decreases current@.len() - i,
    {
        let line = match changes.get(&i) {
            Some(s) => Sc3String(slice_to_vec(s.0.as_slice())),
            None => Sc3String(slice_to_vec(current[i].0.as_slice())),
        };
        r.push(line);
        i = i + 1;
    }
    r
}

/// Lays the slots end to end from `heap_start`: the offset of each slot and
/// the heap's bytes; `None` when the heap would end past the 32-bit range.
pub fn layout_heap(heap_start: u32, lines: &Vec<Sc3String>) -> (r: Option<(Vec<u32>, Vec<u8>)>)
    ensures
        match r {
            Some((offsets, heap)) => heap@ == concat(slot_bytes(lines@)) && heap_start
                + heap@.len() <= u32::MAX && packed_offsets(
                heap_start,
                slot_bytes(lines@),
                offsets@,
            ),
            None => heap_start + total_len(slot_bytes(lines@)) > u32::MAX,
        },
{
    let ghost ls = slot_bytes(lines@);
    let mut offsets: Vec<u32> = Vec::new();
    let mut heap: Vec<u8> = Vec::new();
    let mut acc: u32 = heap_start;
    let mut i: usize = 0;
    while i < lines.len()
        invariant
            ls == slot_bytes(lines@),
            i <= lines@.len(),
            offsets@.len() == i,
            heap@ == concat(ls.take(i as int)),
            acc == heap_start + total_len(ls.take(i as int)),
            forall|j: int| 0 <= j < i ==> #[trigger] offsets@[j] == heap_start + total_len(ls.take(j)),
        decreases lines@.len() - i,
    {
        proof {
            assert(ls.take(i as int + 1).drop_last() =~= ls.take(i as int));
            assert(ls[i as int] == lines@[i as int]@);
        }
        let n = lines[i].0.len();
        if n as u64 > (u32::MAX - acc) as u64 {
            proof {
                lemma_total_len_monotone(ls, i as int + 1, ls.len() as int);
                assert(ls.take(ls.len() as int) =~= ls);
            }
            return None;
        }
        offsets.push(acc);
        append_bytes(&mut heap, lines[i].0.as_slice());
        acc = acc + n as u32;
        i = i + 1;
    }
    proof {
        assert(ls.take(ls.len() as int) =~= ls);
        lemma_concat_len(ls);
    }
    Some((offsets, heap))
}

/// The offset table's bytes: each offset as little-endian 32 bits.
pub fn encode_offsets(offsets: &Vec<u32>) -> (r: Vec<u8>)
    ensures
        r@ == le32_all(offsets@),
{
    let mut r: Vec<u8> = Vec::new();
    let mut i: usize = 0;
    while i < offsets.len()
        invariant
            i <= offsets@.len(),
            r@ == le32_all(offsets@.take(i as int)),
        decreases offsets@.len() - i,
    {
        let v = offsets[i];
        proof {
            assert(offsets@.take(i as int + 1).drop_last() =~= offsets@.take(i as int));
        }
        r.push((v % 0x100) as u8);
        r.push((v / 0x100 % 0x100) as u8);
        r.push((v / 0x10000 % 0x100) as u8);
        r.push((v / 0x1000000) as u8);
        assert(r@ =~= le32_all(offsets@.take(i as int + 1)));
        i = i + 1;
    }
    assert(offsets@.take(offsets@.len() as int) =~= offsets@);
    r
}

/// After a rewrite the offsets run from the heap's start without going
/// back, each slot's range in the new index is exactly its bytes, and the
/// file ends where the slots' lengths add up to.
pub proof fn lemma_rewrite_layout(heap_start: u32, ls: Seq<Seq<u8>>, offsets: Seq<u32>, heap: Seq<u8>)
    requires
        packed_offsets(heap_start, ls, offsets),
        heap == concat(ls),
        heap_start + heap.len() <= u32::MAX,
    ensures
        ls.len() > 0 ==> offsets[0] == heap_start,
        forall|i: int, j: int| 0 <= i <= j < offsets.len() ==> offsets[i] <= offsets[j],
        heap.len() == total_len(ls),
        forall|i: int|
            0 <= i < ls.len() ==> #[trigger] slot_range(offsets, (heap_start + heap.len()) as u32, i)
                == (offsets[i], (offsets[i] + ls[i].len()) as u32),
{
    lemma_concat_len(ls);
    if ls.len() > 0 {
        assert(ls.take(0) =~= Seq::<Seq<u8>>::empty());
    }
    assert forall|i: int, j: int| 0 <= i <= j < offsets.len() implies offsets[i] <= offsets[j] by {
        lemma_total_len_monotone(ls, i, j);
    }
    assert forall|i: int| 0 <= i < ls.len() implies #[trigger] slot_range(
        offsets,
        (heap_start + heap.len()) as u32,
        i,
    ) == (offsets[i], (offsets[i] + ls[i].len()) as u32) by {
        assert(ls.take(i + 1).drop_last() =~= ls.take(i));
        assert(ls.take(i + 1).last() == ls[i]);
        lemma_total_len_monotone(ls, i + 1, ls.len() as int);
        assert(ls.take(ls.len() as int) =~= ls);
    }
}

} // verus!
