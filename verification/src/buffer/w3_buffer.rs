use crate::buffer::ints::from_le16;
use crate::buffer::ints::from_le32;
use crate::buffer::ints::i16_of_u16;
use crate::buffer::ints::i32_of_u32;
use crate::buffer::ints::spec_from_le16;
use crate::buffer::ints::spec_from_le32;
use crate::buffer::ints::spec_i16_of_u16;
use crate::buffer::ints::spec_i32_of_u32;
use vstd::math::min;
use vstd::prelude::*;
use vstd::slice::slice_index_get;
use vstd::slice::slice_subrange;
use vstd::slice::slice_to_vec;

verus! {

/// The result of scanning for a zero terminator from an offset: the bytes up
/// to (not including) the terminator, the cursor after the scan (past the
/// terminator when one was found), and whether a terminator was found before
/// the end of the buffer.
pub open spec fn spec_read_string(b: Seq<u8>, i: int) -> (Seq<u8>, int, bool)
    decreases b.len() - i,
{
    if 0 <= i < b.len() {
        if b[i] == 0u8 {
            (Seq::<u8>::empty(), i + 1, true)
        } else {
            let (s, j, f) = spec_read_string(b, i + 1);
            (seq![b[i]] + s, j, f)
        }
    } else {
        (Seq::<u8>::empty(), i, false)
    }
}

/// Sequential, offset-tracked, bounds-checked read cursor over an immutable
/// byte buffer. Every multi-byte read reports exhaustion as `None` instead of
/// failing, so decoders surface truncation as a structural error.
pub struct W3Buffer {
    offset: usize,
    buffer: Vec<u8>,
}

impl W3Buffer {
    /// The underlying bytes, which never change after construction.
    pub closed spec fn bytes(&self) -> Seq<u8> {
        self.buffer@
    }

    /// The current read position.
    pub closed spec fn pos(&self) -> int {
        self.offset as int
    }

    /// The cursor stays within the buffer.
    pub open spec fn wf(&self) -> bool {
        0 <= self.pos() <= self.bytes().len()
    }

    pub fn new(buffer: Vec<u8>) -> (r: W3Buffer)
        ensures
            r.bytes() == buffer@,
            r.pos() == 0,
            r.wf(),
    {
        W3Buffer { offset: 0, buffer }
    }

    /// Reads 4 bytes as a little-endian signed integer; `None` when fewer
    /// than 4 bytes remain, leaving the cursor unchanged.
    pub fn read_int(&mut self) -> (r: Option<i32>)
        requires
            old(self).wf(),
        ensures
            final(self).wf(),
            final(self).bytes() == old(self).bytes(),
            old(self).pos() + 4 <= old(self).bytes().len() ==> {
                &&& r == Some(
                    spec_i32_of_u32(
                        spec_from_le32(
                            old(self).bytes().subrange(old(self).pos(), old(self).pos() + 4),
                        ),
                    ),
                )
                &&& final(self).pos() == old(self).pos() + 4
            },
            old(self).pos() + 4 > old(self).bytes().len() ==> r is None && final(self).pos()
                == old(self).pos(),
    {
        if self.buffer.len() - self.offset >= 4 {
            let b0 = *slice_index_get(self.buffer.as_slice(), self.offset);
            let b1 = *slice_index_get(self.buffer.as_slice(), self.offset + 1);
            let b2 = *slice_index_get(self.buffer.as_slice(), self.offset + 2);
            let b3 = *slice_index_get(self.buffer.as_slice(), self.offset + 3);
            proof {
                assert(seq![b0, b1, b2, b3] =~= self.buffer@.subrange(
                    self.offset as int,
                    self.offset + 4,
                ));
            }
            let value = i32_of_u32(from_le32(b0, b1, b2, b3));
            self.offset = self.offset + 4;
            Some(value)
        } else {
            None
        }
    }

    /// Reads 2 bytes as a little-endian signed short; `None` when fewer than
    /// 2 bytes remain, leaving the cursor unchanged.
    pub fn read_short(&mut self) -> (r: Option<i16>)
        requires
            old(self).wf(),
        ensures
            final(self).wf(),
            final(self).bytes() == old(self).bytes(),
            old(self).pos() + 2 <= old(self).bytes().len() ==> {
                &&& r == Some(
                    spec_i16_of_u16(
                        spec_from_le16(
                            old(self).bytes().subrange(old(self).pos(), old(self).pos() + 2),
                        ),
                    ),
                )
                &&& final(self).pos() == old(self).pos() + 2
            },
            old(self).pos() + 2 > old(self).bytes().len() ==> r is None && final(self).pos()
                == old(self).pos(),
    {
        if self.buffer.len() - self.offset >= 2 {
            let b0 = *slice_index_get(self.buffer.as_slice(), self.offset);
            let b1 = *slice_index_get(self.buffer.as_slice(), self.offset + 1);
            proof {
                assert(seq![b0, b1] =~= self.buffer@.subrange(
                    self.offset as int,
                    self.offset + 2,
                ));
            }
            let value = i16_of_u16(from_le16(b0, b1));
            self.offset = self.offset + 2;
            Some(value)
        } else {
            None
        }
    }

    /// Reads 4 bytes as the little-endian bit pattern of an IEEE-754 single
    /// float; `None` when fewer than 4 bytes remain.
    pub fn read_float(&mut self) -> (r: Option<u32>)
        requires
            old(self).wf(),
        ensures
            final(self).wf(),
            final(self).bytes() == old(self).bytes(),
            old(self).pos() + 4 <= old(self).bytes().len() ==> {
                &&& r == Some(
                    spec_from_le32(
                        old(self).bytes().subrange(old(self).pos(), old(self).pos() + 4),
                    ),
                )
                &&& final(self).pos() == old(self).pos() + 4
            },
            old(self).pos() + 4 > old(self).bytes().len() ==> r is None && final(self).pos()
                == old(self).pos(),
    {
        if self.buffer.len() - self.offset >= 4 {
            let b0 = *slice_index_get(self.buffer.as_slice(), self.offset);
            let b1 = *slice_index_get(self.buffer.as_slice(), self.offset + 1);
            let b2 = *slice_index_get(self.buffer.as_slice(), self.offset + 2);
            let b3 = *slice_index_get(self.buffer.as_slice(), self.offset + 3);
            proof {
                assert(seq![b0, b1, b2, b3] =~= self.buffer@.subrange(
                    self.offset as int,
                    self.offset + 4,
                ));
            }
            let value = from_le32(b0, b1, b2, b3);
            self.offset = self.offset + 4;
            Some(value)
        } else {
            None
        }
    }

    /// Reads bytes up to (not including) the next zero byte and consumes the
    /// terminator. Without a terminator the read runs to the end of the
    /// buffer and the cursor stops there.
    pub fn read_string(&mut self) -> (r: Vec<u8>)
        requires
            old(self).wf(),
        ensures
            final(self).wf(),
            final(self).bytes() == old(self).bytes(),
            ({
                let (s, j, f) = spec_read_string(old(self).bytes(), old(self).pos());
                r@ == s && final(self).pos() == j
            }),
    {
        let start_offset = self.offset;
        let ghost sr = spec_read_string(self.buffer@, self.offset as int);
        while self.offset < self.buffer.len() && *slice_index_get(
            self.buffer.as_slice(),
            self.offset,
        ) != 0u8
            invariant
                self.wf(),
                self.buffer@ == old(self).bytes(),
                start_offset == old(self).pos(),
                start_offset <= self.offset,
                sr == spec_read_string(self.buffer@, start_offset as int),
                forall|k: int| start_offset <= k < self.offset ==> self.buffer@[k] != 0u8,
                spec_read_string(self.buffer@, self.offset as int) == (
                sr.0.subrange(
                    self.offset - start_offset,
                    sr.0.len() as int,
                ),
                sr.1,
                sr.2,
                ),
                sr.0.len() >= self.offset - start_offset,
                sr.0.subrange(0, self.offset - start_offset) == self.buffer@.subrange(
                    start_offset as int,
                    self.offset as int,
                ),
            decreases self.buffer@.len() - self.offset,
        {
            proof {
                lemma_read_string_step(self.buffer@, self.offset as int, start_offset as int, sr);
            }
            self.offset = self.offset + 1;
        }
        let end = self.offset;
        proof {
            lemma_read_string_end(self.buffer@, self.offset as int, start_offset as int, sr);
        }
        if self.offset < self.buffer.len() {
            self.offset = self.offset + 1;
        }
        let content = slice_to_vec(slice_subrange(self.buffer.as_slice(), start_offset, end));
        proof {
            assert(content@ =~= sr.0);
        }
        content
    }

    /// Reads exactly `len` bytes, or fewer if the buffer is exhausted first;
    /// short reads are silently truncated, never an error.
    pub fn read_chars(&mut self, len: usize) -> (r: Vec<u8>)
        requires
            old(self).wf(),
        ensures
            final(self).wf(),
            final(self).bytes() == old(self).bytes(),
            final(self).pos() == min(old(self).pos() + len, old(self).bytes().len() as int),
            r@ == old(self).bytes().subrange(old(self).pos(), final(self).pos()),
    {
        let start_offset = self.offset;
        let end = if len <= self.buffer.len() - self.offset {
            self.offset + len
        } else {
            self.buffer.len()
        };
        self.offset = end;
        slice_to_vec(slice_subrange(self.buffer.as_slice(), start_offset, end))
    }

    /// Reads one byte; `None` when the cursor is at the end of the buffer.
    pub fn read_byte(&mut self) -> (r: Option<u8>)
        requires
            old(self).wf(),
        ensures
            final(self).wf(),
            final(self).bytes() == old(self).bytes(),
            old(self).pos() < old(self).bytes().len() ==> r == Some(
                old(self).bytes()[old(self).pos()],
            ) && final(self).pos() == old(self).pos() + 1,
            old(self).pos() >= old(self).bytes().len() ==> r is None && final(self).pos() == old(
                self,
            ).pos(),
    {
        if self.offset < self.buffer.len() {
            let byte = *slice_index_get(self.buffer.as_slice(), self.offset);
            self.offset = self.offset + 1;
            Some(byte)
        } else {
            None
        }
    }

    /// True when the cursor has reached the buffer's end.
    pub fn is_exhausted(&self) -> (r: bool)
        ensures
            r <==> self.pos() >= self.bytes().len(),
    {
        self.offset >= self.buffer.len()
    }
}

/// Scanning one non-zero byte forward shifts the remaining string read.
proof fn lemma_read_string_step(b: Seq<u8>, i: int, start: int, sr: (Seq<u8>, int, bool))
    requires
        0 <= start <= i < b.len(),
        b[i] != 0u8,
        spec_read_string(b, i) == (
            sr.0.subrange(i - start, sr.0.len() as int),
            sr.1,
            sr.2,
        ),
        sr.0.len() >= i - start,
        sr.0.subrange(0, i - start) == b.subrange(start, i),
    ensures
        sr.0.len() >= i + 1 - start,
        spec_read_string(b, i + 1) == (
            sr.0.subrange(i + 1 - start, sr.0.len() as int),
            sr.1,
            sr.2,
        ),
        sr.0.subrange(0, i + 1 - start) == b.subrange(start, i + 1),
        sr.0[i - start] == b[i],
{
    let tail = spec_read_string(b, i + 1);
    assert(spec_read_string(b, i) == (seq![b[i]] + tail.0, tail.1, tail.2));
    let cur = sr.0.subrange(i - start, sr.0.len() as int);
    assert(cur == seq![b[i]] + tail.0);
    assert(cur.len() == 1 + tail.0.len());
    assert(cur[0] == b[i]);
    assert(sr.0[i - start] == b[i]);
    assert(tail.0 =~= sr.0.subrange(i + 1 - start, sr.0.len() as int)) by {
        assert(forall|k: int|
            0 <= k < tail.0.len() ==> tail.0[k] == cur[k + 1] && cur[k + 1] == sr.0[i - start + k
                + 1]);
    }
    assert forall|k: int| 0 <= k < i - start implies sr.0[k] == b[start + k] by {
        assert(sr.0.subrange(0, i - start) == b.subrange(start, i));
        assert(sr.0.subrange(0, i - start)[k] == sr.0[k]);
        assert(b.subrange(start, i)[k] == b[start + k]);
    }
    assert(sr.0.subrange(0, i + 1 - start) =~= b.subrange(start, i + 1));
}

/// When the scan stops (end of buffer or a zero byte), the collected prefix
/// is the whole string and the final cursor is fixed.
proof fn lemma_read_string_end(b: Seq<u8>, i: int, start: int, sr: (Seq<u8>, int, bool))
    requires
        0 <= start <= i <= b.len(),
        i < b.len() ==> b[i] == 0u8,
        spec_read_string(b, i) == (
            sr.0.subrange(i - start, sr.0.len() as int),
            sr.1,
            sr.2,
        ),
        sr.0.len() >= i - start,
        sr.0.subrange(0, i - start) == b.subrange(start, i),
    ensures
        sr.0 == b.subrange(start, i),
        i < b.len() ==> sr.1 == i + 1 && sr.2,
        i >= b.len() ==> sr.1 == i && !sr.2,
{
    if i < b.len() {
        assert(spec_read_string(b, i) == (Seq::<u8>::empty(), i + 1, true));
    } else {
        assert(spec_read_string(b, i) == (Seq::<u8>::empty(), i, false));
    }
    assert(sr.0.subrange(i - start, sr.0.len() as int).len() == 0);
    assert(sr.0.len() == i - start);
    assert(sr.0 =~= sr.0.subrange(0, i - start));
}

} // verus!
