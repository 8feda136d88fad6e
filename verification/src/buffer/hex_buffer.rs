use crate::buffer::ints::le16_bytes;
use crate::buffer::ints::le32_bytes;
use crate::buffer::ints::spec_enc_i16;
use crate::buffer::ints::spec_enc_i32;
use crate::buffer::ints::spec_le32;
use crate::buffer::ints::spec_zeros;
use crate::buffer::ints::u16_of_i16;
use crate::buffer::ints::u32_of_i32;
use vstd::prelude::*;

verus! {

/// The value a char is narrowed to when stored as a single byte: its code
/// point reduced modulo 256.
pub open spec fn spec_char_byte(c: char) -> u8 {
    (c as u32 % 256) as u8
}

/// Append-only byte accumulator that produces the little-endian wire format.
/// Its view is the byte sequence written so far.
pub struct HexBuffer {
    buffer: Vec<u8>,
}

impl View for HexBuffer {
    type V = Seq<u8>;

    closed spec fn view(&self) -> Seq<u8> {
        self.buffer@
    }
}

impl HexBuffer {
    pub fn new() -> (r: HexBuffer)
        ensures
            r@ == Seq::<u8>::empty(),
    {
        HexBuffer { buffer: Vec::new() }
    }

    /// Pads the buffer with zero bytes up to the next multiple of 4; a buffer
    /// whose length is already a multiple of 4 is unchanged. (The truncating
    /// branch of the alignment rule is unreachable because the target is
    /// always rounded up.)
    pub fn trim_to_alignment(&mut self)
        requires
            old(self)@.len() + 3 <= usize::MAX,
        ensures
            final(self)@ == old(self)@ + spec_zeros((4 - old(self)@.len() % 4) % 4),
            final(self)@.len() % 4 == 0,
            final(self)@.len() < old(self)@.len() + 4,
    {
        let len = self.buffer.len();
        let valid_length = (len + 3) / 4 * 4;
        if len < valid_length {
            self.add_zero_padding(valid_length - len);
        } else {
            proof {
                assert(self@ =~= old(self)@ + spec_zeros(0));
            }
        }
    }

    /// Appends the raw bytes of a byte string followed by one zero terminator.
    pub fn add_string(&mut self, s: &Vec<u8>)
        ensures
            final(self)@ == old(self)@ + s@ + seq![0u8],
    {
        self.buffer.extend_from_slice(s.as_slice());
        proof {
            assert(self.buffer@ =~= old(self)@ + s@);
        }
        self.add_null_terminator();
    }

    /// Appends the two-byte CR LF sequence.
    pub fn add_new_line(&mut self)
        ensures
            final(self)@ == old(self)@ + seq![0x0Du8, 0x0Au8],
    {
        self.buffer.push(0x0D);
        self.buffer.push(0x0A);
        proof {
            assert(self@ =~= old(self)@ + seq![0x0Du8, 0x0Au8]);
        }
    }

    /// Appends a char narrowed to one byte (code point modulo 256).
    pub fn add_char(&mut self, c: char)
        ensures
            final(self)@ == old(self)@ + seq![spec_char_byte(c)],
    {
        let b = ((c as u32) % 256) as u8;
        self.buffer.push(b);
        proof {
            assert(self@ =~= old(self)@ + seq![spec_char_byte(c)]);
        }
    }

    /// Appends the raw bytes of a byte string verbatim, with no terminator.
    pub fn add_chars(&mut self, chars: &Vec<u8>)
        ensures
            final(self)@ == old(self)@ + chars@,
    {
        self.buffer.extend_from_slice(chars.as_slice());
        proof {
            assert(self@ =~= old(self)@ + chars@);
        }
    }

    /// Appends the 4-byte little-endian encoding of a signed integer.
    pub fn add_int(&mut self, value: i32)
        ensures
            final(self)@ == old(self)@ + spec_enc_i32(value),
    {
        let mut bytes = le32_bytes(u32_of_i32(value));
        self.buffer.append(&mut bytes);
    }

    /// Appends the 2-byte little-endian encoding of a signed short.
    pub fn add_short(&mut self, value: i16)
        ensures
            final(self)@ == old(self)@ + spec_enc_i16(value),
    {
        let mut bytes = le16_bytes(u16_of_i16(value));
        self.buffer.append(&mut bytes);
    }

    /// Appends the 4-byte little-endian encoding of an IEEE-754 single-float
    /// bit pattern.
    pub fn add_float(&mut self, bits: u32)
        ensures
            final(self)@ == old(self)@ + spec_le32(bits),
    {
        let mut bytes = le32_bytes(bits);
        self.buffer.append(&mut bytes);
    }

    /// Appends one raw byte.
    pub fn add_byte(&mut self, value: u8)
        ensures
            final(self)@ == old(self)@ + seq![value],
    {
        self.buffer.push(value);
        proof {
            assert(self@ =~= old(self)@ + seq![value]);
        }
    }

    /// Appends `count` zero bytes.
    pub fn add_zero_padding(&mut self, count: usize)
        ensures
            final(self)@ == old(self)@ + spec_zeros(count as int),
    {
        proof {
            assert(self@ =~= old(self)@ + spec_zeros(0));
        }
        let mut i: usize = 0;
        while i < count
            invariant
                i <= count,
                self@ == old(self)@ + spec_zeros(i as int),
            decreases count - i,
        {
            self.buffer.push(0);
            i += 1;
            proof {
                assert(self@ =~= old(self)@ + spec_zeros(i as int));
            }
        }
    }

    /// Appends a single zero byte.
    pub fn add_null_terminator(&mut self)
        ensures
            final(self)@ == old(self)@ + seq![0u8],
    {
        self.buffer.push(0x00);
        proof {
            assert(self@ =~= old(self)@ + seq![0u8]);
        }
    }

    /// A copy of all bytes written so far.
    pub fn get_buffer(&self) -> (r: Vec<u8>)
        ensures
            r@ == self@,
    {
        let mut r: Vec<u8> = Vec::new();
        r.extend_from_slice(self.buffer.as_slice());
        proof {
            assert(r@ =~= self@);
        }
        r
    }
}

} // verus!
