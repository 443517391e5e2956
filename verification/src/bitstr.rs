//! The bits of a string's bytes, most significant bit of each byte first.

use crate::bit::Bit;
use vstd::prelude::*;
use vstd::string::StringSliceAdditionalSpecFns;

verus! {

/// Bit `i` of a byte, counted from the most significant one: the top bit
/// of the byte once it is shifted left by `i` places.
pub open spec fn bit_at(byte: u8, i: u8) -> bool {
    (byte << i) & 0x80u8 != 0
}

/// The bits of a byte sequence: eight for each byte, the bytes in order and
/// within a byte the most significant bit first.
pub open spec fn bits_of(bytes: Seq<u8>) -> Seq<bool> {
    Seq::new(8 * bytes.len(), |k: int| bit_at(bytes[k / 8], (k % 8) as u8))
}

/// A single pass over the bits of a string. Its view is the sequence of
/// bits not yet handed out.
pub struct BitStr<'a> {
    bytes: &'a [u8],
    pos: usize,
    cur_idx: u8,
}

impl<'a> View for BitStr<'a> {
    type V = Seq<bool>;

    closed spec fn view(&self) -> Seq<bool> {
        bits_of(self.bytes@).skip(8 * self.pos + self.cur_idx)
    }
}

impl<'a> BitStr<'a> {
    /// The cursor stands on a bit of the byte under it, or at the very end.
    #[verifier::type_invariant]
    spec fn cursor_in_range(&self) -> bool {
        &&& self.pos <= self.bytes@.len()
        &&& self.cur_idx < 8
        &&& self.pos == self.bytes@.len() ==> self.cur_idx == 0
    }

    pub fn from_str(s: &'a str) -> (stream: BitStr<'a>)
        ensures
            stream@ == bits_of(s.spec_bytes()),
    {
        let stream = BitStr { bytes: s.as_bytes(), pos: 0, cur_idx: 0 };
        assert(stream@ =~= bits_of(s.spec_bytes()));
        stream
    }

    /// Hands out the next bit, or `None` once every bit has been handed
    /// out; after that the stream stays exhausted.
    pub fn next(&mut self) -> (bit: Option<Bit>)
        ensures
            old(self)@.len() == 0 ==> bit is None && final(self)@ == old(self)@,
            old(self)@.len() > 0 ==> bit is Some && bit->0@ == old(self)@[0] && final(self)@
                == old(self)@.drop_first(),
    {
        proof {
            use_type_invariant(&*self);
        }
        if self.pos >= self.bytes.len() {
            return None;
        }
        let byte: u8 = self.bytes[self.pos];
        let bit = Bit::from_u8((byte << self.cur_idx) & 128);
        let ghost before = self@;
        if self.cur_idx == 7 {
            self.cur_idx = 0;
            self.pos = self.pos + 1;
        } else {
            self.cur_idx = self.cur_idx + 1;
        }
        assert(self@ =~= before.drop_first());
        Some(bit)
    }
}

} // verus!
