use vstd::prelude::*;
use crate::error::CodecError;
use crate::fixed::i32_wire;
use crate::format::WireFormat;

verus! {

/// The place of a length field that is written before the length is known:
/// four bytes are put down first and overwritten once what follows them has
/// been written.
#[derive(Debug, Clone, Copy, PartialEq, Eq)]
pub struct PosMarker {
    pub pos: usize,
}

/// `s` with the four bytes at `pos` replaced by the big-endian form of
/// `value`.
pub open spec fn patched(s: Seq<u8>, pos: int, value: i32) -> Seq<u8>
    recommends
        0 <= pos,
        pos + 4 <= s.len(),
{
    s.subrange(0, pos) + i32_wire(value) + s.subrange(pos + 4, s.len() as int)
}

impl Default for PosMarker {
    fn default() -> (r: Self)
        ensures
            r.pos == 0,
    {
        PosMarker { pos: 0 }
    }
}

impl PosMarker {
    /// Remembers where `out` ends and appends four zero bytes there.
    pub fn write(&mut self, out: &mut Vec<u8>)
        ensures
            final(self).pos == old(out)@.len(),
            final(out)@ == old(out)@ + i32_wire(0),
    {
        self.pos = out.len();
        let zero: i32 = 0;
        let _ = zero.encode(out);
    }

    /// Overwrites the four bytes at the marker with the number of bytes that
    /// follow them. A marker that does not lie inside `out` is a format
    /// error, a number beyond the signed 32-bit range an overflow; `out` is
    /// then left as it was.
    pub fn fill(&self, out: &mut Vec<u8>) -> (r: Result<(), CodecError>)
        ensures
            self.pos + 4 > old(out)@.len() ==> r == Err::<(), CodecError>(CodecError::FormatError)
                && final(out)@ == old(out)@,
            self.pos + 4 <= old(out)@.len() && old(out)@.len() - self.pos - 4 > i32::MAX ==> r
                == Err::<(), CodecError>(CodecError::OverflowError) && final(out)@ == old(out)@,
            self.pos + 4 <= old(out)@.len() && old(out)@.len() - self.pos - 4 <= i32::MAX ==> r
                is Ok && final(out)@ == patched(
                old(out)@,
                self.pos as int,
                (old(out)@.len() - self.pos - 4) as i32,
            ),
    {
        let end = out.len();
        if end < 4 || self.pos > end - 4 {
            return Err(CodecError::FormatError);
        }
        let size: usize = end - self.pos - 4;
        if size > 0x7FFF_FFFF {
            return Err(CodecError::OverflowError);
        }
        let value: i32 = size as i32;
        let mut field: Vec<u8> = Vec::new();
        let _ = value.encode(&mut field);
        assert(field@ =~= i32_wire(value));
        out.set(self.pos, field[0]);
        out.set(self.pos + 1, field[1]);
        out.set(self.pos + 2, field[2]);
        out.set(self.pos + 3, field[3]);
        assert(final(out)@ =~= patched(old(out)@, self.pos as int, value));
        Ok(())
    }
}

} // verus!
