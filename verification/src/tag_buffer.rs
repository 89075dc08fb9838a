use vstd::prelude::*;
use crate::error::CodecError;
use crate::format::{Parsed, WireFormat};
use crate::unsigned_varint::{
    lemma_groups_bound,
    lemma_groups_extend,
    varint_parse,
    varint_wire,
    UnsignedVarInt,
};

verus! {

/// The place of tagged fields at the end of a flexible structure. Its wire
/// form is a varint count of fields; only an empty one is supported.
#[derive(Debug, Clone, Copy, PartialEq, Eq, Structural, Default)]
pub struct TagBuffer;

/// What the first bytes of `s` decode to as a tag buffer: a count of zero is
/// the empty buffer, any other count is refused.
pub open spec fn tag_buffer_parse(s: Seq<u8>) -> Parsed<()> {
    match varint_parse(s) {
        Ok((count, n)) => if count == 0 {
            Ok(((), n))
        } else {
            Err(CodecError::UnsupportedTagError)
        },
        Err(e) => Err(e),
    }
}

impl WireFormat for TagBuffer {
    type Model = ();

    open spec fn model(&self) -> () {
        ()
    }

    open spec fn encodable(m: ()) -> bool {
        true
    }

    open spec fn wire(m: ()) -> Seq<u8> {
        varint_wire(0)
    }

    open spec fn parse(s: Seq<u8>) -> Parsed<()> {
        tag_buffer_parse(s)
    }

    proof fn lemma_round_trip(m: (), rest: Seq<u8>) {
        UnsignedVarInt::lemma_round_trip(0, rest);
    }

    proof fn lemma_parse_bound(s: Seq<u8>) {
        lemma_groups_bound(s, 0);
    }

    proof fn lemma_parse_extend(s: Seq<u8>, more: Seq<u8>) {
        lemma_groups_extend(s, more, 0);
    }

    fn encode(&self, out: &mut Vec<u8>) -> (r: Result<(), CodecError>) {
        UnsignedVarInt(0).encode(out)
    }

    fn decode(input: &[u8]) -> (r: Result<(Self, usize), CodecError>) {
        let (count, taken) = UnsignedVarInt::decode(input)?;
        if count.0 == 0 {
            Ok((TagBuffer, taken))
        } else {
            Err(CodecError::UnsupportedTagError)
        }
    }
}

} // verus!
