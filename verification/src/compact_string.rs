use vstd::prelude::*;
use vstd::slice::slice_subrange;
use vstd::utf8::{
    decode_utf8,
    encode_utf8,
    encode_utf8_decode_utf8,
    encode_utf8_valid_utf8,
    valid_utf8,
};
use crate::error::CodecError;
use crate::format::{append_bytes, Parsed, WireFormat};
use crate::nullable_string::text_model;
use crate::unsigned_varint::{
    lemma_groups_bound,
    lemma_groups_extend,
    varint_parse,
    varint_wire,
    UnsignedVarInt,
};
use crate::utf8::text_from_bytes;

verus! {

/// An optional UTF-8 string whose wire form is a varint of the byte length
/// plus one, zero for an absent string, and then the bytes.
#[derive(Debug, Clone, PartialEq, Eq, Default)]
pub struct CompactString(pub Option<String>);

/// The wire form of an optional text with a varint length.
pub open spec fn compact_string_wire(m: Option<Seq<char>>) -> Seq<u8> {
    match m {
        None => varint_wire(0),
        Some(text) => varint_wire(encode_utf8(text).len() + 1) + encode_utf8(text),
    }
}

/// What the first bytes of `s` decode to as a string with a varint length.
pub open spec fn compact_string_parse(s: Seq<u8>) -> Parsed<Option<Seq<char>>> {
    match varint_parse(s) {
        Err(e) => Err(e),
        Ok((n, k)) => if n == 0 {
            Ok((None, k))
        } else if s.len() < k + n - 1 {
            Err(CodecError::IncompleteFrame)
        } else if !valid_utf8(s.subrange(k as int, k + n - 1)) {
            Err(CodecError::FormatError)
        } else {
            Ok((Some(decode_utf8(s.subrange(k as int, k + n - 1))), (k + n - 1) as nat))
        },
    }
}

impl CompactString {
    pub fn new(value: Option<String>) -> (r: Self)
        ensures
            r.0 == value,
    {
        CompactString(value)
    }

    /// The string, if there is one.
    pub fn get(&self) -> (r: &Option<String>)
        ensures
            *r == self.0,
    {
        &self.0
    }
}

impl From<Option<String>> for CompactString {
    fn from(value: Option<String>) -> (r: Self) {
        CompactString(value)
    }
}

impl vstd::std_specs::convert::FromSpecImpl<Option<String>> for CompactString {
    open spec fn obeys_from_spec() -> bool {
        true
    }

    open spec fn from_spec(value: Option<String>) -> Self {
        CompactString(value)
    }
}

impl WireFormat for CompactString {
    type Model = Option<Seq<char>>;

    open spec fn model(&self) -> Option<Seq<char>> {
        text_model(self.0)
    }

    open spec fn encodable(m: Option<Seq<char>>) -> bool {
        m is Some ==> encode_utf8(m.unwrap()).len() + 1 <= u32::MAX
    }

    open spec fn wire(m: Option<Seq<char>>) -> Seq<u8> {
        compact_string_wire(m)
    }

    open spec fn parse(s: Seq<u8>) -> Parsed<Option<Seq<char>>> {
        compact_string_parse(s)
    }

    proof fn lemma_round_trip(m: Option<Seq<char>>, rest: Seq<u8>) {
        match m {
            None => {
                UnsignedVarInt::lemma_round_trip(0, rest);
            },
            Some(text) => {
                let body = encode_utf8(text);
                let n = (body.len() + 1) as u32;
                let head = varint_wire(n as nat);
                let s = compact_string_wire(m) + rest;
                assert(s =~= head + (body + rest));
                UnsignedVarInt::lemma_round_trip(n, body + rest);
                assert(s.subrange(head.len() as int, head.len() + n - 1) =~= body);
                encode_utf8_valid_utf8(text);
                encode_utf8_decode_utf8(text);
            },
        }
    }

    proof fn lemma_parse_bound(s: Seq<u8>) {
        lemma_groups_bound(s, 0);
    }

    proof fn lemma_parse_extend(s: Seq<u8>, more: Seq<u8>) {
        lemma_groups_bound(s, 0);
        lemma_groups_extend(s, more, 0);
        match varint_parse(s) {
            Err(e) => {},
            Ok((n, k)) => {
                if n != 0 {
                    assert((s + more).subrange(k as int, k + n - 1) =~= s.subrange(
                        k as int,
                        k + n - 1,
                    ));
                }
            },
        }
    }

    fn encode(&self, out: &mut Vec<u8>) -> (r: Result<(), CodecError>) {
        match &self.0 {
            None => UnsignedVarInt(0).encode(out),
            Some(text) => {
                let bytes = text.as_str().as_bytes();
                if bytes.len() >= 0xFFFF_FFFF {
                    return Err(CodecError::OverflowError);
                }
                let length: u32 = (bytes.len() + 1) as u32;
                let _ = UnsignedVarInt(length).encode(out);
                append_bytes(out, bytes);
                assert(final(out)@ =~= old(out)@ + compact_string_wire(Some(text@)));
                Ok(())
            },
        }
    }

    fn decode(input: &[u8]) -> (r: Result<(Self, usize), CodecError>) {
        let (length, taken) = UnsignedVarInt::decode(input)?;
        proof {
            lemma_groups_bound(input@, 0);
        }
        if length.0 == 0 {
            return Ok((CompactString(None), taken));
        }
        let count: usize = (length.0 - 1) as usize;
        if input.len() - taken < count {
            return Err(CodecError::IncompleteFrame);
        }
        let text = text_from_bytes(slice_subrange(input, taken, taken + count))?;
        Ok((CompactString(Some(text)), taken + count))
    }
}

} // verus!
