use vstd::prelude::*;
use vstd::slice::slice_subrange;
use vstd::utf8::{
    decode_utf8,
    encode_utf8,
    encode_utf8_decode_utf8,
    encode_utf8_valid_utf8,
    valid_utf8,
};
use crate::error::CodecError;
use crate::fixed::{be_i16, i16_wire, lemma_i16_round_trip};
use crate::format::{append_bytes, Parsed, WireFormat};
use crate::utf8::text_from_bytes;

verus! {

/// An optional UTF-8 string whose wire form is a signed 16-bit length, -1
/// for an absent string, and then that many bytes.
#[derive(Debug, Clone, PartialEq, Eq, Default)]
pub struct NullableString(pub Option<String>);

/// The view of an optional string.
pub open spec fn text_model(value: Option<String>) -> Option<Seq<char>> {
    match value {
        Some(s) => Some(s@),
        None => None,
    }
}

/// The wire form of an optional text with a 16-bit length.
pub open spec fn nullable_string_wire(m: Option<Seq<char>>) -> Seq<u8> {
    match m {
        None => i16_wire(-1i16),
        Some(text) => i16_wire(encode_utf8(text).len() as i16) + encode_utf8(text),
    }
}

/// What the first bytes of `s` decode to as a string with a 16-bit length.
pub open spec fn nullable_string_parse(s: Seq<u8>) -> Parsed<Option<Seq<char>>> {
    if s.len() < 2 {
        Err(CodecError::IncompleteFrame)
    } else if be_i16(s) == -1 {
        Ok((None, 2))
    } else if be_i16(s) < -1 {
        Err(CodecError::FormatError)
    } else if s.len() < 2 + be_i16(s) {
        Err(CodecError::IncompleteFrame)
    } else if !valid_utf8(s.subrange(2, 2 + be_i16(s))) {
        Err(CodecError::FormatError)
    } else {
        Ok((Some(decode_utf8(s.subrange(2, 2 + be_i16(s)))), (2 + be_i16(s)) as nat))
    }
}

impl NullableString {
    pub fn new(value: Option<String>) -> (r: Self)
        ensures
            r.0 == value,
    {
        NullableString(value)
    }

    /// The string, if there is one.
    pub fn get(&self) -> (r: &Option<String>)
        ensures
            *r == self.0,
    {
        &self.0
    }
}

impl From<Option<String>> for NullableString {
    fn from(value: Option<String>) -> (r: Self) {
        NullableString(value)
    }
}

impl vstd::std_specs::convert::FromSpecImpl<Option<String>> for NullableString {
    open spec fn obeys_from_spec() -> bool {
        true
    }

    open spec fn from_spec(value: Option<String>) -> Self {
        NullableString(value)
    }
}

impl WireFormat for NullableString {
    type Model = Option<Seq<char>>;

    open spec fn model(&self) -> Option<Seq<char>> {
        text_model(self.0)
    }

    open spec fn encodable(m: Option<Seq<char>>) -> bool {
        m is Some ==> encode_utf8(m.unwrap()).len() <= 32767
    }

    open spec fn wire(m: Option<Seq<char>>) -> Seq<u8> {
        nullable_string_wire(m)
    }

    open spec fn parse(s: Seq<u8>) -> Parsed<Option<Seq<char>>> {
        nullable_string_parse(s)
    }

    proof fn lemma_round_trip(m: Option<Seq<char>>, rest: Seq<u8>) {
        match m {
            None => {
                lemma_i16_round_trip(-1i16, rest);
            },
            Some(text) => {
                let body = encode_utf8(text);
                let n = body.len() as i16;
                let s = nullable_string_wire(m) + rest;
                assert(s =~= i16_wire(n) + (body + rest));
                lemma_i16_round_trip(n, body + rest);
                assert(s.subrange(2, 2 + n) =~= body);
                encode_utf8_valid_utf8(text);
                encode_utf8_decode_utf8(text);
            },
        }
    }

    proof fn lemma_parse_bound(s: Seq<u8>) {
    }

    proof fn lemma_parse_extend(s: Seq<u8>, more: Seq<u8>) {
        let t = s + more;
        assert(t[0] == s[0] && t[1] == s[1]);
        if be_i16(s) >= 0 {
            assert(t.subrange(2, 2 + be_i16(s)) =~= s.subrange(2, 2 + be_i16(s)));
        }
    }

    fn encode(&self, out: &mut Vec<u8>) -> (r: Result<(), CodecError>) {
        match &self.0 {
            None => {
                let absent: i16 = -1;
                absent.encode(out)
            },
            Some(text) => {
                let bytes = text.as_str().as_bytes();
                if bytes.len() > 32767 {
                    return Err(CodecError::OverflowError);
                }
                let length: i16 = bytes.len() as i16;
                let _ = length.encode(out);
                append_bytes(out, bytes);
                assert(final(out)@ =~= old(out)@ + nullable_string_wire(Some(text@)));
                Ok(())
            },
        }
    }

    fn decode(input: &[u8]) -> (r: Result<(Self, usize), CodecError>) {
        let (length, _) = i16::decode(input)?;
        if length == -1 {
            return Ok((NullableString(None), 2));
        }
        if length < -1 {
            return Err(CodecError::FormatError);
        }
        let count: usize = length as usize;
        if input.len() - 2 < count {
            return Err(CodecError::IncompleteFrame);
        }
        let text = text_from_bytes(slice_subrange(input, 2, 2 + count))?;
        Ok((NullableString(Some(text)), 2 + count))
    }
}

} // verus!
