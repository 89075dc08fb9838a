use vstd::prelude::*;
use crate::error::CodecError;
use crate::fixed::{be_i16, i16_wire, lemma_i16_round_trip};
use crate::format::{Parsed, WireFormat};

verus! {

/// What a response says of the request it answers.
#[derive(Debug, Copy, Clone, Eq, PartialEq, Structural)]
pub enum ErrorCode {
    /// The request was in order.
    NoError,
    /// The request asks for a version outside the supported range.
    UnsupportedVersion,
}

/// The number that stands for an error code on the wire.
pub open spec fn error_code_number(code: ErrorCode) -> i16 {
    match code {
        ErrorCode::NoError => 0,
        ErrorCode::UnsupportedVersion => 35,
    }
}

/// What the first bytes of `s` decode to as an error code.
pub open spec fn error_code_parse(s: Seq<u8>) -> Parsed<ErrorCode> {
    if s.len() < 2 {
        Err(CodecError::IncompleteFrame)
    } else if be_i16(s) == 0 {
        Ok((ErrorCode::NoError, 2))
    } else if be_i16(s) == 35 {
        Ok((ErrorCode::UnsupportedVersion, 2))
    } else {
        Err(CodecError::FormatError)
    }
}

impl ErrorCode {
    /// The number that stands for the code on the wire.
    pub fn number(&self) -> (r: i16)
        ensures
            r == error_code_number(*self),
    {
        match self {
            ErrorCode::NoError => 0,
            ErrorCode::UnsupportedVersion => 35,
        }
    }
}

impl Default for ErrorCode {
    fn default() -> (r: Self)
        ensures
            r == ErrorCode::NoError,
    {
        ErrorCode::NoError
    }
}

impl WireFormat for ErrorCode {
    type Model = ErrorCode;

    open spec fn model(&self) -> ErrorCode {
        *self
    }

    open spec fn encodable(m: ErrorCode) -> bool {
        true
    }

    open spec fn wire(m: ErrorCode) -> Seq<u8> {
        i16_wire(error_code_number(m))
    }

    open spec fn parse(s: Seq<u8>) -> Parsed<ErrorCode> {
        error_code_parse(s)
    }

    proof fn lemma_round_trip(m: ErrorCode, rest: Seq<u8>) {
        lemma_i16_round_trip(error_code_number(m), rest);
    }

    proof fn lemma_parse_bound(s: Seq<u8>) {
    }

    proof fn lemma_parse_extend(s: Seq<u8>, more: Seq<u8>) {
        assert((s + more)[0] == s[0] && (s + more)[1] == s[1]);
    }

    fn encode(&self, out: &mut Vec<u8>) -> (r: Result<(), CodecError>) {
        self.number().encode(out)
    }

    fn decode(input: &[u8]) -> (r: Result<(Self, usize), CodecError>) {
        let (number, taken) = i16::decode(input)?;
        if number == 0 {
            Ok((ErrorCode::NoError, taken))
        } else if number == 35 {
            Ok((ErrorCode::UnsupportedVersion, taken))
        } else {
            Err(CodecError::FormatError)
        }
    }
}

} // verus!
