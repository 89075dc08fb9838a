use vstd::prelude::*;

verus! {

/// Everything that can stop a decode or an encode.
///
/// `IncompleteFrame` is no failure of the peer: the bytes seen so far are a
/// proper beginning and the caller waits for more. The others are fatal for
/// the connection that produced the bytes.
#[derive(Debug, Clone, Copy, PartialEq, Eq, Structural)]
pub enum CodecError {
    /// The input ends before the value does.
    IncompleteFrame,
    /// The bytes break the grammar: bad UTF-8, an invalid length, a varint
    /// that runs past five bytes, an unknown code.
    FormatError,
    /// A frame's declared size differs from what its header and body take.
    TrailingBytesError,
    /// A value is too large for its length field.
    OverflowError,
    /// A tag buffer announces tagged fields.
    UnsupportedTagError,
}

impl CodecError {
    /// Whether the error tears the connection down.
    pub open spec fn is_fatal(self) -> bool {
        self != CodecError::IncompleteFrame
    }

    /// Whether the error tears the connection down.
    pub fn fatal(&self) -> (r: bool)
        ensures
            r == self.is_fatal(),
    {
        match self {
            CodecError::IncompleteFrame => false,
            _ => true,
        }
    }

    /// A short description, for logs.
    pub fn describe(&self) -> (r: &'static str)
        ensures
            r@ == describe_spec(*self),
    {
        match self {
            CodecError::IncompleteFrame => "incomplete frame",
            CodecError::FormatError => "format error",
            CodecError::TrailingBytesError => "declared size differs from the bytes consumed",
            CodecError::OverflowError => "value too large for its length field",
            CodecError::UnsupportedTagError => "tagged fields are not supported",
        }
    }
}

/// The text that `describe` gives for each error.
pub open spec fn describe_spec(e: CodecError) -> Seq<char> {
    match e {
        CodecError::IncompleteFrame => "incomplete frame"@,
        CodecError::FormatError => "format error"@,
        CodecError::TrailingBytesError => "declared size differs from the bytes consumed"@,
        CodecError::OverflowError => "value too large for its length field"@,
        CodecError::UnsupportedTagError => "tagged fields are not supported"@,
    }
}

} // verus!
