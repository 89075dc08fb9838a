use vstd::prelude::*;
use crate::error::CodecError;
use crate::fixed::{be_i16, i16_wire, lemma_i16_round_trip};
use crate::format::{Parsed, WireFormat};

verus! {

/// The requests that the protocol knows by name.
#[derive(Debug, Copy, Clone, Eq, PartialEq, Hash, Structural)]
pub enum ApiKey {
    Produce,
    ApiVersions,
    CreateTopics,
    DescribeTopicPartitions,
}

/// The number that stands for a key on the wire.
pub open spec fn api_key_code(key: ApiKey) -> i16 {
    match key {
        ApiKey::Produce => 0,
        ApiKey::ApiVersions => 18,
        ApiKey::CreateTopics => 19,
        ApiKey::DescribeTopicPartitions => 75,
    }
}

/// The key that a number stands for, if it stands for one.
pub open spec fn api_key_of(code: i16) -> Option<ApiKey> {
    if code == 0 {
        Some(ApiKey::Produce)
    } else if code == 18 {
        Some(ApiKey::ApiVersions)
    } else if code == 19 {
        Some(ApiKey::CreateTopics)
    } else if code == 75 {
        Some(ApiKey::DescribeTopicPartitions)
    } else {
        None
    }
}

/// What the first bytes of `s` decode to as a key.
pub open spec fn api_key_parse(s: Seq<u8>) -> Parsed<ApiKey> {
    if s.len() < 2 {
        Err(CodecError::IncompleteFrame)
    } else {
        match api_key_of(be_i16(s)) {
            Some(key) => Ok((key, 2)),
            None => Err(CodecError::FormatError),
        }
    }
}

impl ApiKey {
    /// The number that stands for the key on the wire.
    pub fn code(&self) -> (r: i16)
        ensures
            r == api_key_code(*self),
    {
        match self {
            ApiKey::Produce => 0,
            ApiKey::ApiVersions => 18,
            ApiKey::CreateTopics => 19,
            ApiKey::DescribeTopicPartitions => 75,
        }
    }

    /// The key that a number stands for.
    pub fn from_code(code: i16) -> (r: Option<ApiKey>)
        ensures
            r == api_key_of(code),
    {
        if code == 0 {
            Some(ApiKey::Produce)
        } else if code == 18 {
            Some(ApiKey::ApiVersions)
        } else if code == 19 {
            Some(ApiKey::CreateTopics)
        } else if code == 75 {
            Some(ApiKey::DescribeTopicPartitions)
        } else {
            None
        }
    }
}

/// A key's number stands for that key, and for no other.
pub proof fn lemma_api_key_code(key: ApiKey)
    ensures
        api_key_of(api_key_code(key)) == Some(key),
{
}

impl WireFormat for ApiKey {
    type Model = ApiKey;

    open spec fn model(&self) -> ApiKey {
        *self
    }

    open spec fn encodable(m: ApiKey) -> bool {
        true
    }

    open spec fn wire(m: ApiKey) -> Seq<u8> {
        i16_wire(api_key_code(m))
    }

    open spec fn parse(s: Seq<u8>) -> Parsed<ApiKey> {
        api_key_parse(s)
    }

    proof fn lemma_round_trip(m: ApiKey, rest: Seq<u8>) {
        lemma_i16_round_trip(api_key_code(m), rest);
    }

    proof fn lemma_parse_bound(s: Seq<u8>) {
    }

    proof fn lemma_parse_extend(s: Seq<u8>, more: Seq<u8>) {
        assert((s + more)[0] == s[0] && (s + more)[1] == s[1]);
    }

    fn encode(&self, out: &mut Vec<u8>) -> (r: Result<(), CodecError>) {
        self.code().encode(out)
    }

    fn decode(input: &[u8]) -> (r: Result<(Self, usize), CodecError>) {
        let (code, taken) = i16::decode(input)?;
        match ApiKey::from_code(code) {
            Some(key) => Ok((key, taken)),
            None => Err(CodecError::FormatError),
        }
    }
}

} // verus!
