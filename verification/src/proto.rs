use vstd::prelude::*;
use crate::api_keys::ApiKey;
use crate::envelope::{frame_encodable, response_frame, KafkaGenericResponse};
use crate::error::CodecError;
use crate::error_codes::{error_code_number, ErrorCode};
use crate::fixed::{lemma_i16_round_trip, lemma_i32_round_trip};
use crate::format::Encode;
use crate::registry::{lemma_api_versions_negotiation, negotiate, registry};
use crate::request::{get_correlation_id, get_requests_api_key, get_requests_api_version, KafkaRequest};
use crate::unsigned_varint::lemma_varint_wire_len;
use crate::response::{
    advertised_keys,
    lemma_version_range_round_trip,
    version_ranges_wire,
    versions_encodable,
    versions_wire,
    KafkaResponseApiVersionsV3,
    KafkaResponseApiVersionsV4,
    KafkaResponseHeaderV0,
    VersionsModel,
};

verus! {

/// The answer to a request for the supported versions, in the form that the
/// request's version asks for.
#[derive(Debug, Clone, PartialEq, Eq)]
pub enum ApiVersionsResponse {
    V3(KafkaResponseApiVersionsV3),
    V4(KafkaResponseApiVersionsV4),
}

/// The error code that answers a request for `version` of `ApiVersions`.
pub open spec fn api_versions_error_code(version: i16) -> ErrorCode {
    if 0 <= version <= 4 {
        ErrorCode::NoError
    } else {
        ErrorCode::UnsupportedVersion
    }
}

impl ApiVersionsResponse {
    /// The answer to a request of the given version. Whatever the version,
    /// the answer lists the whole table of supported versions; a version
    /// outside the supported range is told so by the error code. Version 3
    /// is answered in its own form, every other one in that of version 4.
    pub fn new(version: i16) -> (r: Self)
        ensures
            r.model() == (api_versions_error_code(version), registry(), 0i32),
            version == 3 <==> r is V3,
    {
        proof {
            lemma_api_versions_negotiation(version);
        }
        let error_code = match negotiate(ApiKey::ApiVersions, version) {
            Some(code) => code,
            None => ErrorCode::UnsupportedVersion,
        };
        if version == 3 {
            ApiVersionsResponse::V3(KafkaResponseApiVersionsV3::new(error_code, 0))
        } else {
            ApiVersionsResponse::V4(
                KafkaResponseApiVersionsV4::new(error_code, advertised_keys(), 0),
            )
        }
    }

    /// The error code of the answer.
    pub fn error_code(&self) -> (r: ErrorCode)
        ensures
            r == self.model().0,
    {
        match self {
            ApiVersionsResponse::V3(body) => body.error_code,
            ApiVersionsResponse::V4(body) => body.error_code,
        }
    }
}

impl Encode for ApiVersionsResponse {
    type Model = VersionsModel;

    open spec fn model(&self) -> VersionsModel {
        match self {
            ApiVersionsResponse::V3(body) => body.model(),
            ApiVersionsResponse::V4(body) => body.model(),
        }
    }

    open spec fn encodable(m: VersionsModel) -> bool {
        versions_encodable(m)
    }

    open spec fn wire(m: VersionsModel) -> Seq<u8> {
        versions_wire(m)
    }

    fn encode(&self, out: &mut Vec<u8>) -> (r: Result<(), CodecError>) {
        match self {
            ApiVersionsResponse::V3(body) => body.encode(out),
            ApiVersionsResponse::V4(body) => body.encode(out),
        }
    }
}

/// An answer that lists the table of supported versions can always be
/// encoded, whatever its correlation id and error code; its frame has 30
/// bytes.
pub proof fn lemma_answer_is_encodable(correlation_id: i32, error_code: ErrorCode)
    ensures
        frame_encodable::<KafkaResponseHeaderV0, ApiVersionsResponse>(
            correlation_id,
            (error_code, registry(), 0i32),
        ),
        response_frame::<KafkaResponseHeaderV0, ApiVersionsResponse>(
            correlation_id,
            (error_code, registry(), 0i32),
        ).len() == 30,
{
    let entries = registry();
    let tail = entries.drop_first();
    assert(tail.len() == 1);
    assert(tail.drop_first().len() == 0);
    reveal_with_fuel(version_ranges_wire, 4);
    lemma_version_range_round_trip(entries[0], Seq::empty());
    lemma_version_range_round_trip(tail[0], Seq::empty());
    assert(version_ranges_wire(entries).len() == 14);
    lemma_varint_wire_len(0);
    lemma_varint_wire_len(3);
    lemma_i16_round_trip(error_code_number(error_code), Seq::empty());
    lemma_i32_round_trip(0, Seq::empty());
    lemma_i32_round_trip(correlation_id, Seq::empty());
    lemma_i32_round_trip(26, Seq::empty());
}

/// What is to be done with a request: a request for the supported versions
/// is answered, with the request's correlation id in the header; a request
/// with another key is left to the caller.
pub fn respond(request: &KafkaRequest) -> (r: Option<
    KafkaGenericResponse<KafkaResponseHeaderV0, ApiVersionsResponse>,
>)
    ensures
        r is Some <==> request.model().header.api_key == ApiKey::ApiVersions,
        r is Some ==> r.unwrap().header.correlation_id == request.model().header.correlation_id
            && r.unwrap().body.model() == (
            api_versions_error_code(request.model().header.api_version),
            registry(),
            0i32,
        ) && (r.unwrap().body is V3 <==> request.model().header.api_version == 3)
            && frame_encodable::<KafkaResponseHeaderV0, ApiVersionsResponse>(
            r.unwrap().header.model(),
            r.unwrap().body.model(),
        ),
{
    proof {
        lemma_answer_is_encodable(
            request.model().header.correlation_id,
            api_versions_error_code(request.model().header.api_version),
        );
    }
    let correlation_id = get_correlation_id(request);
    let api_version = get_requests_api_version(request);
    match get_requests_api_key(request) {
        ApiKey::ApiVersions => Some(
            KafkaGenericResponse::new(
                KafkaResponseHeaderV0::new(correlation_id),
                ApiVersionsResponse::new(api_version),
            ),
        ),
        _ => None,
    }
}

} // verus!
