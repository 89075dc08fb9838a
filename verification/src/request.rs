use vstd::prelude::*;
use vstd::slice::slice_subrange;
use crate::api_keys::ApiKey;
use crate::compact_string::CompactString;
use crate::describe_topic_partitions::{
    describe_topic_partitions_parse,
    lemma_describe_topic_partitions_bound,
    lemma_describe_topic_partitions_extend,
    DescribeTopicPartitionsModel,
    KafkaRequestDescribeTopicPartitionsV0,
};
use crate::error::CodecError;
use crate::fixed::be_i32;
use crate::format::{
    decode_at,
    field_at,
    lemma_field_at_bound,
    lemma_field_at_extend,
    settled,
    Parsed,
    WireFormat,
};
use crate::nullable_string::NullableString;
use crate::tag_buffer::TagBuffer;

verus! {

/// The three shapes of a request header. Which one a request has follows from
/// its key and version, which the caller knows: the bytes are not probed.
#[derive(Debug, Copy, Clone, Eq, PartialEq, Structural)]
pub enum HeaderVersion {
    V0,
    V1,
    V2,
}

#[derive(Debug, Clone, PartialEq, Eq)]
pub struct KafkaRequestHeaderV0 {
    pub request_api_key: ApiKey,
    pub request_api_version: i16,
    pub correlation_id: i32,
}

#[derive(Debug, Clone, PartialEq, Eq)]
pub struct KafkaRequestHeaderV1 {
    pub request_api_key: ApiKey,
    pub request_api_version: i16,
    pub correlation_id: i32,
    pub client_id: NullableString,
}

#[derive(Debug, Clone, PartialEq, Eq)]
pub struct KafkaRequestHeaderV2 {
    pub request_api_key: ApiKey,
    pub request_api_version: i16,
    pub correlation_id: i32,
    pub client_id: NullableString,
    pub tagged_fields: TagBuffer,
}

#[derive(Debug, Clone, PartialEq, Eq)]
pub enum KafkaRequestHeader {
    V2(KafkaRequestHeaderV2),
    V1(KafkaRequestHeaderV1),
    V0(KafkaRequestHeaderV0),
}

/// The body of a request for the supported versions.
#[derive(Debug, Clone, PartialEq, Eq)]
pub struct KafkaRequestApiVersionsV4 {
    pub client_software_name: CompactString,
    pub client_software_version: CompactString,
    pub tagged_fields: TagBuffer,
}

/// The body of a request, in the form that the request's key asks for.
#[derive(Debug, Clone, PartialEq, Eq)]
pub enum KafkaRequestBody {
    ApiVersions(KafkaRequestApiVersionsV4),
    DescribeTopicPartitions(KafkaRequestDescribeTopicPartitionsV0),
}

#[derive(Debug, Clone, PartialEq, Eq)]
pub struct KafkaRequest {
    pub header: KafkaRequestHeader,
    pub body: KafkaRequestBody,
}

/// What a header says, whatever its shape. A header without a client id
/// field has none.
pub ghost struct HeaderModel {
    pub version: HeaderVersion,
    pub api_key: ApiKey,
    pub api_version: i16,
    pub correlation_id: i32,
    pub client_id: Option<Seq<char>>,
}

/// What a request for the supported versions says.
pub ghost struct BodyModel {
    pub client_software_name: Option<Seq<char>>,
    pub client_software_version: Option<Seq<char>>,
}

/// What a request body says.
pub ghost enum RequestBodyModel {
    ApiVersions(BodyModel),
    DescribeTopicPartitions(DescribeTopicPartitionsModel),
}

/// What a request says.
pub ghost struct RequestModel {
    pub header: HeaderModel,
    pub body: RequestBodyModel,
}

/// What the first bytes of `s` decode to as a header of the given shape,
/// with the position behind it.
pub open spec fn header_parse(s: Seq<u8>, version: HeaderVersion) -> Parsed<HeaderModel> {
    match field_at::<ApiKey>(s, 0) {
        Err(e) => Err(e),
        Ok((api_key, end1)) => match field_at::<i16>(s, end1) {
            Err(e) => Err(e),
            Ok((api_version, end2)) => match field_at::<i32>(s, end2) {
                Err(e) => Err(e),
                Ok((correlation_id, end3)) => match version {
                    HeaderVersion::V0 => Ok(
                        (
                            HeaderModel {
                                version,
                                api_key,
                                api_version,
                                correlation_id,
                                client_id: None,
                            },
                            end3,
                        ),
                    ),
                    HeaderVersion::V1 => match field_at::<NullableString>(s, end3) {
                        Err(e) => Err(e),
                        Ok((client_id, end4)) => Ok(
                            (
                                HeaderModel {
                                    version,
                                    api_key,
                                    api_version,
                                    correlation_id,
                                    client_id,
                                },
                                end4,
                            ),
                        ),
                    },
                    HeaderVersion::V2 => match field_at::<NullableString>(s, end3) {
                        Err(e) => Err(e),
                        Ok((client_id, end4)) => match field_at::<TagBuffer>(s, end4) {
                            Err(e) => Err(e),
                            Ok((tags, end5)) => Ok(
                                (
                                    HeaderModel {
                                        version,
                                        api_key,
                                        api_version,
                                        correlation_id,
                                        client_id,
                                    },
                                    end5,
                                ),
                            ),
                        },
                    },
                },
            },
        },
    }
}

/// What the bytes of `s` from `pos` on decode to as a request for the
/// supported versions, with the position behind it.
pub open spec fn body_parse(s: Seq<u8>, pos: nat) -> Parsed<BodyModel> {
    match field_at::<CompactString>(s, pos) {
        Err(e) => Err(e),
        Ok((client_software_name, end1)) => match field_at::<CompactString>(s, end1) {
            Err(e) => Err(e),
            Ok((client_software_version, end2)) => match field_at::<TagBuffer>(s, end2) {
                Err(e) => Err(e),
                Ok((tags, end3)) => Ok(
                    (BodyModel { client_software_name, client_software_version }, end3),
                ),
            },
        },
    }
}

/// What the bytes of `s` from `pos` on decode to as the body of a request
/// with the given key. A request for the partitions of topics has a form of
/// its own; every other body is read in the form of a request for the
/// supported versions.
pub open spec fn request_body_parse(s: Seq<u8>, pos: nat, key: ApiKey) -> Parsed<
    RequestBodyModel,
> {
    if key == ApiKey::DescribeTopicPartitions {
        match describe_topic_partitions_parse(s, pos) {
            Err(e) => Err(e),
            Ok((body, end)) => Ok((RequestBodyModel::DescribeTopicPartitions(body), end)),
        }
    } else {
        match body_parse(s, pos) {
            Err(e) => Err(e),
            Ok((body, end)) => Ok((RequestBodyModel::ApiVersions(body), end)),
        }
    }
}

/// What a frame's bytes decode to: a header of the given shape, then the
/// body that the header's key asks for.
#[verifier::opaque]
pub open spec fn payload_parse(frame: Seq<u8>, version: HeaderVersion) -> Parsed<RequestModel> {
    match header_parse(frame, version) {
        Err(e) => Err(e),
        Ok((header, p)) => match request_body_parse(frame, p, header.api_key) {
            Err(e) => Err(e),
            Ok((body, end)) => Ok((RequestModel { header, body }, end)),
        },
    }
}

/// What the first bytes of `s` decode to as a request.
///
/// The size field comes first. Until the whole frame is there the answer is
/// `IncompleteFrame`. Header and body are then read from the frame's bytes
/// alone and have to take all of them: a frame that ends before they do, or
/// after, has a wrong size.
pub open spec fn request_parse(s: Seq<u8>, version: HeaderVersion) -> Parsed<RequestModel> {
    if s.len() < 4 {
        Err(CodecError::IncompleteFrame)
    } else if be_i32(s) < 0 {
        Err(CodecError::FormatError)
    } else if s.len() < 4 + be_i32(s) {
        Err(CodecError::IncompleteFrame)
    } else {
        match payload_parse(s.subrange(4, 4 + be_i32(s)), version) {
            Err(CodecError::IncompleteFrame) => Err(CodecError::TrailingBytesError),
            Err(e) => Err(e),
            Ok((m, n)) => if n == be_i32(s) {
                Ok((m, (4 + be_i32(s)) as nat))
            } else {
                Err(CodecError::TrailingBytesError)
            },
        }
    }
}

impl KafkaRequestHeader {
    pub open spec fn model(&self) -> HeaderModel {
        match self {
            KafkaRequestHeader::V0(h) => HeaderModel {
                version: HeaderVersion::V0,
                api_key: h.request_api_key,
                api_version: h.request_api_version,
                correlation_id: h.correlation_id,
                client_id: None,
            },
            KafkaRequestHeader::V1(h) => HeaderModel {
                version: HeaderVersion::V1,
                api_key: h.request_api_key,
                api_version: h.request_api_version,
                correlation_id: h.correlation_id,
                client_id: h.client_id.model(),
            },
            KafkaRequestHeader::V2(h) => HeaderModel {
                version: HeaderVersion::V2,
                api_key: h.request_api_key,
                api_version: h.request_api_version,
                correlation_id: h.correlation_id,
                client_id: h.client_id.model(),
            },
        }
    }

    /// The shape of the header.
    pub fn version(&self) -> (r: HeaderVersion)
        ensures
            r == self.model().version,
    {
        match self {
            KafkaRequestHeader::V0(_) => HeaderVersion::V0,
            KafkaRequestHeader::V1(_) => HeaderVersion::V1,
            KafkaRequestHeader::V2(_) => HeaderVersion::V2,
        }
    }

    /// The key of the request.
    pub fn api_key(&self) -> (r: &ApiKey)
        ensures
            *r == self.model().api_key,
    {
        match self {
            KafkaRequestHeader::V2(header) => &header.request_api_key,
            KafkaRequestHeader::V1(header) => &header.request_api_key,
            KafkaRequestHeader::V0(header) => &header.request_api_key,
        }
    }

    /// The version of the request.
    pub fn api_version(&self) -> (r: i16)
        ensures
            r == self.model().api_version,
    {
        match self {
            KafkaRequestHeader::V2(header) => header.request_api_version,
            KafkaRequestHeader::V1(header) => header.request_api_version,
            KafkaRequestHeader::V0(header) => header.request_api_version,
        }
    }

    /// The token that the response echoes.
    pub fn correlation_id(&self) -> (r: i32)
        ensures
            r == self.model().correlation_id,
    {
        match self {
            KafkaRequestHeader::V2(header) => header.correlation_id,
            KafkaRequestHeader::V1(header) => header.correlation_id,
            KafkaRequestHeader::V0(header) => header.correlation_id,
        }
    }

    /// Decodes a header of the given shape from the beginning of `input` and
    /// gives the position behind it.
    pub fn decode(input: &[u8], version: HeaderVersion) -> (r: Result<(Self, usize), CodecError>)
        ensures
            match header_parse(input@, version) {
                Ok((m, end)) => r is Ok && r.unwrap().0.model() == m && r.unwrap().1 == end && end
                    <= input@.len(),
                Err(e) => r is Err && r->Err_0 == e,
            },
    {
        let (request_api_key, end1) = decode_at::<ApiKey>(input, 0)?;
        let (request_api_version, end2) = decode_at::<i16>(input, end1)?;
        let (correlation_id, end3) = decode_at::<i32>(input, end2)?;
        match version {
            HeaderVersion::V0 => Ok(
                (
                    KafkaRequestHeader::V0(
                        KafkaRequestHeaderV0 {
                            request_api_key,
                            request_api_version,
                            correlation_id,
                        },
                    ),
                    end3,
                ),
            ),
            HeaderVersion::V1 => {
                let (client_id, end4) = decode_at::<NullableString>(input, end3)?;
                Ok(
                    (
                        KafkaRequestHeader::V1(
                            KafkaRequestHeaderV1 {
                                request_api_key,
                                request_api_version,
                                correlation_id,
                                client_id,
                            },
                        ),
                        end4,
                    ),
                )
            },
            HeaderVersion::V2 => {
                let (client_id, end4) = decode_at::<NullableString>(input, end3)?;
                let (tagged_fields, end5) = decode_at::<TagBuffer>(input, end4)?;
                Ok(
                    (
                        KafkaRequestHeader::V2(
                            KafkaRequestHeaderV2 {
                                request_api_key,
                                request_api_version,
                                correlation_id,
                                client_id,
                                tagged_fields,
                            },
                        ),
                        end5,
                    ),
                )
            },
        }
    }
}

impl KafkaRequestApiVersionsV4 {
    pub open spec fn model(&self) -> BodyModel {
        BodyModel {
            client_software_name: self.client_software_name.model(),
            client_software_version: self.client_software_version.model(),
        }
    }

    /// Decodes a body that begins at `pos` and gives the position behind it.
    pub fn decode(input: &[u8], pos: usize) -> (r: Result<(Self, usize), CodecError>)
        ensures
            match body_parse(input@, pos as nat) {
                Ok((m, end)) => r is Ok && r.unwrap().0.model() == m && r.unwrap().1 == end && end
                    <= input@.len(),
                Err(e) => r is Err && r->Err_0 == e,
            },
    {
        let (client_software_name, end1) = decode_at::<CompactString>(input, pos)?;
        let (client_software_version, end2) = decode_at::<CompactString>(input, end1)?;
        let (tagged_fields, end3) = decode_at::<TagBuffer>(input, end2)?;
        Ok(
            (
                KafkaRequestApiVersionsV4 {
                    client_software_name,
                    client_software_version,
                    tagged_fields,
                },
                end3,
            ),
        )
    }
}

impl KafkaRequestBody {
    pub open spec fn model(&self) -> RequestBodyModel {
        match self {
            KafkaRequestBody::ApiVersions(body) => RequestBodyModel::ApiVersions(body.model()),
            KafkaRequestBody::DescribeTopicPartitions(body) => {
                RequestBodyModel::DescribeTopicPartitions(body.model())
            },
        }
    }

    /// Decodes the body of a request with the given key that begins at `pos`
    /// and gives the position behind it.
    pub fn decode(input: &[u8], pos: usize, key: ApiKey) -> (r: Result<(Self, usize), CodecError>)
        ensures
            match request_body_parse(input@, pos as nat, key) {
                Ok((m, end)) => r is Ok && r.unwrap().0.model() == m && r.unwrap().1 == end && end
                    <= input@.len(),
                Err(e) => r is Err && r->Err_0 == e,
            },
    {
        match key {
            ApiKey::DescribeTopicPartitions => {
                let (body, end) = KafkaRequestDescribeTopicPartitionsV0::decode(input, pos)?;
                Ok((KafkaRequestBody::DescribeTopicPartitions(body), end))
            },
            _ => {
                let (body, end) = KafkaRequestApiVersionsV4::decode(input, pos)?;
                Ok((KafkaRequestBody::ApiVersions(body), end))
            },
        }
    }
}

impl KafkaRequest {
    pub open spec fn model(&self) -> RequestModel {
        RequestModel { header: self.header.model(), body: self.body.model() }
    }

    /// Decodes header and body from a frame's bytes.
    pub fn decode_payload(frame: &[u8], version: HeaderVersion) -> (r: Result<
        (Self, usize),
        CodecError,
    >)
        ensures
            match payload_parse(frame@, version) {
                Ok((m, end)) => r is Ok && r.unwrap().0.model() == m && r.unwrap().1 == end && end
                    <= frame@.len(),
                Err(e) => r is Err && r->Err_0 == e,
            },
    {
        proof {
            reveal(payload_parse);
        }
        let (header, p) = KafkaRequestHeader::decode(frame, version)?;
        let (body, end) = KafkaRequestBody::decode(frame, p, *header.api_key())?;
        Ok((KafkaRequest { header, body }, end))
    }

    /// Decodes one request from the beginning of `input` and says how many
    /// bytes its frame took. Bytes behind the frame are never looked at.
    pub fn decode(input: &[u8], version: HeaderVersion) -> (r: Result<(Self, usize), CodecError>)
        ensures
            match request_parse(input@, version) {
                Ok((m, n)) => r is Ok && r.unwrap().0.model() == m && r.unwrap().1 == n && 4 <= n
                    <= input@.len(),
                Err(e) => r is Err && r->Err_0 == e,
            },
    {
        let (message_size, _) = i32::decode(input)?;
        if message_size < 0 {
            return Err(CodecError::FormatError);
        }
        let size: usize = message_size as usize;
        if input.len() - 4 < size {
            return Err(CodecError::IncompleteFrame);
        }
        let frame = slice_subrange(input, 4, 4 + size);
        match KafkaRequest::decode_payload(frame, version) {
            Ok((request, taken)) => {
                if taken == size {
                    Ok((request, 4 + size))
                } else {
                    Err(CodecError::TrailingBytesError)
                }
            },
            Err(CodecError::IncompleteFrame) => Err(CodecError::TrailingBytesError),
            Err(e) => Err(e),
        }
    }
}

/// The version of a request, whatever the shape of its header.
pub fn get_requests_api_version(request: &KafkaRequest) -> (r: i16)
    ensures
        r == request.model().header.api_version,
{
    request.header.api_version()
}

/// The key of a request, whatever the shape of its header.
pub fn get_requests_api_key(request: &KafkaRequest) -> (r: &ApiKey)
    ensures
        *r == request.model().header.api_key,
{
    request.header.api_key()
}

/// The correlation id of a request, whatever the shape of its header.
pub fn get_correlation_id(request: &KafkaRequest) -> (r: i32)
    ensures
        r == request.model().header.correlation_id,
{
    request.header.correlation_id()
}

/// A frame whose declared size exceeds the bytes that are there is
/// incomplete, whatever those bytes are.
pub proof fn lemma_short_frame_is_incomplete(s: Seq<u8>, version: HeaderVersion)
    requires
        s.len() >= 4,
        be_i32(s) >= 0,
        s.len() < 4 + be_i32(s),
    ensures
        request_parse(s, version) == Err::<(RequestModel, nat), CodecError>(
            CodecError::IncompleteFrame,
        ),
{
}

/// Slow delivery: where `s` begins with a whole request of `n` bytes, every
/// shorter beginning of `s` is incomplete, and the first `n` bytes alone
/// decode to that request.
pub proof fn lemma_prefixes_of_a_request(s: Seq<u8>, version: HeaderVersion, k: int)
    requires
        request_parse(s, version) is Ok,
        0 <= k <= request_parse(s, version).unwrap().1,
    ensures
        k < request_parse(s, version).unwrap().1 ==> request_parse(s.take(k), version) == Err::<
            (RequestModel, nat),
            CodecError,
        >(CodecError::IncompleteFrame),
        k == request_parse(s, version).unwrap().1 ==> request_parse(s.take(k), version)
            == request_parse(s, version),
{
    let p = s.take(k);
    if k >= 4 {
        assert(p[0] == s[0] && p[1] == s[1] && p[2] == s[2] && p[3] == s[3]);
        assert(be_i32(p) == be_i32(s));
        if k == 4 + be_i32(s) {
            assert(p.subrange(4, 4 + be_i32(p)) =~= s.subrange(4, 4 + be_i32(s)));
        }
    }
}

/// Header and body never take more bytes than the frame has, and never
/// fewer than the eight of key, version and correlation id.
pub proof fn lemma_payload_bound(frame: Seq<u8>, version: HeaderVersion)
    ensures
        payload_parse(frame, version) is Ok ==> 8 <= payload_parse(frame, version).unwrap().1
            <= frame.len(),
{
    reveal(payload_parse);
    lemma_field_at_bound::<ApiKey>(frame, 0);
    match field_at::<ApiKey>(frame, 0) {
        Err(e) => {},
        Ok((api_key, end1)) => {
            lemma_field_at_bound::<i16>(frame, end1);
            match field_at::<i16>(frame, end1) {
                Err(e) => {},
                Ok((api_version, end2)) => {
                    lemma_field_at_bound::<i32>(frame, end2);
                    match field_at::<i32>(frame, end2) {
                        Err(e) => {},
                        Ok((correlation_id, end3)) => {
                            lemma_field_at_bound::<NullableString>(frame, end3);
                            match field_at::<NullableString>(frame, end3) {
                                Err(e) => {},
                                Ok((client_id, end4)) => {
                                    lemma_field_at_bound::<TagBuffer>(frame, end4);
                                },
                            }
                        },
                    }
                },
            }
        },
    }
    match header_parse(frame, version) {
        Err(e) => {},
        Ok((header, p)) => {
            lemma_describe_topic_partitions_bound(frame, p);
            lemma_field_at_bound::<CompactString>(frame, p);
            match field_at::<CompactString>(frame, p) {
                Err(e) => {},
                Ok((name, q1)) => {
                    lemma_field_at_bound::<CompactString>(frame, q1);
                    match field_at::<CompactString>(frame, q1) {
                        Err(e) => {},
                        Ok((software_version, q2)) => {
                            lemma_field_at_bound::<TagBuffer>(frame, q2);
                        },
                    }
                },
            }
        },
    }
}

/// A header that was found, or refused, stays so when more bytes arrive.
pub proof fn lemma_header_extend(s: Seq<u8>, more: Seq<u8>, version: HeaderVersion)
    requires
        settled(header_parse(s, version)),
    ensures
        header_parse(s + more, version) == header_parse(s, version),
{
    lemma_field_at_extend::<ApiKey>(s, more, 0);
    match field_at::<ApiKey>(s, 0) {
        Err(e) => {},
        Ok((api_key, end1)) => {
            lemma_field_at_extend::<i16>(s, more, end1);
            match field_at::<i16>(s, end1) {
                Err(e) => {},
                Ok((api_version, end2)) => {
                    lemma_field_at_extend::<i32>(s, more, end2);
                    match field_at::<i32>(s, end2) {
                        Err(e) => {},
                        Ok((correlation_id, end3)) => {
                            if version != HeaderVersion::V0 {
                                lemma_field_at_extend::<NullableString>(s, more, end3);
                                match field_at::<NullableString>(s, end3) {
                                    Err(e) => {},
                                    Ok((client_id, end4)) => {
                                        if version == HeaderVersion::V2 {
                                            lemma_field_at_extend::<TagBuffer>(s, more, end4);
                                        }
                                    },
                                }
                            }
                        },
                    }
                },
            }
        },
    }
}

/// A body that was found, or refused, stays so when more bytes arrive.
pub proof fn lemma_body_extend(s: Seq<u8>, more: Seq<u8>, pos: nat)
    requires
        settled(body_parse(s, pos)),
    ensures
        body_parse(s + more, pos) == body_parse(s, pos),
{
    lemma_field_at_extend::<CompactString>(s, more, pos);
    match field_at::<CompactString>(s, pos) {
        Err(e) => {},
        Ok((name, q1)) => {
            lemma_field_at_extend::<CompactString>(s, more, q1);
            match field_at::<CompactString>(s, q1) {
                Err(e) => {},
                Ok((software_version, q2)) => {
                    lemma_field_at_extend::<TagBuffer>(s, more, q2);
                },
            }
        },
    }
}

/// Header and body that were found, or refused, stay so when the frame is
/// longer: only a frame that ends too early can be mended by more bytes.
pub proof fn lemma_payload_extend(frame: Seq<u8>, more: Seq<u8>, version: HeaderVersion)
    requires
        settled(payload_parse(frame, version)),
    ensures
        payload_parse(frame + more, version) == payload_parse(frame, version),
{
    reveal(payload_parse);
    lemma_header_extend(frame, more, version);
    match header_parse(frame, version) {
        Err(e) => {},
        Ok((header, p)) => {
            if header.api_key == ApiKey::DescribeTopicPartitions {
                lemma_describe_topic_partitions_extend(frame, more, p);
            } else {
                lemma_body_extend(frame, more, p);
            }
        },
    }
}

/// Frame integrity: take the bytes of a whole request and declare another
/// size for them, smaller or larger, with that many bytes there. The result
/// is a `TrailingBytesError`: a size that is one byte short of what header
/// and body take, or one byte long, never passes.
pub proof fn lemma_wrong_size_is_refused(s: Seq<u8>, t: Seq<u8>, version: HeaderVersion)
    requires
        request_parse(s, version) is Ok,
        t.len() >= 4,
        t.skip(4) == s.skip(4),
        0 <= be_i32(t),
        be_i32(t) != be_i32(s),
        4 + be_i32(t) <= t.len(),
    ensures
        request_parse(t, version) == Err::<(RequestModel, nat), CodecError>(
            CodecError::TrailingBytesError,
        ),
{
    let n = be_i32(s) as int;
    let k = be_i32(t) as int;
    let whole = s.subrange(4, 4 + n);
    let other = t.subrange(4, 4 + k);
    assert(s.len() >= 4 + n);
    assert(s.skip(4).len() == s.len() - 4);
    assert(t.skip(4).len() == t.len() - 4);
    assert(t.len() == s.len());
    assert forall|i: int| 4 <= i < s.len() implies t[i] == s[i] by {
        assert(t[i] == t.skip(4)[i - 4]);
        assert(s[i] == s.skip(4)[i - 4]);
    }
    lemma_payload_bound(whole, version);
    lemma_payload_bound(other, version);
    if k < n {
        let more = whole.skip(k);
        assert(other + more =~= whole);
        if settled(payload_parse(other, version)) {
            lemma_payload_extend(other, more, version);
        }
    } else {
        let more = t.subrange(4 + n, 4 + k);
        assert(whole + more =~= other);
        lemma_payload_extend(whole, more, version);
    }
}

/// A request's frame is never shorter than its size field, and a decode
/// never takes more bytes than there are.
pub proof fn lemma_request_parse_bound(s: Seq<u8>, version: HeaderVersion)
    ensures
        request_parse(s, version) is Ok ==> 4 <= request_parse(s, version).unwrap().1 <= s.len(),
{
}

} // verus!
