use bytes::BytesMut;
use kafka_codec::api_keys::ApiKey;
use kafka_codec::codec::KafkaCodec;
use kafka_codec::compact_array::CompactArray;
use kafka_codec::compact_string::CompactString;
use kafka_codec::envelope::KafkaGenericResponse;
use kafka_codec::error::CodecError;
use kafka_codec::error_codes::ErrorCode;
use kafka_codec::format::{Encode, WireFormat};
use kafka_codec::misc::Counter;
use kafka_codec::nullable_string::NullableString;
use kafka_codec::pos_marker::PosMarker;
use kafka_codec::proto::{respond, ApiVersionsResponse};
use kafka_codec::registry::{api_registry, lookup_range, negotiate};
use kafka_codec::describe_topic_partitions::{
    CursorRequestV0, KafkaRequestDescribeTopicPartitionsV0, TopicRequestV0,
};
use kafka_codec::request::{
    get_correlation_id, get_requests_api_key, get_requests_api_version, HeaderVersion,
    KafkaRequest, KafkaRequestApiVersionsV4, KafkaRequestBody, KafkaRequestHeader,
    KafkaRequestHeaderV0, KafkaRequestHeaderV1, KafkaRequestHeaderV2,
};
use kafka_codec::response::{
    advertised_keys, advertised_versions, decode_version_range, encode_version_range, ApiKeyV4,
    ApiVersion, KafkaResponseApiVersionsV3, KafkaResponseApiVersionsV4, KafkaResponseHeaderV0,
};
use kafka_codec::tag_buffer::TagBuffer;

fn body_bytes() -> Vec<u8> {
    let mut out = Vec::new();
    CompactString(Some("kafka".to_owned())).encode(&mut out).unwrap();
    CompactString(Some("1.0".to_owned())).encode(&mut out).unwrap();
    TagBuffer.encode(&mut out).unwrap();
    out
}

fn payload_v2(version: i16, correlation_id: i32) -> Vec<u8> {
    let mut out = Vec::new();
    ApiKey::ApiVersions.encode(&mut out).unwrap();
    version.encode(&mut out).unwrap();
    correlation_id.encode(&mut out).unwrap();
    NullableString(Some("cli".to_owned())).encode(&mut out).unwrap();
    TagBuffer.encode(&mut out).unwrap();
    out.extend_from_slice(&body_bytes());
    out
}

fn framed(declared: i32, payload: &[u8]) -> Vec<u8> {
    let mut out = Vec::new();
    declared.encode(&mut out).unwrap();
    out.extend_from_slice(payload);
    out
}

fn expected_v2(version: i16, correlation_id: i32) -> KafkaRequest {
    KafkaRequest {
        header: KafkaRequestHeader::V2(KafkaRequestHeaderV2 {
            request_api_key: ApiKey::ApiVersions,
            request_api_version: version,
            correlation_id,
            client_id: NullableString(Some("cli".to_owned())),
            tagged_fields: TagBuffer,
        }),
        body: KafkaRequestBody::ApiVersions(expected_body()),
    }
}

fn expected_body() -> KafkaRequestApiVersionsV4 {
    KafkaRequestApiVersionsV4 {
        client_software_name: CompactString(Some("kafka".to_owned())),
        client_software_version: CompactString(Some("1.0".to_owned())),
        tagged_fields: TagBuffer,
    }
}

fn topics_request() -> KafkaRequestDescribeTopicPartitionsV0 {
    KafkaRequestDescribeTopicPartitionsV0 {
        topics: CompactArray::new(vec![
            TopicRequestV0 {
                name: CompactString(Some("t1".to_owned())),
                tagged_fields: TagBuffer,
            },
            TopicRequestV0 {
                name: CompactString(None),
                tagged_fields: TagBuffer,
            },
        ]),
        response_partition_limit: 10,
        cursor: Some(CursorRequestV0 {
            topic_name: CompactString(Some("t1".to_owned())),
            partition_index: 2,
            tagged_fields: TagBuffer,
        }),
        tagged_fields: TagBuffer,
    }
}

fn topics_request_bytes() -> Vec<u8> {
    vec![
        3, 3, b't', b'1', 0, 0, 0, 0, 0, 0, 10, 3, b't', b'1', 0, 0, 0, 2, 0, 0,
    ]
}

#[test]
fn request_for_the_partitions_of_topics_has_its_own_body() {
    let mut payload = vec![0, 75, 0, 0, 0, 0, 0, 5, 0xFF, 0xFF, 0];
    payload.extend_from_slice(&topics_request_bytes());
    let frame = framed(payload.len() as i32, &payload);
    let (request, taken) = KafkaRequest::decode(&frame, HeaderVersion::V2).unwrap();
    assert_eq!(taken, frame.len());
    assert_eq!(get_correlation_id(&request), 5);
    assert_eq!(*get_requests_api_key(&request), ApiKey::DescribeTopicPartitions);
    assert_eq!(
        request.body,
        KafkaRequestBody::DescribeTopicPartitions(topics_request())
    );
    assert_eq!(respond(&request), None);

    let mut payload = vec![0, 75, 0, 0, 0, 0, 0, 5, 0xFF, 0xFF, 0];
    payload.extend_from_slice(&body_bytes());
    let frame = framed(payload.len() as i32, &payload);
    assert!(KafkaRequest::decode(&frame, HeaderVersion::V2).is_err());
}

#[test]
fn topics_and_cursors_round_trip() {
    let bytes = topics_request_bytes();
    assert_eq!(
        KafkaRequestDescribeTopicPartitionsV0::decode(&bytes, 0),
        Ok((topics_request(), bytes.len()))
    );
    assert_eq!(
        KafkaRequestDescribeTopicPartitionsV0::decode(&bytes[..19], 0),
        Err(CodecError::IncompleteFrame)
    );
    assert_eq!(
        KafkaRequestDescribeTopicPartitionsV0::decode(&bytes, 30),
        Err(CodecError::IncompleteFrame)
    );
    let topic = TopicRequestV0 {
        name: CompactString(Some("orders".to_owned())),
        tagged_fields: TagBuffer,
    };
    let mut out = Vec::new();
    topic.encode(&mut out).unwrap();
    assert_eq!(out, vec![7, b'o', b'r', b'd', b'e', b'r', b's', 0]);
    assert_eq!(TopicRequestV0::decode(&out), Ok((topic, 8)));
    let cursor = CursorRequestV0 {
        topic_name: CompactString(Some("a".to_owned())),
        partition_index: -1,
        tagged_fields: TagBuffer,
    };
    let mut out = Vec::new();
    cursor.encode(&mut out).unwrap();
    assert_eq!(out, vec![2, b'a', 0xFF, 0xFF, 0xFF, 0xFF, 0]);
    assert_eq!(CursorRequestV0::decode(&out), Ok((cursor, 7)));
    assert_eq!(
        CursorRequestV0::decode(&[2, b'a', 0, 0, 0, 1, 4]),
        Err(CodecError::UnsupportedTagError)
    );
}

#[test]
fn request_with_a_v2_header_decodes() {
    let payload = payload_v2(4, 7);
    assert_eq!(
        payload,
        vec![
            0, 18, 0, 4, 0, 0, 0, 7, 0, 3, b'c', b'l', b'i', 0, 6, b'k', b'a', b'f', b'k', b'a',
            4, b'1', b'.', b'0', 0
        ]
    );
    let frame = framed(payload.len() as i32, &payload);
    let (request, taken) = KafkaRequest::decode(&frame, HeaderVersion::V2).unwrap();
    assert_eq!(taken, frame.len());
    assert_eq!(request, expected_v2(4, 7));
    assert_eq!(get_requests_api_version(&request), 4);
    assert_eq!(*get_requests_api_key(&request), ApiKey::ApiVersions);
    assert_eq!(get_correlation_id(&request), 7);
    assert_eq!(request.header.version(), HeaderVersion::V2);
}

#[test]
fn request_with_a_v0_or_v1_header_decodes() {
    let mut payload = vec![0, 0, 0, 0, 0, 0, 1, 0];
    payload.extend_from_slice(&body_bytes());
    let frame = framed(payload.len() as i32, &payload);
    let (request, taken) = KafkaRequest::decode(&frame, HeaderVersion::V0).unwrap();
    assert_eq!(taken, frame.len());
    assert_eq!(
        request.header,
        KafkaRequestHeader::V0(KafkaRequestHeaderV0 {
            request_api_key: ApiKey::Produce,
            request_api_version: 0,
            correlation_id: 256,
        })
    );
    assert_eq!(request.header.api_version(), 0);
    assert_eq!(request.header.correlation_id(), 256);

    let mut payload = vec![0, 19, 0, 2, 0xFF, 0xFF, 0xFF, 0xFF, 0xFF, 0xFF];
    payload.extend_from_slice(&body_bytes());
    let frame = framed(payload.len() as i32, &payload);
    let (request, _) = KafkaRequest::decode(&frame, HeaderVersion::V1).unwrap();
    assert_eq!(
        request.header,
        KafkaRequestHeader::V1(KafkaRequestHeaderV1 {
            request_api_key: ApiKey::CreateTopics,
            request_api_version: 2,
            correlation_id: -1,
            client_id: NullableString(None),
        })
    );
    assert_eq!(*request.header.api_key(), ApiKey::CreateTopics);
}

#[test]
fn header_and_body_decode_on_their_own() {
    let payload = payload_v2(4, 7);
    let (header, end) = KafkaRequestHeader::decode(&payload, HeaderVersion::V2).unwrap();
    assert_eq!(end, 14);
    assert_eq!(header, expected_v2(4, 7).header);
    let (body, end) = KafkaRequestApiVersionsV4::decode(&payload, end).unwrap();
    assert_eq!(end, payload.len());
    assert_eq!(body, expected_body());
    assert_eq!(
        KafkaRequestBody::decode(&payload, 14, ApiKey::CreateTopics),
        Ok((KafkaRequestBody::ApiVersions(expected_body()), payload.len()))
    );
    let (request, end) = KafkaRequest::decode_payload(&payload, HeaderVersion::V2).unwrap();
    assert_eq!(end, payload.len());
    assert_eq!(request, expected_v2(4, 7));
}

#[test]
fn frame_with_a_size_one_byte_short_has_a_wrong_size() {
    let payload = payload_v2(4, 7);
    let frame = framed(payload.len() as i32 - 1, &payload);
    assert_eq!(
        KafkaRequest::decode(&frame, HeaderVersion::V2),
        Err(CodecError::TrailingBytesError)
    );
}

#[test]
fn frame_with_bytes_left_over_has_a_wrong_size() {
    let mut payload = payload_v2(4, 7);
    payload.push(0);
    let frame = framed(payload.len() as i32, &payload);
    assert_eq!(
        KafkaRequest::decode(&frame, HeaderVersion::V2),
        Err(CodecError::TrailingBytesError)
    );
}

#[test]
fn frame_that_is_not_all_there_is_incomplete() {
    let payload = payload_v2(4, 7);
    let frame = framed(payload.len() as i32 + 1, &payload);
    assert_eq!(
        KafkaRequest::decode(&frame, HeaderVersion::V2),
        Err(CodecError::IncompleteFrame)
    );
    let frame = framed(payload.len() as i32, &payload);
    for cut in 0..frame.len() {
        assert_eq!(
            KafkaRequest::decode(&frame[..cut], HeaderVersion::V2),
            Err(CodecError::IncompleteFrame)
        );
    }
}

#[test]
fn frame_errors_by_kind() {
    assert_eq!(
        KafkaRequest::decode(&[0xFF, 0xFF, 0xFF, 0xFF, 0x00], HeaderVersion::V0),
        Err(CodecError::FormatError)
    );
    let mut payload = payload_v2(4, 7);
    payload[1] = 17;
    let frame = framed(payload.len() as i32, &payload);
    assert_eq!(
        KafkaRequest::decode(&frame, HeaderVersion::V2),
        Err(CodecError::FormatError)
    );
    let mut payload = payload_v2(4, 7);
    let last = payload.len() - 1;
    payload[last] = 1;
    let frame = framed(payload.len() as i32, &payload);
    assert_eq!(
        KafkaRequest::decode(&frame, HeaderVersion::V2),
        Err(CodecError::UnsupportedTagError)
    );
    let mut payload = payload_v2(4, 7);
    payload[9] = 0xFE;
    payload[8] = 0xFF;
    let frame = framed(payload.len() as i32, &payload);
    assert_eq!(
        KafkaRequest::decode(&frame, HeaderVersion::V2),
        Err(CodecError::FormatError)
    );
}

#[test]
fn decode_never_reads_behind_the_frame() {
    let payload = payload_v2(4, 7);
    let mut bytes = framed(payload.len() as i32, &payload);
    let frame_len = bytes.len();
    bytes.extend_from_slice(&[0xDE, 0xAD]);
    let (request, taken) = KafkaRequest::decode(&bytes, HeaderVersion::V2).unwrap();
    assert_eq!(taken, frame_len);
    assert_eq!(request, expected_v2(4, 7));
}

#[test]
fn slow_delivery_gives_exactly_one_request() {
    let payload = payload_v2(3, 99);
    let frame = framed(payload.len() as i32, &payload);
    let codec = KafkaCodec::new(HeaderVersion::V2);
    let mut buffer = BytesMut::new();
    let mut requests = Vec::new();
    let mut sent = 0;
    while sent < frame.len() {
        let end = usize::min(sent + 2, frame.len());
        buffer.extend_from_slice(&frame[sent..end]);
        sent = end;
        let attempt = codec.decode(&mut buffer).unwrap();
        if sent < frame.len() {
            assert_eq!(attempt, None);
            assert_eq!(buffer.len(), sent);
        }
        if let Some(request) = attempt {
            requests.push(request);
        }
    }
    assert_eq!(requests, vec![expected_v2(3, 99)]);
    assert_eq!(buffer.len(), 0);
    assert_eq!(codec.decode(&mut buffer), Ok(None));
}

#[test]
fn codec_takes_requests_off_the_front() {
    let first = payload_v2(4, 1);
    let second = payload_v2(9, 2);
    let codec = KafkaCodec::new(HeaderVersion::V2);
    let mut buffer = BytesMut::new();
    buffer.extend_from_slice(&framed(first.len() as i32, &first));
    buffer.extend_from_slice(&framed(second.len() as i32, &second));
    buffer.extend_from_slice(&[0, 0]);
    assert_eq!(codec.decode(&mut buffer), Ok(Some(expected_v2(4, 1))));
    assert_eq!(buffer.len(), second.len() + 4 + 2);
    assert_eq!(codec.decode(&mut buffer), Ok(Some(expected_v2(9, 2))));
    assert_eq!(&buffer[..], &[0, 0]);
    assert_eq!(codec.decode(&mut buffer), Ok(None));
    assert_eq!(&buffer[..], &[0, 0]);
}

#[test]
fn drain_takes_every_whole_request() {
    let first = payload_v2(4, 1);
    let second = payload_v2(9, 2);
    let third = payload_v2(0, 3);
    let codec = KafkaCodec::new(HeaderVersion::V2);
    let mut buffer = BytesMut::new();
    assert_eq!(codec.drain(&mut buffer), (Vec::new(), None));
    buffer.extend_from_slice(&framed(first.len() as i32, &first));
    buffer.extend_from_slice(&framed(second.len() as i32, &second));
    let partial = framed(third.len() as i32, &third);
    buffer.extend_from_slice(&partial[..10]);
    assert_eq!(
        codec.drain(&mut buffer),
        (vec![expected_v2(4, 1), expected_v2(9, 2)], None)
    );
    assert_eq!(&buffer[..], &partial[..10]);
    buffer.extend_from_slice(&partial[10..]);
    buffer.extend_from_slice(&[0xFF, 0xFF, 0xFF, 0xFF]);
    assert_eq!(
        codec.drain(&mut buffer),
        (vec![expected_v2(0, 3)], Some(CodecError::FormatError))
    );
    assert_eq!(&buffer[..], &[0xFF, 0xFF, 0xFF, 0xFF]);
}

#[test]
fn codec_leaves_a_malformed_frame_in_the_buffer() {
    let payload = payload_v2(4, 1);
    let bytes = framed(payload.len() as i32 - 1, &payload);
    let codec = KafkaCodec::new(HeaderVersion::V2);
    let mut buffer = BytesMut::new();
    buffer.extend_from_slice(&bytes);
    assert_eq!(
        codec.decode(&mut buffer),
        Err(CodecError::TrailingBytesError)
    );
    assert_eq!(&buffer[..], &bytes[..]);
}

fn expected_response_frame(error: u8) -> Vec<u8> {
    vec![
        0, 0, 0, 26, 0, 0, 0, 7, 0, error, 3, 0, 18, 0, 0, 0, 4, 0, 0, 75, 0, 0, 0, 0, 0, 0, 0,
        0, 0, 0,
    ]
}

#[test]
fn response_size_is_the_length_of_header_and_body() {
    let response = KafkaGenericResponse::new(
        KafkaResponseHeaderV0::new(7),
        ApiVersionsResponse::new(4),
    );
    let mut out = vec![0xEE];
    assert_eq!(response.encode(&mut out), Ok(()));
    assert_eq!(out[0], 0xEE);
    assert_eq!(&out[1..], &expected_response_frame(0)[..]);
    let (size, _) = i32::decode(&out[1..]).unwrap();
    assert_eq!(size as usize, out.len() - 1 - 4);
}

#[test]
fn response_is_the_same_by_either_strategy() {
    for version in [-1i16, 0, 3, 4, 9] {
        let response = KafkaGenericResponse::new(
            KafkaResponseHeaderV0::new(version as i32 * 1000),
            ApiVersionsResponse::new(version),
        );
        let mut patched = Vec::new();
        response.encode(&mut patched).unwrap();
        assert_eq!(response.to_bytes(), Ok(patched));
    }
}

#[test]
fn codec_appends_a_whole_frame() {
    let codec = KafkaCodec::new(HeaderVersion::V2);
    let mut buffer = BytesMut::new();
    buffer.extend_from_slice(&[1, 2, 3]);
    let response = KafkaGenericResponse::new(
        KafkaResponseHeaderV0::new(7),
        ApiVersionsResponse::new(9),
    );
    assert_eq!(codec.encode(response, &mut buffer), Ok(()));
    assert_eq!(&buffer[..3], &[1, 2, 3]);
    assert_eq!(&buffer[3..], &expected_response_frame(35)[..]);
}

#[test]
fn negotiation_inside_and_outside_the_range() {
    let inside = ApiVersionsResponse::new(2);
    assert_eq!(inside.error_code(), ErrorCode::NoError);
    let outside = ApiVersionsResponse::new(9);
    assert_eq!(outside.error_code(), ErrorCode::UnsupportedVersion);
    for response in [inside, outside] {
        match response {
            ApiVersionsResponse::V4(body) => {
                assert!(body
                    .api_keys
                    .entries
                    .contains(&ApiKeyV4::new(ApiKey::ApiVersions, 0, 4)));
                assert_eq!(body.api_keys.entries, advertised_keys());
                assert_eq!(body.throttle_time_ms, 0);
            }
            ApiVersionsResponse::V3(_) => panic!("only version 3 is answered in its own form"),
        }
    }
    match ApiVersionsResponse::new(3) {
        ApiVersionsResponse::V3(body) => {
            assert_eq!(body.error_code, ErrorCode::NoError);
            assert_eq!(body.api_versions.entries, advertised_versions());
        }
        ApiVersionsResponse::V4(_) => panic!("version 3 is answered in its own form"),
    }
    assert_eq!(ApiVersionsResponse::new(-1).error_code(), ErrorCode::UnsupportedVersion);
    assert_eq!(ApiVersionsResponse::new(0).error_code(), ErrorCode::NoError);
    assert_eq!(ApiVersionsResponse::new(4).error_code(), ErrorCode::NoError);
    assert_eq!(ApiVersionsResponse::new(5).error_code(), ErrorCode::UnsupportedVersion);
}

#[test]
fn respond_echoes_the_correlation_id() {
    for (version, code) in [(2i16, ErrorCode::NoError), (9, ErrorCode::UnsupportedVersion)] {
        let response = respond(&expected_v2(version, 4242)).unwrap();
        assert_eq!(response.header, KafkaResponseHeaderV0::new(4242));
        assert_eq!(response.body.error_code(), code);
        assert_eq!(response.body, ApiVersionsResponse::new(version));
    }
    let mut other = expected_v2(0, 1);
    other.header = KafkaRequestHeader::V0(KafkaRequestHeaderV0 {
        request_api_key: ApiKey::Produce,
        request_api_version: 0,
        correlation_id: 1,
    });
    assert_eq!(respond(&other), None);
}

#[test]
fn registry_and_negotiation() {
    assert_eq!(
        api_registry(),
        vec![
            (ApiKey::ApiVersions, 0, 4),
            (ApiKey::DescribeTopicPartitions, 0, 0)
        ]
    );
    assert_eq!(lookup_range(ApiKey::ApiVersions), Some((0, 4)));
    assert_eq!(lookup_range(ApiKey::DescribeTopicPartitions), Some((0, 0)));
    assert_eq!(lookup_range(ApiKey::Produce), None);
    assert_eq!(negotiate(ApiKey::ApiVersions, 2), Some(ErrorCode::NoError));
    assert_eq!(
        negotiate(ApiKey::ApiVersions, 9),
        Some(ErrorCode::UnsupportedVersion)
    );
    assert_eq!(
        negotiate(ApiKey::DescribeTopicPartitions, 1),
        Some(ErrorCode::UnsupportedVersion)
    );
    assert_eq!(negotiate(ApiKey::CreateTopics, 0), None);
}

#[test]
fn keys_and_error_codes_on_the_wire() {
    assert_eq!(ApiKey::Produce.code(), 0);
    assert_eq!(ApiKey::ApiVersions.code(), 18);
    assert_eq!(ApiKey::CreateTopics.code(), 19);
    assert_eq!(ApiKey::DescribeTopicPartitions.code(), 75);
    assert_eq!(ApiKey::from_code(75), Some(ApiKey::DescribeTopicPartitions));
    assert_eq!(ApiKey::from_code(1), None);
    assert_eq!(ApiKey::decode(&[0, 19, 5]), Ok((ApiKey::CreateTopics, 2)));
    assert_eq!(ApiKey::decode(&[0, 20]), Err(CodecError::FormatError));
    assert_eq!(ApiKey::decode(&[0]), Err(CodecError::IncompleteFrame));
    assert_eq!(ErrorCode::NoError.number(), 0);
    assert_eq!(ErrorCode::UnsupportedVersion.number(), 35);
    assert_eq!(ErrorCode::default(), ErrorCode::NoError);
    assert_eq!(
        ErrorCode::decode(&[0, 35]),
        Ok((ErrorCode::UnsupportedVersion, 2))
    );
    assert_eq!(ErrorCode::decode(&[0, 0, 1]), Ok((ErrorCode::NoError, 2)));
    assert_eq!(ErrorCode::decode(&[0, 1]), Err(CodecError::FormatError));
    let mut out = Vec::new();
    ErrorCode::UnsupportedVersion.encode(&mut out).unwrap();
    assert_eq!(out, vec![0, 35]);
}

#[test]
fn version_entries_round_trip() {
    let mut out = Vec::new();
    encode_version_range(ApiKey::ApiVersions, 0, 4, &mut out);
    assert_eq!(out, vec![0, 18, 0, 0, 0, 4, 0]);
    assert_eq!(
        decode_version_range(&out),
        Ok(((ApiKey::ApiVersions, 0, 4), 7))
    );
    assert_eq!(
        ApiVersion::decode(&out),
        Ok((ApiVersion::new(ApiKey::ApiVersions, 0, 4), 7))
    );
    assert_eq!(
        ApiKeyV4::decode(&out),
        Ok((ApiKeyV4::new(ApiKey::ApiVersions, 0, 4), 7))
    );
    assert_eq!(
        ApiKeyV4::decode(&out[..6]),
        Err(CodecError::IncompleteFrame)
    );
    let list = CompactArray::new(vec![
        ApiKeyV4::new(ApiKey::Produce, 1, 2),
        ApiKeyV4::new(ApiKey::CreateTopics, -3, 300),
    ]);
    let mut bytes = Vec::new();
    list.encode(&mut bytes).unwrap();
    assert_eq!(
        bytes,
        vec![3, 0, 0, 0, 1, 0, 2, 0, 0, 19, 0xFF, 0xFD, 0x01, 0x2C, 0]
    );
    assert_eq!(CompactArray::<ApiKeyV4>::decode(&bytes), Ok((list, 15)));
}

#[test]
fn response_bodies_share_a_wire_form() {
    let v3 = KafkaResponseApiVersionsV3::new(ErrorCode::UnsupportedVersion, 5);
    let v4 = KafkaResponseApiVersionsV4::new(ErrorCode::UnsupportedVersion, advertised_keys(), 5);
    let mut a = Vec::new();
    let mut b = Vec::new();
    v3.encode(&mut a).unwrap();
    v4.encode(&mut b).unwrap();
    assert_eq!(a, b);
    assert_eq!(
        a,
        vec![0, 35, 3, 0, 18, 0, 0, 0, 4, 0, 0, 75, 0, 0, 0, 0, 0, 0, 0, 0, 5, 0]
    );
    let empty = KafkaResponseApiVersionsV4::new(ErrorCode::NoError, Vec::new(), -1);
    let mut c = Vec::new();
    empty.encode(&mut c).unwrap();
    assert_eq!(c, vec![0, 0, 0, 0xFF, 0xFF, 0xFF, 0xFF, 0]);
    let mut d = Vec::new();
    KafkaResponseHeaderV0::new(258).encode(&mut d).unwrap();
    assert_eq!(d, vec![0, 0, 1, 2]);
}

#[test]
fn marker_is_filled_with_what_follows_it() {
    let mut out = vec![9u8, 9];
    let mut marker = PosMarker::default();
    assert_eq!(marker.pos, 0);
    marker.write(&mut out);
    assert_eq!(marker.pos, 2);
    assert_eq!(out, vec![9, 9, 0, 0, 0, 0]);
    out.extend_from_slice(&[7; 300]);
    assert_eq!(marker.fill(&mut out), Ok(()));
    assert_eq!(&out[..6], &[9, 9, 0, 0, 1, 44]);
    assert_eq!(&out[6..], &[7; 300][..]);
}

#[test]
fn marker_outside_the_bytes_is_a_format_error() {
    let marker = PosMarker { pos: 3 };
    let mut out = vec![1u8, 2, 3, 4, 5, 6];
    assert_eq!(marker.fill(&mut out), Err(CodecError::FormatError));
    assert_eq!(out, vec![1, 2, 3, 4, 5, 6]);
    let mut short = vec![1u8];
    assert_eq!(
        PosMarker::default().fill(&mut short),
        Err(CodecError::FormatError)
    );
    let marker = PosMarker { pos: 2 };
    assert_eq!(marker.fill(&mut out), Ok(()));
    assert_eq!(out, vec![1, 2, 0, 0, 0, 0]);
}

#[test]
fn counter_counts_what_was_written() {
    let mut counter = Counter::new(Vec::new());
    assert_eq!(counter.size(), 0);
    assert_eq!(counter.write(&[1, 2, 3]), 3);
    assert_eq!(counter.write(&[4]), 1);
    assert_eq!(counter.size(), 4);
    assert_eq!(counter.inner, vec![1, 2, 3, 4]);
    let mut wrapping = Counter::new(());
    wrapping.record(usize::MAX);
    wrapping.record(2);
    assert_eq!(wrapping.size(), 1);
}
