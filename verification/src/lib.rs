//! A length-prefixed binary codec for a Kafka-style request/response protocol:
//! primitive encodings, request and response envelopes, version negotiation
//! and the framing adapter that works on a connection's receive buffer.

pub mod error;
pub mod format;
pub mod fixed;
pub mod unsigned_varint;
pub mod utf8;
pub mod nullable_string;
pub mod tag_buffer;
pub mod compact_string;
pub mod compact_array;
pub mod api_keys;
pub mod error_codes;
pub mod request;
pub mod describe_topic_partitions;
pub mod registry;
pub mod response;
pub mod pos_marker;
pub mod envelope;
pub mod proto;
pub mod codec;
pub mod misc;
