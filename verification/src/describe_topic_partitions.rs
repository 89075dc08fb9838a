use vstd::prelude::*;
use crate::compact_array::CompactArray;
use crate::compact_string::{compact_string_wire, CompactString};
use crate::error::CodecError;
use crate::fixed::{i32_wire, lemma_i32_round_trip};
use crate::format::{
    decode_at,
    field_at,
    lemma_field_at_bound,
    lemma_field_at_extend,
    lemma_field_at_wire,
    settled,
    Parsed,
    WireFormat,
};
use crate::tag_buffer::TagBuffer;
use crate::unsigned_varint::{lemma_varint_wire_len, varint_wire};

verus! {

/// A topic that a request asks about.
#[derive(Debug, Clone, PartialEq, Eq)]
pub struct TopicRequestV0 {
    pub name: CompactString,
    pub tagged_fields: TagBuffer,
}

/// The place from which a listing of partitions goes on.
#[derive(Debug, Clone, PartialEq, Eq)]
pub struct CursorRequestV0 {
    pub topic_name: CompactString,
    pub partition_index: i32,
    pub tagged_fields: TagBuffer,
}

/// The body of a request for the partitions of topics. On the wire the
/// cursor is always there.
#[derive(Debug, Clone, PartialEq, Eq)]
pub struct KafkaRequestDescribeTopicPartitionsV0 {
    pub topics: CompactArray<TopicRequestV0>,
    pub response_partition_limit: i32,
    pub cursor: Option<CursorRequestV0>,
    pub tagged_fields: TagBuffer,
}

/// What a cursor says: the topic's name and the index of the partition.
pub type CursorModel = (Option<Seq<char>>, i32);

/// What a request for the partitions of topics says.
pub ghost struct DescribeTopicPartitionsModel {
    pub topics: Seq<Option<Seq<char>>>,
    pub response_partition_limit: i32,
    pub cursor: Option<CursorModel>,
}

/// What the first bytes of `s` decode to as a topic: its name, no tags.
pub open spec fn topic_parse(s: Seq<u8>) -> Parsed<Option<Seq<char>>> {
    match field_at::<CompactString>(s, 0) {
        Err(e) => Err(e),
        Ok((name, end1)) => match field_at::<TagBuffer>(s, end1) {
            Err(e) => Err(e),
            Ok((tags, end2)) => Ok((name, end2)),
        },
    }
}

/// The wire form of a cursor: name, partition index, no tags.
pub open spec fn cursor_wire(m: CursorModel) -> Seq<u8> {
    compact_string_wire(m.0) + i32_wire(m.1) + varint_wire(0)
}

/// What the first bytes of `s` decode to as a cursor.
pub open spec fn cursor_parse(s: Seq<u8>) -> Parsed<CursorModel> {
    match field_at::<CompactString>(s, 0) {
        Err(e) => Err(e),
        Ok((name, end1)) => match field_at::<i32>(s, end1) {
            Err(e) => Err(e),
            Ok((index, end2)) => match field_at::<TagBuffer>(s, end2) {
                Err(e) => Err(e),
                Ok((tags, end3)) => Ok(((name, index), end3)),
            },
        },
    }
}

/// What the bytes of `s` from `pos` on decode to as a request for the
/// partitions of topics, with the position behind it.
pub open spec fn describe_topic_partitions_parse(s: Seq<u8>, pos: nat) -> Parsed<
    DescribeTopicPartitionsModel,
> {
    match field_at::<CompactArray<TopicRequestV0>>(s, pos) {
        Err(e) => Err(e),
        Ok((topics, end1)) => match field_at::<i32>(s, end1) {
            Err(e) => Err(e),
            Ok((response_partition_limit, end2)) => match field_at::<CursorRequestV0>(s, end2) {
                Err(e) => Err(e),
                Ok((cursor, end3)) => match field_at::<TagBuffer>(s, end3) {
                    Err(e) => Err(e),
                    Ok((tags, end4)) => Ok(
                        (
                            DescribeTopicPartitionsModel {
                                topics,
                                response_partition_limit,
                                cursor: Some(cursor),
                            },
                            end4,
                        ),
                    ),
                },
            },
        },
    }
}

impl WireFormat for TopicRequestV0 {
    type Model = Option<Seq<char>>;

    open spec fn model(&self) -> Option<Seq<char>> {
        self.name.model()
    }

    open spec fn encodable(m: Option<Seq<char>>) -> bool {
        CompactString::encodable(m)
    }

    open spec fn wire(m: Option<Seq<char>>) -> Seq<u8> {
        compact_string_wire(m) + varint_wire(0)
    }

    open spec fn parse(s: Seq<u8>) -> Parsed<Option<Seq<char>>> {
        topic_parse(s)
    }

    proof fn lemma_round_trip(m: Option<Seq<char>>, rest: Seq<u8>) {
        let s = Self::wire(m) + rest;
        let n = compact_string_wire(m).len();
        lemma_varint_wire_len(0);
        assert(s.subrange(0, n as int) =~= compact_string_wire(m));
        lemma_field_at_wire::<CompactString>(s, 0, m);
        assert(s.subrange(n as int, n as int + 1) =~= varint_wire(0));
        lemma_field_at_wire::<TagBuffer>(s, n, ());
    }

    proof fn lemma_parse_bound(s: Seq<u8>) {
        match field_at::<CompactString>(s, 0) {
            Err(e) => {},
            Ok((name, end1)) => {
                lemma_field_at_bound::<TagBuffer>(s, end1);
            },
        }
    }

    proof fn lemma_parse_extend(s: Seq<u8>, more: Seq<u8>) {
        lemma_field_at_extend::<CompactString>(s, more, 0);
        match field_at::<CompactString>(s, 0) {
            Err(e) => {},
            Ok((name, end1)) => {
                lemma_field_at_extend::<TagBuffer>(s, more, end1);
            },
        }
    }

    fn encode(&self, out: &mut Vec<u8>) -> (r: Result<(), CodecError>) {
        self.name.encode(out)?;
        let _ = self.tagged_fields.encode(out);
        assert(final(out)@ =~= old(out)@ + Self::wire(self.model()));
        Ok(())
    }

    fn decode(input: &[u8]) -> (r: Result<(Self, usize), CodecError>) {
        let (name, end1) = decode_at::<CompactString>(input, 0)?;
        let (tagged_fields, end2) = decode_at::<TagBuffer>(input, end1)?;
        Ok((TopicRequestV0 { name, tagged_fields }, end2))
    }
}

impl WireFormat for CursorRequestV0 {
    type Model = CursorModel;

    open spec fn model(&self) -> CursorModel {
        (self.topic_name.model(), self.partition_index)
    }

    open spec fn encodable(m: CursorModel) -> bool {
        CompactString::encodable(m.0)
    }

    open spec fn wire(m: CursorModel) -> Seq<u8> {
        cursor_wire(m)
    }

    open spec fn parse(s: Seq<u8>) -> Parsed<CursorModel> {
        cursor_parse(s)
    }

    proof fn lemma_round_trip(m: CursorModel, rest: Seq<u8>) {
        let s = cursor_wire(m) + rest;
        let n = compact_string_wire(m.0).len();
        lemma_varint_wire_len(0);
        lemma_i32_round_trip(m.1, rest);
        assert(s.subrange(0, n as int) =~= compact_string_wire(m.0));
        lemma_field_at_wire::<CompactString>(s, 0, m.0);
        assert(s.subrange(n as int, n as int + 4) =~= i32_wire(m.1));
        lemma_field_at_wire::<i32>(s, n, m.1);
        assert(s.subrange(n as int + 4, n as int + 5) =~= varint_wire(0));
        lemma_field_at_wire::<TagBuffer>(s, n + 4, ());
    }

    proof fn lemma_parse_bound(s: Seq<u8>) {
        match field_at::<CompactString>(s, 0) {
            Err(e) => {},
            Ok((name, end1)) => match field_at::<i32>(s, end1) {
                Err(e) => {},
                Ok((index, end2)) => {
                    lemma_field_at_bound::<TagBuffer>(s, end2);
                },
            },
        }
    }

    proof fn lemma_parse_extend(s: Seq<u8>, more: Seq<u8>) {
        lemma_field_at_extend::<CompactString>(s, more, 0);
        match field_at::<CompactString>(s, 0) {
            Err(e) => {},
            Ok((name, end1)) => {
                lemma_field_at_extend::<i32>(s, more, end1);
                match field_at::<i32>(s, end1) {
                    Err(e) => {},
                    Ok((index, end2)) => {
                        lemma_field_at_extend::<TagBuffer>(s, more, end2);
                    },
                }
            },
        }
    }

    fn encode(&self, out: &mut Vec<u8>) -> (r: Result<(), CodecError>) {
        self.topic_name.encode(out)?;
        let _ = self.partition_index.encode(out);
        let _ = self.tagged_fields.encode(out);
        assert(final(out)@ =~= old(out)@ + cursor_wire(self.model()));
        Ok(())
    }

    fn decode(input: &[u8]) -> (r: Result<(Self, usize), CodecError>) {
        let (topic_name, end1) = decode_at::<CompactString>(input, 0)?;
        let (partition_index, end2) = decode_at::<i32>(input, end1)?;
        let (tagged_fields, end3) = decode_at::<TagBuffer>(input, end2)?;
        Ok((CursorRequestV0 { topic_name, partition_index, tagged_fields }, end3))
    }
}

/// A request for the partitions of topics never takes more bytes than
/// there are.
pub proof fn lemma_describe_topic_partitions_bound(s: Seq<u8>, pos: nat)
    ensures
        describe_topic_partitions_parse(s, pos) is Ok ==> pos <= describe_topic_partitions_parse(
            s,
            pos,
        ).unwrap().1 <= s.len(),
{
    lemma_field_at_bound::<CompactArray<TopicRequestV0>>(s, pos);
    match field_at::<CompactArray<TopicRequestV0>>(s, pos) {
        Err(e) => {},
        Ok((topics, end1)) => {
            lemma_field_at_bound::<i32>(s, end1);
            match field_at::<i32>(s, end1) {
                Err(e) => {},
                Ok((limit, end2)) => {
                    lemma_field_at_bound::<CursorRequestV0>(s, end2);
                    match field_at::<CursorRequestV0>(s, end2) {
                        Err(e) => {},
                        Ok((cursor, end3)) => {
                            lemma_field_at_bound::<TagBuffer>(s, end3);
                        },
                    }
                },
            }
        },
    }
}

/// A request for the partitions of topics that was found, or refused, stays
/// so when more bytes arrive.
pub proof fn lemma_describe_topic_partitions_extend(s: Seq<u8>, more: Seq<u8>, pos: nat)
    requires
        settled(describe_topic_partitions_parse(s, pos)),
    ensures
        describe_topic_partitions_parse(s + more, pos) == describe_topic_partitions_parse(s, pos),
{
    lemma_field_at_extend::<CompactArray<TopicRequestV0>>(s, more, pos);
    match field_at::<CompactArray<TopicRequestV0>>(s, pos) {
        Err(e) => {},
        Ok((topics, end1)) => {
            lemma_field_at_extend::<i32>(s, more, end1);
            match field_at::<i32>(s, end1) {
                Err(e) => {},
                Ok((limit, end2)) => {
                    lemma_field_at_extend::<CursorRequestV0>(s, more, end2);
                    match field_at::<CursorRequestV0>(s, end2) {
                        Err(e) => {},
                        Ok((cursor, end3)) => {
                            lemma_field_at_extend::<TagBuffer>(s, more, end3);
                        },
                    }
                },
            }
        },
    }
}

impl KafkaRequestDescribeTopicPartitionsV0 {
    pub open spec fn model(&self) -> DescribeTopicPartitionsModel {
        DescribeTopicPartitionsModel {
            topics: self.topics.model(),
            response_partition_limit: self.response_partition_limit,
            cursor: match self.cursor {
                Some(cursor) => Some(cursor.model()),
                None => None,
            },
        }
    }

    /// Decodes a body that begins at `pos` and gives the position behind it.
    pub fn decode(input: &[u8], pos: usize) -> (r: Result<(Self, usize), CodecError>)
        ensures
            match describe_topic_partitions_parse(input@, pos as nat) {
                Ok((m, end)) => r is Ok && r.unwrap().0.model() == m && r.unwrap().1 == end && end
                    <= input@.len(),
                Err(e) => r is Err && r->Err_0 == e,
            },
    {
        let (topics, end1) = decode_at::<CompactArray<TopicRequestV0>>(input, pos)?;
        let (response_partition_limit, end2) = decode_at::<i32>(input, end1)?;
        let (cursor, end3) = decode_at::<CursorRequestV0>(input, end2)?;
        let (tagged_fields, end4) = decode_at::<TagBuffer>(input, end3)?;
        Ok(
            (
                KafkaRequestDescribeTopicPartitionsV0 {
                    topics,
                    response_partition_limit,
                    cursor: Some(cursor),
                    tagged_fields,
                },
                end4,
            ),
        )
    }
}

} // verus!
