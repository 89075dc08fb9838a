use vstd::prelude::*;
use crate::api_keys::{api_key_code, ApiKey};
use crate::compact_array::{
    all_encodable,
    compact_array_wire,
    elements_wire,
    models_of,
    CompactArray,
};
use crate::error::CodecError;
use crate::error_codes::{error_code_number, ErrorCode};
use crate::fixed::{i16_wire, i32_wire, lemma_i16_round_trip};
use crate::format::{
    decode_at,
    field_at,
    lemma_field_at_bound,
    lemma_field_at_extend,
    lemma_field_at_wire,
    settled,
    Encode,
    Parsed,
    WireFormat,
};
use crate::registry::{api_registry, registry, VersionRange};
use crate::tag_buffer::TagBuffer;
use crate::unsigned_varint::{lemma_varint_wire_len, varint_wire};

verus! {

/// The header of every response: the correlation id of the request.
#[derive(Debug, Clone, Copy, PartialEq, Eq)]
pub struct KafkaResponseHeaderV0 {
    pub correlation_id: i32,
}

/// One entry of the list of supported versions.
#[derive(Debug, Clone, Copy, PartialEq, Eq)]
pub struct ApiVersion {
    pub api_key: ApiKey,
    pub min_version: i16,
    pub max_version: i16,
    pub tagged_fields: TagBuffer,
}

/// One entry of the list of supported versions, as version 4 names it.
#[derive(Debug, Clone, Copy, PartialEq, Eq)]
pub struct ApiKeyV4 {
    pub api_key: ApiKey,
    pub min_version: i16,
    pub max_version: i16,
    pub tagged_fields: TagBuffer,
}

#[derive(Debug, Clone, PartialEq, Eq)]
pub struct KafkaResponseApiVersionsV3 {
    pub error_code: ErrorCode,
    pub api_versions: CompactArray<ApiVersion>,
    pub throttle_time_ms: i32,
    pub tagged_fields: TagBuffer,
}

#[derive(Debug, Clone, PartialEq, Eq)]
pub struct KafkaResponseApiVersionsV4 {
    pub error_code: ErrorCode,
    pub api_keys: CompactArray<ApiKeyV4>,
    pub throttle_time_ms: i32,
    pub tagged_fields: TagBuffer,
}

/// What a list of supported versions says: the error code, the entries in
/// order, the throttle time.
pub type VersionsModel = (ErrorCode, Seq<VersionRange>, i32);

/// The wire form of an entry: key, lowest and highest version, no tags.
pub open spec fn version_range_wire(m: VersionRange) -> Seq<u8> {
    i16_wire(api_key_code(m.0)) + i16_wire(m.1) + i16_wire(m.2) + varint_wire(0)
}

/// What the first bytes of `s` decode to as an entry.
pub open spec fn version_range_parse(s: Seq<u8>) -> Parsed<VersionRange> {
    match field_at::<ApiKey>(s, 0) {
        Err(e) => Err(e),
        Ok((key, end1)) => match field_at::<i16>(s, end1) {
            Err(e) => Err(e),
            Ok((min, end2)) => match field_at::<i16>(s, end2) {
                Err(e) => Err(e),
                Ok((max, end3)) => match field_at::<TagBuffer>(s, end3) {
                    Err(e) => Err(e),
                    Ok((tags, end4)) => Ok(((key, min, max), end4)),
                },
            },
        },
    }
}

/// An entry that was encoded decodes to itself, whatever follows it.
pub proof fn lemma_version_range_round_trip(m: VersionRange, rest: Seq<u8>)
    ensures
        version_range_wire(m).len() == 7,
        version_range_parse(version_range_wire(m) + rest) == Ok::<(VersionRange, nat), CodecError>(
            (m, 7),
        ),
{
    let s = version_range_wire(m) + rest;
    lemma_i16_round_trip(api_key_code(m.0), rest);
    lemma_i16_round_trip(m.1, rest);
    lemma_i16_round_trip(m.2, rest);
    lemma_varint_wire_len(0);
    assert(s.subrange(0, 2) =~= ApiKey::wire(m.0));
    lemma_field_at_wire::<ApiKey>(s, 0, m.0);
    assert(s.subrange(2, 4) =~= i16_wire(m.1));
    lemma_field_at_wire::<i16>(s, 2, m.1);
    assert(s.subrange(4, 6) =~= i16_wire(m.2));
    lemma_field_at_wire::<i16>(s, 4, m.2);
    assert(s.subrange(6, 7) =~= varint_wire(0));
    lemma_field_at_wire::<TagBuffer>(s, 6, ());
}

/// An entry never takes more bytes than there are.
pub proof fn lemma_version_range_bound(s: Seq<u8>)
    ensures
        version_range_parse(s) is Ok ==> version_range_parse(s).unwrap().1 <= s.len(),
{
    match field_at::<ApiKey>(s, 0) {
        Err(e) => {},
        Ok((key, end1)) => match field_at::<i16>(s, end1) {
            Err(e) => {},
            Ok((min, end2)) => match field_at::<i16>(s, end2) {
                Err(e) => {},
                Ok((max, end3)) => {
                    lemma_field_at_bound::<TagBuffer>(s, end3);
                },
            },
        },
    }
}

/// An entry that was found, or refused, stays so when more bytes arrive.
pub proof fn lemma_version_range_extend(s: Seq<u8>, more: Seq<u8>)
    requires
        settled(version_range_parse(s)),
    ensures
        version_range_parse(s + more) == version_range_parse(s),
{
    lemma_field_at_extend::<ApiKey>(s, more, 0);
    match field_at::<ApiKey>(s, 0) {
        Err(e) => {},
        Ok((key, end1)) => {
            lemma_field_at_extend::<i16>(s, more, end1);
            match field_at::<i16>(s, end1) {
                Err(e) => {},
                Ok((min, end2)) => {
                    lemma_field_at_extend::<i16>(s, more, end2);
                    match field_at::<i16>(s, end2) {
                        Err(e) => {},
                        Ok((max, end3)) => {
                            lemma_field_at_extend::<TagBuffer>(s, more, end3);
                        },
                    }
                },
            }
        },
    }
}

/// Appends the wire form of an entry.
pub fn encode_version_range(key: ApiKey, min: i16, max: i16, out: &mut Vec<u8>)
    ensures
        final(out)@ == old(out)@ + version_range_wire((key, min, max)),
{
    let _ = key.encode(out);
    let _ = min.encode(out);
    let _ = max.encode(out);
    let _ = TagBuffer.encode(out);
    assert(final(out)@ =~= old(out)@ + version_range_wire((key, min, max)));
}

/// Decodes an entry from the beginning of `input`.
pub fn decode_version_range(input: &[u8]) -> (r: Result<(VersionRange, usize), CodecError>)
    ensures
        match version_range_parse(input@) {
            Ok((m, n)) => r is Ok && r.unwrap().0 == m && r.unwrap().1 == n,
            Err(e) => r is Err && r->Err_0 == e,
        },
{
    let (key, end1) = decode_at::<ApiKey>(input, 0)?;
    let (min, end2) = decode_at::<i16>(input, end1)?;
    let (max, end3) = decode_at::<i16>(input, end2)?;
    let (_, end4) = decode_at::<TagBuffer>(input, end3)?;
    Ok(((key, min, max), end4))
}

impl KafkaResponseHeaderV0 {
    pub fn new(correlation_id: i32) -> (r: Self)
        ensures
            r.correlation_id == correlation_id,
    {
        KafkaResponseHeaderV0 { correlation_id }
    }
}

impl Encode for KafkaResponseHeaderV0 {
    type Model = i32;

    open spec fn model(&self) -> i32 {
        self.correlation_id
    }

    open spec fn encodable(m: i32) -> bool {
        true
    }

    open spec fn wire(m: i32) -> Seq<u8> {
        i32_wire(m)
    }

    fn encode(&self, out: &mut Vec<u8>) -> (r: Result<(), CodecError>) {
        self.correlation_id.encode(out)
    }
}

impl ApiVersion {
    pub fn new(api_key: ApiKey, min_version: i16, max_version: i16) -> (r: Self)
        ensures
            r.api_key == api_key,
            r.min_version == min_version,
            r.max_version == max_version,
    {
        ApiVersion { api_key, min_version, max_version, tagged_fields: TagBuffer }
    }
}

impl WireFormat for ApiVersion {
    type Model = VersionRange;

    open spec fn model(&self) -> VersionRange {
        (self.api_key, self.min_version, self.max_version)
    }

    open spec fn encodable(m: VersionRange) -> bool {
        true
    }

    open spec fn wire(m: VersionRange) -> Seq<u8> {
        version_range_wire(m)
    }

    open spec fn parse(s: Seq<u8>) -> Parsed<VersionRange> {
        version_range_parse(s)
    }

    proof fn lemma_round_trip(m: VersionRange, rest: Seq<u8>) {
        lemma_version_range_round_trip(m, rest);
    }

    proof fn lemma_parse_bound(s: Seq<u8>) {
        lemma_version_range_bound(s);
    }

    proof fn lemma_parse_extend(s: Seq<u8>, more: Seq<u8>) {
        lemma_version_range_extend(s, more);
    }

    fn encode(&self, out: &mut Vec<u8>) -> (r: Result<(), CodecError>) {
        encode_version_range(self.api_key, self.min_version, self.max_version, out);
        Ok(())
    }

    fn decode(input: &[u8]) -> (r: Result<(Self, usize), CodecError>) {
        let ((api_key, min_version, max_version), taken) = decode_version_range(input)?;
        Ok((ApiVersion { api_key, min_version, max_version, tagged_fields: TagBuffer }, taken))
    }
}

impl ApiKeyV4 {
    pub fn new(api_key: ApiKey, min_version: i16, max_version: i16) -> (r: Self)
        ensures
            r.api_key == api_key,
            r.min_version == min_version,
            r.max_version == max_version,
    {
        ApiKeyV4 { api_key, min_version, max_version, tagged_fields: TagBuffer }
    }
}

impl WireFormat for ApiKeyV4 {
    type Model = VersionRange;

    open spec fn model(&self) -> VersionRange {
        (self.api_key, self.min_version, self.max_version)
    }

    open spec fn encodable(m: VersionRange) -> bool {
        true
    }

    open spec fn wire(m: VersionRange) -> Seq<u8> {
        version_range_wire(m)
    }

    open spec fn parse(s: Seq<u8>) -> Parsed<VersionRange> {
        version_range_parse(s)
    }

    proof fn lemma_round_trip(m: VersionRange, rest: Seq<u8>) {
        lemma_version_range_round_trip(m, rest);
    }

    proof fn lemma_parse_bound(s: Seq<u8>) {
        lemma_version_range_bound(s);
    }

    proof fn lemma_parse_extend(s: Seq<u8>, more: Seq<u8>) {
        lemma_version_range_extend(s, more);
    }

    fn encode(&self, out: &mut Vec<u8>) -> (r: Result<(), CodecError>) {
        encode_version_range(self.api_key, self.min_version, self.max_version, out);
        Ok(())
    }

    fn decode(input: &[u8]) -> (r: Result<(Self, usize), CodecError>) {
        let ((api_key, min_version, max_version), taken) = decode_version_range(input)?;
        Ok((ApiKeyV4 { api_key, min_version, max_version, tagged_fields: TagBuffer }, taken))
    }
}

/// The entries of a list, one after the other.
pub open spec fn version_ranges_wire(ms: Seq<VersionRange>) -> Seq<u8>
    decreases ms.len(),
{
    if ms.len() == 0 {
        Seq::empty()
    } else {
        version_range_wire(ms[0]) + version_ranges_wire(ms.drop_first())
    }
}

/// Whether a list of supported versions fits its count field.
pub open spec fn versions_encodable(m: VersionsModel) -> bool {
    m.1.len() + 1 <= u32::MAX
}

/// The wire form of a list of supported versions: error code, the entries as
/// a compact array, throttle time, no tags.
pub open spec fn versions_wire(m: VersionsModel) -> Seq<u8> {
    i16_wire(error_code_number(m.0)) + (if m.1.len() == 0 {
        varint_wire(0)
    } else {
        varint_wire(m.1.len() + 1) + version_ranges_wire(m.1)
    }) + i32_wire(m.2) + varint_wire(0)
}

/// Entries of either name have the same wire form.
pub proof fn lemma_entries_wire(ms: Seq<VersionRange>)
    ensures
        elements_wire::<ApiVersion>(ms) == version_ranges_wire(ms),
        elements_wire::<ApiKeyV4>(ms) == version_ranges_wire(ms),
        compact_array_wire::<ApiVersion>(ms) == compact_array_wire::<ApiKeyV4>(ms),
        all_encodable::<ApiVersion>(ms),
        all_encodable::<ApiKeyV4>(ms),
    decreases ms.len(),
{
    if ms.len() > 0 {
        lemma_entries_wire(ms.drop_first());
    }
}

/// The entries of the table of supported versions.
pub fn advertised_versions() -> (r: Vec<ApiVersion>)
    ensures
        models_of::<ApiVersion>(r@) == registry(),
{
    let table = api_registry();
    let mut list: Vec<ApiVersion> = Vec::new();
    let mut i: usize = 0;
    while i < table.len()
        invariant
            i <= table@.len(),
            list@.len() == i,
            forall|j: int| 0 <= j < i ==> (#[trigger] list@[j]).model() == table@[j],
        decreases table@.len() - i,
    {
        let entry = table[i];
        list.push(ApiVersion::new(entry.0, entry.1, entry.2));
        i += 1;
    }
    assert(models_of::<ApiVersion>(list@) =~= registry());
    list
}

/// The entries of the table of supported versions, as version 4 names them.
pub fn advertised_keys() -> (r: Vec<ApiKeyV4>)
    ensures
        models_of::<ApiKeyV4>(r@) == registry(),
{
    let table = api_registry();
    let mut list: Vec<ApiKeyV4> = Vec::new();
    let mut i: usize = 0;
    while i < table.len()
        invariant
            i <= table@.len(),
            list@.len() == i,
            forall|j: int| 0 <= j < i ==> (#[trigger] list@[j]).model() == table@[j],
        decreases table@.len() - i,
    {
        let entry = table[i];
        list.push(ApiKeyV4::new(entry.0, entry.1, entry.2));
        i += 1;
    }
    assert(models_of::<ApiKeyV4>(list@) =~= registry());
    list
}

/// Appends error code, entries, throttle time and an empty tag buffer.
fn encode_versions<T: WireFormat>(
    error_code: ErrorCode,
    entries: &CompactArray<T>,
    throttle_time_ms: i32,
    out: &mut Vec<u8>,
) -> (r: Result<(), CodecError>)
    ensures
        CompactArray::<T>::encodable(entries.model()) ==> r is Ok && final(out)@ == old(out)@
            + i16_wire(error_code_number(error_code)) + compact_array_wire::<T>(entries.model())
            + i32_wire(throttle_time_ms) + varint_wire(0),
        !CompactArray::<T>::encodable(entries.model()) ==> r == Err::<(), CodecError>(
            CodecError::OverflowError,
        ) && final(out)@ == old(out)@,
{
    let start = out.len();
    let _ = error_code.encode(out);
    match entries.encode(out) {
        Ok(()) => {},
        Err(e) => {
            out.truncate(start);
            assert(out@ =~= old(out)@);
            return Err(CodecError::OverflowError);
        },
    }
    let _ = throttle_time_ms.encode(out);
    let _ = TagBuffer.encode(out);
    Ok(())
}

impl KafkaResponseApiVersionsV3 {
    /// A response that advertises the whole table of supported versions.
    pub fn new(error_code: ErrorCode, throttle_time_ms: i32) -> (r: Self)
        ensures
            r.model() == (error_code, registry(), throttle_time_ms),
    {
        KafkaResponseApiVersionsV3 {
            error_code,
            api_versions: CompactArray::new(advertised_versions()),
            throttle_time_ms,
            tagged_fields: TagBuffer,
        }
    }
}

impl Encode for KafkaResponseApiVersionsV3 {
    type Model = VersionsModel;

    open spec fn model(&self) -> VersionsModel {
        (self.error_code, self.api_versions.model(), self.throttle_time_ms)
    }

    open spec fn encodable(m: VersionsModel) -> bool {
        versions_encodable(m)
    }

    open spec fn wire(m: VersionsModel) -> Seq<u8> {
        versions_wire(m)
    }

    fn encode(&self, out: &mut Vec<u8>) -> (r: Result<(), CodecError>) {
        proof {
            lemma_entries_wire(self.api_versions.model());
        }
        encode_versions::<ApiVersion>(
            self.error_code,
            &self.api_versions,
            self.throttle_time_ms,
            out,
        )
    }
}

impl KafkaResponseApiVersionsV4 {
    pub fn new(error_code: ErrorCode, api_keys: Vec<ApiKeyV4>, throttle_time_ms: i32) -> (r: Self)
        ensures
            r.model() == (error_code, models_of::<ApiKeyV4>(api_keys@), throttle_time_ms),
    {
        KafkaResponseApiVersionsV4 {
            error_code,
            api_keys: CompactArray::new(api_keys),
            throttle_time_ms,
            tagged_fields: TagBuffer,
        }
    }
}

impl Encode for KafkaResponseApiVersionsV4 {
    type Model = VersionsModel;

    open spec fn model(&self) -> VersionsModel {
        (self.error_code, self.api_keys.model(), self.throttle_time_ms)
    }

    open spec fn encodable(m: VersionsModel) -> bool {
        versions_encodable(m)
    }

    open spec fn wire(m: VersionsModel) -> Seq<u8> {
        versions_wire(m)
    }

    fn encode(&self, out: &mut Vec<u8>) -> (r: Result<(), CodecError>) {
        proof {
            lemma_entries_wire(self.api_keys.model());
        }
        encode_versions::<ApiKeyV4>(self.error_code, &self.api_keys, self.throttle_time_ms, out)
    }
}

} // verus!
