use vstd::prelude::*;
use crate::api_keys::ApiKey;
use crate::error_codes::ErrorCode;

verus! {

/// A key with the inclusive range of versions that are supported for it.
pub type VersionRange = (ApiKey, i16, i16);

/// The table of supported versions. It never changes.
pub open spec fn registry() -> Seq<VersionRange> {
    seq![(ApiKey::ApiVersions, 0i16, 4i16), (ApiKey::DescribeTopicPartitions, 0i16, 0i16)]
}

/// The range of the first entry for `key`, if there is one.
pub open spec fn range_in(entries: Seq<VersionRange>, key: ApiKey) -> Option<(i16, i16)>
    decreases entries.len(),
{
    if entries.len() == 0 {
        None
    } else if entries[0].0 == key {
        Some((entries[0].1, entries[0].2))
    } else {
        range_in(entries.drop_first(), key)
    }
}

/// The supported range of a key, if the key is known.
pub open spec fn supported_range(key: ApiKey) -> Option<(i16, i16)> {
    range_in(registry(), key)
}

/// What a response says of a request for `version` of `key`.
pub open spec fn negotiated(key: ApiKey, version: i16) -> Option<ErrorCode> {
    match supported_range(key) {
        None => None,
        Some((min, max)) => if min <= version <= max {
            Some(ErrorCode::NoError)
        } else {
            Some(ErrorCode::UnsupportedVersion)
        },
    }
}

/// The table holds each key at most once.
pub open spec fn keys_distinct(entries: Seq<VersionRange>) -> bool {
    forall|i: int, j: int|
        0 <= i < j < entries.len() ==> (#[trigger] entries[i]).0 != (#[trigger] entries[j]).0
}

/// The table of supported versions.
pub fn api_registry() -> (r: Vec<VersionRange>)
    ensures
        r@ == registry(),
{
    let mut table: Vec<VersionRange> = Vec::new();
    table.push((ApiKey::ApiVersions, 0, 4));
    table.push((ApiKey::DescribeTopicPartitions, 0, 0));
    assert(table@ =~= registry());
    table
}

/// The supported range of a key, if the key is known.
pub fn lookup_range(key: ApiKey) -> (r: Option<(i16, i16)>)
    ensures
        r == supported_range(key),
{
    let table = api_registry();
    let mut i: usize = 0;
    assert(table@.skip(0) =~= table@);
    while i < table.len()
        invariant
            i <= table@.len(),
            table@ == registry(),
            supported_range(key) == range_in(table@.skip(i as int), key),
        decreases table@.len() - i,
    {
        let entry = table[i];
        assert(table@.skip(i as int)[0] == entry);
        assert(table@.skip(i as int).drop_first() =~= table@.skip(i + 1));
        if entry.0 == key {
            return Some((entry.1, entry.2));
        }
        i += 1;
    }
    assert(table@.skip(i as int).len() == 0);
    None
}

/// Negotiation: a request inside its key's range is in order, one outside is
/// answered with `UnsupportedVersion`. A key that the table does not hold is
/// not for this library to answer.
pub fn negotiate(key: ApiKey, version: i16) -> (r: Option<ErrorCode>)
    ensures
        r == negotiated(key, version),
{
    match lookup_range(key) {
        None => None,
        Some((min, max)) => {
            if min <= version && version <= max {
                Some(ErrorCode::NoError)
            } else {
                Some(ErrorCode::UnsupportedVersion)
            }
        },
    }
}

/// What the table says, entry by entry: versions 0 to 4 of `ApiVersions`,
/// version 0 of `DescribeTopicPartitions`, nothing of the other keys, and no
/// key twice.
pub proof fn lemma_registry_ranges()
    ensures
        supported_range(ApiKey::ApiVersions) == Some((0i16, 4i16)),
        supported_range(ApiKey::DescribeTopicPartitions) == Some((0i16, 0i16)),
        supported_range(ApiKey::Produce) == None::<(i16, i16)>,
        supported_range(ApiKey::CreateTopics) == None::<(i16, i16)>,
        keys_distinct(registry()),
{
    let r = registry();
    let r1 = r.drop_first();
    assert(r1.len() == 1);
    assert(r1[0] == (ApiKey::DescribeTopicPartitions, 0i16, 0i16));
    assert(r1.drop_first().len() == 0);
    reveal_with_fuel(range_in, 4);
}

/// Negotiation for `ApiVersions` says `NoError` exactly for versions 0 to 4.
pub proof fn lemma_api_versions_negotiation(version: i16)
    ensures
        negotiated(ApiKey::ApiVersions, version) == Some(
            if 0 <= version <= 4 {
                ErrorCode::NoError
            } else {
                ErrorCode::UnsupportedVersion
            },
        ),
{
    lemma_registry_ranges();
}

} // verus!
