//! Layout of the keys of a store: user data, raft logs and region metadata.
use vstd::prelude::*;

use crate::codec;

verus! {

/// First byte of every key that belongs to the store itself.
pub const LOCAL_PREFIX: u8 = 0x01;

/// First byte of every key that holds user data.
pub const DATA_PREFIX: u8 = 0x7a;

/// Second byte of the keys that hold raft logs and raft states.
pub const REGION_RAFT_PREFIX: u8 = 0x02;

/// Second byte of the keys that hold region metadata.
pub const REGION_META_PREFIX: u8 = 0x03;

/// Marks a raft log entry.
pub const RAFT_LOG_SUFFIX: u8 = 0x01;

/// Marks a raft state.
pub const RAFT_STATE_SUFFIX: u8 = 0x02;

/// Marks an apply state.
pub const APPLY_STATE_SUFFIX: u8 = 0x03;

/// Marks a region state among the region metadata.
pub const REGION_STATE_SUFFIX: u8 = 0x01;

/// Why a key does not have the expected layout.
#[derive(Clone, Copy, Debug, PartialEq, Eq, Structural)]
pub enum KeyError {
    /// The key holds no user data.
    NotDataKey,
    /// The key is not that of a raft log entry.
    NotRaftLogKey,
    /// The key has not the length of a region metadata key.
    MetaLength,
    /// The key does not start as a region metadata key does.
    MetaPrefix,
}

/// Where the user key `key` is stored.
pub open spec fn data_key_spec(key: Seq<u8>) -> Seq<u8> {
    seq![DATA_PREFIX] + key
}

/// Where a region ends whose last user key is `end`; a region without an end goes up to the end of
/// all user data.
pub open spec fn data_end_key_spec(end: Seq<u8>) -> Seq<u8> {
    if end.len() == 0 {
        seq![(DATA_PREFIX + 1) as u8]
    } else {
        data_key_spec(end)
    }
}

/// A key among the raft logs and raft states of a region.
pub open spec fn region_raft_spec(region_id: u64, suffix: u8) -> Seq<u8> {
    seq![LOCAL_PREFIX, REGION_RAFT_PREFIX] + codec::be_bytes(region_id) + seq![suffix]
}

/// A key among the metadata of a region.
pub open spec fn region_meta_spec(region_id: u64, suffix: u8) -> Seq<u8> {
    seq![LOCAL_PREFIX, REGION_META_PREFIX] + codec::be_bytes(region_id) + seq![suffix]
}

/// The key of one raft log entry.
pub open spec fn raft_log_spec(region_id: u64, index: u64) -> Seq<u8> {
    region_raft_spec(region_id, RAFT_LOG_SUFFIX) + codec::be_bytes(index)
}

/// The region and the index that a raft log key stands for.
pub open spec fn raft_log_parsed(key: Seq<u8>) -> Result<(u64, u64), KeyError> {
    if key.len() == 19 && key[0] == LOCAL_PREFIX && key[1] == REGION_RAFT_PREFIX && key[10]
        == RAFT_LOG_SUFFIX {
        Ok((codec::be_value(key.subrange(2, 10)), codec::be_value(key.subrange(11, 19))))
    } else {
        Err(KeyError::NotRaftLogKey)
    }
}

/// The region and the suffix that a region metadata key stands for.
pub open spec fn region_meta_parsed(key: Seq<u8>) -> Result<(u64, u8), KeyError> {
    if key.len() != 11 {
        Err(KeyError::MetaLength)
    } else if key[0] != LOCAL_PREFIX || key[1] != REGION_META_PREFIX {
        Err(KeyError::MetaPrefix)
    } else {
        Ok((codec::be_value(key.subrange(2, 10)), key[10]))
    }
}

/// A key parses as a raft log key exactly if it is one, and then gives back what it was made of.
pub proof fn raft_log_key_round_trip(key: Seq<u8>, region_id: u64, index: u64)
    ensures
        raft_log_parsed(key) == Ok::<(u64, u64), KeyError>((region_id, index)) <==> key
            == raft_log_spec(region_id, index),
{
    let made = raft_log_spec(region_id, index);
    assert(made.subrange(2, 10) =~= codec::be_bytes(region_id));
    assert(made.subrange(11, 19) =~= codec::be_bytes(index));
    codec::be_value_undoes_be_bytes(region_id);
    codec::be_value_undoes_be_bytes(index);
    if raft_log_parsed(key) == Ok::<(u64, u64), KeyError>((region_id, index)) {
        codec::be_bytes_undoes_be_value(key.subrange(2, 10));
        codec::be_bytes_undoes_be_value(key.subrange(11, 19));
        assert(key =~= key.subrange(0, 2) + key.subrange(2, 10) + key.subrange(10, 11)
            + key.subrange(11, 19));
        assert(key =~= made);
    }
}

/// A key parses as region metadata exactly if it is region metadata, and then gives back what it
/// was made of.
pub proof fn region_meta_key_round_trip(key: Seq<u8>, region_id: u64, suffix: u8)
    ensures
        region_meta_parsed(key) == Ok::<(u64, u8), KeyError>((region_id, suffix)) <==> key
            == region_meta_spec(region_id, suffix),
{
    let made = region_meta_spec(region_id, suffix);
    assert(made.subrange(2, 10) =~= codec::be_bytes(region_id));
    codec::be_value_undoes_be_bytes(region_id);
    if region_meta_parsed(key) == Ok::<(u64, u8), KeyError>((region_id, suffix)) {
        codec::be_bytes_undoes_be_value(key.subrange(2, 10));
        assert(key =~= key.subrange(0, 2) + key.subrange(2, 10) + key.subrange(10, 11));
        assert(key =~= made);
    }
}

/// Where the user key `key` is stored.
pub fn data_key(key: &[u8]) -> (r: Vec<u8>)
    ensures
        r@ == data_key_spec(key@),
{
    let mut out: Vec<u8> = Vec::new();
    out.push(DATA_PREFIX);
    out.extend_from_slice(key);
    assert(out@ =~= data_key_spec(key@));
    out
}

/// Where a region ends whose last user key is `region_end_key`.
pub fn data_end_key(region_end_key: &[u8]) -> (r: Vec<u8>)
    ensures
        r@ == data_end_key_spec(region_end_key@),
{
    if region_end_key.len() == 0 {
        let mut out: Vec<u8> = Vec::new();
        out.push(DATA_PREFIX + 1);
        assert(out@ =~= data_end_key_spec(region_end_key@));
        out
    } else {
        data_key(region_end_key)
    }
}

/// The user key that is stored under `key`.
pub fn origin_key(key: &[u8]) -> (r: &[u8])
    requires
        key@.len() > 0,
        key@[0] == DATA_PREFIX,
    ensures
        r@ == key@.skip(1),
        data_key_spec(r@) == key@,
{
    let r = vstd::slice::slice_subrange(key, 1, key.len());
    assert(r@ =~= key@.skip(1));
    assert(data_key_spec(r@) =~= key@);
    r
}

fn region_key(prefix: u8, region_id: u64, suffix: u8) -> (r: Vec<u8>)
    ensures
        r@ == seq![LOCAL_PREFIX, prefix] + codec::be_bytes(region_id) + seq![suffix],
{
    let mut out: Vec<u8> = Vec::new();
    out.push(LOCAL_PREFIX);
    out.push(prefix);
    codec::encode_u64(&mut out, region_id);
    out.push(suffix);
    assert(out@ =~= seq![LOCAL_PREFIX, prefix] + codec::be_bytes(region_id) + seq![suffix]);
    out
}

/// The key of the state of a region.
pub fn region_state_key(region_id: u64) -> (r: Vec<u8>)
    ensures
        r@ == region_meta_spec(region_id, REGION_STATE_SUFFIX),
{
    region_key(REGION_META_PREFIX, region_id, REGION_STATE_SUFFIX)
}

/// The key of the raft state of a region.
pub fn raft_state_key(region_id: u64) -> (r: Vec<u8>)
    ensures
        r@ == region_raft_spec(region_id, RAFT_STATE_SUFFIX),
{
    region_key(REGION_RAFT_PREFIX, region_id, RAFT_STATE_SUFFIX)
}

/// The key of the apply state of a region.
pub fn apply_state_key(region_id: u64) -> (r: Vec<u8>)
    ensures
        r@ == region_raft_spec(region_id, APPLY_STATE_SUFFIX),
{
    region_key(REGION_RAFT_PREFIX, region_id, APPLY_STATE_SUFFIX)
}

/// The key of one raft log entry.
pub fn raft_log_key(region_id: u64, index: u64) -> (r: Vec<u8>)
    ensures
        r@ == raft_log_spec(region_id, index),
{
    let mut out = region_key(REGION_RAFT_PREFIX, region_id, RAFT_LOG_SUFFIX);
    codec::encode_u64(&mut out, index);
    out
}

/// The smallest key that region metadata can have.
pub fn region_meta_min_key() -> (r: Vec<u8>)
    ensures
        r@ == seq![LOCAL_PREFIX, REGION_META_PREFIX],
{
    let mut out: Vec<u8> = Vec::new();
    out.push(LOCAL_PREFIX);
    out.push(REGION_META_PREFIX);
    assert(out@ =~= seq![LOCAL_PREFIX, REGION_META_PREFIX]);
    out
}

/// The smallest key behind all region metadata.
pub fn region_meta_max_key() -> (r: Vec<u8>)
    ensures
        r@ == seq![LOCAL_PREFIX, (REGION_META_PREFIX + 1) as u8],
{
    let mut out: Vec<u8> = Vec::new();
    out.push(LOCAL_PREFIX);
    out.push(REGION_META_PREFIX + 1);
    assert(out@ =~= seq![LOCAL_PREFIX, (REGION_META_PREFIX + 1) as u8]);
    out
}

/// Reads the region and the index of a raft log key.
pub fn decode_raft_log_key(key: &[u8]) -> (r: Result<(u64, u64), KeyError>)
    ensures
        r == raft_log_parsed(key@),
{
    if key.len() != 19 || key[0] != LOCAL_PREFIX || key[1] != REGION_RAFT_PREFIX || key[10]
        != RAFT_LOG_SUFFIX {
        return Err(KeyError::NotRaftLogKey);
    }
    Ok((codec::read_u64(key, 2), codec::read_u64(key, 11)))
}

/// Reads the region and the suffix of a region metadata key.
pub fn decode_region_meta_key(key: &[u8]) -> (r: Result<(u64, u8), KeyError>)
    ensures
        r == region_meta_parsed(key@),
{
    if key.len() != 11 {
        return Err(KeyError::MetaLength);
    }
    if key[0] != LOCAL_PREFIX || key[1] != REGION_META_PREFIX {
        return Err(KeyError::MetaPrefix);
    }
    Ok((codec::read_u64(key, 2), key[10]))
}

} // verus!
