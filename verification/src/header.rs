//! The shard header model: the parsed tensor table of one checkpoint shard,
//! and the byte layout shared by real shard files and header-only cache
//! blobs (an 8-byte little-endian length prefix followed by the serialized
//! tensor table).

use vstd::prelude::*;
use vstd::bytes::{spec_u64_to_le_bytes, spec_u64_from_le_bytes, u64_to_le_bytes, u64_from_le_bytes, lemma_auto_spec_u64_to_from_le_bytes};
use vstd::slice::slice_subrange;

verus! {

/// One row of a shard's tensor table: element type, shape, and the byte
/// offsets of the tensor's payload within the shard's data region.
#[derive(Debug)]
pub struct TensorEntry {
    pub dtype: String,
    pub shape: Vec<usize>,
    pub data_offsets: (usize, usize),
}

/// Mathematical value of a `TensorEntry`.
pub struct TensorEntryV {
    pub dtype: Seq<char>,
    pub shape: Seq<usize>,
    pub data_offsets: (usize, usize),
}

impl View for TensorEntry {
    type V = TensorEntryV;

    open spec fn view(&self) -> TensorEntryV {
        TensorEntryV { dtype: self.dtype@, shape: self.shape@, data_offsets: self.data_offsets }
    }
}

impl TensorEntry {
    pub fn from_parts(dtype: String, shape: Vec<usize>, data_offsets: (usize, usize)) -> (r:
        TensorEntry)
        ensures
            r@ == (TensorEntryV { dtype: dtype@, shape: shape@, data_offsets }),
    {
        TensorEntry { dtype, shape, data_offsets }
    }
}

/// The complete parsed metadata of one shard: its tensor table, keyed by
/// tensor name.
#[derive(Debug)]
pub struct ShardHeader {
    pub tensors: Vec<(String, TensorEntry)>,
}

/// The mapping denoted by a sequence of (name, entry) rows: a later row with
/// the same name overrides an earlier one.
pub open spec fn tensor_table_map(rows: Seq<(String, TensorEntry)>) -> Map<Seq<char>, TensorEntryV>
    decreases rows.len(),
{
    if rows.len() == 0 {
        Map::empty()
    } else {
        tensor_table_map(rows.drop_last()).insert(rows.last().0@, rows.last().1@)
    }
}

impl View for ShardHeader {
    type V = Map<Seq<char>, TensorEntryV>;

    open spec fn view(&self) -> Map<Seq<char>, TensorEntryV> {
        tensor_table_map(self.tensors@)
    }
}

/// The parsed header of one shard together with the shard filename it came
/// from.
#[derive(Debug)]
pub struct CheckpointMetadata {
    pub filename: String,
    pub metadata: ShardHeader,
}

/// The character sequences that a sequence of strings denotes.
pub open spec fn seq_views(s: Seq<String>) -> Seq<Seq<char>> {
    s.map_values(|x: String| x@)
}

/// The character sequences that a sequence of string pairs denotes.
pub open spec fn pair_views(s: Seq<(String, String)>) -> Seq<(Seq<char>, Seq<char>)> {
    s.map_values(|p: (String, String)| (p.0@, p.1@))
}

/// The tensor table that given payload bytes denote, or `None` where they are
/// not a valid serialized tensor table. The result depends on the bytes
/// alone.
pub uninterp spec fn spec_parse_tensor_table(bytes: Seq<u8>) -> Option<
    Map<Seq<char>, TensorEntryV>,
>;

/// Relies on `serde_json::from_slice` with the `Deserialize` impl of
/// `safetensors::tensor::Metadata`, and on `Metadata::tensors` to hand the
/// parsed rows out: whether the payload bytes parse as a tensor table, and
/// which name-to-entry mapping they denote, depend on the bytes alone (the
/// order the rows come out in does not, which is why the contract speaks of
/// the mapping).
#[verifier::external_body]
fn parse_tensor_table(bytes: &[u8]) -> (r: Option<ShardHeader>)
    ensures
        match r {
            Some(h) => spec_parse_tensor_table(bytes@) == Some(h@),
            None => spec_parse_tensor_table(bytes@) is None,
        },
{
    let md: safetensors::tensor::Metadata = match serde_json::from_slice(bytes) {
        Ok(md) => md,
        Err(_) => return None,
    };
    let tensors = md.tensors().into_iter().map(
        |(name, info)| (name, TensorEntry::from_parts(format!("{:?}", info.dtype), info.shape.clone(), info.data_offsets)),
    ).collect();
    Some(ShardHeader { tensors })
}

/// Parse payload bytes as a tensor table: the hard-error decision after a
/// network fetch and the direct-parse side of the cache round trip both go
/// through here.
pub fn parse_tensor_table_bytes(bytes: &[u8]) -> (r: Option<ShardHeader>)
    ensures
        match r {
            Some(h) => spec_parse_tensor_table(bytes@) == Some(h@),
            None => spec_parse_tensor_table(bytes@) is None,
        },
{
    parse_tensor_table(bytes)
}

/// The canonical bytes of a header-only cache blob holding `payload`: the
/// payload length as an 8-byte little-endian prefix, then the payload. This
/// is byte-identical to the prefix of a fully downloaded shard file.
pub open spec fn spec_blob_bytes(payload: Seq<u8>) -> Seq<u8>
    recommends
        payload.len() <= u64::MAX,
{
    spec_u64_to_le_bytes(payload.len() as u64) + payload
}

/// What a cache lookup makes of raw blob bytes: the parsed tensor table on a
/// well-formed blob, and `None` on every unusable one (truncated prefix, a
/// length prefix exceeding the available bytes, or a payload that does not
/// parse).
pub open spec fn spec_lookup_blob(bytes: Seq<u8>) -> Option<Map<Seq<char>, TensorEntryV>> {
    if bytes.len() < 8 {
        None
    } else {
        let len = spec_u64_from_le_bytes(bytes.subrange(0, 8));
        if bytes.len() < 8 + len {
            None
        } else {
            spec_parse_tensor_table(bytes.subrange(8, 8 + len as int))
        }
    }
}

/// Build the cache blob for a fetched payload.
pub fn encode_blob(payload: &[u8]) -> (r: Vec<u8>)
    ensures
        r@ == spec_blob_bytes(payload@),
{
    let len: u64 = payload.len() as u64;
    let mut r = u64_to_le_bytes(len);
    r.extend_from_slice(payload);
    r
}

/// Read a header out of raw blob bytes. Every way the bytes can be unusable
/// yields `None`, never an error: a corrupt cache entry is recoverable by
/// re-fetching.
pub fn lookup_blob(bytes: &[u8]) -> (r: Option<ShardHeader>)
    ensures
        match r {
            Some(h) => spec_lookup_blob(bytes@) == Some(h@),
            None => spec_lookup_blob(bytes@) is None,
        },
{
    if bytes.len() < 8 {
        return None;
    }
    let len = u64_from_le_bytes(slice_subrange(bytes, 0, 8));
    let rem: usize = bytes.len() - 8;
    if len > rem as u64 {
        return None;
    }
    let payload = slice_subrange(bytes, 8, 8 + len as usize);
    parse_tensor_table(payload)
}

/// Writing `[len(payload) as 8-byte LE][payload]` to a blob and looking it up
/// yields exactly what parsing the payload directly yields.
pub proof fn lemma_blob_round_trip(payload: Seq<u8>)
    requires
        payload.len() <= u64::MAX,
    ensures
        spec_lookup_blob(spec_blob_bytes(payload)) == spec_parse_tensor_table(payload),
{
    lemma_auto_spec_u64_to_from_le_bytes();
    let b = spec_blob_bytes(payload);
    assert(b.subrange(0, 8) =~= spec_u64_to_le_bytes(payload.len() as u64));
    assert(spec_u64_from_le_bytes(b.subrange(0, 8)) == payload.len());
    assert(b.subrange(8, 8 + payload.len() as int) =~= payload);
}

/// A blob installed after a successful fetch is a cache hit from then on:
/// looking it up yields the very header that was parsed from the fetched
/// payload, so an unchanged blob never sends a later run back to the network.
pub proof fn lemma_installed_blob_hits(payload: Seq<u8>)
    requires
        payload.len() <= u64::MAX,
        spec_parse_tensor_table(payload) is Some,
    ensures
        spec_lookup_blob(spec_blob_bytes(payload)) == spec_parse_tensor_table(payload),
        spec_lookup_blob(spec_blob_bytes(payload)) is Some,
{
    lemma_blob_round_trip(payload);
}

} // verus!
