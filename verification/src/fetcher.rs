//! The decisions of the header fetcher for one shard. The surrounding I/O
//! (range reads, metadata queries, blob installation) is driven outside; each
//! step here turns the bytes such a step produced into the next request or
//! into the parsed header, and says exactly which outcome every input gets.

use vstd::prelude::*;
use vstd::bytes::spec_u64_from_le_bytes;
use vstd::bytes::u64_from_le_bytes;
use vstd::slice::slice_subrange;
use crate::header::ShardHeader;
use crate::header::spec_blob_bytes;
use crate::header::spec_lookup_blob;
use crate::header::spec_parse_tensor_table;
use crate::header::encode_blob;
use crate::header::lookup_blob;
use crate::header::parse_tensor_table_bytes;

verus! {

/// Why fetching one shard's header failed. Network and filesystem failures
/// are reported by the caller that performed the I/O; these are the failures
/// the fetch logic itself decides.
#[derive(Clone, Copy, Debug, PartialEq, Eq, Structural)]
pub enum FetchError {
    /// The range read for the length prefix returned fewer than 8 bytes.
    ShortPrefix,
    /// The length prefix is too large for a byte range to address.
    HeaderTooLarge,
    /// The fetched payload is not a valid serialized tensor table.
    MalformedHeader,
}

/// The inclusive-start, exclusive-end byte range of the serialized tensor
/// table within a shard file: it begins right after the 8-byte prefix.
pub struct PayloadRange {
    pub start: u64,
    pub end: u64,
}

/// Cache probe: what the fetcher makes of the blob bytes the cache holds for
/// a shard, if it holds any. Every unusable state — no pointer, truncated or
/// corrupt blob — is a miss, never an error.
pub fn probe_cache(cached: &Option<Vec<u8>>) -> (r: Option<ShardHeader>)
    ensures
        match *cached {
            Some(ref b) => match r {
                Some(h) => spec_lookup_blob(b@) == Some(h@),
                None => spec_lookup_blob(b@) is None,
            },
            None => r is None,
        },
{
    match cached {
        Some(bytes) => lookup_blob(bytes.as_slice()),
        None => None,
    }
}

/// Interpret the bytes returned by the range read for `[0, 8)` as the
/// little-endian header length.
pub fn parse_header_length(prefix: &[u8]) -> (r: Result<u64, FetchError>)
    ensures
        prefix@.len() >= 8 ==> r == Ok::<u64, FetchError>(
            spec_u64_from_le_bytes(prefix@.subrange(0, 8)),
        ),
        prefix@.len() < 8 ==> r == Err::<u64, FetchError>(FetchError::ShortPrefix),
{
    if prefix.len() < 8 {
        Err(FetchError::ShortPrefix)
    } else {
        Ok(u64_from_le_bytes(slice_subrange(prefix, 0, 8)))
    }
}

/// The byte range to request for the serialized tensor table, given the
/// header length read from the prefix.
pub fn payload_range(header_len: u64) -> (r: Result<PayloadRange, FetchError>)
    ensures
        header_len <= u64::MAX - 8 ==> match r {
            Ok(pr) => pr.start == 8 && pr.end == 8 + header_len,
            Err(_) => false,
        },
        header_len > u64::MAX - 8 ==> r == Err::<PayloadRange, FetchError>(
            FetchError::HeaderTooLarge,
        ),
{
    if header_len > u64::MAX - 8 {
        Err(FetchError::HeaderTooLarge)
    } else {
        Ok(PayloadRange { start: 8, end: 8 + header_len })
    }
}

/// Handle the fetched payload bytes: parse them — a failure here is a hard
/// error, the remote object is not a valid shard — and build the blob to
/// install in the cache, byte-identical to the prefix of the remote file.
pub fn process_payload(payload: &[u8]) -> (r: Result<(ShardHeader, Vec<u8>), FetchError>)
    ensures
        match r {
            Ok((h, blob)) => {
                &&& spec_parse_tensor_table(payload@) == Some(h@)
                &&& blob@ == spec_blob_bytes(payload@)
            },
            Err(e) => {
                &&& spec_parse_tensor_table(payload@) is None
                &&& e == FetchError::MalformedHeader
            },
        },
{
    match parse_tensor_table_bytes(payload) {
        Some(h) => {
            let blob = encode_blob(payload);
            Ok((h, blob))
        },
        None => Err(FetchError::MalformedHeader),
    }
}

} // verus!
