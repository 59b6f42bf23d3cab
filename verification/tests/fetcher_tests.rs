use safetensors_browser::fetcher::{
    parse_header_length, payload_range, probe_cache, process_payload, FetchError,
};
use safetensors_browser::header::encode_blob;

#[test]
fn test_parse_header_length_le() {
    let mut prefix = [0u8; 8];
    prefix[0] = 0x10;
    prefix[1] = 0x02;
    assert_eq!(parse_header_length(&prefix), Ok(0x0210));
}

#[test]
fn test_parse_header_length_short() {
    assert_eq!(parse_header_length(&[1, 2, 3]), Err(FetchError::ShortPrefix));
    assert_eq!(parse_header_length(&[]), Err(FetchError::ShortPrefix));
}

#[test]
fn test_parse_header_length_extra_bytes_ignored() {
    let bytes = [5, 0, 0, 0, 0, 0, 0, 0, 99, 99];
    assert_eq!(parse_header_length(&bytes), Ok(5));
}

#[test]
fn test_payload_range() {
    let r = payload_range(100).expect("in range");
    assert_eq!((r.start, r.end), (8, 108));
}

#[test]
fn test_payload_range_overflow() {
    assert_eq!(
        payload_range(u64::MAX).map(|r| (r.start, r.end)),
        Err(FetchError::HeaderTooLarge)
    );
    let r = payload_range(u64::MAX - 8).expect("just fits");
    assert_eq!((r.start, r.end), (8, u64::MAX));
}

#[test]
fn test_process_payload_builds_blob() {
    let payload = br#"{"t1":{"dtype":"F32","shape":[2,2],"data_offsets":[0,16]}}"#.to_vec();
    let (header, blob) = process_payload(&payload).expect("payload parses");
    assert_eq!(header.tensors.len(), 1);
    assert_eq!(&blob[0..8], &(payload.len() as u64).to_le_bytes());
    assert_eq!(&blob[8..], &payload[..]);
}

#[test]
fn test_process_payload_malformed_is_hard_error() {
    assert!(matches!(
        process_payload(b"nonsense"),
        Err(FetchError::MalformedHeader)
    ));
}

#[test]
fn test_probe_cache_absent_is_miss() {
    assert!(probe_cache(&None).is_none());
}

#[test]
fn test_probe_cache_corrupt_is_miss_not_error() {
    // Truncated prefix.
    assert!(probe_cache(&Some(vec![1, 2, 3])).is_none());
    // Length prefix exceeding the file.
    let mut blob = encode_blob(b"{}");
    blob[0] = 200;
    assert!(probe_cache(&Some(blob)).is_none());
    // Non-JSON payload.
    assert!(probe_cache(&Some(encode_blob(b"garbage"))).is_none());
}

#[test]
fn test_installed_blob_hits_on_next_run() {
    // A fetched payload, once installed as a blob, is a cache hit afterwards
    // and yields the same header without touching the network.
    let payload = br#"{"t1":{"dtype":"F32","shape":[2,2],"data_offsets":[0,16]}}"#.to_vec();
    let (fetched, blob) = process_payload(&payload).expect("payload parses");
    let cached = probe_cache(&Some(blob)).expect("installed blob must hit");
    assert_eq!(cached.tensors.len(), fetched.tensors.len());
    assert_eq!(cached.tensors[0].0, fetched.tensors[0].0);
    assert_eq!(cached.tensors[0].1.dtype, fetched.tensors[0].1.dtype);
    assert_eq!(cached.tensors[0].1.shape, fetched.tensors[0].1.shape);
    assert_eq!(cached.tensors[0].1.data_offsets, fetched.tensors[0].1.data_offsets);
}
