use safetensors_browser::header::{encode_blob, lookup_blob, parse_tensor_table_bytes};

fn tensor_table_payload() -> Vec<u8> {
    // 2x2 F32 tensor: 4 elements * 4 bytes = 16 bytes of payload.
    br#"{"t1":{"dtype":"F32","shape":[2,2],"data_offsets":[0,16]}}"#.to_vec()
}

#[test]
fn test_blob_round_trip() {
    let payload = tensor_table_payload();
    let blob = encode_blob(&payload);
    assert_eq!(blob.len(), 8 + payload.len());
    assert_eq!(&blob[0..8], &(payload.len() as u64).to_le_bytes());
    assert_eq!(&blob[8..], &payload[..]);

    let from_blob = lookup_blob(&blob).expect("well-formed blob must hit");
    let direct = parse_tensor_table_bytes(&payload).expect("payload must parse");

    assert_eq!(from_blob.tensors.len(), 1);
    assert_eq!(direct.tensors.len(), 1);
    let (name_b, entry_b) = &from_blob.tensors[0];
    let (name_d, entry_d) = &direct.tensors[0];
    assert_eq!(name_b, "t1");
    assert_eq!(name_d, "t1");
    assert_eq!(entry_b.dtype, "F32");
    assert_eq!(entry_d.dtype, "F32");
    assert_eq!(entry_b.shape, vec![2, 2]);
    assert_eq!(entry_d.shape, vec![2, 2]);
    assert_eq!(entry_b.data_offsets, (0, 16));
    assert_eq!(entry_d.data_offsets, (0, 16));
}

#[test]
fn test_lookup_blob_truncated_prefix() {
    // Fewer than 8 bytes: the length prefix itself is truncated.
    assert!(lookup_blob(&[]).is_none());
    assert!(lookup_blob(&[42, 0, 0]).is_none());
    assert!(lookup_blob(&[0, 0, 0, 0, 0, 0, 0]).is_none());
}

#[test]
fn test_lookup_blob_length_exceeds_file() {
    let payload = tensor_table_payload();
    let mut blob = encode_blob(&payload);
    // Corrupt the length to point past the end of the file.
    blob[0..8].copy_from_slice(&(payload.len() as u64 + 1000).to_le_bytes());
    assert!(lookup_blob(&blob).is_none());
}

#[test]
fn test_lookup_blob_non_json_payload() {
    let junk = b"this is not a tensor table at all".to_vec();
    let blob = encode_blob(&junk);
    assert!(lookup_blob(&blob).is_none());
}

#[test]
fn test_parse_rejects_bad_offsets() {
    // Offsets must start at zero and be contiguous; these do not.
    let payload = br#"{"t1":{"dtype":"F32","shape":[2,2],"data_offsets":[4,20]}}"#.to_vec();
    assert!(parse_tensor_table_bytes(&payload).is_none());
}

#[test]
fn test_parse_skips_metadata_entry() {
    let payload =
        br#"{"__metadata__":{"format":"pt"},"t1":{"dtype":"I64","shape":[3],"data_offsets":[0,24]}}"#
            .to_vec();
    let header = parse_tensor_table_bytes(&payload).expect("payload must parse");
    assert_eq!(header.tensors.len(), 1);
    assert_eq!(header.tensors[0].0, "t1");
    assert_eq!(header.tensors[0].1.dtype, "I64");
    assert_eq!(header.tensors[0].1.shape, vec![3]);
}

#[test]
fn test_parse_two_tensors() {
    let payload = br#"{"a":{"dtype":"U8","shape":[4],"data_offsets":[0,4]},"b":{"dtype":"F16","shape":[2,3],"data_offsets":[4,16]}}"#
        .to_vec();
    let header = parse_tensor_table_bytes(&payload).expect("payload must parse");
    assert_eq!(header.tensors.len(), 2);
    let mut names: Vec<String> = header.tensors.iter().map(|p| p.0.clone()).collect();
    names.sort();
    assert_eq!(names, vec!["a".to_string(), "b".to_string()]);
}
