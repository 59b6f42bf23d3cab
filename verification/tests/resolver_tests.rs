use safetensors_browser::resolver::{resolve_shard_names, ManifestFetch, ResolveError};

#[test]
fn test_not_found_falls_back_to_single_shard() {
    let r = resolve_shard_names(&ManifestFetch::NotFound).expect("fallback is not an error");
    assert_eq!(r, vec!["model.safetensors".to_string()]);
}

#[test]
fn test_duplicate_filenames_resolve_once() {
    let manifest = br#"{"weight_map":{"t1":"a.safetensors","t2":"b.safetensors","t3":"a.safetensors"}}"#
        .to_vec();
    let r = resolve_shard_names(&ManifestFetch::Fetched(manifest)).expect("manifest is valid");
    assert_eq!(r.len(), 2);
    assert!(r.contains(&"a.safetensors".to_string()));
    assert!(r.contains(&"b.safetensors".to_string()));
    // Each distinct filename exactly once.
    for i in 0..r.len() {
        for j in 0..r.len() {
            if i != j {
                assert_ne!(r[i], r[j]);
            }
        }
    }
}

#[test]
fn test_single_filename_many_tensors() {
    let manifest =
        br#"{"weight_map":{"t1":"m.safetensors","t2":"m.safetensors","t3":"m.safetensors"}}"#
            .to_vec();
    let r = resolve_shard_names(&ManifestFetch::Fetched(manifest)).expect("manifest is valid");
    assert_eq!(r, vec!["m.safetensors".to_string()]);
}

#[test]
fn test_manifest_extra_fields_ignored() {
    let manifest = br#"{"metadata":{"total_size":123},"weight_map":{"t":"x.safetensors"}}"#.to_vec();
    let r = resolve_shard_names(&ManifestFetch::Fetched(manifest)).expect("manifest is valid");
    assert_eq!(r, vec!["x.safetensors".to_string()]);
}

#[test]
fn test_malformed_manifest_not_json() {
    let r = resolve_shard_names(&ManifestFetch::Fetched(b"not json".to_vec()));
    assert_eq!(r, Err(ResolveError::MalformedManifest));
}

#[test]
fn test_malformed_manifest_missing_weight_map() {
    let r = resolve_shard_names(&ManifestFetch::Fetched(br#"{"other":1}"#.to_vec()));
    assert_eq!(r, Err(ResolveError::MalformedManifest));
}

#[test]
fn test_malformed_manifest_non_string_value() {
    let r = resolve_shard_names(&ManifestFetch::Fetched(br#"{"weight_map":{"t1":7}}"#.to_vec()));
    assert_eq!(r, Err(ResolveError::MalformedManifest));
}
