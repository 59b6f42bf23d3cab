use safetensors_browser::header::ShardHeader;
use safetensors_browser::orchestrator::{Orchestrator, MAX_CONCURRENT};

fn shard_names(n: usize) -> Vec<String> {
    (0..n).map(|i| format!("model-{:05}-of-{:05}.safetensors", i + 1, n)).collect()
}

fn empty_header() -> ShardHeader {
    ShardHeader { tensors: Vec::new() }
}

#[test]
fn test_batches_never_exceed_bound() {
    let names = shard_names(20);
    let mut orch = Orchestrator::new(names.clone());
    let mut seen: Vec<String> = Vec::new();
    let mut batch_sizes: Vec<usize> = Vec::new();
    while !orch.is_done() {
        let batch = orch.next_batch();
        assert!(batch.len() <= MAX_CONCURRENT);
        assert!(!batch.is_empty());
        batch_sizes.push(batch.len());
        seen.extend(batch.iter().cloned());
        let outcomes: Vec<Result<ShardHeader, String>> =
            batch.iter().map(|_| Ok(empty_header())).collect();
        orch.on_batch_done(outcomes).expect("all fetches succeeded");
    }
    assert_eq!(batch_sizes, vec![8, 8, 4]);
    assert_eq!(seen, names);
}

#[test]
fn test_full_run_results_in_order() {
    let names = shard_names(3);
    let mut orch = Orchestrator::new(names.clone());
    while !orch.is_done() {
        let batch = orch.next_batch();
        let outcomes: Vec<Result<ShardHeader, String>> =
            batch.iter().map(|_| Ok(empty_header())).collect();
        orch.on_batch_done(outcomes).expect("all fetches succeeded");
    }
    let results = orch.into_results();
    assert_eq!(results.len(), 3);
    for (r, name) in results.iter().zip(names.iter()) {
        assert_eq!(&r.filename, name);
        assert!(r.metadata.tensors.is_empty());
    }
}

#[test]
fn test_fail_fast_keeps_error_identity() {
    let names = shard_names(10);
    let mut orch = Orchestrator::new(names);
    let batch = orch.next_batch();
    assert_eq!(batch.len(), 8);
    // The third fetch of the first batch fails; everything else succeeded.
    let outcomes: Vec<Result<ShardHeader, String>> = (0..8)
        .map(|i| {
            if i == 2 {
                Err("range read failed for shard 2".to_string())
            } else {
                Ok(empty_header())
            }
        })
        .collect();
    let r = orch.on_batch_done(outcomes);
    assert_eq!(r, Err("range read failed for shard 2".to_string()));
    // Nothing of the failed batch is kept.
    assert_eq!(orch.fetched, 0);
    assert!(orch.results.is_empty());
}

#[test]
fn test_fail_fast_in_later_batch() {
    let names = shard_names(10);
    let mut orch = Orchestrator::new(names);
    let first = orch.next_batch();
    let outcomes: Vec<Result<ShardHeader, String>> =
        first.iter().map(|_| Ok(empty_header())).collect();
    orch.on_batch_done(outcomes).expect("first batch succeeds");
    assert_eq!(orch.fetched, 8);

    let second = orch.next_batch();
    assert_eq!(second.len(), 2);
    let outcomes: Vec<Result<ShardHeader, String>> =
        vec![Ok(empty_header()), Err("boom".to_string())];
    let r = orch.on_batch_done(outcomes);
    assert_eq!(r, Err("boom".to_string()));
    // The failed batch contributed nothing.
    assert_eq!(orch.fetched, 8);
    assert!(!orch.is_done());
}

#[test]
fn test_empty_shard_list_is_done_at_once() {
    let orch = Orchestrator::new(Vec::new());
    assert!(orch.is_done());
    assert!(orch.next_batch().is_empty());
    assert!(orch.into_results().is_empty());
}
