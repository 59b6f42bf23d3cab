//! The shard index resolver: turn the outcome of fetching the checkpoint's
//! index manifest into the ordered, deduplicated list of shard filenames to
//! fetch headers for. A missing manifest is not an error — the checkpoint is
//! then a single unsharded file under a fixed default name.

use vstd::prelude::*;
use crate::header::seq_views;
use crate::header::pair_views;

verus! {

/// The outcome of fetching the index manifest object, as far as the resolver
/// cares: the object does not exist, or it does and these are its bytes.
/// A failed fetch (network error) never reaches the resolver.
pub enum ManifestFetch {
    NotFound,
    Fetched(Vec<u8>),
}

/// The one failure the resolver itself decides.
#[derive(Clone, Copy, Debug, PartialEq, Eq, Structural)]
pub enum ResolveError {
    /// The manifest object exists but is not a valid index manifest.
    MalformedManifest,
}

/// The string-to-string pairs under the named member of a JSON object held
/// in `bytes`, in the order the parser hands them out, or `None` where the
/// bytes are not a JSON object whose named member is an object of string
/// values. The result depends on the arguments alone. The manifest format is
/// this spec applied to the `weight_map` member: its pairs map tensor names
/// to shard filenames.
pub uninterp spec fn spec_string_map_member(bytes: Seq<u8>, member: Seq<char>) -> Option<
    Seq<(Seq<char>, Seq<char>)>,
>;

/// Relies on `serde_json::from_slice::<serde_json::Value>` and on
/// `serde_json::Value`'s accessors: whether the bytes hold a JSON object
/// whose `member` is an object of string values, and which pairs that member
/// holds, depend on the arguments alone.
#[verifier::external_body]
fn parse_string_map_member(bytes: &[u8], member: &str) -> (r: Option<Vec<(String, String)>>)
    ensures
        match r {
            Some(pairs) => spec_string_map_member(bytes@, member@) == Some(pair_views(pairs@)),
            None => spec_string_map_member(bytes@, member@) is None,
        },
{
    let v: serde_json::Value = serde_json::from_slice(bytes).ok()?;
    let map = v.get(member)?.as_object()?;
    let mut pairs = Vec::with_capacity(map.len());
    for (key, value) in map {
        pairs.push((key.clone(), value.as_str()?.to_string()));
    }
    Some(pairs)
}

/// The (tensor name, shard filename) pairs that given manifest bytes denote,
/// or `None` where the bytes are not a valid index manifest: a manifest is a
/// JSON object whose `weight_map` member maps tensor names to shard
/// filenames.
pub open spec fn spec_parse_manifest(bytes: Seq<u8>) -> Option<Seq<(Seq<char>, Seq<char>)>> {
    spec_string_map_member(bytes, "weight_map"@)
}

/// The shard filenames a manifest's pairs name, one per pair, in order.
pub open spec fn manifest_filenames(pairs: Seq<(Seq<char>, Seq<char>)>) -> Seq<Seq<char>> {
    pairs.map_values(|p: (Seq<char>, Seq<char>)| p.1)
}

/// A sequence with every element of `s`, each kept at its first occurrence
/// only.
pub open spec fn dedup_first(s: Seq<Seq<char>>) -> Seq<Seq<char>>
    decreases s.len(),
{
    if s.len() == 0 {
        Seq::empty()
    } else {
        let d = dedup_first(s.drop_last());
        if d.contains(s.last()) {
            d
        } else {
            d.push(s.last())
        }
    }
}

/// However many tensors a manifest maps to the same shard filename, the
/// resolved list holds each distinct filename exactly once: deduplication
/// leaves no repeated element, and keeps exactly the elements of its input.
pub proof fn lemma_dedup_first_distinct(s: Seq<Seq<char>>)
    ensures
        forall|i: int, j: int|
            0 <= i < j < dedup_first(s).len() ==> dedup_first(s)[i] != dedup_first(s)[j],
        forall|x: Seq<char>| #[trigger] dedup_first(s).contains(x) <==> s.contains(x),
    decreases s.len(),
{
    if s.len() == 0 {
    } else {
        let prefix = s.drop_last();
        lemma_dedup_first_distinct(prefix);
        let d = dedup_first(prefix);
        assert forall|x: Seq<char>| #[trigger] s.contains(x) implies dedup_first(s).contains(x) by {
            if x == s.last() {
                if !d.contains(x) {
                    assert(dedup_first(s)[dedup_first(s).len() - 1] == x);
                }
            } else {
                let i = choose|i: int| 0 <= i < s.len() && s[i] == x;
                assert(prefix[i] == x);
                assert(d.contains(x));
                if !d.contains(s.last()) {
                    let j = choose|j: int| 0 <= j < d.len() && d[j] == x;
                    assert(dedup_first(s)[j] == x);
                }
            }
        }
        assert forall|x: Seq<char>| #[trigger] dedup_first(s).contains(x) implies s.contains(x) by {
            let i = choose|i: int| 0 <= i < dedup_first(s).len() && dedup_first(s)[i] == x;
            if i < d.len() {
                assert(d.contains(x));
                let j = choose|j: int| 0 <= j < prefix.len() && prefix[j] == x;
                assert(s[j] == x);
            } else {
                assert(x == s.last());
                assert(s[s.len() - 1] == x);
            }
        }
        if !d.contains(s.last()) {
            assert forall|i: int, j: int|
                0 <= i < j < dedup_first(s).len() implies dedup_first(s)[i] != dedup_first(
                s,
            )[j] by {
                if j == dedup_first(s).len() - 1 {
                    assert(d.contains(dedup_first(s)[i]));
                }
            }
        }
    }
}

/// The filename of the single shard assumed when the checkpoint has no index
/// manifest.
pub fn default_shard_name() -> (r: String)
    ensures
        r@ == "model.safetensors"@,
{
    "model.safetensors".to_owned()
}

/// Whether some string of `v` has the characters of `x`.
fn contains_string(v: &Vec<String>, x: &String) -> (r: bool)
    ensures
        r <==> seq_views(v@).contains(x@),
{
    let mut i: usize = 0;
    while i < v.len()
        invariant
            i <= v@.len(),
            forall|j: int| 0 <= j < i ==> seq_views(v@)[j] != x@,
        decreases v@.len() - i,
    {
        if v[i] == *x {
            assert(seq_views(v@)[i as int] == x@);
            return true;
        }
        i += 1;
    }
    false
}

/// Resolve the checkpoint's shard list. A missing manifest yields exactly
/// one shard, the fixed default filename; a malformed manifest is a hard
/// error; otherwise the manifest's filename values are returned with each
/// distinct filename exactly once, in order of first appearance.
pub fn resolve_shard_names(fetch: &ManifestFetch) -> (r: Result<Vec<String>, ResolveError>)
    ensures
        match *fetch {
            ManifestFetch::NotFound => match r {
                Ok(v) => seq_views(v@) == seq!["model.safetensors"@],
                Err(_) => false,
            },
            ManifestFetch::Fetched(ref b) => match spec_parse_manifest(b@) {
                Some(pairs) => match r {
                    Ok(v) => seq_views(v@) == dedup_first(manifest_filenames(pairs)),
                    Err(_) => false,
                },
                None => r == Err::<Vec<String>, ResolveError>(ResolveError::MalformedManifest),
            },
        },
{
    match fetch {
        ManifestFetch::NotFound => {
            let mut v: Vec<String> = Vec::new();
            v.push(default_shard_name());
            proof {
                assert(seq_views(v@) =~= seq!["model.safetensors"@]);
            }
            Ok(v)
        },
        ManifestFetch::Fetched(bytes) => {
            let pairs = match parse_string_map_member(bytes.as_slice(), "weight_map") {
                Some(pairs) => pairs,
                None => {
                    return Err(ResolveError::MalformedManifest);
                },
            };
            let ghost fnames = manifest_filenames(pair_views(pairs@));
            let mut out: Vec<String> = Vec::new();
            let mut i: usize = 0;
            while i < pairs.len()
                invariant
                    i <= pairs@.len(),
                    fnames == manifest_filenames(pair_views(pairs@)),
                    fnames.len() == pairs@.len(),
                    seq_views(out@) == dedup_first(fnames.take(i as int)),
                decreases pairs@.len() - i,
            {
                let name = pairs[i].1.clone();
                proof {
                    assert(fnames[i as int] == pairs@[i as int].1@);
                    assert(fnames.take(i + 1).drop_last() =~= fnames.take(i as int));
                    assert(fnames.take(i + 1).last() == fnames[i as int]);
                }
                if !contains_string(&out, &name) {
                    let ghost prev = out@;
                    out.push(name);
                    proof {
                        assert(seq_views(out@) =~= seq_views(prev).push(pairs@[i as int].1@));
                    }
                }
                i += 1;
            }
            proof {
                assert(fnames.take(pairs@.len() as int) =~= fnames);
            }
            Ok(out)
        },
    }
}

} // verus!
