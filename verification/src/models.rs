//! Mapping parameter names to the layer kind that owns them, per model
//! family. The known families form a closed set, consumed by exhaustive
//! matching; each family carries a constant, explicitly-constructed lookup
//! table.

use vstd::prelude::*;
use vstd::string::StrSliceExecFns;
use crate::header::pair_views;

verus! {

/// First match in the table, scanning from the front.
pub open spec fn spec_table_lookup(table: Seq<(Seq<char>, Seq<char>)>, key: Seq<char>) -> Option<
    Seq<char>,
>
    decreases table.len(),
{
    if table.len() == 0 {
        None
    } else if table.first().0 == key {
        Some(table.first().1)
    } else {
        spec_table_lookup(table.drop_first(), key)
    }
}

/// Index of the last '.' in `s`, or -1 where there is none.
pub open spec fn last_dot_index(s: Seq<char>) -> int
    decreases s.len(),
{
    if s.len() == 0 {
        -1
    } else if s.last() == '.' {
        s.len() - 1
    } else {
        last_dot_index(s.drop_last())
    }
}

/// What looking a parameter name up means: take the name's '.'-separated
/// segments from last to first, and return the table's entry for the first
/// segment the table knows, if any.
pub open spec fn spec_param_to_layer(table: Seq<(Seq<char>, Seq<char>)>, s: Seq<char>) -> Option<
    Seq<char>,
>
    decreases s.len(),
    via spec_param_to_layer_dec
{
    let k = last_dot_index(s);
    if k < 0 {
        spec_table_lookup(table, s)
    } else {
        match spec_table_lookup(table, s.subrange(k + 1, s.len() as int)) {
            Some(v) => Some(v),
            None => spec_param_to_layer(table, s.subrange(0, k)),
        }
    }
}

#[via_fn]
proof fn spec_param_to_layer_dec(table: Seq<(Seq<char>, Seq<char>)>, s: Seq<char>) {
    lemma_last_dot_index_bounds(s);
}

proof fn lemma_last_dot_index_bounds(s: Seq<char>)
    ensures
        -1 <= last_dot_index(s) < s.len(),
        last_dot_index(s) >= 0 ==> s[last_dot_index(s)] == '.',
    decreases s.len(),
{
    if s.len() > 0 && s.last() != '.' {
        lemma_last_dot_index_bounds(s.drop_last());
    }
}

/// Where `s[k]` is a dot and nothing to its right is, `k` is the last dot.
proof fn lemma_last_dot_index_at(s: Seq<char>, k: int)
    requires
        0 <= k < s.len(),
        s[k] == '.',
        forall|j: int| k < j < s.len() ==> s[j] != '.',
    ensures
        last_dot_index(s) == k,
    decreases s.len(),
{
    if k == s.len() - 1 {
    } else {
        lemma_last_dot_index_at(s.drop_last(), k);
    }
}

/// Where `s` has no dot at all, there is no last dot.
proof fn lemma_last_dot_index_none(s: Seq<char>)
    requires
        forall|j: int| 0 <= j < s.len() ==> s[j] != '.',
    ensures
        last_dot_index(s) == -1,
    decreases s.len(),
{
    if s.len() > 0 {
        lemma_last_dot_index_none(s.drop_last());
    }
}

/// Whether two string slices hold the same characters.
fn str_eq(a: &str, b: &str) -> (r: bool)
    ensures
        r <==> a@ == b@,
{
    a.to_owned() == b.to_owned()
}

/// Look `key` up in `table`, first match from the front.
fn table_lookup(table: &Vec<(String, String)>, key: &str) -> (r: Option<String>)
    ensures
        match r {
            Some(v) => spec_table_lookup(pair_views(table@), key@) == Some(v@),
            None => spec_table_lookup(pair_views(table@), key@) is None,
        },
{
    let ghost full = pair_views(table@);
    proof {
        assert(full.skip(0) =~= full);
    }
    let mut i: usize = 0;
    while i < table.len()
        invariant
            i <= table@.len(),
            full == pair_views(table@),
            full.len() == table@.len(),
            spec_table_lookup(full, key@) == spec_table_lookup(full.skip(i as int), key@),
        decreases table@.len() - i,
    {
        proof {
            assert(full.skip(i as int).first() == full[i as int]);
            assert(full.skip(i as int).drop_first() =~= full.skip(i + 1));
        }
        if str_eq(table[i].0.as_str(), key) {
            return Some(table[i].1.clone());
        }
        i += 1;
    }
    proof {
        assert(full.skip(table@.len() as int) =~= Seq::<(Seq<char>, Seq<char>)>::empty());
    }
    None
}

/// Walk the '.'-separated segments of `name` from the last to the first and
/// return the table entry of the first segment the table knows.
fn lookup_param_layer(table: &Vec<(String, String)>, name: &str) -> (r: Option<String>)
    ensures
        match r {
            Some(v) => spec_param_to_layer(pair_views(table@), name@) == Some(v@),
            None => spec_param_to_layer(pair_views(table@), name@) is None,
        },
{
    let ghost t = pair_views(table@);
    let ghost s = name@;
    let n = name.unicode_len();
    proof {
        assert(s.take(n as int) =~= s);
    }
    let mut seg_end: usize = n;
    let mut i: usize = n;
    while i > 0
        invariant
            t == pair_views(table@),
            s == name@,
            n == s.len(),
            i <= seg_end <= n,
            forall|j: int| i <= j < seg_end ==> s[j] != '.',
            spec_param_to_layer(t, s) == spec_param_to_layer(t, s.take(seg_end as int)),
        decreases i,
    {
        let c = name.get_char(i - 1);
        if c == '.' {
            proof {
                let prefix = s.take(seg_end as int);
                assert forall|j: int| i - 1 < j < prefix.len() implies prefix[j] != '.' by {
                    assert(prefix[j] == s[j]);
                }
                assert(prefix[i - 1] == s[i - 1]);
                lemma_last_dot_index_at(prefix, i - 1);
                assert(prefix.subrange(i as int, seg_end as int) =~= s.subrange(
                    i as int,
                    seg_end as int,
                ));
                assert(prefix.subrange(0, i - 1) =~= s.take(i - 1));
            }
            let seg = name.substring_char(i, seg_end);
            match table_lookup(table, seg) {
                Some(v) => {
                    return Some(v);
                },
                None => {
                    seg_end = i - 1;
                },
            }
        }
        i -= 1;
    }
    proof {
        let prefix = s.take(seg_end as int);
        assert forall|j: int| 0 <= j < prefix.len() implies prefix[j] != '.' by {
            assert(prefix[j] == s[j]);
        }
        lemma_last_dot_index_none(prefix);
    }
    let seg = name.substring_char(0, seg_end);
    table_lookup(table, seg)
}

/// A model family that knows which layer kind each of its parameter names
/// belongs to.
pub trait ParamToLayer {
    /// The family's lookup table, as a mathematical value.
    spec fn spec_table(&self) -> Seq<(Seq<char>, Seq<char>)>;

    /// The constant, explicitly-constructed lookup table from parameter name
    /// segment to layer kind.
    fn parameter_layer(&self) -> (r: Vec<(String, String)>)
        ensures
            pair_views(r@) == self.spec_table(),
    ;

    /// The layer kind owning the parameter `name`: its '.'-separated segments
    /// are tried from the last to the first, and the first segment the
    /// family's table knows decides.
    fn param_to_layer(&self, name: &str) -> (r: Option<String>)
        ensures
            match r {
                Some(v) => spec_param_to_layer(self.spec_table(), name@) == Some(v@),
                None => spec_param_to_layer(self.spec_table(), name@) is None,
            },
    {
        let table = self.parameter_layer();
        lookup_param_layer(&table, name)
    }
}

/// The Llama family of models.
#[derive(Clone, Copy, Debug, PartialEq, Eq, Structural)]
pub struct Llama;

impl ParamToLayer for Llama {
    open spec fn spec_table(&self) -> Seq<(Seq<char>, Seq<char>)> {
        seq![
            ("q_proj"@, "Linear"@),
            ("k_proj"@, "Linear"@),
            ("v_proj"@, "Linear"@),
            ("o_proj"@, "Linear"@),
            ("gate_proj"@, "Linear"@),
            ("down_proj"@, "Linear"@),
            ("up_proj"@, "Linear"@),
        ]
    }

    fn parameter_layer(&self) -> (r: Vec<(String, String)>) {
        let mut r: Vec<(String, String)> = Vec::new();
        r.push(("q_proj".to_owned(), "Linear".to_owned()));
        r.push(("k_proj".to_owned(), "Linear".to_owned()));
        r.push(("v_proj".to_owned(), "Linear".to_owned()));
        r.push(("o_proj".to_owned(), "Linear".to_owned()));
        r.push(("gate_proj".to_owned(), "Linear".to_owned()));
        r.push(("down_proj".to_owned(), "Linear".to_owned()));
        r.push(("up_proj".to_owned(), "Linear".to_owned()));
        proof {
            assert(pair_views(r@) =~~= self.spec_table());
        }
        r
    }
}

/// The known model families, a closed set consumed by exhaustive matching.
#[derive(Clone, Copy, Debug)]
pub enum ModelFamily {
    Llama(Llama),
}

/// The parameter-to-layer mapping of the named model family, where the
/// family is known.
pub fn get_param_layer(model_type: &str) -> (r: Option<ModelFamily>)
    ensures
        r is Some <==> model_type@ == "llama"@,
{
    if str_eq(model_type, "llama") {
        Some(ModelFamily::Llama(Llama))
    } else {
        None
    }
}

} // verus!
