//! Tensor-level bookkeeping on top of the fetched shard headers: the merged
//! tensor table handed to downstream consumers, the quantization settings
//! attached to each tensor, and the dequantized-shape arithmetic.

use vstd::prelude::*;
use vstd::slice::slice_index_get;
use vstd::slice::slice_to_vec;
use vstd::slice::slice_subrange;
use vstd::string::StringSliceAdditionalSpecFns;
use crate::config::AwqVersion;
use crate::config::Config;
use crate::config::QuantizationConfig;
use crate::header::CheckpointMetadata;
use crate::header::TensorEntry;
use crate::header::TensorEntryV;

verus! {

/// The quantization method of a checkpoint, with its method-specific knobs.
#[derive(Clone, Copy, Debug, PartialEq, Eq, Structural)]
pub enum QuantizationType {
    Awq { version: AwqVersion },
    Gptq { desc_act: bool, static_groups: bool },
}

/// Element type of quantized tensors: an integer of the given bit width.
#[derive(Clone, Copy, Debug, PartialEq, Eq, Structural)]
pub enum QuantizedDType {
    Int(usize),
}

impl QuantizedDType {
    pub open spec fn spec_n_bits(self) -> usize {
        match self {
            QuantizedDType::Int(bits) => bits,
        }
    }

    /// The bit width is positive in every well-formed value.
    pub open spec fn wf(self) -> bool {
        self.spec_n_bits() >= 1
    }

    pub fn n_bits(&self) -> (r: usize)
        ensures
            r == self.spec_n_bits(),
    {
        match self {
            QuantizedDType::Int(bits) => *bits,
        }
    }
}

/// The quantization settings read out of a model configuration.
#[derive(Clone, Copy, Debug, PartialEq, Eq, Structural)]
pub struct Quantization {
    pub dtype: QuantizedDType,
    pub group_size: usize,
    pub qtype: QuantizationType,
    pub zero_point: bool,
}

impl Quantization {
    pub open spec fn wf(self) -> bool {
        self.dtype.wf()
    }

    /// How many quantized elements one 32-bit word packs.
    pub open spec fn spec_n_packed(self) -> int {
        32 as int / self.dtype.spec_n_bits() as int
    }
}

/// The quantization settings that a configuration denotes: one value per
/// known method, and `None` where the configuration has none.
pub open spec fn spec_quantization(config: Config) -> Option<Quantization> {
    match config.quantization_config {
        None => None,
        Some(QuantizationConfig::Awq { bits, group_size, version, zero_point }) => Some(
            Quantization {
                dtype: QuantizedDType::Int(bits),
                group_size,
                qtype: QuantizationType::Awq { version },
                zero_point,
            },
        ),
        Some(QuantizationConfig::Gptq { bits, desc_act, group_size, static_groups, sym }) => Some(
            Quantization {
                dtype: QuantizedDType::Int(bits),
                group_size,
                qtype: QuantizationType::Gptq { desc_act, static_groups },
                zero_point: !sym,
            },
        ),
    }
}

impl Quantization {
    pub fn new(config: &Config) -> (r: Option<Quantization>)
        ensures
            r == spec_quantization(*config),
    {
        match &config.quantization_config {
            None => None,
            Some(QuantizationConfig::Awq { bits, group_size, version, zero_point }) => Some(
                Quantization {
                    dtype: QuantizedDType::Int(*bits),
                    group_size: *group_size,
                    qtype: QuantizationType::Awq { version: *version },
                    zero_point: *zero_point,
                },
            ),
            Some(
                QuantizationConfig::Gptq { bits, desc_act, group_size, static_groups, sym },
            ) => Some(
                Quantization {
                    dtype: QuantizedDType::Int(*bits),
                    group_size: *group_size,
                    qtype: QuantizationType::Gptq {
                        desc_act: *desc_act,
                        static_groups: *static_groups,
                    },
                    zero_point: !*sym,
                },
            ),
        }
    }
}

/// Whether a dequantized linear weight stores in-features before
/// out-features or the other way around.
#[derive(Clone, Copy, Debug, PartialEq, Eq, Structural)]
pub enum LinearLayout {
    InFeaturesOutFeatures,
    OutFeaturesInFeatures,
}

/// A dequantized tensor shape together with its layout.
#[derive(Debug)]
pub struct DequantizedShape {
    pub shape: Vec<usize>,
    pub layout: LinearLayout,
}

/// The dequantized shape of a quantized weight tensor: AWQ (GEMM kernels)
/// packs along the last axis, GPTQ along the first; other settings have no
/// dequantized weight shape, nor has an empty shape.
pub open spec fn spec_dequantized_weight_shape(q: Quantization, shape: Seq<usize>) -> Option<
    (Seq<usize>, LinearLayout),
> {
    match q.qtype {
        QuantizationType::Awq { version: AwqVersion::Gemm } => if shape.len() == 0 {
            None
        } else {
            Some(
                (
                    shape.update(
                        shape.len() - 1,
                        (shape.last() * q.spec_n_packed()) as usize,
                    ),
                    LinearLayout::InFeaturesOutFeatures,
                ),
            )
        },
        QuantizationType::Gptq { .. } => if shape.len() == 0 {
            None
        } else {
            Some(
                (
                    shape.update(0, (shape.first() * q.spec_n_packed()) as usize),
                    LinearLayout::InFeaturesOutFeatures,
                ),
            )
        },
        _ => None,
    }
}

/// The dequantized shape of a zero-point tensor: both AWQ (GEMM kernels) and
/// GPTQ pack it along the last axis.
pub open spec fn spec_dequantized_zero_point_shape(q: Quantization, shape: Seq<usize>) -> Option<
    (Seq<usize>, LinearLayout),
> {
    match q.qtype {
        QuantizationType::Awq { version: AwqVersion::Gemm } | QuantizationType::Gptq {
            ..
        } => if shape.len() == 0 {
            None
        } else {
            Some(
                (
                    shape.update(
                        shape.len() - 1,
                        (shape.last() * q.spec_n_packed()) as usize,
                    ),
                    LinearLayout::OutFeaturesInFeatures,
                ),
            )
        },
        _ => None,
    }
}

impl Quantization {
    pub fn dequantized_weight_shape(&self, quantized_shape: &[usize]) -> (r: Option<
        DequantizedShape,
    >)
        requires
            self.wf(),
            (self.qtype matches QuantizationType::Awq { version: AwqVersion::Gemm }
                && quantized_shape@.len() > 0) ==> quantized_shape@.last() * self.spec_n_packed()
                <= usize::MAX,
            (self.qtype matches QuantizationType::Gptq { .. } && quantized_shape@.len() > 0)
                ==> quantized_shape@.first() * self.spec_n_packed() <= usize::MAX,
        ensures
            match r {
                Some(d) => spec_dequantized_weight_shape(*self, quantized_shape@) == Some(
                    (d.shape@, d.layout),
                ),
                None => spec_dequantized_weight_shape(*self, quantized_shape@) is None,
            },
    {
        match self.qtype {
            QuantizationType::Awq { version: AwqVersion::Gemm } => {
                if quantized_shape.len() == 0 {
                    return None;
                }
                let n_packed = 32 / self.dtype.n_bits();
                let mut shape = slice_to_vec(quantized_shape);
                let idx = shape.len() - 1;
                let grown = shape[idx] * n_packed;
                shape[idx] = grown;
                Some(DequantizedShape { shape, layout: LinearLayout::InFeaturesOutFeatures })
            },
            QuantizationType::Gptq { .. } => {
                if quantized_shape.len() == 0 {
                    return None;
                }
                let n_packed = 32 / self.dtype.n_bits();
                let mut shape = slice_to_vec(quantized_shape);
                let grown = shape[0] * n_packed;
                shape[0] = grown;
                Some(DequantizedShape { shape, layout: LinearLayout::InFeaturesOutFeatures })
            },
            _ => None,
        }
    }

    pub fn dequantized_zero_point_shape(&self, quantized_shape: &[usize]) -> (r: Option<
        DequantizedShape,
    >)
        requires
            self.wf(),
            ((self.qtype matches QuantizationType::Awq { version: AwqVersion::Gemm }
                || self.qtype matches QuantizationType::Gptq { .. }) && quantized_shape@.len() > 0)
                ==> quantized_shape@.last() * self.spec_n_packed() <= usize::MAX,
        ensures
            match r {
                Some(d) => spec_dequantized_zero_point_shape(*self, quantized_shape@) == Some(
                    (d.shape@, d.layout),
                ),
                None => spec_dequantized_zero_point_shape(*self, quantized_shape@) is None,
            },
    {
        match self.qtype {
            QuantizationType::Awq { version: AwqVersion::Gemm } | QuantizationType::Gptq {
                ..
            } => {
                if quantized_shape.len() == 0 {
                    return None;
                }
                let n_packed = 32 / self.dtype.n_bits();
                let mut shape = slice_to_vec(quantized_shape);
                let idx = shape.len() - 1;
                let grown = shape[idx] * n_packed;
                shape[idx] = grown;
                Some(DequantizedShape { shape, layout: LinearLayout::OutFeaturesInFeatures })
            },
            _ => None,
        }
    }
}

/// Everything downstream consumers see of one tensor: its name, its table
/// row, the shard filename holding it, and the checkpoint's quantization
/// settings.
#[derive(Debug)]
pub struct TensorMetadata {
    pub name: String,
    pub tensor_info: TensorEntry,
    pub checkpoint: String,
    pub quantization: Option<Quantization>,
}

/// Mathematical value of a `TensorMetadata`.
pub struct TensorMetadataV {
    pub name: Seq<char>,
    pub tensor_info: TensorEntryV,
    pub checkpoint: Seq<char>,
    pub quantization: Option<Quantization>,
}

impl View for TensorMetadata {
    type V = TensorMetadataV;

    open spec fn view(&self) -> TensorMetadataV {
        TensorMetadataV {
            name: self.name@,
            tensor_info: self.tensor_info@,
            checkpoint: self.checkpoint@,
            quantization: self.quantization,
        }
    }
}

/// The mapping from tensor name to metadata that a sequence of rows denotes:
/// a later row with the same name overrides an earlier one.
pub open spec fn tensor_meta_map(rows: Seq<TensorMetadata>) -> Map<Seq<char>, TensorMetadataV>
    decreases rows.len(),
{
    if rows.len() == 0 {
        Map::empty()
    } else {
        tensor_meta_map(rows.drop_last()).insert(rows.last().name@, rows.last()@)
    }
}

/// The metadata rows one shard contributes, as a mapping keyed by tensor
/// name.
pub open spec fn shard_rows_map(
    q: Option<Quantization>,
    checkpoint: Seq<char>,
    rows: Seq<(String, TensorEntry)>,
) -> Map<Seq<char>, TensorMetadataV>
    decreases rows.len(),
{
    if rows.len() == 0 {
        Map::empty()
    } else {
        shard_rows_map(q, checkpoint, rows.drop_last()).insert(
            rows.last().0@,
            TensorMetadataV {
                name: rows.last().0@,
                tensor_info: rows.last().1@,
                checkpoint,
                quantization: q,
            },
        )
    }
}

/// The merged tensor table of a checkpoint: the union of its shards' tables,
/// a later shard's entry winning on a (malformed) duplicated name.
pub open spec fn spec_merged_tensors(
    q: Option<Quantization>,
    metas: Seq<CheckpointMetadata>,
) -> Map<Seq<char>, TensorMetadataV>
    decreases metas.len(),
{
    if metas.len() == 0 {
        Map::empty()
    } else {
        spec_merged_tensors(q, metas.drop_last()).union_prefer_right(
            shard_rows_map(q, metas.last().filename@, metas.last().metadata.tensors@),
        )
    }
}

impl TensorEntry {
    /// A copy whose mathematical value is the original's.
    pub fn duplicate(&self) -> (r: TensorEntry)
        ensures
            r@ == self@,
    {
        TensorEntry {
            dtype: self.dtype.clone(),
            shape: self.shape.clone(),
            data_offsets: self.data_offsets,
        }
    }
}

/// Merge the fetched shard headers into the tensor table handed to the UI
/// and the quantization layer: every tensor of every shard, keyed by name,
/// each entry carrying its shard's filename and the configuration's
/// quantization settings.
#[verifier::loop_isolation(false)]
pub fn get_tensors(config: &Config, checkpoint_metadatas: &[CheckpointMetadata]) -> (r: Vec<
    TensorMetadata,
>)
    ensures
        tensor_meta_map(r@) == spec_merged_tensors(
            spec_quantization(*config),
            checkpoint_metadatas@,
        ),
{
    let ghost q = spec_quantization(*config);
    let mut out: Vec<TensorMetadata> = Vec::new();
    proof {
        assert(checkpoint_metadatas@.take(0) =~= Seq::<CheckpointMetadata>::empty());
    }
    let mut i: usize = 0;
    while i < checkpoint_metadatas.len()
        invariant
            i <= checkpoint_metadatas@.len(),
            tensor_meta_map(out@) == spec_merged_tensors(q, checkpoint_metadatas@.take(i as int)),
        decreases checkpoint_metadatas@.len() - i,
    {
        let shard = slice_index_get(checkpoint_metadatas, i);
        let ghost rows = shard.metadata.tensors@;
        let ghost before_shard = tensor_meta_map(out@);
        proof {
            assert(rows.take(0) =~= Seq::<(String, TensorEntry)>::empty());
            assert(before_shard.union_prefer_right(shard_rows_map(q, shard.filename@, rows.take(0)))
                =~= before_shard);
        }
        let mut j: usize = 0;
        while j < shard.metadata.tensors.len()
            invariant
                i < checkpoint_metadatas@.len(),
                *shard == checkpoint_metadatas@[i as int],
                rows == shard.metadata.tensors@,
                j <= rows.len(),
                before_shard == spec_merged_tensors(q, checkpoint_metadatas@.take(i as int)),
                tensor_meta_map(out@) == before_shard.union_prefer_right(
                    shard_rows_map(q, shard.filename@, rows.take(j as int)),
                ),
            decreases rows.len() - j,
        {
            let pair = &shard.metadata.tensors[j];
            let row = TensorMetadata {
                name: pair.0.clone(),
                tensor_info: pair.1.duplicate(),
                checkpoint: shard.filename.clone(),
                quantization: Quantization::new(config),
            };
            let ghost prev = out@;
            out.push(row);
            proof {
                assert(out@.drop_last() =~= prev);
                assert(rows.take(j + 1).drop_last() =~= rows.take(j as int));
                assert(rows.take(j + 1).last() == rows[j as int]);
                assert(tensor_meta_map(out@) =~= before_shard.union_prefer_right(
                    shard_rows_map(q, shard.filename@, rows.take(j + 1)),
                ));
            }
            j += 1;
        }
        proof {
            assert(rows.take(rows.len() as int) =~= rows);
            assert(checkpoint_metadatas@.take(i + 1).drop_last() =~= checkpoint_metadatas@.take(
                i as int,
            ));
            assert(checkpoint_metadatas@.take(i + 1).last() == checkpoint_metadatas@[i as int]);
        }
        i += 1;
    }
    proof {
        assert(checkpoint_metadatas@.take(checkpoint_metadatas@.len() as int)
            =~= checkpoint_metadatas@);
    }
    out
}

/// Whether a byte is an ASCII decimal digit.
pub open spec fn is_digit_byte(b: u8) -> bool {
    48 <= b <= 57
}

/// Length of the run of ASCII digits at the front of `b`.
pub open spec fn digit_run_len(b: Seq<u8>) -> int
    decreases b.len(),
{
    if b.len() == 0 || !is_digit_byte(b.first()) {
        0
    } else {
        1 + digit_run_len(b.drop_first())
    }
}

proof fn lemma_digit_run_len_bounds(b: Seq<u8>)
    ensures
        0 <= digit_run_len(b) <= b.len(),
        b.len() > 0 && is_digit_byte(b.first()) ==> digit_run_len(b) >= 1,
    decreases b.len(),
{
    if b.len() > 0 && is_digit_byte(b.first()) {
        lemma_digit_run_len_bounds(b.drop_first());
    }
}

/// The run length is the unique `n` with digits before it and a non-digit
/// (or the end) at it.
proof fn lemma_digit_run_len_is(b: Seq<u8>, n: int)
    requires
        0 <= n <= b.len(),
        forall|j: int| 0 <= j < n ==> is_digit_byte(#[trigger] b[j]),
        n == b.len() || !is_digit_byte(b[n]),
    ensures
        digit_run_len(b) == n,
    decreases b.len(),
{
    if n == 0 {
    } else {
        let t = b.drop_first();
        assert forall|j: int| 0 <= j < n - 1 implies is_digit_byte(#[trigger] t[j]) by {
            assert(t[j] == b[j + 1]);
        }
        if n - 1 < t.len() {
            assert(t[n - 1] == b[n]);
        }
        lemma_digit_run_len_is(t, n - 1);
    }
}

/// The numeric value of a sequence of ASCII digits.
pub open spec fn digits_val(b: Seq<u8>) -> int
    decreases b.len(),
{
    if b.len() == 0 {
        0
    } else {
        digits_val(b.drop_last()) * 10 + (b.last() - 48)
    }
}

/// Ten to the given power.
pub open spec fn pow10(n: int) -> int
    decreases n,
{
    if n <= 0 {
        1
    } else {
        10 * pow10(n - 1)
    }
}

proof fn lemma_pow10_pos(n: int)
    ensures
        pow10(n) >= 1,
    decreases n,
{
    if n > 0 {
        lemma_pow10_pos(n - 1);
    }
}

proof fn lemma_pow10_increases(a: int, b: int)
    requires
        a <= b,
    ensures
        pow10(a) <= pow10(b),
    decreases b - a,
{
    if a < b {
        lemma_pow10_increases(a, b - 1);
        lemma_pow10_pos(b - 1);
    }
}

proof fn lemma_digits_val_bounds(b: Seq<u8>)
    requires
        forall|j: int| 0 <= j < b.len() ==> is_digit_byte(#[trigger] b[j]),
    ensures
        0 <= digits_val(b) < pow10(b.len() as int),
    decreases b.len(),
{
    if b.len() > 0 {
        lemma_digits_val_bounds(b.drop_last());
    }
}

proof fn lemma_digits_val_leading_zero(b: Seq<u8>)
    requires
        b.len() > 0,
        b.first() == 48,
    ensures
        digits_val(b) == digits_val(b.drop_first()),
    decreases b.len(),
{
    assert(digits_val(b) == digits_val(b.drop_last()) * 10 + (b.last() - 48));
    if b.len() == 1 {
        assert(b.drop_last().len() == 0);
        assert(b.drop_first().len() == 0);
        assert(b.last() == b.first());
    } else {
        assert(b.drop_last().first() == b.first());
        lemma_digits_val_leading_zero(b.drop_last());
        assert(b.drop_last().drop_first() =~= b.drop_first().drop_last());
        assert(b.drop_first().last() == b.last());
        assert(b.drop_first().len() > 0);
        assert(digits_val(b.drop_first()) == digits_val(b.drop_first().drop_last()) * 10 + (
        b.drop_first().last() - 48));
    }
}

/// Leading zeros do not change the value.
proof fn lemma_digits_val_strip(b: Seq<u8>, z: int)
    requires
        0 <= z <= b.len(),
        forall|j: int| 0 <= j < z ==> b[j] == 48,
    ensures
        digits_val(b.skip(z)) == digits_val(b),
    decreases z,
{
    if z == 0 {
        assert(b.skip(0) =~= b);
    } else {
        lemma_digits_val_leading_zero(b);
        let t = b.drop_first();
        assert forall|j: int| 0 <= j < z - 1 implies t[j] == 48 by {
            assert(t[j] == b[j + 1]);
        }
        lemma_digits_val_strip(t, z - 1);
        assert(t.skip(z - 1) =~= b.skip(z));
    }
}

/// Without a leading zero, a longer digit run has a larger value.
proof fn lemma_digits_val_no_leading_zero(b: Seq<u8>)
    requires
        forall|j: int| 0 <= j < b.len() ==> is_digit_byte(#[trigger] b[j]),
        b.len() > 0,
        b.first() != 48,
    ensures
        digits_val(b) >= pow10(b.len() - 1),
    decreases b.len(),
{
    assert(digits_val(b) == digits_val(b.drop_last()) * 10 + (b.last() - 48));
    assert(is_digit_byte(b[b.len() - 1]));
    assert(b.last() == b[b.len() - 1]);
    if b.len() == 1 {
        assert(is_digit_byte(b[0]));
        assert(b.first() == b[0]);
        assert(b.drop_last().len() == 0);
        assert(pow10(0) == 1);
    } else {
        let t = b.drop_last();
        assert forall|j: int| 0 <= j < t.len() implies is_digit_byte(#[trigger] t[j]) by {
            assert(t[j] == b[j]);
        }
        assert(t.first() == b.first());
        lemma_digits_val_no_leading_zero(t);
        assert(pow10(b.len() - 1) == 10 * pow10(b.len() - 2));
        assert(digits_val(t) * 10 >= pow10(b.len() - 2) * 10);
    }
}

/// Splitting a digit sequence splits its value positionally.
proof fn lemma_digits_val_append(a: Seq<u8>, b: Seq<u8>)
    ensures
        digits_val(a + b) == digits_val(a) * pow10(b.len() as int) + digits_val(b),
    decreases b.len(),
{
    if b.len() == 0 {
        assert(a + b =~= a);
    } else {
        lemma_digits_val_append(a, b.drop_last());
        assert((a + b).drop_last() =~= a + b.drop_last());
        assert((a + b).last() == b.last());
        let n = b.len() as int;
        assert(digits_val(a) * pow10(n - 1) * 10 == digits_val(a) * pow10(n)) by (nonlinear_arith)
            requires
                pow10(n) == 10 * pow10(n - 1),
        ;
    }
}

/// Among equal-length digit runs, the first differing digit decides the
/// numeric order.
proof fn lemma_digits_val_lex(x: Seq<u8>, y: Seq<u8>, k: int)
    requires
        forall|j: int| 0 <= j < x.len() ==> is_digit_byte(#[trigger] x[j]),
        forall|j: int| 0 <= j < y.len() ==> is_digit_byte(#[trigger] y[j]),
        x.len() == y.len(),
        0 <= k < x.len(),
        forall|j: int| 0 <= j < k ==> x[j] == y[j],
        x[k] < y[k],
    ensures
        digits_val(x) < digits_val(y),
{
    let n = x.len() as int;
    let p = pow10(n - k - 1);
    let xh = x.take(k + 1);
    let yh = y.take(k + 1);
    let xt = x.skip(k + 1);
    let yt = y.skip(k + 1);
    assert(x =~= xh + xt);
    assert(y =~= yh + yt);
    lemma_digits_val_append(xh, xt);
    lemma_digits_val_append(yh, yt);
    assert(xh.drop_last() =~= x.take(k));
    assert(yh.drop_last() =~= y.take(k));
    assert(x.take(k) =~= y.take(k));
    assert(xh.last() == x[k] && yh.last() == y[k]);
    assert(digits_val(xh) + 1 <= digits_val(yh));
    assert forall|j: int| 0 <= j < xt.len() implies is_digit_byte(#[trigger] xt[j]) by {
        assert(xt[j] == x[k + 1 + j]);
    }
    assert forall|j: int| 0 <= j < yt.len() implies is_digit_byte(#[trigger] yt[j]) by {
        assert(yt[j] == y[k + 1 + j]);
    }
    lemma_digits_val_bounds(xt);
    lemma_digits_val_bounds(yt);
    assert(xt.len() == n - k - 1 && yt.len() == n - k - 1);
    let vx = digits_val(xh);
    let vy = digits_val(yh);
    assert(digits_val(x) < vy * p) by (nonlinear_arith)
        requires
            digits_val(x) == vx * p + digits_val(xt),
            0 <= digits_val(xt) < p,
            vx + 1 <= vy,
    ;
    assert(vy * p <= digits_val(y)) by (nonlinear_arith)
        requires
            digits_val(y) == vy * p + digits_val(yt),
            0 <= digits_val(yt),
    ;
}

/// The order of two byte strings under numeric-aware comparison: runs of
/// ASCII digits compare by numeric value (so leading zeros do not matter),
/// any other bytes compare as bytes, and where one string is exhausted the
/// shorter comes first.
pub open spec fn spec_cmp_numeric(b1: Seq<u8>, b2: Seq<u8>) -> core::cmp::Ordering
    decreases b1.len() + b2.len(),
    via spec_cmp_numeric_dec
{
    if b1.len() == 0 && b2.len() == 0 {
        core::cmp::Ordering::Equal
    } else if b1.len() == 0 {
        core::cmp::Ordering::Less
    } else if b2.len() == 0 {
        core::cmp::Ordering::Greater
    } else if is_digit_byte(b1.first()) && is_digit_byte(b2.first()) {
        let n1 = digit_run_len(b1);
        let n2 = digit_run_len(b2);
        let v1 = digits_val(b1.take(n1));
        let v2 = digits_val(b2.take(n2));
        if v1 < v2 {
            core::cmp::Ordering::Less
        } else if v1 > v2 {
            core::cmp::Ordering::Greater
        } else {
            spec_cmp_numeric(b1.skip(n1), b2.skip(n2))
        }
    } else if b1.first() < b2.first() {
        core::cmp::Ordering::Less
    } else if b1.first() > b2.first() {
        core::cmp::Ordering::Greater
    } else {
        spec_cmp_numeric(b1.drop_first(), b2.drop_first())
    }
}

#[via_fn]
proof fn spec_cmp_numeric_dec(b1: Seq<u8>, b2: Seq<u8>) {
    lemma_digit_run_len_bounds(b1);
    lemma_digit_run_len_bounds(b2);
}

/// How many ASCII digits stand at the front of `b`.
pub fn count_digit_bytes(b: &[u8]) -> (r: usize)
    ensures
        r == digit_run_len(b@),
{
    let mut i: usize = 0;
    while i < b.len()
        invariant
            i <= b@.len(),
            forall|j: int| 0 <= j < i ==> is_digit_byte(#[trigger] b@[j]),
        decreases b@.len() - i,
    {
        let c = *slice_index_get(b, i);
        if c < 48 || c > 57 {
            proof {
                lemma_digit_run_len_is(b@, i as int);
            }
            return i;
        }
        i += 1;
    }
    proof {
        lemma_digit_run_len_is(b@, b@.len() as int);
    }
    i
}

/// The order of two integers.
pub open spec fn spec_ord(a: int, b: int) -> core::cmp::Ordering {
    if a < b {
        core::cmp::Ordering::Less
    } else if a > b {
        core::cmp::Ordering::Greater
    } else {
        core::cmp::Ordering::Equal
    }
}

/// Compare two runs of ASCII digits by numeric value, without bignum
/// arithmetic: strip leading zeros, then a longer run is larger, and equal
/// lengths compare digit by digit.
fn cmp_digit_runs(x: &[u8], y: &[u8]) -> (r: core::cmp::Ordering)
    requires
        forall|j: int| 0 <= j < x@.len() ==> is_digit_byte(#[trigger] x@[j]),
        forall|j: int| 0 <= j < y@.len() ==> is_digit_byte(#[trigger] y@[j]),
    ensures
        r == spec_ord(digits_val(x@), digits_val(y@)),
{
    let mut zx: usize = 0;
    while zx < x.len() && *slice_index_get(x, zx) == 48
        invariant
            zx <= x@.len(),
            forall|j: int| 0 <= j < zx ==> x@[j] == 48,
        decreases x@.len() - zx,
    {
        zx += 1;
    }
    let mut zy: usize = 0;
    while zy < y.len() && *slice_index_get(y, zy) == 48
        invariant
            zy <= y@.len(),
            forall|j: int| 0 <= j < zy ==> y@[j] == 48,
        decreases y@.len() - zy,
    {
        zy += 1;
    }
    proof {
        lemma_digits_val_strip(x@, zx as int);
        lemma_digits_val_strip(y@, zy as int);
    }
    let xs = slice_subrange(x, zx, x.len());
    let ys = slice_subrange(y, zy, y.len());
    proof {
        assert forall|j: int| 0 <= j < xs@.len() implies is_digit_byte(#[trigger] xs@[j]) by {
            assert(xs@[j] == x@[zx + j]);
        }
        assert forall|j: int| 0 <= j < ys@.len() implies is_digit_byte(#[trigger] ys@[j]) by {
            assert(ys@[j] == y@[zy + j]);
        }
    }
    if xs.len() < ys.len() {
        proof {
            lemma_digits_val_bounds(xs@);
            lemma_digits_val_no_leading_zero(ys@);
            lemma_pow10_increases(xs@.len() as int, ys@.len() - 1);
        }
        return core::cmp::Ordering::Less;
    }
    if ys.len() < xs.len() {
        proof {
            lemma_digits_val_bounds(ys@);
            lemma_digits_val_no_leading_zero(xs@);
            lemma_pow10_increases(ys@.len() as int, xs@.len() - 1);
        }
        return core::cmp::Ordering::Greater;
    }
    let mut k: usize = 0;
    while k < xs.len()
        invariant
            xs@.len() == ys@.len(),
            k <= xs@.len(),
            forall|j: int| 0 <= j < xs@.len() ==> is_digit_byte(#[trigger] xs@[j]),
            forall|j: int| 0 <= j < ys@.len() ==> is_digit_byte(#[trigger] ys@[j]),
            forall|j: int| 0 <= j < k ==> xs@[j] == ys@[j],
            digits_val(xs@) == digits_val(x@),
            digits_val(ys@) == digits_val(y@),
        decreases xs@.len() - k,
    {
        let cx = *slice_index_get(xs, k);
        let cy = *slice_index_get(ys, k);
        if cx < cy {
            proof {
                lemma_digits_val_lex(xs@, ys@, k as int);
            }
            return core::cmp::Ordering::Less;
        }
        if cy < cx {
            proof {
                lemma_digits_val_lex(ys@, xs@, k as int);
            }
            return core::cmp::Ordering::Greater;
        }
        k += 1;
    }
    proof {
        assert(xs@ =~= ys@);
    }
    core::cmp::Ordering::Equal
}

/// Compare two strings with runs of decimal digits ordered by numeric value
/// (so `"t2"` sorts before `"t12"`, and leading zeros do not matter) and
/// everything else ordered bytewise.
#[verifier::loop_isolation(false)]
pub fn cmp_numeric_lexicographic(s1: &str, s2: &str) -> (r: core::cmp::Ordering)
    ensures
        r == spec_cmp_numeric(s1.spec_bytes(), s2.spec_bytes()),
{
    let b1 = s1.as_bytes();
    let b2 = s2.as_bytes();
    proof {
        assert(b1@.skip(0) =~= b1@);
        assert(b2@.skip(0) =~= b2@);
    }
    let mut i1: usize = 0;
    let mut i2: usize = 0;
    while i1 < b1.len() && i2 < b2.len()
        invariant
            i1 <= b1@.len(),
            i2 <= b2@.len(),
            spec_cmp_numeric(b1@, b2@) == spec_cmp_numeric(b1@.skip(i1 as int), b2@.skip(i2 as int)),
        decreases b1@.len() - i1 + b2@.len() - i2,
    {
        let ghost u = b1@.skip(i1 as int);
        let ghost v = b2@.skip(i2 as int);
        proof {
            assert(u.first() == b1@[i1 as int]);
            assert(v.first() == b2@[i2 as int]);
        }
        let c1 = *slice_index_get(b1, i1);
        let c2 = *slice_index_get(b2, i2);
        if (48 <= c1 && c1 <= 57) && (48 <= c2 && c2 <= 57) {
            let r1 = slice_subrange(b1, i1, b1.len());
            let r2 = slice_subrange(b2, i2, b2.len());
            proof {
                assert(r1@ =~= u);
                assert(r2@ =~= v);
            }
            let d1 = count_digit_bytes(r1);
            let d2 = count_digit_bytes(r2);
            proof {
                lemma_digit_run_len_bounds(u);
                lemma_digit_run_len_bounds(v);
            }
            let run1 = slice_subrange(b1, i1, i1 + d1);
            let run2 = slice_subrange(b2, i2, i2 + d2);
            proof {
                assert(run1@ =~= u.take(d1 as int));
                assert(run2@ =~= v.take(d2 as int));
                assert forall|j: int| 0 <= j < run1@.len() implies is_digit_byte(
                    #[trigger] run1@[j],
                ) by {
                    lemma_digit_run_len_is_digits(u, j);
                }
                assert forall|j: int| 0 <= j < run2@.len() implies is_digit_byte(
                    #[trigger] run2@[j],
                ) by {
                    lemma_digit_run_len_is_digits(v, j);
                }
            }
            let ord = cmp_digit_runs(run1, run2);
            proof {
                let v1 = digits_val(u.take(d1 as int));
                let v2 = digits_val(v.take(d2 as int));
                assert(digits_val(run1@) == v1);
                assert(digits_val(run2@) == v2);
                assert(spec_cmp_numeric(u, v) == if v1 < v2 {
                    core::cmp::Ordering::Less
                } else if v1 > v2 {
                    core::cmp::Ordering::Greater
                } else {
                    spec_cmp_numeric(u.skip(d1 as int), v.skip(d2 as int))
                });
            }
            if matches!(ord, core::cmp::Ordering::Equal) {
                proof {
                    assert(u.skip(d1 as int) =~= b1@.skip(i1 + d1));
                    assert(v.skip(d2 as int) =~= b2@.skip(i2 + d2));
                }
                i1 += d1;
                i2 += d2;
            } else {
                return ord;
            }
        } else {
            proof {
                assert(spec_cmp_numeric(u, v) == if u.first() < v.first() {
                    core::cmp::Ordering::Less
                } else if u.first() > v.first() {
                    core::cmp::Ordering::Greater
                } else {
                    spec_cmp_numeric(u.drop_first(), v.drop_first())
                });
            }
            if c1 < c2 {
                return core::cmp::Ordering::Less;
            }
            if c2 < c1 {
                return core::cmp::Ordering::Greater;
            }
            proof {
                assert(u.drop_first() =~= b1@.skip(i1 + 1));
                assert(v.drop_first() =~= b2@.skip(i2 + 1));
            }
            i1 += 1;
            i2 += 1;
        }
    }
    let ghost u = b1@.skip(i1 as int);
    let ghost v = b2@.skip(i2 as int);
    if i1 < b1.len() {
        proof {
            assert(u.len() > 0 && v.len() == 0);
            assert(spec_cmp_numeric(u, v) == core::cmp::Ordering::Greater);
        }
        core::cmp::Ordering::Greater
    } else if i2 < b2.len() {
        proof {
            assert(u.len() == 0 && v.len() > 0);
            assert(spec_cmp_numeric(u, v) == core::cmp::Ordering::Less);
        }
        core::cmp::Ordering::Less
    } else {
        proof {
            assert(u.len() == 0 && v.len() == 0);
            assert(spec_cmp_numeric(u, v) == core::cmp::Ordering::Equal);
        }
        core::cmp::Ordering::Equal
    }
}

/// Every byte before the digit-run boundary is a digit.
proof fn lemma_digit_run_len_is_digits(b: Seq<u8>, j: int)
    requires
        0 <= j < digit_run_len(b),
    ensures
        is_digit_byte(b[j]),
    decreases b.len(),
{
    lemma_digit_run_len_bounds(b);
    if j > 0 {
        lemma_digit_run_len_is_digits(b.drop_first(), j - 1);
        assert(b.drop_first()[j - 1] == b[j]);
    }
}

} // verus!
