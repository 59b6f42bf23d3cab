//! The slice of a model configuration that the tensor bookkeeping reads: the
//! model family name and the quantization settings, if any.

use vstd::prelude::*;

verus! {

/// Kernel flavor of an AWQ-quantized checkpoint.
#[derive(Clone, Copy, Debug, PartialEq, Eq, Structural)]
pub enum AwqVersion {
    Gemm,
    Gemmv,
    GemmvFast,
}

/// Quantization settings of a checkpoint, one variant per known method.
/// Bit counts are positive in every well-formed configuration.
#[derive(Clone, Copy, Debug, PartialEq, Eq, Structural)]
pub enum QuantizationConfig {
    Awq { bits: usize, group_size: usize, version: AwqVersion, zero_point: bool },
    Gptq { bits: usize, desc_act: bool, group_size: usize, static_groups: bool, sym: bool },
}

impl QuantizationConfig {
    /// The bit count is positive, as the configuration format guarantees.
    pub open spec fn wf(self) -> bool {
        match self {
            QuantizationConfig::Awq { bits, .. } => bits >= 1,
            QuantizationConfig::Gptq { bits, .. } => bits >= 1,
        }
    }
}

/// A model configuration, as far as this library reads it. A configuration
/// whose quantization section is missing, or of an unknown method, carries
/// `None` there.
pub struct Config {
    pub model_type: String,
    pub quantization_config: Option<QuantizationConfig>,
}

impl Config {
    pub open spec fn wf(self) -> bool {
        match self.quantization_config {
            Some(q) => q.wf(),
            None => true,
        }
    }
}

} // verus!
