use vstd::prelude::*;

verus! {

pub type Token = i32;

pub type SeqId = i32;

pub type Pos = i32;

/// Element encodings of model tensors.
#[allow(non_camel_case_types)]
#[derive(Debug, Clone, Copy, PartialEq, Eq, Structural)]
pub enum DataType {
    F32,
    F16,
    BF16,
    Q4_0,
    Q4_1,
    Q5_0,
    Q5_1,
    Q8_0,
    Q2_K,
    Q3_K_S,
    Q3_K_M,
    Q3_K_L,
    Q4_K_S,
    Q4_K_M,
    Q4_K,
    Q5_K_S,
    Q5_K_M,
    Q5_K,
    Q6_K,
    IQ2_XXS,
    IQ2_XS,
    IQ3_XS,
    IQ1_S,
    IQ4_NL,
    FP8,
    NF4,
    F8E5m2,
    F8E4m3,
}

impl DataType {
    /// Bytes counted per element of this encoding.
    pub open spec fn spec_size(self) -> nat {
        match self {
            DataType::F32 => 4,
            DataType::F16 => 2,
            DataType::BF16 => 2,
            DataType::Q4_0 => 2,
            DataType::Q4_1 => 3,
            DataType::Q5_0 => 3,
            DataType::Q5_1 => 4,
            DataType::Q8_0 => 2,
            DataType::Q2_K => 1,
            DataType::Q3_K_S => 2,
            DataType::Q3_K_M => 3,
            DataType::Q3_K_L => 4,
            DataType::Q4_K_S => 2,
            DataType::Q4_K_M => 3,
            DataType::Q4_K => 3,
            DataType::Q5_K_S => 3,
            DataType::Q5_K_M => 4,
            DataType::Q5_K => 4,
            DataType::Q6_K => 5,
            DataType::IQ2_XXS => 1,
            DataType::IQ2_XS => 2,
            DataType::IQ3_XS => 2,
            DataType::IQ1_S => 1,
            DataType::IQ4_NL => 2,
            DataType::FP8 => 1,
            DataType::NF4 => 1,
            DataType::F8E5m2 => 1,
            DataType::F8E4m3 => 1,
        }
    }

    pub fn size(&self) -> (r: usize)
        ensures
            r == self.spec_size(),
            1 <= r <= 5,
    {
        match self {
            DataType::F32 => 4,
            DataType::F16 => 2,
            DataType::BF16 => 2,
            DataType::Q4_0 => 2,
            DataType::Q4_1 => 3,
            DataType::Q5_0 => 3,
            DataType::Q5_1 => 4,
            DataType::Q8_0 => 2,
            DataType::Q2_K => 1,
            DataType::Q3_K_S => 2,
            DataType::Q3_K_M => 3,
            DataType::Q3_K_L => 4,
            DataType::Q4_K_S => 2,
            DataType::Q4_K_M => 3,
            DataType::Q4_K => 3,
            DataType::Q5_K_S => 3,
            DataType::Q5_K_M => 4,
            DataType::Q5_K => 4,
            DataType::Q6_K => 5,
            DataType::IQ2_XXS => 1,
            DataType::IQ2_XS => 2,
            DataType::IQ3_XS => 2,
            DataType::IQ1_S => 1,
            DataType::IQ4_NL => 2,
            DataType::FP8 => 1,
            DataType::NF4 => 1,
            DataType::F8E5m2 => 1,
            DataType::F8E4m3 => 1,
        }
    }
}

#[derive(Debug, Clone, Copy, PartialEq, Eq, Structural)]
pub enum VocabType {
    NoVocab,
    SPM,
    BPE,
    WPM,
    UGM,
    RWKV,
    PLAMO2,
}

#[derive(Debug, Clone, Copy, PartialEq, Eq, Structural)]
pub enum RopeType {
    NoRope,
    Norm,
    Neox,
    MRoPE,
    IMRoPE,
    Vision,
}

#[derive(Debug, Clone, Copy, PartialEq, Eq, Structural)]
pub enum PoolingType {
    Unspecified,
    NoPooling,
    Mean,
    Cls,
    Last,
    Rank,
}

#[derive(Debug, Clone, Copy, PartialEq, Eq, Structural)]
pub enum AttentionType {
    Unspecified,
    Causal,
    NonCausal,
}

#[derive(Debug, Clone, Copy, PartialEq, Eq, Structural)]
pub enum SplitMode {
    NoSplit,
    Layer,
    Row,
}

#[derive(Debug, Clone, Copy, PartialEq, Eq, Structural)]
pub enum RopeScalingType {
    Unspecified,
    NoScaling,
    Linear,
    Yarn,
    LongRoPE,
}

#[derive(Debug, Clone, Copy, PartialEq, Eq, Structural)]
pub enum DeviceType {
    CPU,
    GPU,
    GPUIntegrated,
}

/// Where a computation runs: a numbered accelerator, or the CPU.
#[derive(Debug, Clone, Copy, PartialEq, Eq, Structural)]
pub enum ComputeDevice {
    Device(usize),
    CPU,
}

impl ComputeDevice {
    pub fn is_gpu(&self) -> (r: bool)
        ensures
            r == (*self is Device),
    {
        match self {
            ComputeDevice::Device(_) => true,
            ComputeDevice::CPU => false,
        }
    }
}

#[derive(Debug, Clone)]
pub struct TensorMetadata {
    pub name: String,
    pub shape: Vec<usize>,
    pub dtype: DataType,
    pub offset: usize,
}

/// A two-dimensional tensor stored at `offset` of the weight data.
#[derive(Debug, Clone, Copy)]
pub struct TensorRef {
    pub offset: usize,
    pub shape: (usize, usize),
    pub dtype: DataType,
}

impl TensorRef {
    pub open spec fn spec_element_count(self) -> nat {
        (self.shape.0 * self.shape.1) as nat
    }

    pub open spec fn spec_size_bytes(self) -> nat {
        self.spec_element_count() * self.dtype.spec_size()
    }

    pub fn element_count(&self) -> (r: usize)
        requires
            self.shape.0 * self.shape.1 <= usize::MAX,
        ensures
            r == self.spec_element_count(),
    {
        self.shape.0 * self.shape.1
    }

    pub fn size_bytes(&self) -> (r: usize)
        requires
            self.spec_size_bytes() <= usize::MAX,
        ensures
            r == self.spec_size_bytes(),
    {
        proof {
            let n = self.shape.0 * self.shape.1;
            let s = self.dtype.spec_size();
            assert(n <= n * s) by (nonlinear_arith)
                requires
                    s >= 1,
                    n >= 0,
            ;
        }
        self.element_count() * self.dtype.size()
    }
}

#[derive(Debug, Clone)]
pub struct LayerWeights {
    pub attention_norm: Option<TensorRef>,
    pub attention_norm_scale: Option<TensorRef>,
    pub wq: TensorRef,
    pub wk: TensorRef,
    pub wv: TensorRef,
    pub wo: TensorRef,
    pub bq: Option<TensorRef>,
    pub bk: Option<TensorRef>,
    pub bv: Option<TensorRef>,
    pub bo: Option<TensorRef>,
    pub ffn_norm: Option<TensorRef>,
    pub ffn_gate: TensorRef,
    pub ffn_up: TensorRef,
    pub ffn_down: TensorRef,
    pub ffn_gate_b: Option<TensorRef>,
    pub ffn_up_b: Option<TensorRef>,
    pub ffn_down_b: Option<TensorRef>,
    pub ffn_gate_scale: Option<TensorRef>,
    pub ffn_up_scale: Option<TensorRef>,
    pub ffn_down_scale: Option<TensorRef>,
    pub ffn_gate_inp: Option<TensorRef>,
    pub ffn_experts: Option<Vec<TensorRef>>,
    pub ffn_expert_scale: Option<Vec<TensorRef>>,
}

/// Bytes of an optional tensor (none counts as zero).
pub open spec fn optional_bytes(t: Option<TensorRef>) -> nat {
    match t {
        Some(t) => t.spec_size_bytes(),
        None => 0,
    }
}

/// Bytes of the attention and feed-forward tensors of a layer that the size estimate counts.
pub open spec fn spec_layer_bytes(l: LayerWeights) -> nat {
    optional_bytes(l.attention_norm) + l.wq.spec_size_bytes() + l.wk.spec_size_bytes()
        + l.wv.spec_size_bytes() + l.wo.spec_size_bytes() + optional_bytes(l.ffn_norm)
        + l.ffn_gate.spec_size_bytes() + l.ffn_up.spec_size_bytes() + l.ffn_down.spec_size_bytes()
}

fn optional_size_bytes(t: &Option<TensorRef>) -> (r: usize)
    requires
        optional_bytes(*t) <= usize::MAX,
    ensures
        r == optional_bytes(*t),
{
    match t {
        Some(t) => t.size_bytes(),
        None => 0,
    }
}

/// Bytes of layer `layer_idx`, or 0 when there is no such layer.
pub fn layer_size(layers: &[LayerWeights], layer_idx: usize) -> (r: usize)
    requires
        layer_idx < layers@.len() ==> spec_layer_bytes(layers@[layer_idx as int]) <= usize::MAX,
    ensures
        layer_idx >= layers@.len() ==> r == 0,
        layer_idx < layers@.len() ==> r == spec_layer_bytes(layers@[layer_idx as int]),
{
    if layer_idx >= layers.len() {
        return 0;
    }
    let layer = &layers[layer_idx];
    let mut size: usize = 0;
    size += optional_size_bytes(&layer.attention_norm);
    size += layer.wq.size_bytes();
    size += layer.wk.size_bytes();
    size += layer.wv.size_bytes();
    size += layer.wo.size_bytes();
    size += optional_size_bytes(&layer.ffn_norm);
    size += layer.ffn_gate.size_bytes();
    size += layer.ffn_up.size_bytes();
    size += layer.ffn_down.size_bytes();
    size
}

/// Token embeddings stored row after row, `embedding_dim` elements per token.
pub struct EmbeddingTable {
    pub data: Vec<u8>,
    pub vocab_size: usize,
    pub embedding_dim: usize,
    pub dtype: DataType,
}

impl EmbeddingTable {
    /// Bytes of one row.
    pub open spec fn row_bytes(&self) -> int {
        self.embedding_dim * self.dtype.spec_size()
    }

    /// The row of `token`, when `token` is in the vocabulary and the row lies inside the data.
    pub fn get_embedding(&self, token: Token) -> (r: Option<&[u8]>)
        requires
            0 <= token < self.vocab_size ==> (token + 1) * self.row_bytes() <= usize::MAX,
        ensures
            (token < 0 || token >= self.vocab_size) ==> r is None,
            0 <= token < self.vocab_size ==> {
                let start = token * self.row_bytes();
                let end = start + self.row_bytes();
                &&& (end <= self.data@.len() ==> (r matches Some(s) && s@ == self.data@.subrange(start, end)))
                &&& (end > self.data@.len() ==> r is None)
            },
    {
        if token < 0 || token as usize >= self.vocab_size {
            return None;
        }
        let t = token as usize;
        proof {
            let rb = self.row_bytes();
            assert(t * rb + rb == (t + 1) * rb) by (nonlinear_arith);
            assert(t * rb <= (t + 1) * rb) by (nonlinear_arith)
                requires
                    rb >= 0,
                    t >= 0,
            ;
            assert(self.embedding_dim * self.dtype.spec_size() <= (t + 1) * rb) by (nonlinear_arith)
                requires
                    rb == self.embedding_dim * self.dtype.spec_size(),
                    t >= 0,
                    rb >= 0,
            ;
            assert(t * self.embedding_dim * self.dtype.spec_size() == t * rb) by (nonlinear_arith)
                requires
                    rb == self.embedding_dim * self.dtype.spec_size(),
            ;
            assert(t * self.embedding_dim <= t * rb) by (nonlinear_arith)
                requires
                    rb == self.embedding_dim * self.dtype.spec_size(),
                    self.dtype.spec_size() >= 1,
                    t >= 0,
                    self.embedding_dim >= 0,
            ;
        }
        let offset = t * self.embedding_dim * self.dtype.size();
        let size = self.embedding_dim * self.dtype.size();
        if offset + size <= self.data.len() {
            Some(&self.data.as_slice()[offset..offset + size])
        } else {
            None
        }
    }
}

pub struct OutputLayer {
    pub weight: TensorRef,
    pub bias: Option<TensorRef>,
}

} // verus!
