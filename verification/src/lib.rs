use vstd::prelude::*;

pub mod advanced_scheduler;
pub mod batch;
pub mod benchmarks;
pub mod cli;
pub mod cpu_kv;
pub mod cuda_graphs;
pub mod decoder;
pub mod fim;
pub mod gguf;
pub mod gguf_vocab;
pub mod gpu_kernel;
pub mod inference;
pub mod kv_offload;
pub mod lora;
pub mod model_architectures;
pub mod moe;
pub mod paged_attention;
pub mod profiler;
pub mod prompt_cache;
pub mod quantize;
pub mod safetensors;
pub mod scheduler;
pub mod server;
pub mod text;
pub mod tokenizer;
pub mod types;
pub mod utils;
pub mod vision;

pub use advanced_scheduler::PrefillDecodeDisaggregation;
pub use batch::Batch;
pub use benchmarks::{Benchmark, BenchmarkResult, BenchmarkSuite};
pub use decoder::{create_code_grammar, create_json_grammar, Grammar};
pub use fim::{AttentionSink, FIMEncoder, SlidingWindowAttention};
pub use lora::LoRAManager;
pub use model_architectures::{MistralAttention, ModelArchitecture};
pub use paged_attention::{DynamicBatcher, InferenceRequest, PagedAttentionCache};
pub use tokenizer::Tokenizer;
pub use vision::VisionConfig;
pub use types::{
    AttentionType, ComputeDevice, DataType, DeviceType, EmbeddingTable, LayerWeights, OutputLayer,
    PoolingType, Pos, RopeScalingType, RopeType, SeqId, SplitMode, TensorMetadata, TensorRef, Token,
    VocabType,
};
