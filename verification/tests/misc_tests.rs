use rust_llm::benchmarks::{Benchmark, BenchmarkResult, BenchmarkSuite};
use rust_llm::cli::{token_to_char, token_to_fallback_text};
use rust_llm::cpu_kv::GpuKvCache;
use rust_llm::fim::{AttentionSink, FIMConfig, FIMDecoder, FIMEncoder, SlidingWindowAttention};
use rust_llm::lora::LoRAManager;
use rust_llm::model_architectures::{MistralAttention, ModelArchitecture};
use rust_llm::paged_attention::{Block, SequencePageTable};
use rust_llm::quantize::{calculate_tensor_size, extract_number, gguf_dtype_to_datatype};
use rust_llm::types::{ComputeDevice, DataType, EmbeddingTable, TensorRef};
use rust_llm::vision::{VisionAttention, VisionMLP};

#[test]
fn fim_encode_and_mask() {
    let e = FIMEncoder::new(FIMConfig::new(1, 2, 3));
    // the suffix text itself is not part of the prompt
    assert_eq!(e.encode("ab", "c", None), vec![1, 97, 98, 2]);
    assert_eq!(e.encode("a", "", Some("z")), vec![1, 97, 2, 3, 122]);
    assert_eq!(e.create_mask(6, 2, 2), vec![false, false, true, false, false, true]);
    let disabled = FIMConfig { enabled: false, prefix_token_id: 1, suffix_token_id: 2, middle_token_id: 3 };
    assert!(FIMEncoder::new(disabled).encode("a", "b", None).is_empty());
}

#[test]
fn fim_generate_is_the_prompt() {
    let d = FIMDecoder::new(FIMConfig::new(5, 6, 7));
    assert_eq!(d.generate("x", "yz", 16), vec![5, 120, 6]);
    let def = FIMConfig::default();
    assert!(def.enabled);
    assert_eq!(def.prefix_token_id, 0);
}

#[test]
fn attention_settings() {
    let s = SlidingWindowAttention::new(128).with_look_forward(4);
    assert_eq!(s.window_size(), 128);
    assert_eq!(s.look_forward(), 4);
    assert_eq!(AttentionSink::new(4).sink_tokens(), 4);
    let m = MistralAttention::new(32, 8, 128, 4096);
    assert_eq!(m.num_kv_heads(), 8);
    assert_eq!(m.sliding_window(), 4096);
    let v = VisionAttention::new(12, 64);
    assert_eq!((v.num_heads(), v.head_dim()), (12, 64));
    let mlp = VisionMLP::new(768, 3072);
    assert_eq!((mlp.hidden_size(), mlp.intermediate_size()), (768, 3072));
}

#[test]
fn architecture_from_name() {
    assert_eq!(ModelArchitecture::from_string("Mistral-7B"), ModelArchitecture::Mistral);
    assert_eq!(ModelArchitecture::from_string("MIXTRAL"), ModelArchitecture::Mixtral);
    assert_eq!(ModelArchitecture::from_string("phi-3"), ModelArchitecture::Phi3);
    assert_eq!(ModelArchitecture::from_string("Qwen2"), ModelArchitecture::Qwen);
    assert_eq!(ModelArchitecture::from_string("gemma"), ModelArchitecture::Gemma);
    assert_eq!(ModelArchitecture::from_string("falcon-40b"), ModelArchitecture::Falcon);
    assert_eq!(ModelArchitecture::from_string("llama"), ModelArchitecture::LLaMA);
    assert!(ModelArchitecture::Mixtral.supports_sliding_window());
    assert!(ModelArchitecture::Qwen.supports_rope_scaling());
    assert!(!ModelArchitecture::Mistral.supports_rope_scaling());
    assert!(ModelArchitecture::Gemma.supports_gated_act());
}

#[test]
fn tensor_sizes() {
    assert_eq!(DataType::F32.size(), 4);
    assert_eq!(DataType::F16.size(), 2);
    let t = TensorRef { offset: 0, shape: (3, 5), dtype: DataType::F32 };
    assert_eq!(t.element_count(), 15);
    assert_eq!(t.size_bytes(), 60);
    assert!(ComputeDevice::Device(1).is_gpu());
    assert!(!ComputeDevice::CPU.is_gpu());
}

#[test]
fn embedding_rows() {
    let table = EmbeddingTable { data: vec![1, 2, 3, 4, 5, 6], vocab_size: 3, embedding_dim: 1, dtype: DataType::F16 };
    assert_eq!(table.get_embedding(1), Some(&[3u8, 4][..]));
    assert_eq!(table.get_embedding(3), None);
    assert_eq!(table.get_embedding(-1), None);
}

#[test]
fn gguf_helpers() {
    assert_eq!(calculate_tensor_size(&[4, 8], 0), 128);
    assert_eq!(calculate_tensor_size(&[4, 8], 1), 64);
    assert_eq!(calculate_tensor_size(&[32], 4), (32 / 16) * 2 + 32 / 4);
    assert_eq!(calculate_tensor_size(&[256], 13), 1 + 32);
    assert_eq!(calculate_tensor_size(&[], 99), 4);
    assert_eq!(gguf_dtype_to_datatype(3), DataType::Q8_0);
    assert_eq!(gguf_dtype_to_datatype(10), DataType::Q5_K);
    assert_eq!(gguf_dtype_to_datatype(77), DataType::F16);
    assert_eq!(extract_number("llama.block_count.32"), Some(32));
    assert_eq!(extract_number("a1b2c3"), Some(123));
    assert_eq!(extract_number("none"), None);
}

#[test]
fn fallback_display_text() {
    assert_eq!(token_to_char(1), "A");
    assert_eq!(token_to_char(13), "\n");
    assert_eq!(token_to_char(64), "@");
    assert_eq!(token_to_char(65), " ");
    assert_eq!(token_to_fallback_text(0), "the");
    assert_eq!(token_to_fallback_text(53), "is");
    assert_eq!(token_to_fallback_text(-1), "is");
    assert_eq!(token_to_fallback_text(i32::MIN), "or");
}

#[test]
fn gpu_kv_cache_plan() {
    let mut c = GpuKvCache::new(0, 2, 4, 8, 16, 3);
    assert!(c.allocate().is_ok());
    assert_eq!(c.memory_needed(), 4 * 8 * 16 * 2 * 4 * (2 * 3));
    assert!(c.can_fit_in_vram(24576));
    assert!(!c.can_fit_in_vram(24575));
}

#[test]
fn page_table_lists_pages_in_order() {
    let mut t = SequencePageTable::new(3);
    t.add_block(5, 16);
    t.add_block(2, 16);
    assert_eq!(t.num_tokens, 32);
    assert_eq!(t.get_page_indices(), vec![5, 2]);
    let b = Block::new(16);
    assert!(b.page_indices.is_empty());
}

#[test]
fn lora_manager_registry() {
    let mut m: LoRAManager<u32> = LoRAManager::new(2);
    assert!(m.add_adapter("a".to_string(), 1).is_ok());
    assert!(m.add_adapter("b".to_string(), 2).is_ok());
    assert_eq!(m.add_adapter("c".to_string(), 3), Err("Maximum number of adapters reached".to_string()));
    assert_eq!(m.get_active_adapter(), None);
    assert_eq!(m.set_active("z"), Err("Adapter 'z' not found".to_string()));
    assert!(m.set_active("b").is_ok());
    assert_eq!(m.get_active_adapter(), Some(&2));
    assert_eq!(m.list_adapters(), vec!["a".to_string(), "b".to_string()]);
    assert!(m.remove_adapter("b").is_ok());
    assert_eq!(m.get_active_adapter(), None);
    assert_eq!(m.remove_adapter("b"), Err("Adapter 'b' not found".to_string()));
    assert!(m.add_adapter("a".to_string(), 9).is_ok());
    assert!(m.set_active("a").is_ok());
    assert_eq!(m.get_active_adapter(), Some(&9));
}

#[test]
fn benchmark_settings_and_suite() {
    let mut b = Benchmark::new("sum").with_iterations(5).with_warmup(1);
    assert_eq!(b.iterations(), 5);
    assert_eq!(b.name(), "sum");
    b.measure(|| 1 + 1);
    assert_eq!(b.results().len(), 5);
    let mut s = BenchmarkSuite::new();
    s.add_result(BenchmarkResult { name: "x".to_string(), iterations: 5, ..Default::default() });
    assert_eq!(s.results().len(), 1);
    assert_eq!(s.results()[0].name, "x");
}
