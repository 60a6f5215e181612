use std::collections::HashMap;

use rust_llm::model_architectures::{ModelArchitecture, ModelConfig, RopeScaling, THETA_10K_BITS, THETA_1M_BITS};
use rust_llm::vision::VisionConfig;

fn keys(ks: &[&str]) -> Vec<String> {
    ks.iter().map(|k| k.to_string()).collect()
}

#[test]
fn vision_config_default_and_keys() {
    let d = VisionConfig::default();
    assert_eq!((d.image_size, d.patch_size, d.hidden_size, d.num_heads, d.num_layers, d.projection_dim), (224, 16, 768, 12, 12, 512));
    assert_eq!(d.attention_dropout, 0.0f32.to_bits());
    assert_eq!(d.hidden_act, "gelu");
    let c = VisionConfig::from_keys(&keys(&["vision.image_size.336", "vision.patch_size14", "image.num_layers.24", "text.hidden_size.99", "vision.note"]));
    assert_eq!(c.image_size, 336);
    assert_eq!(c.patch_size, 14);
    assert_eq!(c.num_layers, 24);
    // keys that are not about the image encoder are ignored
    assert_eq!(c.hidden_size, 768);
    // the values of the metadata are not read
    let mut m = HashMap::new();
    m.insert("vision.projection_dim.1024".to_string(), "ignored".to_string());
    assert_eq!(VisionConfig::from_gguf(&m).projection_dim, 1024);
}

#[test]
fn model_config_presets() {
    let d = ModelConfig::default();
    assert_eq!(d.architecture, ModelArchitecture::LLaMA);
    assert_eq!(d.rope_theta, 10000.0f32.to_bits());
    let m = ModelConfig::mistral_7b();
    assert_eq!((m.num_kv_heads, m.max_seq_len, m.sliding_window), (8, 8192, Some(4096)));
    let x = ModelConfig::mixtral_8x7b();
    assert_eq!((x.expert_count, x.expert_used_count), (Some(8), Some(2)));
    assert_eq!(x.rope_theta, THETA_1M_BITS);
    let p = ModelConfig::phi3_4b();
    assert_eq!(p.rope_scaling, Some(RopeScaling { factor: 1.2f32.to_bits(), original_max_seq_len: 4096 }));
    let q = ModelConfig::qwen2_4b();
    assert_eq!(q.rope_scaling, Some(RopeScaling { factor: 1.0f32.to_bits(), original_max_seq_len: 32768 }));
    assert_eq!(q.rope_theta, 1000000.0f32.to_bits());
    let g = ModelConfig::gemma_2b();
    assert!(g.use_gated_act);
    assert_eq!(g.num_layers, 18);
    assert_eq!(THETA_10K_BITS, 10000.0f32.to_bits());
}

#[test]
fn model_config_from_metadata_keys() {
    let ks = keys(&["llama.Hidden_Size.2048", "llama.n_heads.16", "llama.n_ctx.4096", "llama.rope_theta.500000", "llama.sliding_window.1024", "llama.unknown.7"]);
    let thetas = vec![None, None, None, Some(500000.0f32.to_bits()), None, None];
    let c = ModelConfig::from_metadata_keys(&ks, &thetas, "Qwen2");
    assert_eq!(c.hidden_size, 2048);
    assert_eq!(c.num_heads, 16);
    assert_eq!(c.max_seq_len, 4096);
    assert_eq!(c.sliding_window, Some(1024));
    assert_eq!(c.rope_theta, 500000.0f32.to_bits());
    // the head dimension is derived, the family taken from the model type
    assert_eq!(c.head_dim, 128);
    assert_eq!(c.architecture, ModelArchitecture::Qwen);
    // ffn_hidden_size names hidden_size too, which is checked first
    let f = ModelConfig::from_metadata_keys(&keys(&["ffn_hidden_size.5000"]), &[None], "");
    assert_eq!(f.hidden_size, 5000);
    assert_eq!(f.intermediate_size, 11008);
    // no heads: the head dimension divides by one
    let z = ModelConfig::from_metadata_keys(&keys(&["n_heads.0"]), &[None], "");
    assert_eq!(z.head_dim, 4096);
    let mut one = ModelConfig::default();
    one.apply_metadata_key("X.VOCAB_SIZE.5", "x.vocab_size.5", None);
    assert_eq!(one.vocab_size, 5);
}
