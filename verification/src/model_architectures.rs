use vstd::prelude::*;
use crate::text::{chars_of, contains_chars, seq_contains_seq, is_digit, decimal_value};

verus! {

broadcast use vstd::string::group_string_axioms;

/// Model families the loader tells apart.
#[derive(Debug, Clone, Copy, PartialEq, Eq, Structural)]
pub enum ModelArchitecture {
    LLaMA,
    Mistral,
    Mixtral,
    Phi3,
    Qwen,
    Gemma,
    Falcon,
}

/// What `str::to_lowercase` returns for a string; Unicode case mapping takes tables to state.
pub uninterp spec fn spec_to_lowercase(s: Seq<char>) -> Seq<char>;

/// Lower-cases `s` through `str::to_lowercase`; the result is a function of `s` alone.
#[verifier::external_body]
fn to_lowercase(s: &str) -> (r: String)
    ensures
        r@ == spec_to_lowercase(s@),
{
    s.to_lowercase()
}

/// The family named by an already lower-cased model name: the first of mistral, mixtral, phi,
/// qwen, gemma, falcon that occurs in it, and LLaMA otherwise.
pub open spec fn spec_arch_of_lower(l: Seq<char>) -> ModelArchitecture {
    if seq_contains_seq(l, "mistral"@) {
        ModelArchitecture::Mistral
    } else if seq_contains_seq(l, "mixtral"@) {
        ModelArchitecture::Mixtral
    } else if seq_contains_seq(l, "phi"@) {
        ModelArchitecture::Phi3
    } else if seq_contains_seq(l, "qwen"@) {
        ModelArchitecture::Qwen
    } else if seq_contains_seq(l, "gemma"@) {
        ModelArchitecture::Gemma
    } else if seq_contains_seq(l, "falcon"@) {
        ModelArchitecture::Falcon
    } else {
        ModelArchitecture::LLaMA
    }
}

impl ModelArchitecture {
    /// The family named by `s`, matched without regard to case.
    pub fn from_string(s: &str) -> (r: Self)
        ensures
            r == spec_arch_of_lower(spec_to_lowercase(s@)),
    {
        let lower = to_lowercase(s);
        Self::from_lowercase_name(lower.as_str())
    }

    /// The family named by a model name that is already in lower case.
    pub fn from_lowercase_name(s_lower: &str) -> (r: Self)
        ensures
            r == spec_arch_of_lower(s_lower@),
    {
        let l = chars_of(s_lower);
        if contains_chars(&l, &chars_of("mistral")) {
            ModelArchitecture::Mistral
        } else if contains_chars(&l, &chars_of("mixtral")) {
            ModelArchitecture::Mixtral
        } else if contains_chars(&l, &chars_of("phi")) {
            ModelArchitecture::Phi3
        } else if contains_chars(&l, &chars_of("qwen")) {
            ModelArchitecture::Qwen
        } else if contains_chars(&l, &chars_of("gemma")) {
            ModelArchitecture::Gemma
        } else if contains_chars(&l, &chars_of("falcon")) {
            ModelArchitecture::Falcon
        } else {
            ModelArchitecture::LLaMA
        }
    }

    pub fn supports_sliding_window(&self) -> (r: bool)
        ensures
            r == (*self == ModelArchitecture::Mistral || *self == ModelArchitecture::Mixtral),
    {
        match self {
            ModelArchitecture::Mistral | ModelArchitecture::Mixtral => true,
            _ => false,
        }
    }

    pub fn supports_rope_scaling(&self) -> (r: bool)
        ensures
            r == (*self == ModelArchitecture::LLaMA || *self == ModelArchitecture::Qwen || *self
                == ModelArchitecture::Gemma),
    {
        match self {
            ModelArchitecture::LLaMA | ModelArchitecture::Qwen | ModelArchitecture::Gemma => true,
            _ => false,
        }
    }

    pub fn supports_gated_act(&self) -> (r: bool)
        ensures
            r == (*self == ModelArchitecture::Gemma),
    {
        match self {
            ModelArchitecture::Gemma => true,
            _ => false,
        }
    }
}

/// The decimal digits of `s`, in order.
pub open spec fn digits_of(s: Seq<char>) -> Seq<char> {
    s.filter(|c: char| is_digit(c))
}

/// The number formed by the decimal digits of `s`, taken together and read as a `usize`:
/// none when `s` has no digit or the number does not fit.
pub open spec fn spec_extract_num(s: Seq<char>) -> Option<usize> {
    let d = digits_of(s);
    if d.len() == 0 || decimal_value(d) > usize::MAX {
        None
    } else {
        Some(decimal_value(d) as usize)
    }
}

/// Gathers the decimal digits of `s` and reads them as one number.
pub(crate) fn extract_num(s: &str) -> (r: Option<usize>)
    ensures
        r == spec_extract_num(s@),
{
    let cs = chars_of(s);
    let mut acc: usize = 0;
    let mut seen = false;
    let mut overflow = false;
    let mut k: usize = 0;
    while k < cs.len()
        invariant
            cs@ == s@,
            k <= cs@.len(),
            seen == (digits_of(cs@.take(k as int)).len() > 0),
            overflow ==> decimal_value(digits_of(cs@.take(k as int))) > usize::MAX,
            !overflow ==> acc == decimal_value(digits_of(cs@.take(k as int))),
        decreases cs@.len() - k,
    {
        let c = cs[k];
        let ghost h = cs@.take(k as int);
        proof {
            reveal_with_fuel(Seq::filter, 1);
            assert(cs@.take(k + 1) =~= h.push(c));
            assert(h.push(c).drop_last() =~= h);
        }
        if '0' <= c && c <= '9' {
            let d = (c as u32 - '0' as u32) as usize;
            proof {
                assert(digits_of(h.push(c)) == digits_of(h).push(c));
                assert(digits_of(h).push(c).drop_last() =~= digits_of(h));
                assert(decimal_value(digits_of(h).push(c)) == decimal_value(digits_of(h)) * 10 + d);
            }
            seen = true;
            if !overflow {
                if acc > (usize::MAX - d) / 10 {
                    proof {
                        assert(acc * 10 + d > usize::MAX) by (nonlinear_arith)
                            requires
                                acc > (usize::MAX - d) / 10,
                                d <= 9,
                        ;
                    }
                    overflow = true;
                } else {
                    proof {
                        assert(acc * 10 + d <= usize::MAX) by (nonlinear_arith)
                            requires
                                acc <= (usize::MAX - d) / 10,
                                d <= 9,
                        ;
                    }
                    acc = acc * 10 + d;
                }
            } else {
                proof {
                    let v = decimal_value(digits_of(h));
                    assert(v * 10 + d >= v) by (nonlinear_arith)
                        requires
                            v >= 0,
                            d >= 0,
                    ;
                }
            }
        } else {
            proof {
                assert(digits_of(h.push(c)) == digits_of(h));
            }
        }
        k += 1;
    }
    proof {
        assert(cs@.take(k as int) =~= s@);
    }
    if !seen || overflow {
        None
    } else {
        Some(acc)
    }
}

/// A RoPE scaling setting. `factor` holds an IEEE-754 single-precision value by its bit
/// pattern (`f32::to_bits`).
#[derive(Debug, Clone, Copy, PartialEq, Eq, Structural)]
pub struct RopeScaling {
    pub factor: u32,
    pub original_max_seq_len: usize,
}

/// The shape of a model. `rope_theta` holds an IEEE-754 single-precision value by its bit
/// pattern (`f32::to_bits`).
#[derive(Debug, Clone, Copy, PartialEq, Eq, Structural)]
pub struct ModelConfig {
    pub architecture: ModelArchitecture,
    pub hidden_size: usize,
    pub intermediate_size: usize,
    pub num_layers: usize,
    pub num_heads: usize,
    pub num_kv_heads: usize,
    pub head_dim: usize,
    pub vocab_size: usize,
    pub max_seq_len: usize,
    pub sliding_window: Option<usize>,
    pub rope_theta: u32,
    pub rope_scaling: Option<RopeScaling>,
    pub use_gated_act: bool,
    pub expert_count: Option<usize>,
    pub expert_used_count: Option<usize>,
}

/// The bits of `10000.0f32`.
pub const THETA_10K_BITS: u32 = 0x461c_4000;

/// The bits of `1000000.0f32`.
pub const THETA_1M_BITS: u32 = 0x4974_2400;

/// The default model: LLaMA with 32 layers of width 4096 (32 heads of 128, FFN 11008), a
/// 32000-token vocabulary, context 2048, RoPE base 10000, no sliding window, no scaling, no
/// gating, no experts.
pub open spec fn default_model_config() -> ModelConfig {
    ModelConfig {
        architecture: ModelArchitecture::LLaMA,
        hidden_size: 4096,
        intermediate_size: 11008,
        num_layers: 32,
        num_heads: 32,
        num_kv_heads: 32,
        head_dim: 128,
        vocab_size: 32000,
        max_seq_len: 2048,
        sliding_window: None,
        rope_theta: THETA_10K_BITS,
        rope_scaling: None,
        use_gated_act: false,
        expert_count: None,
        expert_used_count: None,
    }
}

/// The setting a metadata key gives, read from the key itself (`key_lower` is the key in
/// lower case): the first field whose name (or alias) occurs in the lower-cased key is set to
/// the number the key's digits form — the RoPE base to `rope_theta`, the number the key gives
/// for it. A key that names no field, or gives no number, changes nothing.
pub open spec fn apply_model_key(c: ModelConfig, key: Seq<char>, key_lower: Seq<char>, rope_theta: Option<u32>) -> ModelConfig {
    let n = spec_extract_num(key);
    if seq_contains_seq(key_lower, "hidden_size"@) || seq_contains_seq(key_lower, "hsize"@) {
        match n { Some(v) => ModelConfig { hidden_size: v, ..c }, None => c }
    } else if seq_contains_seq(key_lower, "intermediate_size"@) || seq_contains_seq(key_lower, "ffn_hidden_size"@) {
        match n { Some(v) => ModelConfig { intermediate_size: v, ..c }, None => c }
    } else if seq_contains_seq(key_lower, "num_layers"@) || seq_contains_seq(key_lower, "n_layers"@)
        || seq_contains_seq(key_lower, "num_hidden_layers"@) {
        match n { Some(v) => ModelConfig { num_layers: v, ..c }, None => c }
    } else if seq_contains_seq(key_lower, "num_attention_heads"@) || seq_contains_seq(key_lower, "n_heads"@) {
        match n { Some(v) => ModelConfig { num_heads: v, ..c }, None => c }
    } else if seq_contains_seq(key_lower, "num_key_value_heads"@) || seq_contains_seq(key_lower, "n_kv_heads"@) {
        match n { Some(v) => ModelConfig { num_kv_heads: v, ..c }, None => c }
    } else if seq_contains_seq(key_lower, "vocab_size"@) {
        match n { Some(v) => ModelConfig { vocab_size: v, ..c }, None => c }
    } else if seq_contains_seq(key_lower, "max_position"@) || seq_contains_seq(key_lower, "n_ctx"@) {
        match n { Some(v) => ModelConfig { max_seq_len: v, ..c }, None => c }
    } else if seq_contains_seq(key_lower, "sliding_window"@) {
        match n { Some(v) => ModelConfig { sliding_window: Some(v), ..c }, None => c }
    } else if seq_contains_seq(key_lower, "rope_theta"@) {
        match rope_theta { Some(b) => ModelConfig { rope_theta: b, ..c }, None => c }
    } else {
        c
    }
}

/// The settings of `keys` applied in order (key `i` in lower case is `spec_to_lowercase` of it,
/// its RoPE base `rope_thetas[i]`).
pub open spec fn apply_model_keys(c: ModelConfig, keys: Seq<Seq<char>>, rope_thetas: Seq<Option<u32>>) -> ModelConfig
    decreases keys.len(),
{
    if keys.len() == 0 {
        c
    } else {
        let i = keys.len() - 1;
        apply_model_key(
            apply_model_keys(c, keys.drop_last(), rope_thetas.take(i)),
            keys[i],
            spec_to_lowercase(keys[i]),
            rope_thetas[i],
        )
    }
}

/// The configuration read from metadata keys: their settings on the default, then the head
/// dimension derived (width over heads, at least one head) and the family taken from the
/// model type.
pub open spec fn model_config_of(keys: Seq<Seq<char>>, rope_thetas: Seq<Option<u32>>, model_type: Seq<char>) -> ModelConfig {
    let c = apply_model_keys(default_model_config(), keys, rope_thetas);
    let heads = if c.num_heads > 1 { c.num_heads } else { 1 };
    ModelConfig {
        head_dim: (c.hidden_size / heads) as usize,
        architecture: spec_arch_of_lower(spec_to_lowercase(model_type)),
        ..c
    }
}

impl Default for ModelConfig {
    fn default() -> (c: Self)
        ensures
            c == default_model_config(),
    {
        ModelConfig {
            architecture: ModelArchitecture::LLaMA,
            hidden_size: 4096,
            intermediate_size: 11008,
            num_layers: 32,
            num_heads: 32,
            num_kv_heads: 32,
            head_dim: 128,
            vocab_size: 32000,
            max_seq_len: 2048,
            sliding_window: None,
            rope_theta: THETA_10K_BITS,
            rope_scaling: None,
            use_gated_act: false,
            expert_count: None,
            expert_used_count: None,
        }
    }
}

impl ModelConfig {
    /// Mistral 7B: 32 layers of width 4096 (32 heads of 128, 8 key/value heads, FFN 14336),
    /// vocabulary 32000, context 8192, window 4096, RoPE base 10000.
    pub fn mistral_7b() -> (c: Self)
        ensures
            c == (ModelConfig {
                architecture: ModelArchitecture::Mistral,
                intermediate_size: 14336,
                num_kv_heads: 8,
                max_seq_len: 8192,
                sliding_window: Some(4096),
                ..default_model_config()
            }),
    {
        ModelConfig {
            architecture: ModelArchitecture::Mistral,
            hidden_size: 4096,
            intermediate_size: 14336,
            num_layers: 32,
            num_heads: 32,
            num_kv_heads: 8,
            head_dim: 128,
            vocab_size: 32000,
            max_seq_len: 8192,
            sliding_window: Some(4096),
            rope_theta: THETA_10K_BITS,
            rope_scaling: None,
            use_gated_act: false,
            expert_count: None,
            expert_used_count: None,
        }
    }

    /// Mixtral 8x7B: the Mistral shape with context 32768, RoPE base 1000000 and 8 experts of
    /// which 2 are used.
    pub fn mixtral_8x7b() -> (c: Self)
        ensures
            c == (ModelConfig {
                architecture: ModelArchitecture::Mixtral,
                intermediate_size: 14336,
                num_kv_heads: 8,
                max_seq_len: 32768,
                sliding_window: Some(4096),
                rope_theta: THETA_1M_BITS,
                expert_count: Some(8),
                expert_used_count: Some(2),
                ..default_model_config()
            }),
    {
        ModelConfig {
            architecture: ModelArchitecture::Mixtral,
            hidden_size: 4096,
            intermediate_size: 14336,
            num_layers: 32,
            num_heads: 32,
            num_kv_heads: 8,
            head_dim: 128,
            vocab_size: 32000,
            max_seq_len: 32768,
            sliding_window: Some(4096),
            rope_theta: THETA_1M_BITS,
            rope_scaling: None,
            use_gated_act: false,
            expert_count: Some(8),
            expert_used_count: Some(2),
        }
    }

    /// Phi-3 4B: 32 layers of width 3072 (32 heads of 96, 2 key/value heads, FFN 8192),
    /// vocabulary 32064, context 4096, RoPE base 10000 scaled by 1.2 from 4096.
    pub fn phi3_4b() -> (c: Self)
        ensures
            c == (ModelConfig {
                architecture: ModelArchitecture::Phi3,
                hidden_size: 3072,
                intermediate_size: 8192,
                num_kv_heads: 2,
                head_dim: 96,
                vocab_size: 32064,
                max_seq_len: 4096,
                rope_scaling: Some(RopeScaling { factor: 0x3f99_999a, original_max_seq_len: 4096 }),
                ..default_model_config()
            }),
    {
        ModelConfig {
            architecture: ModelArchitecture::Phi3,
            hidden_size: 3072,
            intermediate_size: 8192,
            num_layers: 32,
            num_heads: 32,
            num_kv_heads: 2,
            head_dim: 96,
            vocab_size: 32064,
            max_seq_len: 4096,
            sliding_window: None,
            rope_theta: THETA_10K_BITS,
            rope_scaling: Some(RopeScaling { factor: 0x3f99_999a, original_max_seq_len: 4096 }),
            use_gated_act: false,
            expert_count: None,
            expert_used_count: None,
        }
    }

    /// Qwen2 4B: 28 layers of width 3584 (28 heads of 128, 4 key/value heads, FFN 18944),
    /// vocabulary 151936, context 32768, RoPE base 1000000 scaled by 1.0 from 32768.
    pub fn qwen2_4b() -> (c: Self)
        ensures
            c == (ModelConfig {
                architecture: ModelArchitecture::Qwen,
                hidden_size: 3584,
                intermediate_size: 18944,
                num_layers: 28,
                num_heads: 28,
                num_kv_heads: 4,
                vocab_size: 151936,
                max_seq_len: 32768,
                rope_theta: THETA_1M_BITS,
                rope_scaling: Some(RopeScaling { factor: 0x3f80_0000, original_max_seq_len: 32768 }),
                ..default_model_config()
            }),
    {
        ModelConfig {
            architecture: ModelArchitecture::Qwen,
            hidden_size: 3584,
            intermediate_size: 18944,
            num_layers: 28,
            num_heads: 28,
            num_kv_heads: 4,
            head_dim: 128,
            vocab_size: 151936,
            max_seq_len: 32768,
            sliding_window: None,
            rope_theta: THETA_1M_BITS,
            rope_scaling: Some(RopeScaling { factor: 0x3f80_0000, original_max_seq_len: 32768 }),
            use_gated_act: false,
            expert_count: None,
            expert_used_count: None,
        }
    }

    /// Gemma 2B: 18 layers of width 2048 (16 heads of 128, FFN 16384), vocabulary 256000,
    /// context 8192, RoPE base 10000, gated activation.
    pub fn gemma_2b() -> (c: Self)
        ensures
            c == (ModelConfig {
                architecture: ModelArchitecture::Gemma,
                hidden_size: 2048,
                num_heads: 16,
                num_kv_heads: 16,
                intermediate_size: 16384,
                num_layers: 18,
                vocab_size: 256000,
                max_seq_len: 8192,
                use_gated_act: true,
                ..default_model_config()
            }),
    {
        ModelConfig {
            architecture: ModelArchitecture::Gemma,
            hidden_size: 2048,
            num_heads: 16,
            num_kv_heads: 16,
            head_dim: 128,
            intermediate_size: 16384,
            num_layers: 18,
            vocab_size: 256000,
            max_seq_len: 8192,
            sliding_window: None,
            rope_theta: THETA_10K_BITS,
            rope_scaling: None,
            use_gated_act: true,
            expert_count: None,
            expert_used_count: None,
        }
    }

    /// Applies the setting of one metadata key, given with its lower-cased form and the RoPE
    /// base it gives (see `apply_model_key`).
    pub fn apply_metadata_key(&mut self, key: &str, key_lower: &str, rope_theta: Option<u32>)
        ensures
            *final(self) == apply_model_key(*old(self), key@, key_lower@, rope_theta),
    {
        let l = chars_of(key_lower);
        let has = |pat: &str| -> (b: bool)
            ensures
                b == seq_contains_seq(l@, pat@),
            { contains_chars(&l, &chars_of(pat)) };
        if has("hidden_size") || has("hsize") {
            if let Some(val) = extract_num(key) {
                self.hidden_size = val;
            }
        } else if has("intermediate_size") || has("ffn_hidden_size") {
            if let Some(val) = extract_num(key) {
                self.intermediate_size = val;
            }
        } else if has("num_layers") || has("n_layers") || has("num_hidden_layers") {
            if let Some(val) = extract_num(key) {
                self.num_layers = val;
            }
        } else if has("num_attention_heads") || has("n_heads") {
            if let Some(val) = extract_num(key) {
                self.num_heads = val;
            }
        } else if has("num_key_value_heads") || has("n_kv_heads") {
            if let Some(val) = extract_num(key) {
                self.num_kv_heads = val;
            }
        } else if has("vocab_size") {
            if let Some(val) = extract_num(key) {
                self.vocab_size = val;
            }
        } else if has("max_position") || has("n_ctx") {
            if let Some(val) = extract_num(key) {
                self.max_seq_len = val;
            }
        } else if has("sliding_window") {
            if let Some(val) = extract_num(key) {
                self.sliding_window = Some(val);
            }
        } else if has("rope_theta") {
            if let Some(val) = rope_theta {
                self.rope_theta = val;
            }
        }
    }

    /// The configuration read from metadata keys taken in order (`rope_thetas[i]` is the RoPE
    /// base key `i` gives, read as a float from its digits and points): each key's setting
    /// on the default, then the head dimension derived and the family taken from
    /// `model_type`.
    pub fn from_metadata_keys(keys: &[String], rope_thetas: &[Option<u32>], model_type: &str) -> (c: Self)
        requires
            rope_thetas@.len() == keys@.len(),
        ensures
            c == model_config_of(keys@.map_values(|k: String| k@), rope_thetas@, model_type@),
    {
        let mut config = ModelConfig::default();
        let ghost ks = keys@.map_values(|k: String| k@);
        let mut i: usize = 0;
        while i < keys.len()
            invariant
                i <= keys@.len(),
                rope_thetas@.len() == keys@.len(),
                ks == keys@.map_values(|k: String| k@),
                config == apply_model_keys(default_model_config(), ks.take(i as int), rope_thetas@.take(i as int)),
            decreases keys@.len() - i,
        {
            let key = keys[i].as_str();
            let lower = to_lowercase(key);
            proof {
                let t = ks.take(i + 1);
                assert(t.drop_last() =~= ks.take(i as int));
                assert(rope_thetas@.take(i + 1).take(i as int) =~= rope_thetas@.take(i as int));
                assert(t[i as int] == key@);
            }
            config.apply_metadata_key(key, lower.as_str(), rope_thetas[i]);
            i += 1;
        }
        proof {
            assert(ks.take(keys@.len() as int) =~= ks);
            assert(rope_thetas@.take(keys@.len() as int) =~= rope_thetas@);
        }
        let heads = if config.num_heads > 1 { config.num_heads } else { 1 };
        config.head_dim = config.hidden_size / heads;
        config.architecture = ModelArchitecture::from_string(model_type);
        config
    }
}

/// Grouped-query attention over a sliding window, as used by Mistral models.
pub struct MistralAttention {
    num_heads: usize,
    num_kv_heads: usize,
    head_dim: usize,
    sliding_window: usize,
}

impl MistralAttention {
    /// (heads, key/value heads, head dimension, window)
    pub closed spec fn shape(&self) -> (nat, nat, nat, nat) {
        (self.num_heads as nat, self.num_kv_heads as nat, self.head_dim as nat, self.sliding_window as nat)
    }

    pub fn new(num_heads: usize, num_kv_heads: usize, head_dim: usize, sliding_window: usize) -> (a: Self)
        ensures
            a.shape() == (num_heads as nat, num_kv_heads as nat, head_dim as nat, sliding_window as nat),
    {
        MistralAttention { num_heads, num_kv_heads, head_dim, sliding_window }
    }

    pub fn num_heads(&self) -> (r: usize)
        ensures
            r == self.shape().0,
    {
        self.num_heads
    }

    pub fn num_kv_heads(&self) -> (r: usize)
        ensures
            r == self.shape().1,
    {
        self.num_kv_heads
    }

    pub fn head_dim(&self) -> (r: usize)
        ensures
            r == self.shape().2,
    {
        self.head_dim
    }

    pub fn sliding_window(&self) -> (r: usize)
        ensures
            r == self.shape().3,
    {
        self.sliding_window
    }
}

} // verus!
