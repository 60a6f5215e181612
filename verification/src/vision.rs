use vstd::prelude::*;
use crate::model_architectures::{extract_num, spec_extract_num};
use crate::text::{chars_of, contains_chars, seq_contains_seq};
use std::collections::HashMap;

verus! {

/// Self-attention over image patches: its head layout.
pub struct VisionAttention {
    num_heads: usize,
    head_dim: usize,
}

impl VisionAttention {
    /// The number of heads.
    pub closed spec fn heads(&self) -> usize {
        self.num_heads
    }

    /// The values per head.
    pub closed spec fn dim(&self) -> usize {
        self.head_dim
    }

    /// Attention with `num_heads` heads of `head_dim` values each.
    pub fn new(num_heads: usize, head_dim: usize) -> (a: Self)
        ensures
            a.heads() == num_heads,
            a.dim() == head_dim,
    {
        VisionAttention { num_heads, head_dim }
    }

    /// The number of heads.
    pub fn num_heads(&self) -> (r: usize)
        ensures
            r == self.heads(),
    {
        self.num_heads
    }

    /// The values per head.
    pub fn head_dim(&self) -> (r: usize)
        ensures
            r == self.dim(),
    {
        self.head_dim
    }
}

/// The feed-forward block of a vision layer: its widths.
pub struct VisionMLP {
    hidden_size: usize,
    intermediate_size: usize,
}

impl VisionMLP {
    /// The outer width.
    pub closed spec fn outer(&self) -> usize {
        self.hidden_size
    }

    /// The inner width.
    pub closed spec fn inner(&self) -> usize {
        self.intermediate_size
    }

    /// A block from `hidden_size` to `intermediate_size` and back.
    pub fn new(hidden_size: usize, intermediate_size: usize) -> (m: Self)
        ensures
            m.outer() == hidden_size,
            m.inner() == intermediate_size,
    {
        VisionMLP { hidden_size, intermediate_size }
    }

    /// The outer width.
    pub fn hidden_size(&self) -> (r: usize)
        ensures
            r == self.outer(),
    {
        self.hidden_size
    }

    /// The inner width.
    pub fn intermediate_size(&self) -> (r: usize)
        ensures
            r == self.inner(),
    {
        self.intermediate_size
    }
}


/// The shape of an image encoder. `attention_dropout` holds an IEEE-754 single-precision
/// value by its bit pattern (`f32::to_bits`).
#[derive(Debug, Clone)]
pub struct VisionConfig {
    pub image_size: usize,
    pub patch_size: usize,
    pub hidden_size: usize,
    pub num_heads: usize,
    pub num_layers: usize,
    pub projection_dim: usize,
    pub attention_dropout: u32,
    pub hidden_act: String,
}

/// What a `VisionConfig` holds, as values.
pub struct VisionConfigView {
    pub image_size: usize,
    pub patch_size: usize,
    pub hidden_size: usize,
    pub num_heads: usize,
    pub num_layers: usize,
    pub projection_dim: usize,
    pub attention_dropout: u32,
    pub hidden_act: Seq<char>,
}

impl View for VisionConfig {
    type V = VisionConfigView;

    open spec fn view(&self) -> VisionConfigView {
        VisionConfigView {
            image_size: self.image_size,
            patch_size: self.patch_size,
            hidden_size: self.hidden_size,
            num_heads: self.num_heads,
            num_layers: self.num_layers,
            projection_dim: self.projection_dim,
            attention_dropout: self.attention_dropout,
            hidden_act: self.hidden_act@,
        }
    }
}

/// The default encoder: 224-pixel images in 16-pixel patches, width 768, 12 heads, 12 layers,
/// projections of 512, no dropout, GELU.
pub open spec fn default_vision_config() -> VisionConfigView {
    VisionConfigView {
        image_size: 224,
        patch_size: 16,
        hidden_size: 768,
        num_heads: 12,
        num_layers: 12,
        projection_dim: 512,
        attention_dropout: 0,
        hidden_act: "gelu"@,
    }
}

/// The setting a metadata key gives: a key about the image encoder (it names "vision" or
/// "image") that holds a number sets the field it names to that number (the first of image
/// size, patch size, hidden size, layer count, projection width that it names).
pub open spec fn apply_vision_key(c: VisionConfigView, key: Seq<char>) -> VisionConfigView {
    if seq_contains_seq(key, "vision"@) || seq_contains_seq(key, "image"@) {
        match spec_extract_num(key) {
            Some(val) => if seq_contains_seq(key, "image_size"@) {
                VisionConfigView { image_size: val, ..c }
            } else if seq_contains_seq(key, "patch_size"@) {
                VisionConfigView { patch_size: val, ..c }
            } else if seq_contains_seq(key, "hidden_size"@) {
                VisionConfigView { hidden_size: val, ..c }
            } else if seq_contains_seq(key, "num_layers"@) || seq_contains_seq(key, "n_layers"@) {
                VisionConfigView { num_layers: val, ..c }
            } else if seq_contains_seq(key, "projection_dim"@) {
                VisionConfigView { projection_dim: val, ..c }
            } else {
                c
            },
            None => c,
        }
    } else {
        c
    }
}

/// The settings of `keys`, applied in order to `c`.
pub open spec fn apply_vision_keys(c: VisionConfigView, keys: Seq<Seq<char>>) -> VisionConfigView
    decreases keys.len(),
{
    if keys.len() == 0 {
        c
    } else {
        apply_vision_key(apply_vision_keys(c, keys.drop_last()), keys.last())
    }
}

/// Whether `pat` occurs in `s`.
fn str_contains(s: &Vec<char>, pat: &str) -> (r: bool)
    ensures
        r == seq_contains_seq(s@, pat@),
{
    let p = chars_of(pat);
    contains_chars(s, &p)
}

/// The keys of `metadata`, read with `HashMap::keys`: every key once, in the order the map
/// walks them, which it does not fix.
#[verifier::external_body]
fn metadata_keys(metadata: &HashMap<String, String>) -> (r: Vec<String>)
    ensures
        r@.map_values(|k: String| k@).to_set() == metadata@.dom().map(|k: String| k@),
        r@.map_values(|k: String| k@).no_duplicates(),
{
    metadata.keys().cloned().collect()
}

impl Default for VisionConfig {
    fn default() -> (c: Self)
        ensures
            c@ == default_vision_config(),
    {
        VisionConfig {
            image_size: 224,
            patch_size: 16,
            hidden_size: 768,
            num_heads: 12,
            num_layers: 12,
            projection_dim: 512,
            attention_dropout: 0,
            hidden_act: "gelu".to_string(),
        }
    }
}

impl VisionConfig {
    /// The default configuration with the settings of `keys` applied in order (see
    /// `apply_vision_key`).
    pub fn from_keys(keys: &[String]) -> (c: Self)
        ensures
            c@ == apply_vision_keys(default_vision_config(), keys@.map_values(|k: String| k@)),
    {
        let mut config = VisionConfig::default();
        let ghost ks = keys@.map_values(|k: String| k@);
        let mut i: usize = 0;
        while i < keys.len()
            invariant
                i <= keys@.len(),
                ks == keys@.map_values(|k: String| k@),
                config@ == apply_vision_keys(default_vision_config(), ks.take(i as int)),
            decreases keys@.len() - i,
        {
            let key = &keys[i];
            let ghost before = config@;
            proof {
                assert(ks.take(i + 1).drop_last() =~= ks.take(i as int));
                assert(ks.take(i + 1).last() == key@);
            }
            let cs = chars_of(key.as_str());
            if str_contains(&cs, "vision") || str_contains(&cs, "image") {
                if let Some(val) = extract_num(key.as_str()) {
                    if str_contains(&cs, "image_size") {
                        config.image_size = val;
                    } else if str_contains(&cs, "patch_size") {
                        config.patch_size = val;
                    } else if str_contains(&cs, "hidden_size") {
                        config.hidden_size = val;
                    } else if str_contains(&cs, "num_layers") || str_contains(&cs, "n_layers") {
                        config.num_layers = val;
                    } else if str_contains(&cs, "projection_dim") {
                        config.projection_dim = val;
                    }
                }
            }
            proof {
                assert(config@ == apply_vision_key(before, key@));
            }
            i += 1;
        }
        proof {
            assert(ks.take(keys@.len() as int) =~= ks);
        }
        config
    }

    /// The default configuration with the settings of the metadata's keys applied, in the
    /// order the map walks them (see `from_keys`); the values are not read.
    pub fn from_gguf(metadata: &HashMap<String, String>) -> (c: Self)
        ensures
            exists|ks: Seq<Seq<char>>|
                {
                    &&& ks.to_set() == metadata@.dom().map(|k: String| k@)
                    &&& ks.no_duplicates()
                    &&& c@ == #[trigger] apply_vision_keys(default_vision_config(), ks)
                },
    {
        let keys = metadata_keys(metadata);
        let ks = keys.as_slice();
        let c = Self::from_keys(ks);
        proof {
            assert(ks@ == keys@);
            let kv = keys@.map_values(|k: String| k@);
            assert(c@ == apply_vision_keys(default_vision_config(), kv));
        }
        c
    }
}
} // verus!
