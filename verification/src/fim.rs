use vstd::prelude::*;
use crate::types::Token;
use vstd::string::StringSliceAdditionalSpecFns;

verus! {

broadcast use vstd::string::group_string_axioms;

/// Token ids that frame a fill-in-the-middle prompt.
pub struct FIMConfig {
    pub enabled: bool,
    pub prefix_token_id: Token,
    pub suffix_token_id: Token,
    pub middle_token_id: Token,
}

impl Default for FIMConfig {
    fn default() -> (c: Self)
        ensures
            c.enabled,
            c.prefix_token_id == 0,
            c.suffix_token_id == 0,
            c.middle_token_id == 0,
    {
        FIMConfig { enabled: true, prefix_token_id: 0, suffix_token_id: 0, middle_token_id: 0 }
    }
}

impl FIMConfig {
    pub fn new(prefix: Token, suffix: Token, middle: Token) -> (c: Self)
        ensures
            c.enabled,
            c.prefix_token_id == prefix,
            c.suffix_token_id == suffix,
            c.middle_token_id == middle,
    {
        FIMConfig { enabled: true, prefix_token_id: prefix, suffix_token_id: suffix, middle_token_id: middle }
    }
}

/// One token per character: its code point.
pub open spec fn spec_tokenize(text: Seq<char>) -> Seq<Token> {
    text.map_values(|c: char| c as Token)
}

/// The fill-in-the-middle prompt: prefix marker, prefix, suffix marker, and, when a middle is
/// given, the middle marker and the middle; nothing when the encoding is disabled.
pub open spec fn spec_fim_encode(
    enabled: bool,
    pre: Token,
    suf: Token,
    mid: Token,
    prefix: Seq<char>,
    suffix: Seq<char>,
    middle: Option<Seq<char>>,
) -> Seq<Token> {
    if !enabled {
        Seq::empty()
    } else {
        let head = seq![pre] + spec_tokenize(prefix) + seq![suf];
        match middle {
            Some(m) => head + seq![mid] + spec_tokenize(m),
            None => head,
        }
    }
}

/// Position `i` of a sequence is visible to the model unless it lies in the prefix or in
/// the `suffix_len` positions after `prefix_len + 1`.
pub open spec fn spec_mask_at(i: int, prefix_len: int, suffix_len: int) -> bool {
    !(i < prefix_len || (prefix_len + 1 <= i && i < prefix_len + 1 + suffix_len))
}

/// What `FIMDecoder::generate` gives: the prompt without a middle, cut to the UTF-8 byte
/// lengths of prefix and suffix plus two markers.
pub open spec fn spec_generate(settings: (bool, Token, Token, Token), prefix: Seq<char>, suffix: Seq<char>) -> Seq<Token> {
    let full = spec_fim_encode(settings.0, settings.1, settings.2, settings.3, prefix, suffix, None);
    let cap = vstd::utf8::encode_utf8(prefix).len() + vstd::utf8::encode_utf8(suffix).len() + 2;
    if full.len() <= cap {
        full
    } else {
        full.take(cap as int)
    }
}

/// UTF-8 spends at least one byte on every character.
proof fn lemma_utf8_at_least_one_byte_per_char(chars: Seq<char>)
    ensures
        vstd::utf8::encode_utf8(chars).len() >= chars.len(),
    decreases chars.len(),
{
    if chars.len() > 0 {
        lemma_utf8_at_least_one_byte_per_char(chars.drop_first());
    }
}

/// Encodes fill-in-the-middle prompts.
pub struct FIMEncoder {
    config: FIMConfig,
}

fn tokenize(text: &str) -> (r: Vec<Token>)
    ensures
        r@ == spec_tokenize(text@),
{
    let mut tokens: Vec<Token> = Vec::new();
    for c in it: text.chars()
        invariant
            tokens@ == spec_tokenize(it.history()),
    {
        tokens.push(c as Token);
        proof {
            assert(tokens@ =~= spec_tokenize(it.history().push(c)));
        }
    }
    tokens
}

impl FIMEncoder {
    pub closed spec fn settings(&self) -> (bool, Token, Token, Token) {
        (
            self.config.enabled,
            self.config.prefix_token_id,
            self.config.suffix_token_id,
            self.config.middle_token_id,
        )
    }

    pub fn new(config: FIMConfig) -> (e: Self)
        ensures
            e.settings() == (
                config.enabled,
                config.prefix_token_id,
                config.suffix_token_id,
                config.middle_token_id,
            ),
    {
        FIMEncoder { config }
    }

    pub fn encode(&self, prefix: &str, suffix: &str, middle: Option<&str>) -> (r: Vec<Token>)
        ensures
            r@ == spec_fim_encode(
                self.settings().0,
                self.settings().1,
                self.settings().2,
                self.settings().3,
                prefix@,
                suffix@,
                match middle {
                    Some(m) => Some(m@),
                    None => None,
                },
            ),
    {
        if !self.config.enabled {
            return Vec::new();
        }
        let mut tokens: Vec<Token> = Vec::new();
        tokens.push(self.config.prefix_token_id);
        let mut p = tokenize(prefix);
        tokens.append(&mut p);
        tokens.push(self.config.suffix_token_id);
        if let Some(m) = middle {
            tokens.push(self.config.middle_token_id);
            let mut mt = tokenize(m);
            tokens.append(&mut mt);
        }
        tokens
    }

    /// The attention mask of a fill-in-the-middle sequence of `seq_len` positions.
    pub fn create_mask(&self, seq_len: usize, prefix_len: usize, suffix_len: usize) -> (mask: Vec<bool>)
        requires
            prefix_len + 1 + suffix_len <= usize::MAX,
        ensures
            mask@.len() == seq_len,
            forall|i: int| 0 <= i < seq_len ==> #[trigger] mask@[i] == spec_mask_at(i, prefix_len as int, suffix_len as int),
    {
        let middle_start = prefix_len + 1;
        let middle_end = middle_start + suffix_len;
        let mut mask: Vec<bool> = Vec::new();
        let mut i: usize = 0;
        while i < seq_len
            invariant
                i <= seq_len,
                middle_start == prefix_len + 1,
                middle_end == prefix_len + 1 + suffix_len,
                mask@.len() == i,
                forall|j: int| 0 <= j < i ==> #[trigger] mask@[j] == spec_mask_at(j, prefix_len as int, suffix_len as int),
            decreases seq_len - i,
        {
            if i < prefix_len {
                mask.push(false);
            } else if i >= middle_start && i < middle_end {
                mask.push(false);
            } else {
                mask.push(true);
            }
            i += 1;
        }
        mask
    }
}

/// Generates completions for fill-in-the-middle prompts.
pub struct FIMDecoder {
    encoder: FIMEncoder,
}

impl FIMDecoder {
    pub closed spec fn settings(&self) -> (bool, Token, Token, Token) {
        self.encoder.settings()
    }

    pub fn new(config: FIMConfig) -> (d: Self)
        ensures
            d.settings() == (
                config.enabled,
                config.prefix_token_id,
                config.suffix_token_id,
                config.middle_token_id,
            ),
    {
        FIMDecoder { encoder: FIMEncoder::new(config) }
    }

    /// The prompt for filling in between `prefix` and `suffix`, cut to the byte lengths of
    /// both plus two markers.
    pub fn generate(&self, prefix: &str, suffix: &str, max_tokens: usize) -> (r: Vec<Token>)
        requires
            prefix.spec_bytes().len() + suffix.spec_bytes().len() + 2 <= usize::MAX,
        ensures
            r@ == spec_generate(self.settings(), prefix@, suffix@),
    {
        proof {
            lemma_utf8_at_least_one_byte_per_char(prefix@);
            lemma_utf8_at_least_one_byte_per_char(suffix@);
        }
        let mut tokens = self.encoder.encode(prefix, suffix, None);
        tokens.truncate(prefix.len() + suffix.len() + 2);
        tokens
    }
}


/// What an encoder produces, character by character: nothing when disabled; otherwise the
/// prefix marker, the code point of each prefix character, the suffix marker, and, when a
/// middle is given, the middle marker and the code point of each middle character. So the
/// prompt with a middle is the prompt without it, then the marker, then one token per
/// middle character.
pub proof fn lemma_fim_prompt_layout(enc: FIMEncoder, prefix: Seq<char>, suffix: Seq<char>, middle: Seq<char>)
    ensures
        ({
            let (on, pre, suf, mid) = enc.settings();
            let bare = spec_fim_encode(on, pre, suf, mid, prefix, suffix, None);
            let with = spec_fim_encode(on, pre, suf, mid, prefix, suffix, Some(middle));
            &&& !on ==> bare.len() == 0 && with.len() == 0
            &&& on ==> bare == seq![pre] + Seq::new(prefix.len(), |i: int| prefix[i] as Token) + seq![suf]
            &&& on ==> with == bare + seq![mid] + Seq::new(middle.len(), |i: int| middle[i] as Token)
            &&& on ==> with.len() == prefix.len() + 3 + middle.len()
        }),
{
    let (on, pre, suf, mid) = enc.settings();
    assert(spec_tokenize(prefix) =~= Seq::new(prefix.len(), |i: int| prefix[i] as Token));
    assert(spec_tokenize(middle) =~= Seq::new(middle.len(), |i: int| middle[i] as Token));
}

/// A decoder's `generate` gives, for any `max_tokens`, the same prompt as an encoder with the
/// same settings gives with no middle: the cut to the byte lengths of prefix and suffix plus
/// two markers never shortens it.
pub proof fn lemma_generate_matches_encode(dec: FIMDecoder, enc: FIMEncoder, prefix: Seq<char>, suffix: Seq<char>)
    requires
        dec.settings() == enc.settings(),
    ensures
        spec_generate(dec.settings(), prefix, suffix) == spec_fim_encode(
            enc.settings().0,
            enc.settings().1,
            enc.settings().2,
            enc.settings().3,
            prefix,
            suffix,
            None,
        ),
{
    lemma_utf8_at_least_one_byte_per_char(prefix);
    lemma_utf8_at_least_one_byte_per_char(suffix);
}

/// Attention restricted to the last `window_size` positions (and `look_forward` ahead).
pub struct SlidingWindowAttention {
    window_size: usize,
    look_forward: usize,
}

impl SlidingWindowAttention {
    pub closed spec fn window(&self) -> nat {
        self.window_size as nat
    }

    pub closed spec fn ahead(&self) -> nat {
        self.look_forward as nat
    }

    pub fn new(window_size: usize) -> (a: Self)
        ensures
            a.window() == window_size,
            a.ahead() == 0,
    {
        SlidingWindowAttention { window_size, look_forward: 0 }
    }

    pub fn with_look_forward(self, look_forward: usize) -> (a: Self)
        ensures
            a.window() == self.window(),
            a.ahead() == look_forward,
    {
        let mut s = self;
        s.look_forward = look_forward;
        s
    }

    pub fn window_size(&self) -> (r: usize)
        ensures
            r == self.window(),
    {
        self.window_size
    }

    pub fn look_forward(&self) -> (r: usize)
        ensures
            r == self.ahead(),
    {
        self.look_forward
    }
}

/// Attention that always keeps the first `sink_tokens` positions in view.
pub struct AttentionSink {
    sink_tokens: usize,
}

impl AttentionSink {
    pub closed spec fn sinks(&self) -> nat {
        self.sink_tokens as nat
    }

    pub fn new(sink_tokens: usize) -> (a: Self)
        ensures
            a.sinks() == sink_tokens,
    {
        AttentionSink { sink_tokens }
    }

    pub fn sink_tokens(&self) -> (r: usize)
        ensures
            r == self.sinks(),
    {
        self.sink_tokens
    }
}

} // verus!
