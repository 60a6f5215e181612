use vstd::prelude::*;
use crate::types::Token;

verus! {

/// A token handed out while streaming, with its text and the output so far.
#[derive(Debug, Clone)]
pub struct StreamToken {
    pub token: Token,
    pub text: String,
    pub is_eos: bool,
    pub full_output: String,
}


/// A sequence being generated by the batching engine. `temperature` and `top_p` are carried
/// untouched; they hold IEEE-754 single-precision values by their bit patterns.
#[derive(Debug, Clone)]
pub struct SequenceState {
    pub seq_id: crate::types::SeqId,
    pub tokens: Vec<Token>,
    pub position: usize,
    pub finished: bool,
    pub generated_tokens: usize,
    pub max_tokens: usize,
    pub temperature: u32,
    pub top_p: u32,
}

impl SequenceState {
    /// Whether the engine generates another token for this sequence: it is not finished and
    /// its budget is not spent.
    pub fn can_step(&self) -> (r: bool)
        ensures
            r == (!self.finished && self.generated_tokens < self.max_tokens),
    {
        !self.finished && self.generated_tokens < self.max_tokens
    }

    /// Appends a generated token; the sequence finishes on token 0 or when its budget is spent.
    pub fn record_token(&mut self, token: Token)
        requires
            old(self).generated_tokens < usize::MAX,
            old(self).position < usize::MAX,
        ensures
            final(self).tokens@ == old(self).tokens@.push(token),
            final(self).generated_tokens == old(self).generated_tokens + 1,
            final(self).position == old(self).position + 1,
            final(self).finished == (old(self).finished || token == 0 || old(self).generated_tokens + 1
                >= old(self).max_tokens),
            final(self).seq_id == old(self).seq_id,
            final(self).max_tokens == old(self).max_tokens,
            final(self).temperature == old(self).temperature,
            final(self).top_p == old(self).top_p,
    {
        self.tokens.push(token);
        self.generated_tokens += 1;
        self.position += 1;
        if token == 0 || self.generated_tokens >= self.max_tokens {
            self.finished = true;
        }
    }
}

} // verus!
