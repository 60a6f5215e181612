use vstd::prelude::*;
use vstd::string::StringExecFns;
use vstd::string::StringSliceAdditionalSpecFns;
use vstd::utf8::encode_utf8;
use crate::types::Token;

verus! {

broadcast use vstd::string::group_string_axioms;

/// The id of the last vocabulary entry whose UTF-8 bytes are `piece`.
pub open spec fn vocab_lookup(toks: Seq<Seq<char>>, piece: Seq<u8>) -> Option<nat>
    decreases toks.len(),
{
    if toks.len() == 0 {
        None
    } else if encode_utf8(toks.last()) == piece {
        Some((toks.len() - 1) as nat)
    } else {
        vocab_lookup(toks.drop_last(), piece)
    }
}

/// The longest piece `text[pos..end']` with `end' <= end` that is a vocabulary entry, as its
/// token and byte length; the unknown token and length 1 when none is.
pub open spec fn best_match_upto(toks: Seq<Seq<char>>, unk: Token, text: Seq<u8>, pos: int, end: int) -> (Token, nat)
    decreases end - pos,
{
    if end <= pos {
        (unk, 1)
    } else {
        match vocab_lookup(toks, text.subrange(pos, end)) {
            Some(i) => (i as Token, (end - pos) as nat),
            None => best_match_upto(toks, unk, text, pos, end - 1),
        }
    }
}

/// The token read at `pos` and how many bytes it covers: with no vocabulary, the byte itself;
/// otherwise the longest entry of at most 20 bytes starting there.
pub open spec fn spec_longest_match(toks: Seq<Seq<char>>, unk: Token, text: Seq<u8>, pos: int) -> (Token, nat) {
    if toks.len() == 0 {
        if pos < text.len() {
            (text[pos] as Token, 1)
        } else {
            (unk, 1)
        }
    } else {
        let end = if text.len() < pos + 20 {
            text.len() as int
        } else {
            pos + 20
        };
        best_match_upto(toks, unk, text, pos, end)
    }
}

/// The tokens that greedy longest matching gives for `text[pos..]`.
pub open spec fn greedy_tokens(toks: Seq<Seq<char>>, unk: Token, text: Seq<u8>, pos: int) -> Seq<Token>
    decreases text.len() - pos,
{
    if pos < 0 || pos >= text.len() {
        Seq::empty()
    } else {
        let m = spec_longest_match(toks, unk, text, pos);
        let step = if m.1 >= 1 {
            m.1 as int
        } else {
            1
        };
        let next = if pos + step > text.len() {
            text.len() as int
        } else {
            pos + step
        };
        seq![m.0] + greedy_tokens(toks, unk, text, next)
    }
}

/// The text of a token: its vocabulary entry, or nothing for an id outside the vocabulary.
pub open spec fn token_piece(toks: Seq<Seq<char>>, t: Token) -> Seq<char> {
    if 0 <= t < toks.len() {
        toks[t as int]
    } else {
        Seq::empty()
    }
}

/// The text of `tokens` up to the first end token.
pub open spec fn decoded_text(toks: Seq<Seq<char>>, eos: Token, eot: Token, tokens: Seq<Token>) -> Seq<char>
    decreases tokens.len(),
{
    if tokens.len() == 0 {
        Seq::empty()
    } else if tokens[0] == eos || tokens[0] == eot {
        Seq::empty()
    } else {
        token_piece(toks, tokens[0]) + decoded_text(toks, eos, eot, tokens.drop_first())
    }
}

proof fn lemma_best_match_len(toks: Seq<Seq<char>>, unk: Token, text: Seq<u8>, pos: int, end: int)
    requires
        0 <= pos < end <= text.len(),
    ensures
        1 <= best_match_upto(toks, unk, text, pos, end).1 <= end - pos,
    decreases end - pos,
{
    if end - 1 > pos {
        lemma_best_match_len(toks, unk, text, pos, end - 1);
    } else {
        assert(best_match_upto(toks, unk, text, pos, pos) == (unk, 1nat));
    }
}

/// Maps text to token ids by greedy longest match over the vocabulary, and back.
#[derive(Clone)]
pub struct Tokenizer {
    id_to_token: Vec<String>,
    vocab_scores: Vec<u32>,
    pub vocab_size: usize,
    pub bos_token: Token,
    pub eos_token: Token,
    pub eot_token: Token,
    pub sep_token: Token,
    pub nl_token: Token,
    pub pad_token: Token,
    pub unk_token: Token,
    pub add_bos: bool,
    pub add_eos: bool,
}

/// The special ids and defaults of a tokenizer.
pub struct TokenizerConfig {
    pub vocab_size: usize,
    pub bos_token: Token,
    pub eos_token: Token,
    pub eot_token: Token,
    pub sep_token: Token,
    pub nl_token: Token,
    pub pad_token: Token,
    pub unk_token: Token,
    pub add_bos: bool,
    pub add_eos: bool,
}

/// The entries of a vocabulary as character sequences.
pub open spec fn vocab_view(toks: Seq<String>) -> Seq<Seq<char>> {
    toks.map_values(|s: String| s@)
}

impl Tokenizer {
    /// The special ids and defaults.
    pub closed spec fn config(&self) -> TokenizerConfig {
        TokenizerConfig {
            vocab_size: self.vocab_size,
            bos_token: self.bos_token,
            eos_token: self.eos_token,
            eot_token: self.eot_token,
            sep_token: self.sep_token,
            nl_token: self.nl_token,
            pad_token: self.pad_token,
            unk_token: self.unk_token,
            add_bos: self.add_bos,
            add_eos: self.add_eos,
        }
    }

    /// The vocabulary: entry `i` is the text of token `i`.
    pub closed spec fn vocab(&self) -> Seq<Seq<char>> {
        vocab_view(self.id_to_token@)
    }

    /// The scores of the vocabulary entries, as IEEE-754 single-precision bit patterns.
    pub closed spec fn scores(&self) -> Seq<u32> {
        self.vocab_scores@
    }

    /// A tokenizer with no vocabulary: beginning 1, end 2, unknown 0, newline 13, and a
    /// beginning token added by default.
    pub fn new() -> (t: Self)
        ensures
            t.vocab().len() == 0,
            t.scores().len() == 0,
            t.config().vocab_size == 0,
            t.config().bos_token == 1,
            t.config().eos_token == 2,
            t.config().eot_token == 2,
            t.config().sep_token == -1,
            t.config().nl_token == 13,
            t.config().pad_token == -1,
            t.config().unk_token == 0,
            t.config().add_bos,
            !t.config().add_eos,
    {
        let t = Tokenizer {
            id_to_token: Vec::new(),
            vocab_scores: Vec::new(),
            vocab_size: 0,
            bos_token: 1,
            eos_token: 2,
            eot_token: 2,
            sep_token: -1,
            nl_token: 13,
            pad_token: -1,
            unk_token: 0,
            add_bos: true,
            add_eos: false,
        };
        proof {
            assert(t.vocab() =~= Seq::<Seq<char>>::empty());
        }
        t
    }

    /// The id of the last entry whose bytes are `text[pos..end]`.
    fn lookup(&self, text: &[u8], pos: usize, end: usize) -> (r: Option<usize>)
        requires
            pos <= end <= text@.len(),
        ensures
            r matches Some(i) ==> vocab_lookup(self.vocab(), text@.subrange(pos as int, end as int))
                == Some(i as nat) && i < self.vocab().len(),
            r is None ==> vocab_lookup(self.vocab(), text@.subrange(pos as int, end as int)) is None,
    {
        let ghost piece = text@.subrange(pos as int, end as int);
        let ghost tv = self.vocab();
        let mut i: usize = self.id_to_token.len();
        proof {
            assert(tv.take(i as int) =~= tv);
        }
        while i > 0
            invariant
                i <= self.id_to_token@.len(),
                tv == self.vocab(),
                pos <= end <= text@.len(),
                piece == text@.subrange(pos as int, end as int),
                vocab_lookup(tv, piece) == vocab_lookup(tv.take(i as int), piece),
            decreases i,
        {
            let bytes = self.id_to_token[i - 1].as_str().as_bytes();
            proof {
                assert(tv.take(i as int).drop_last() =~= tv.take(i - 1));
                assert(tv.take(i as int).last() == self.id_to_token@[i - 1]@);
            }
            if bytes_equal(bytes, text, pos, end) {
                return Some(i - 1);
            }
            i -= 1;
        }
        None
    }

    /// The token read at `pos` and how many bytes it covers.
    fn longest_match(&self, text: &[u8], pos: usize) -> (r: (Token, usize))
        requires
            pos < text@.len(),
        ensures
            (r.0, r.1 as nat) == spec_longest_match(self.vocab(), self.config().unk_token, text@, pos as int),
            1 <= r.1 <= text@.len() - pos,
    {
        proof {
            assert(self.config().unk_token == self.unk_token);
        }
        if self.id_to_token.len() == 0 {
            return (text[pos] as Token, 1);
        }
        let end = if text.len() - pos < 20 {
            text.len()
        } else {
            pos + 20
        };
        proof {
            lemma_best_match_len(self.vocab(), self.unk_token, text@, pos as int, end as int);
        }
        let mut e: usize = end;
        while e > pos
            invariant
                pos < end <= text@.len(),
                pos <= e <= end,
                self.vocab().len() > 0,
                self.config().unk_token == self.unk_token,
                end == (if text@.len() < pos + 20 {
                    text@.len() as int
                } else {
                    pos + 20
                }),
                best_match_upto(self.vocab(), self.unk_token, text@, pos as int, end as int)
                    == best_match_upto(self.vocab(), self.unk_token, text@, pos as int, e as int),
            decreases e - pos,
        {
            match self.lookup(text, pos, e) {
                Some(i) => {
                    return (#[verifier::truncate] (i as Token), e - pos);
                },
                None => {},
            }
            e -= 1;
        }
        (self.unk_token, 1)
    }

    /// The tokens of `text`: a beginning token when `add_bos` (or, if not given, the
    /// tokenizer's default) asks for one, then the greedy longest-match tokens of its bytes,
    /// then an end token when `add_eos` (or the default) asks for one.
    pub fn encode(&self, text: &str, add_bos: Option<bool>, add_eos: Option<bool>) -> (r: Vec<Token>)
        ensures
            ({
                let b = match add_bos {
                    Some(v) => v,
                    None => self.config().add_bos,
                };
                let e = match add_eos {
                    Some(v) => v,
                    None => self.config().add_eos,
                };
                r@ == (if b {
                    seq![self.config().bos_token]
                } else {
                    Seq::empty()
                }) + greedy_tokens(self.vocab(), self.config().unk_token, text.spec_bytes(), 0) + (if e {
                    seq![self.config().eos_token]
                } else {
                    Seq::empty()
                })
            }),
    {
        let mut tokens: Vec<Token> = Vec::new();
        let add_bos = match add_bos {
            Some(v) => v,
            None => self.add_bos,
        };
        let add_eos = match add_eos {
            Some(v) => v,
            None => self.add_eos,
        };
        if add_bos {
            tokens.push(self.bos_token);
        }
        let ghost start = tokens@;
        let text_bytes = text.as_bytes();
        let ghost tb = text_bytes@;
        let mut i: usize = 0;
        while i < text_bytes.len()
            invariant
                tb == text_bytes@,
                i <= tb.len(),
                tokens@ + greedy_tokens(self.vocab(), self.unk_token, tb, i as int) == start
                    + greedy_tokens(self.vocab(), self.unk_token, tb, 0),
            decreases tb.len() - i,
        {
            let (token, len) = self.longest_match(text_bytes, i);
            let ghost before = tokens@;
            tokens.push(token);
            proof {
                assert(greedy_tokens(self.vocab(), self.unk_token, tb, i as int) == seq![token]
                    + greedy_tokens(self.vocab(), self.unk_token, tb, i + len));
                assert(tokens@ + greedy_tokens(self.vocab(), self.unk_token, tb, i + len) =~= before
                    + greedy_tokens(self.vocab(), self.unk_token, tb, i as int));
            }
            i += if len > 1 {
                len
            } else {
                1
            };
        }
        proof {
            assert(greedy_tokens(self.vocab(), self.unk_token, tb, i as int) =~= Seq::<Token>::empty());
            assert(tokens@ =~= start + greedy_tokens(self.vocab(), self.unk_token, tb, 0));
        }
        if add_eos {
            tokens.push(self.eos_token);
        }
        tokens
    }

    /// The text of `tokens`: the entries of the tokens before the first end token
    /// (`eos_token` or `eot_token`), ids outside the vocabulary giving nothing.
    pub fn decode(&self, tokens: &[Token]) -> (r: String)
        ensures
            r@ == decoded_text(self.vocab(), self.config().eos_token, self.config().eot_token, tokens@),
    {
        let mut result = String::new();
        let ghost full = decoded_text(self.vocab(), self.eos_token, self.eot_token, tokens@);
        proof {
            assert(tokens@.skip(0) =~= tokens@);
            assert(self.config().eos_token == self.eos_token);
            assert(self.config().eot_token == self.eot_token);
        }
        let mut k: usize = 0;
        while k < tokens.len()
            invariant
                k <= tokens@.len(),
                full == decoded_text(self.vocab(), self.eos_token, self.eot_token, tokens@),
                self.config().eos_token == self.eos_token,
                self.config().eot_token == self.eot_token,
                result@ + decoded_text(self.vocab(), self.eos_token, self.eot_token, tokens@.skip(k as int))
                    == full,
            decreases tokens@.len() - k,
        {
            let token = tokens[k];
            let ghost rest = tokens@.skip(k as int);
            proof {
                assert(rest[0] == token);
                assert(rest.drop_first() =~= tokens@.skip(k + 1));
            }
            if token == self.eos_token || token == self.eot_token {
                proof {
                    assert(decoded_text(self.vocab(), self.eos_token, self.eot_token, rest) == Seq::<char>::empty());
                    assert(result@ =~= full);
                }
                return result;
            }
            if token >= 0 && (token as usize) < self.id_to_token.len() {
                let text = &self.id_to_token[token as usize];
                result.append(text.as_str());
                proof {
                    assert(token_piece(self.vocab(), token) == text@);
                    assert(result@ + decoded_text(self.vocab(), self.eos_token, self.eot_token, tokens@.skip(k + 1))
                        =~= full);
                }
            } else {
                proof {
                    assert(token_piece(self.vocab(), token) =~= Seq::<char>::empty());
                    assert(result@ + decoded_text(self.vocab(), self.eos_token, self.eot_token, tokens@.skip(k + 1))
                        =~= full);
                }
            }
            k += 1;
        }
        proof {
            assert(tokens@.skip(k as int) =~= Seq::<Token>::empty());
            assert(result@ =~= full);
        }
        result
    }

    /// The text of one token, when it is in the vocabulary and not empty.
    pub fn decode_token(&self, token: Token) -> (r: Option<&str>)
        ensures
            match r {
                Some(s) => 0 <= token < self.vocab().len() && self.vocab()[token as int].len() > 0 && s@
                    == self.vocab()[token as int],
                None => !(0 <= token < self.vocab().len()) || self.vocab()[token as int].len() == 0,
            },
    {
        if token < 0 || (token as usize) >= self.id_to_token.len() {
            return None;
        }
        let text = &self.id_to_token[token as usize];
        proof {
            assert(self.vocab()[token as int] == text@);
        }
        if text.as_str().is_empty() {
            None
        } else {
            Some(text.as_str())
        }
    }

    /// The number of vocabulary entries.
    pub fn vocab_len(&self) -> (r: usize)
        ensures
            r == self.vocab().len(),
    {
        self.id_to_token.len()
    }

    /// The score of a token as its bit pattern; 0 (the pattern of 0.0) outside the scores.
    pub fn token_score_bits(&self, token: Token) -> (r: u32)
        ensures
            r == (if 0 <= token < self.scores().len() {
                self.scores()[token as int]
            } else {
                0
            }),
    {
        if token < 0 || (token as usize) >= self.vocab_scores.len() {
            return 0;
        }
        self.vocab_scores[token as usize]
    }
}

impl Default for Tokenizer {
    fn default() -> (t: Self)
        ensures
            t.vocab().len() == 0,
            t.config().vocab_size == 0,
            t.config().bos_token == 1,
            t.config().eos_token == 2,
            t.config().unk_token == 0,
            t.config().add_bos,
            !t.config().add_eos,
    {
        Tokenizer::new()
    }
}

/// Whether `a` is `text[pos..end]`.
fn bytes_equal(a: &[u8], text: &[u8], pos: usize, end: usize) -> (r: bool)
    requires
        pos <= end <= text@.len(),
    ensures
        r == (a@ == text@.subrange(pos as int, end as int)),
{
    if a.len() != end - pos {
        return false;
    }
    let mut k: usize = 0;
    while k < a.len()
        invariant
            a@.len() == end - pos,
            pos <= end <= text@.len(),
            k <= a@.len(),
            forall|j: int| 0 <= j < k ==> a@[j] == text@[pos + j],
        decreases a@.len() - k,
    {
        if a[k] != text[pos + k] {
            proof {
                assert(text@.subrange(pos as int, end as int)[k as int] != a@[k as int]);
            }
            return false;
        }
        k += 1;
    }
    proof {
        assert(a@ =~= text@.subrange(pos as int, end as int));
    }
    true
}


/// The decimal digit characters.
pub open spec fn digit_chars() -> Seq<char> {
    seq!['0', '1', '2', '3', '4', '5', '6', '7', '8', '9']
}

/// The decimal numeral of `n`, without leading zeros.
pub open spec fn decimal_digits(n: nat) -> Seq<char>
    decreases n,
{
    if n < 10 {
        seq![digit_chars()[n as int]]
    } else {
        decimal_digits(n / 10).push(digit_chars()[(n % 10) as int])
    }
}

/// `s` with zeros in front up to width `w`.
pub open spec fn zero_padded(s: Seq<char>, w: nat) -> Seq<char> {
    if s.len() >= w {
        s
    } else {
        Seq::new((w - s.len()) as nat, |i: int| '0') + s
    }
}

/// The decimal numeral of `n`.
pub fn decimal_string_chars(n: usize) -> (r: Vec<char>)
    ensures
        r@ == decimal_digits(n as nat),
    decreases n,
{
    let digits: [char; 10] = ['0', '1', '2', '3', '4', '5', '6', '7', '8', '9'];
    proof {
        assert(digits@ =~= digit_chars());
    }
    if n < 10 {
        let mut v: Vec<char> = Vec::new();
        v.push(digits[n]);
        proof {
            assert(v@ =~= seq![digit_chars()[n as int]]);
        }
        v
    } else {
        let mut v = decimal_string_chars(n / 10);
        v.push(digits[n % 10]);
        v
    }
}

/// The decimal numeral of `n`, zero-padded to width `w`.
fn padded_decimal(n: usize, w: usize) -> (r: Vec<char>)
    ensures
        r@ == zero_padded(decimal_digits(n as nat), w as nat),
{
    let d = decimal_string_chars(n);
    if d.len() >= w {
        return d;
    }
    let mut out: Vec<char> = Vec::new();
    let pad = w - d.len();
    let mut k: usize = 0;
    while k < pad
        invariant
            k <= pad,
            out@ == Seq::new(k as nat, |i: int| '0'),
        decreases pad - k,
    {
        out.push('0');
        proof {
            assert(out@ =~= Seq::new((k + 1) as nat, |i: int| '0'));
        }
        k += 1;
    }
    let mut m: usize = 0;
    while m < d.len()
        invariant
            m <= d@.len(),
            out@ == Seq::new(pad as nat, |i: int| '0') + d@.take(m as int),
        decreases d@.len() - m,
    {
        out.push(d[m]);
        proof {
            assert(d@.take(m + 1) =~= d@.take(m as int).push(d@[m as int]));
            assert(out@ =~= Seq::new(pad as nat, |i: int| '0') + d@.take(m + 1));
        }
        m += 1;
    }
    proof {
        assert(d@.take(d@.len() as int) =~= d@);
    }
    out
}

/// The characters that the basic vocabulary gives a token each.
pub const COMMON_CHARS: &'static str = " \n\t\r!\"#$%&'()*+,-./:;<=>?@[\\]^_`{|}~0123456789abcdefghijklmnopqrstuvwxyzABCDEFGHIJKLMNOPQRSTUVWXYZ";

/// The special tokens the basic vocabulary offers, in order.
pub open spec fn special_tokens() -> Seq<Seq<char>> {
    seq![
        "<pad>"@,
        "<bos>"@,
        "<eos>"@,
        "<unk>"@,
        "<mask>"@,
        "<s>"@,
        "</s>"@,
        "<|im_start|>"@,
        "<|im_end|>"@,
        "<|endoftext|>"@,
    ]
}

/// `l` with a one-character entry for each of `cs` in turn, while it is shorter than `cap`.
pub open spec fn fill_chars(l: Seq<Seq<char>>, cs: Seq<char>, cap: nat) -> Seq<Seq<char>>
    decreases cs.len(),
{
    if cs.len() == 0 {
        l
    } else {
        let l2 = fill_chars(l, cs.drop_last(), cap);
        if l2.len() < cap {
            l2.push(seq![cs.last()])
        } else {
            l2
        }
    }
}

/// `l` with each of `sp` in turn that it lacks, while it is shorter than `cap`.
pub open spec fn fill_specials(l: Seq<Seq<char>>, sp: Seq<Seq<char>>, cap: nat) -> Seq<Seq<char>>
    decreases sp.len(),
{
    if sp.len() == 0 {
        l
    } else {
        let l2 = fill_specials(l, sp.drop_last(), cap);
        if l2.len() < cap && !l2.contains(sp.last()) {
            l2.push(sp.last())
        } else {
            l2
        }
    }
}

/// `l` filled up to `cap` entries with `tok` followed by the entry's index in five digits.
pub open spec fn fill_numbered(l: Seq<Seq<char>>, cap: nat) -> Seq<Seq<char>>
    decreases cap - l.len(),
{
    if l.len() >= cap {
        l
    } else {
        fill_numbered(l.push("tok"@ + zero_padded(decimal_digits(l.len()), 5)), cap)
    }
}

/// `l` filled up to `cap` entries with `tok_` followed by the entry's index.
pub open spec fn fill_plain_numbered(l: Seq<Seq<char>>, cap: nat) -> Seq<Seq<char>>
    decreases cap - l.len(),
{
    if l.len() >= cap {
        l
    } else {
        fill_plain_numbered(l.push("tok_"@ + decimal_digits(l.len())), cap)
    }
}

/// The fallback vocabulary of `cap` entries (at least three): the unknown, beginning and end
/// tokens, one token per common character, the special tokens, then numbered fillers.
pub open spec fn basic_vocab(cap: nat) -> Seq<Seq<char>> {
    fill_numbered(
        fill_specials(fill_chars(seq!["<unk>"@, "<s>"@, "</s>"@], COMMON_CHARS@, cap), special_tokens(), cap),
        cap,
    )
}

/// A `String` holding `cs`.
fn string_of(cs: &Vec<char>) -> (r: String)
    ensures
        r@ == cs@,
{
    crate::text::string_from_chars(cs.as_slice())
}

impl Tokenizer {
    /// Sets the vocabulary size the tokenizer is meant to have.
    pub fn set_vocab_size(&mut self, vocab_size: usize)
        ensures
            final(self).config() == (TokenizerConfig { vocab_size, ..old(self).config() }),
            final(self).vocab() == old(self).vocab(),
            final(self).scores() == old(self).scores(),
    {
        self.vocab_size = vocab_size;
    }

    /// Replaces the vocabulary by `tokens`, with the given scores (as bit patterns).
    pub fn set_vocabulary(&mut self, tokens: Vec<String>, score_bits: Vec<u32>)
        ensures
            final(self).vocab() == vocab_view(tokens@),
            final(self).scores() == score_bits@,
            final(self).config() == old(self).config(),
    {
        self.id_to_token = tokens;
        self.vocab_scores = score_bits;
    }

    /// Fills the vocabulary up to `vocab_size` entries with `tok_` followed by the entry's
    /// index, each scored 0.
    pub fn pad_vocabulary(&mut self, vocab_size: usize)
        ensures
            final(self).vocab() == fill_plain_numbered(old(self).vocab(), vocab_size as nat),
            final(self).vocab().len() >= old(self).vocab().len(),
            final(self).scores() == old(self).scores() + Seq::new(
                (final(self).vocab().len() - old(self).vocab().len()) as nat,
                |i: int| 0u32,
            ),
            final(self).config() == old(self).config(),
    {
        let mut prefix: Vec<char> = Vec::new();
        prefix.push('t');
        prefix.push('o');
        prefix.push('k');
        prefix.push('_');
        proof {
            reveal_strlit("tok_");
            assert(prefix@ =~= "tok_"@);
        }
        while self.id_to_token.len() < vocab_size
            invariant
                prefix@ == "tok_"@,
                fill_plain_numbered(self.vocab(), vocab_size as nat) == fill_plain_numbered(
                    old(self).vocab(),
                    vocab_size as nat,
                ),
                self.config() == old(self).config(),
                self.vocab().len() >= old(self).vocab().len(),
                self.scores() == old(self).scores() + Seq::new(
                    (self.vocab().len() - old(self).vocab().len()) as nat,
                    |i: int| 0u32,
                ),
            decreases vocab_size - self.id_to_token@.len(),
        {
            let n = self.id_to_token.len();
            let mut name = prefix.clone();
            let digits = decimal_string_chars(n);
            let ghost before = self.vocab();
            let mut m: usize = 0;
            while m < digits.len()
                invariant
                    m <= digits@.len(),
                    name@ == "tok_"@ + digits@.take(m as int),
                decreases digits@.len() - m,
            {
                name.push(digits[m]);
                proof {
                    assert(digits@.take(m + 1) =~= digits@.take(m as int).push(digits@[m as int]));
                }
                m += 1;
            }
            proof {
                assert(digits@.take(digits@.len() as int) =~= digits@);
            }
            self.id_to_token.push(string_of(&name));
            self.vocab_scores.push(0);
            proof {
                assert(self.vocab() =~= before.push("tok_"@ + decimal_digits(n as nat)));
                assert(self.scores() =~= old(self).scores() + Seq::new(
                    (self.vocab().len() - old(self).vocab().len()) as nat,
                    |i: int| 0u32,
                ));
            }
        }
    }
}


/// Whether `list` holds an entry equal to `tok`.
fn contains_string(list: &Vec<String>, tok: &String) -> (r: bool)
    ensures
        r == vocab_view(list@).contains(tok@),
{
    let mut j: usize = 0;
    while j < list.len()
        invariant
            j <= list@.len(),
            forall|k: int| 0 <= k < j ==> list@[k]@ != tok@,
        decreases list@.len() - j,
    {
        if list[j] == *tok {
            proof {
                assert(vocab_view(list@)[j as int] == tok@);
            }
            return true;
        }
        j += 1;
    }
    proof {
        if vocab_view(list@).contains(tok@) {
            let k = choose|k: int| 0 <= k < vocab_view(list@).len() && vocab_view(list@)[k] == tok@;
            assert(list@[k]@ == tok@);
        }
    }
    false
}

impl Tokenizer {
    /// Replaces the vocabulary by the fallback one of `vocab_size` entries (at least three),
    /// every entry scored 0.
    pub fn generate_basic_vocab(&mut self)
        ensures
            final(self).vocab() == basic_vocab(old(self).config().vocab_size as nat),
            final(self).scores() == Seq::new(final(self).vocab().len(), |i: int| 0u32),
            final(self).config() == old(self).config(),
    {
        let cap = self.vocab_size;
        let ghost capn = cap as nat;
        self.id_to_token.clear();
        self.vocab_scores.clear();
        self.id_to_token.push("<unk>".to_string());
        self.id_to_token.push("<s>".to_string());
        self.id_to_token.push("</s>".to_string());
        self.vocab_scores.push(0);
        self.vocab_scores.push(0);
        self.vocab_scores.push(0);
        let ghost base = seq!["<unk>"@, "<s>"@, "</s>"@];
        proof {
            assert(self.vocab() =~= base);
            assert(self.vocab_scores@ =~= Seq::new(3, |i: int| 0u32));
        }
        let cs = crate::text::chars_of(COMMON_CHARS);
        let mut k: usize = 0;
        while k < cs.len()
            invariant
                cap == self.vocab_size,
                capn == cap as nat,
                self.config() == old(self).config(),
                cs@ == COMMON_CHARS@,
                k <= cs@.len(),
                self.vocab() == fill_chars(base, cs@.take(k as int), capn),
                self.vocab_scores@ == Seq::new(self.vocab().len(), |i: int| 0u32),
            decreases cs@.len() - k,
        {
            let c = cs[k];
            proof {
                assert(cs@.take(k + 1).drop_last() =~= cs@.take(k as int));
                assert(cs@.take(k + 1).last() == c);
            }
            if self.id_to_token.len() < cap {
                let mut one: Vec<char> = Vec::new();
                one.push(c);
                proof {
                    assert(one@ =~= seq![c]);
                }
                let ghost before = self.vocab();
                self.id_to_token.push(string_of(&one));
                self.vocab_scores.push(0);
                proof {
                    assert(self.vocab() =~= before.push(seq![c]));
                    assert(self.vocab_scores@ =~= Seq::new(self.vocab().len(), |i: int| 0u32));
                }
            }
            k += 1;
        }
        proof {
            assert(cs@.take(cs@.len() as int) =~= COMMON_CHARS@);
        }
        let ghost l1 = self.vocab();
        let specials: [&str; 10] = [
            "<pad>",
            "<bos>",
            "<eos>",
            "<unk>",
            "<mask>",
            "<s>",
            "</s>",
            "<|im_start|>",
            "<|im_end|>",
            "<|endoftext|>",
        ];
        let ghost sp = specials@.map_values(|t: &str| t@);
        proof {
            assert(sp =~= special_tokens());
        }
        let mut j: usize = 0;
        while j < 10
            invariant
                cap == self.vocab_size,
                capn == cap as nat,
                self.config() == old(self).config(),
                sp == specials@.map_values(|t: &str| t@),
                sp == special_tokens(),
                specials@.len() == 10,
                j <= 10,
                self.vocab() == fill_specials(l1, sp.take(j as int), capn),
                self.vocab_scores@ == Seq::new(self.vocab().len(), |i: int| 0u32),
            decreases 10 - j,
        {
            let tok = specials[j].to_string();
            proof {
                assert(sp.take(j + 1).drop_last() =~= sp.take(j as int));
                assert(sp.take(j + 1).last() == tok@);
            }
            if self.id_to_token.len() < cap && !contains_string(&self.id_to_token, &tok) {
                let ghost before = self.vocab();
                let ghost tv = tok@;
                self.id_to_token.push(tok);
                self.vocab_scores.push(0);
                proof {
                    assert(self.vocab() =~= before.push(tv));
                    assert(self.vocab_scores@ =~= Seq::new(self.vocab().len(), |i: int| 0u32));
                }
            }
            j += 1;
        }
        proof {
            assert(sp.take(10) =~= sp);
        }
        let ghost l2 = self.vocab();
        let mut prefix: Vec<char> = Vec::new();
        prefix.push('t');
        prefix.push('o');
        prefix.push('k');
        proof {
            reveal_strlit("tok");
            assert(prefix@ =~= "tok"@);
        }
        while self.id_to_token.len() < cap
            invariant
                cap == self.vocab_size,
                capn == cap as nat,
                self.config() == old(self).config(),
                prefix@ == "tok"@,
                fill_numbered(self.vocab(), capn) == fill_numbered(l2, capn),
                self.vocab_scores@ == Seq::new(self.vocab().len(), |i: int| 0u32),
            decreases cap - self.id_to_token@.len(),
        {
            let n = self.id_to_token.len();
            let digits = padded_decimal(n, 5);
            let mut name = prefix.clone();
            let mut m: usize = 0;
            while m < digits.len()
                invariant
                    m <= digits@.len(),
                    name@ == "tok"@ + digits@.take(m as int),
                decreases digits@.len() - m,
            {
                name.push(digits[m]);
                proof {
                    assert(digits@.take(m + 1) =~= digits@.take(m as int).push(digits@[m as int]));
                }
                m += 1;
            }
            proof {
                assert(digits@.take(digits@.len() as int) =~= digits@);
            }
            let ghost before = self.vocab();
            self.id_to_token.push(string_of(&name));
            self.vocab_scores.push(0);
            proof {
                assert(self.vocab() =~= before.push("tok"@ + zero_padded(decimal_digits(n as nat), 5)));
                assert(self.vocab_scores@ =~= Seq::new(self.vocab().len(), |i: int| 0u32));
            }
        }
    }
}


/// The match at any position covers at least one byte and stays within the text.
pub proof fn lemma_longest_match_len(toks: Seq<Seq<char>>, unk: Token, text: Seq<u8>, pos: int)
    requires
        0 <= pos < text.len(),
    ensures
        1 <= spec_longest_match(toks, unk, text, pos).1 <= text.len() - pos,
{
    if toks.len() > 0 {
        let end = if text.len() < pos + 20 {
            text.len() as int
        } else {
            pos + 20
        };
        lemma_best_match_len(toks, unk, text, pos, end);
    }
}

/// Greedy matching gives at most one token per byte.
pub proof fn lemma_greedy_at_most_one_token_per_byte(toks: Seq<Seq<char>>, unk: Token, text: Seq<u8>, pos: int)
    requires
        0 <= pos <= text.len(),
    ensures
        greedy_tokens(toks, unk, text, pos).len() <= text.len() - pos,
    decreases text.len() - pos,
{
    if pos < text.len() {
        lemma_longest_match_len(toks, unk, text, pos);
        let m = spec_longest_match(toks, unk, text, pos);
        lemma_greedy_at_most_one_token_per_byte(toks, unk, text, pos + m.1);
    }
}

/// A piece that is the UTF-8 of some vocabulary entry is found by the lookup.
proof fn lemma_lookup_finds(toks: Seq<Seq<char>>, piece: Seq<u8>, i: int)
    requires
        0 <= i < toks.len(),
        encode_utf8(toks[i]) == piece,
    ensures
        vocab_lookup(toks, piece) is Some,
    decreases toks.len(),
{
    if encode_utf8(toks.last()) != piece {
        assert(i < toks.len() - 1);
        assert(toks.drop_last()[i] == toks[i]);
        lemma_lookup_finds(toks.drop_last(), piece, i);
    }
}

/// The lookup only finds entries whose UTF-8 is the piece.
proof fn lemma_lookup_sound(toks: Seq<Seq<char>>, piece: Seq<u8>)
    requires
        vocab_lookup(toks, piece) is Some,
    ensures
        vocab_lookup(toks, piece).unwrap() < toks.len(),
        encode_utf8(toks[vocab_lookup(toks, piece).unwrap() as int]) == piece,
    decreases toks.len(),
{
    if encode_utf8(toks.last()) != piece {
        lemma_lookup_sound(toks.drop_last(), piece);
        let i = vocab_lookup(toks.drop_last(), piece).unwrap() as int;
        assert(toks.drop_last()[i] == toks[i]);
    }
}

proof fn lemma_best_match_at_least(toks: Seq<Seq<char>>, unk: Token, text: Seq<u8>, pos: int, end: int, k: int)
    requires
        0 <= pos,
        1 <= k,
        pos + k <= end <= text.len(),
        vocab_lookup(toks, text.subrange(pos, pos + k)) is Some,
    ensures
        best_match_upto(toks, unk, text, pos, end).1 >= k,
        vocab_lookup(toks, text.subrange(pos, pos + best_match_upto(toks, unk, text, pos, end).1 as int)) is Some,
        best_match_upto(toks, unk, text, pos, end).0 == vocab_lookup(
            toks,
            text.subrange(pos, pos + best_match_upto(toks, unk, text, pos, end).1 as int),
        ).unwrap() as Token,
    decreases end - pos,
{
    if vocab_lookup(toks, text.subrange(pos, end)) is None {
        lemma_best_match_at_least(toks, unk, text, pos, end - 1, k);
    }
}

/// Greedy matching at `pos` takes the longest vocabulary entry starting there, measured from
/// `pos` (token ids being `i32`, the vocabulary has at most `i32::MAX` entries): whenever the `k` bytes at `pos` (`k` at most 20, inside the text) are the UTF-8 of
/// some entry, the match covers at least `k` bytes, and the token matched is an entry whose
/// UTF-8 is exactly the bytes it covers.
pub proof fn lemma_match_is_longest_entry(toks: Seq<Seq<char>>, unk: Token, text: Seq<u8>, pos: int, k: int, i: int)
    requires
        0 <= pos,
        1 <= k <= 20,
        pos + k <= text.len(),
        0 <= i < toks.len(),
        toks.len() <= i32::MAX,
        encode_utf8(toks[i]) == text.subrange(pos, pos + k),
    ensures
        spec_longest_match(toks, unk, text, pos).1 >= k,
        pos + spec_longest_match(toks, unk, text, pos).1 <= text.len(),
        0 <= spec_longest_match(toks, unk, text, pos).0 < toks.len(),
        encode_utf8(toks[spec_longest_match(toks, unk, text, pos).0 as int]) == text.subrange(
            pos,
            pos + spec_longest_match(toks, unk, text, pos).1,
        ),
{
    lemma_lookup_finds(toks, text.subrange(pos, pos + k), i);
    let end = if text.len() < pos + 20 {
        text.len() as int
    } else {
        pos + 20
    };
    lemma_best_match_at_least(toks, unk, text, pos, end, k);
    lemma_best_match_len(toks, unk, text, pos, end);
    let m = best_match_upto(toks, unk, text, pos, end);
    lemma_lookup_sound(toks, text.subrange(pos, pos + m.1 as int));
    let idx = vocab_lookup(toks, text.subrange(pos, pos + m.1 as int)).unwrap();
    assert(m.0 == idx as Token);
    assert(idx as Token as int == idx);
}

proof fn lemma_best_match_shift(toks: Seq<Seq<char>>, unk: Token, text: Seq<u8>, t2: Seq<u8>, pos: int, d: int, end: int)
    requires
        0 <= d <= pos,
        end <= text.len(),
        t2 == text.subrange(d, text.len() as int),
    ensures
        best_match_upto(toks, unk, text, pos, end) == best_match_upto(toks, unk, t2, pos - d, end - d),
    decreases end - pos,
{
    if end > pos {
        assert(text.subrange(pos, end) =~= t2.subrange(pos - d, end - d));
        lemma_best_match_shift(toks, unk, text, t2, pos, d, end - 1);
    }
}

proof fn lemma_greedy_shift_from(toks: Seq<Seq<char>>, unk: Token, text: Seq<u8>, d: int, pos: int)
    requires
        0 <= d <= pos <= text.len(),
    ensures
        greedy_tokens(toks, unk, text, pos) == greedy_tokens(toks, unk, text.subrange(d, text.len() as int), pos - d),
    decreases text.len() - pos,
{
    let t2 = text.subrange(d, text.len() as int);
    if pos < text.len() {
        let end = if text.len() < pos + 20 {
            text.len() as int
        } else {
            pos + 20
        };
        lemma_best_match_shift(toks, unk, text, t2, pos, d, end);
        assert(spec_longest_match(toks, unk, text, pos) == spec_longest_match(toks, unk, t2, pos - d));
        let m = spec_longest_match(toks, unk, text, pos);
        let step = if m.1 >= 1 {
            m.1 as int
        } else {
            1
        };
        let next = if pos + step > text.len() {
            text.len() as int
        } else {
            pos + step
        };
        lemma_greedy_shift_from(toks, unk, text, d, next);
    }
}

/// Greedy tokenization does not depend on where the text starts: the tokens read from
/// position `pos` on are those of the text from `pos` on, read from its start.
pub proof fn lemma_greedy_shift_invariant(toks: Seq<Seq<char>>, unk: Token, text: Seq<u8>, pos: int)
    requires
        0 <= pos <= text.len(),
    ensures
        greedy_tokens(toks, unk, text, pos) == greedy_tokens(toks, unk, text.subrange(pos, text.len() as int), 0),
{
    lemma_greedy_shift_from(toks, unk, text, pos, pos);
}

} // verus!
