use vstd::prelude::*;
use crate::gguf::{
    after, copy_bytes, lemma_varint_bound, lossy_text, read_u32_at, read_u64_at, read_varint, spec_utf8_lossy, u32_at,
    u64_at, varint, GgufError,
};
use crate::quantize::{products_fit, shape_product};
use crate::text::{chars_of, contains_chars, seq_contains_seq};
use crate::tokenizer::{basic_vocab, fill_plain_numbered, vocab_view, Tokenizer, TokenizerConfig};

verus! {

// The tokenizer's reading of a GGUF file walks it as a file cursor: a read that runs past the
// end fails the whole reading, except inside the vocabulary, where it ends the vocabulary.

/// A string at `p`: a variable-length size, then that many bytes; empty, with nothing more
/// read, when the size is 0 or over 10000; none when the bytes run past the end.
pub open spec fn fstring(b: Seq<u8>, p: int) -> Option<(Seq<u8>, int)> {
    let (n0, q) = varint(b, p, 0, 0);
    let n = n0 as usize;
    if n == 0 || n > 10000 {
        Some((Seq::empty(), q))
    } else if q + n > b.len() {
        None
    } else {
        Some((b.subrange(q, q + n), q + n))
    }
}

/// The cursor after a value of type `vt` at `p`; none when it runs past the end.
pub open spec fn fvalue(b: Seq<u8>, p: int, vt: u32) -> Option<int> {
    let len = b.len() as int;
    let k: int = if vt == 0 || vt == 2 {
        4
    } else if vt == 1 {
        8
    } else if vt == 3 {
        1
    } else {
        0
    };
    if vt == 4 {
        match fstring(b, p) {
            Some((_, q)) => Some(q),
            None => None,
        }
    } else if vt == 5 {
        let (n0, q) = varint(b, p, 0, 0);
        let n = (n0 as usize) as int;
        if q + 4 + 4 * n > len {
            None
        } else {
            Some(q + 4 + 4 * n)
        }
    } else if p + k > len {
        None
    } else {
        Some(p + k)
    }
}

/// The cursor after metadata entries `i..count` from `p` on; none when one runs past the end.
pub open spec fn fmeta_loop(b: Seq<u8>, p: int, i: int, count: int) -> Option<int>
    decreases count - i,
{
    if i >= count {
        Some(p)
    } else {
        match fstring(b, p) {
            None => None,
            Some((_, q)) => if q + 4 > b.len() {
                None
            } else {
                match fvalue(b, q + 4, u32_at(b, q)) {
                    None => None,
                    Some(r) => fmeta_loop(b, r, i + 1, count),
                }
            },
        }
    }
}

/// A tensor description at `p`: (name, shape, data offset, cursor); none when it runs past
/// the end.
pub open spec fn ftensor_entry(b: Seq<u8>, p: int) -> Option<(Seq<u8>, Seq<usize>, usize, int)> {
    let len = b.len() as int;
    match fstring(b, p) {
        None => None,
        Some((name, q)) => if q + 4 > len {
            None
        } else {
            let nd = u32_at(b, q) as int;
            let r = q + 4 + 8 * nd;
            if r + 12 > len {
                None
            } else {
                Some((name, Seq::new(nd as nat, |j: int| u64_at(b, q + 4 + 8 * j) as usize), u64_at(b, r + 4) as usize, r + 12))
            }
        },
    }
}

/// The name marks the token embedding.
pub open spec fn is_embedding_name(name: Seq<char>) -> bool {
    seq_contains_seq(name, "token_embd"@) || seq_contains_seq(name, "embed_tokens"@)
}

/// Counting a tensor's bytes (four per value) and its end overflows.
pub open spec fn fsize_overflows(shape: Seq<usize>, off: usize) -> bool {
    !products_fit(shape) || shape_product(shape) * 4 > usize::MAX || off + shape_product(shape) * 4 > usize::MAX
}

/// How reading the tensor descriptions turns out.
pub enum ScanOutcome {
    /// The vocabulary size and offset the embedding gave (0 and 0 without one).
    Found(usize, usize),
    /// A description runs past the end.
    Short,
    /// Counting a tensor's bytes overflows.
    Overflows,
}

/// Descriptions `i..count` from `p` on, the embedding so far being `(vs, vo)`.
pub open spec fn ftensor_loop(b: Seq<u8>, p: int, i: int, count: int, vs: usize, vo: usize) -> ScanOutcome
    decreases count - i,
{
    if i >= count {
        ScanOutcome::Found(vs, vo)
    } else {
        match ftensor_entry(b, p) {
            None => ScanOutcome::Short,
            Some((name, shape, off, q)) => {
                let emb = is_embedding_name(spec_utf8_lossy(name)) && shape.len() >= 2;
                if fsize_overflows(shape, off) {
                    ScanOutcome::Overflows
                } else {
                    ftensor_loop(b, q, i + 1, count, if emb { shape[0] } else { vs }, if emb { off } else { vo })
                }
            },
        }
    }
}

/// A vocabulary entry at `p`: (token bytes, score bits, cursor); none when the entries end
/// there (a size of 0 or over 1000, or token bytes past the end). A score of four bytes is
/// kept; any other, or one past the end, counts as 0.
pub open spec fn fvocab_entry(b: Seq<u8>, p: int) -> Option<(Seq<u8>, u32, int)> {
    let len = b.len() as int;
    let (n0, q) = varint(b, p, 0, 0);
    let n = n0 as usize;
    if n == 0 || n > 1000 || q + n > len {
        None
    } else {
        let (s0, r) = varint(b, q + n, 0, 0);
        let sn = s0 as usize;
        if sn > 0 && sn <= 10 {
            if r + sn <= len {
                Some((b.subrange(q, q + n), if sn == 4 { u32_at(b, r) } else { 0 }, r + sn))
            } else {
                Some((b.subrange(q, q + n), 0, after(len, r, sn as int)))
            }
        } else {
            Some((b.subrange(q, q + n), 0, r))
        }
    }
}

/// Vocabulary entries `i..count` from `p` on, until one ends them.
pub open spec fn fvocab_loop(b: Seq<u8>, p: int, i: int, count: int) -> Seq<(Seq<u8>, u32)>
    decreases count - i,
{
    if i >= count {
        Seq::empty()
    } else {
        match fvocab_entry(b, p) {
            None => Seq::empty(),
            Some((t, s, q)) => seq![(t, s)] + fvocab_loop(b, q, i + 1, count),
        }
    }
}

/// The tokenizer's defaults, with a vocabulary size of `vs`.
pub open spec fn config_with_size(vs: usize) -> TokenizerConfig {
    TokenizerConfig {
        vocab_size: vs,
        bos_token: 1,
        eos_token: 2,
        eot_token: 2,
        sep_token: -1i32,
        nl_token: 13,
        pad_token: -1i32,
        unk_token: 0,
        add_bos: true,
        add_eos: false,
    }
}

/// The vocabulary, as (token bytes, score bits), read at `vo` for a size of `vs`: at most
/// `min(vs, 200000)` entries.
pub open spec fn fvocab(b: Seq<u8>, vs: usize, vo: usize) -> Seq<(Seq<u8>, u32)> {
    fvocab_loop(b, vo as int, 0, if vs < 200000 { vs as int } else { 200000 })
}

/// The vocabulary is read when the embedding gave an offset inside the file.
pub open spec fn vocab_readable(len: int, vs: usize, vo: usize) -> bool {
    vo > 0 && vs > 0 && vo < len
}

fn fstring_exec(b: &[u8], p: usize) -> (r: Option<(Vec<u8>, usize)>)
    requires
        p <= b@.len(),
    ensures
        match r {
            Some((s, q)) => fstring(b@, p as int) == Some((s@, q as int)) && q <= b@.len(),
            None => fstring(b@, p as int) is None,
        },
{
    let len = b.len();
    let (n0, q) = read_varint(b, p);
    proof {
        lemma_varint_bound(b@, p as int, 0, 0);
    }
    let n = n0 as usize;
    if n == 0 || n > 10000 {
        Some((Vec::new(), q))
    } else if len - q < n {
        None
    } else {
        Some((copy_bytes(b, q, q + n), q + n))
    }
}

fn fvalue_exec(b: &[u8], p: usize, vt: u32) -> (r: Option<usize>)
    requires
        p <= b@.len(),
    ensures
        match r {
            Some(q) => fvalue(b@, p as int, vt) == Some(q as int) && q <= b@.len(),
            None => fvalue(b@, p as int, vt) is None,
        },
{
    let len = b.len();
    let k: usize = if vt == 0 || vt == 2 {
        4
    } else if vt == 1 {
        8
    } else if vt == 3 {
        1
    } else {
        0
    };
    if vt == 4 {
        match fstring_exec(b, p) {
            Some((_, q)) => Some(q),
            None => None,
        }
    } else if vt == 5 {
        let (n0, q) = read_varint(b, p);
        proof {
            lemma_varint_bound(b@, p as int, 0, 0);
        }
        let n = n0 as usize;
        if len - q < 4 || n > (len - q - 4) / 4 {
            proof {
                assert(len - q >= 4 && n > (len - q - 4) / 4 ==> q + 4 + 4 * n > len) by (nonlinear_arith);
            }
            None
        } else {
            proof {
                assert(4 * n <= len - q - 4) by (nonlinear_arith)
                    requires
                        n <= (len - q - 4) / 4,
                        len - q >= 4,
                ;
            }
            Some(q + 4 + 4 * n)
        }
    } else if len - p < k {
        None
    } else {
        Some(p + k)
    }
}

fn fmeta_exec(b: &[u8], count: u64) -> (r: Option<usize>)
    requires
        8 <= b@.len(),
    ensures
        match r {
            Some(q) => fmeta_loop(b@, 8, 0, count as int) == Some(q as int) && q <= b@.len(),
            None => fmeta_loop(b@, 8, 0, count as int) is None,
        },
{
    let len = b.len();
    let mut p: usize = 8;
    let mut i: u64 = 0;
    while i < count
        invariant
            len == b@.len(),
            p <= len,
            i <= count,
            fmeta_loop(b@, 8, 0, count as int) == fmeta_loop(b@, p as int, i as int, count as int),
        decreases count - i,
    {
        let q = match fstring_exec(b, p) {
            Some((_, q)) => q,
            None => return None,
        };
        if len - q < 4 {
            return None;
        }
        let vt = read_u32_at(b, q);
        match fvalue_exec(b, q + 4, vt) {
            Some(r) => {
                p = r;
            },
            None => return None,
        }
        i += 1;
    }
    Some(p)
}

fn ftensor_entry_exec(b: &[u8], p: usize) -> (r: Option<(Vec<u8>, Vec<usize>, usize, usize)>)
    requires
        p <= b@.len(),
    ensures
        match r {
            Some(e) => ftensor_entry(b@, p as int) == Some((e.0@, e.1@, e.2, e.3 as int)) && e.3 <= b@.len(),
            None => ftensor_entry(b@, p as int) is None,
        },
{
    let len = b.len();
    let (name, q) = match fstring_exec(b, p) {
        Some(x) => x,
        None => return None,
    };
    if len - q < 4 {
        return None;
    }
    let nd = read_u32_at(b, q) as usize;
    let avail = (len - q - 4) / 8;
    if nd > avail || len - q - 4 - 8 * nd < 12 {
        proof {
            assert(nd > avail ==> q + 4 + 8 * nd > len) by (nonlinear_arith)
                requires
                    avail == (len - q - 4) / 8,
                    q + 4 <= len,
            ;
        }
        return None;
    }
    proof {
        assert(8 * nd <= len - q - 4) by (nonlinear_arith)
            requires
                nd <= avail,
                avail == (len - q - 4) / 8,
                q + 4 <= len,
        ;
    }
    let mut shape: Vec<usize> = Vec::new();
    let mut j: usize = 0;
    while j < nd
        invariant
            j <= nd,
            8 * nd <= len - q - 4,
            q + 4 <= len,
            len == b@.len(),
            shape@ == Seq::new(j as nat, |x: int| u64_at(b@, q + 4 + 8 * x) as usize),
        decreases nd - j,
    {
        proof {
            assert(q + 4 + 8 * j + 8 <= len) by (nonlinear_arith)
                requires
                    j < nd,
                    8 * nd <= len - q - 4,
            ;
        }
        shape.push(read_u64_at(b, q + 4 + 8 * j) as usize);
        proof {
            assert(shape@ =~= Seq::new((j + 1) as nat, |x: int| u64_at(b@, q + 4 + 8 * x) as usize));
        }
        j += 1;
    }
    let r = q + 4 + 8 * nd;
    let off = read_u64_at(b, r + 4) as usize;
    Some((name, shape, off, r + 12))
}

fn is_embedding_exec(name: &Vec<u8>) -> (r: bool)
    ensures
        r == is_embedding_name(spec_utf8_lossy(name@)),
{
    let text = lossy_text(name.as_slice());
    let cs = chars_of(text.as_str());
    contains_chars(&cs, &chars_of("token_embd")) || contains_chars(&cs, &chars_of("embed_tokens"))
}

fn size_overflows_exec(shape: &Vec<usize>, off: usize) -> (r: bool)
    ensures
        r == fsize_overflows(shape@, off),
{
    let mut n: usize = 1;
    let mut k: usize = 0;
    proof {
        assert(shape@.take(0) =~= Seq::<usize>::empty());
    }
    while k < shape.len()
        invariant
            k <= shape@.len(),
            n == shape_product(shape@.take(k as int)),
            forall|j: int| 0 <= j <= k ==> #[trigger] shape_product(shape@.take(j)) <= usize::MAX,
        decreases shape@.len() - k,
    {
        proof {
            assert(shape@.take(k + 1).drop_last() =~= shape@.take(k as int));
            assert(shape@.take(k + 1).last() == shape@[k as int]);
        }
        match n.checked_mul(shape[k]) {
            Some(m) => {
                n = m;
            },
            None => {
                assert(shape_product(shape@.take(k + 1)) > usize::MAX);
                return true;
            },
        }
        k += 1;
    }
    proof {
        assert(shape@.take(shape@.len() as int) =~= shape@);
    }
    match n.checked_mul(4) {
        None => true,
        Some(size) => off.checked_add(size).is_none(),
    }
}

fn ftensor_exec(b: &[u8], p0: usize, count: usize) -> (r: Option<Option<(usize, usize)>>)
    requires
        p0 <= b@.len(),
    ensures
        match ftensor_loop(b@, p0 as int, 0, count as int, 0, 0) {
            ScanOutcome::Found(vs, vo) => r == Some(Some((vs, vo))),
            ScanOutcome::Short => r == Some(None::<(usize, usize)>),
            ScanOutcome::Overflows => r is None,
        },
{
    let mut p = p0;
    let mut i: usize = 0;
    let mut vs: usize = 0;
    let mut vo: usize = 0;
    while i < count
        invariant
            p <= b@.len(),
            i <= count,
            ftensor_loop(b@, p0 as int, 0, count as int, 0, 0) == ftensor_loop(b@, p as int, i as int, count as int, vs, vo),
        decreases count - i,
    {
        let (name, shape, off, q) = match ftensor_entry_exec(b, p) {
            Some(e) => e,
            None => return Some(None),
        };
        let emb = is_embedding_exec(&name) && shape.len() >= 2;
        if size_overflows_exec(&shape, off) {
            return None;
        }
        if emb {
            vs = shape[0];
            vo = off;
        }
        p = q;
        i += 1;
    }
    Some(Some((vs, vo)))
}

fn fvocab_exec(b: &[u8], p0: usize, count: usize) -> (r: (Vec<String>, Vec<u32>))
    requires
        p0 <= b@.len(),
    ensures
        r.0@.len() == r.1@.len(),
        vocab_view(r.0@) == fvocab_loop(b@, p0 as int, 0, count as int).map_values(
            |e: (Seq<u8>, u32)| spec_utf8_lossy(e.0),
        ),
        r.1@ == fvocab_loop(b@, p0 as int, 0, count as int).map_values(|e: (Seq<u8>, u32)| e.1),
{
    let len = b.len();
    let ghost full = fvocab_loop(b@, p0 as int, 0, count as int);
    let mut tokens: Vec<String> = Vec::new();
    let mut scores: Vec<u32> = Vec::new();
    let mut p = p0;
    let mut i: usize = 0;
    let ghost mut done: Seq<(Seq<u8>, u32)> = Seq::empty();
    assert(full == done + fvocab_loop(b@, p as int, i as int, count as int));
    while i < count
        invariant
            len == b@.len(),
            p <= len,
            i <= count,
            full == done + fvocab_loop(b@, p as int, i as int, count as int),
            tokens@.len() == done.len(),
            scores@.len() == done.len(),
            vocab_view(tokens@) == done.map_values(|e: (Seq<u8>, u32)| spec_utf8_lossy(e.0)),
            scores@ == done.map_values(|e: (Seq<u8>, u32)| e.1),
        ensures
            tokens@.len() == scores@.len(),
            vocab_view(tokens@) == full.map_values(|e: (Seq<u8>, u32)| spec_utf8_lossy(e.0)),
            scores@ == full.map_values(|e: (Seq<u8>, u32)| e.1),
        decreases count - i,
    {
        let (n0, q) = read_varint(b, p);
        proof {
            lemma_varint_bound(b@, p as int, 0, 0);
        }
        let n = n0 as usize;
        if n == 0 || n > 1000 || len - q < n {
            proof {
                assert(fvocab_loop(b@, p as int, i as int, count as int) =~= Seq::<(Seq<u8>, u32)>::empty());
                assert(full =~= done);
            }
            break;
        }
        let tok = copy_bytes(b, q, q + n);
        let (s0, r) = read_varint(b, q + n);
        proof {
            lemma_varint_bound(b@, q + n, 0, 0);
        }
        let sn = s0 as usize;
        let (score, next): (u32, usize) = if sn > 0 && sn <= 10 {
            if len - r >= sn {
                (if sn == 4 { read_u32_at(b, r) } else { 0 }, r + sn)
            } else {
                (0, if r < len { len } else { r })
            }
        } else {
            (0, r)
        };
        let ghost e = (tok@, score);
        let text = lossy_text(tok.as_slice());
        proof {
            assert(fvocab_entry(b@, p as int) == Some((tok@, score, next as int)));
            assert(done + fvocab_loop(b@, p as int, i as int, count as int) =~= done.push(e) + fvocab_loop(
                b@,
                next as int,
                i + 1,
                count as int,
            ));
            let nv = vocab_view(tokens@.push(text));
            let want = done.push(e).map_values(|e: (Seq<u8>, u32)| spec_utf8_lossy(e.0));
            assert(text@ == spec_utf8_lossy(tok@));
            assert forall|x: int| 0 <= x < nv.len() implies nv[x] == want[x] by {
                if x < done.len() {
                    assert(tokens@.push(text)[x] == tokens@[x]);
                    assert(vocab_view(tokens@)[x] == tokens@[x]@);
                    assert(done.push(e)[x] == done[x]);
                } else {
                    assert(tokens@.push(text)[x] == text);
                    assert(done.push(e)[x] == e);
                }
            }
            assert(nv =~= want);
            assert(scores@.push(score) =~= done.push(e).map_values(|e: (Seq<u8>, u32)| e.1));
            done = done.push(e);
        }
        tokens.push(text);
        scores.push(score);
        p = next;
        i += 1;
    }
    proof {
        if i >= count {
            assert(fvocab_loop(b@, p as int, i as int, count as int) =~= Seq::<(Seq<u8>, u32)>::empty());
        }
    }
    (tokens, scores)
}

/// Reads a tokenizer out of the bytes of a GGUF file: after the magic, the metadata entries
/// from byte 8 (their count in the last eight bytes) are skipped, a `u32` tensor count and
/// alignment are read, and the tensor descriptions are scanned for the token embedding
/// (a name holding `token_embd` or `embed_tokens` and at least two dimensions: the first is
/// the vocabulary size, 32000 without one). When the embedding's offset lies inside the file,
/// up to `min(size, 200000)` vocabulary entries are read there (see `fvocab`) and numbered
/// `tok_` entries fill it up to the size; otherwise the fallback vocabulary of that size is
/// used. Fails when the header is short, the magic is wrong, or a read runs past the end;
/// none when counting a tensor's bytes overflows.
pub fn tokenizer_from_gguf(bytes: &[u8]) -> (r: Option<Result<Tokenizer, GgufError>>)
    ensures
        bytes@.len() < 4 ==> r == Some(Err::<Tokenizer, GgufError>(GgufError::Truncated)),
        bytes@.len() >= 4 && u32_at(bytes@, 0) != 0x46554747 ==> r == Some(Err::<Tokenizer, GgufError>(GgufError::NotGguf)),
        bytes@.len() >= 4 && bytes@.len() < 8 && u32_at(bytes@, 0) == 0x46554747 ==> r == Some(
            Err::<Tokenizer, GgufError>(GgufError::Truncated),
        ),
        bytes@.len() >= 8 && u32_at(bytes@, 0) == 0x46554747 ==> {
            let len = bytes@.len() as int;
            match fmeta_loop(bytes@, 8, 0, u64_at(bytes@, len - 8) as int) {
                None => r == Some(Err::<Tokenizer, GgufError>(GgufError::UnexpectedEnd)),
                Some(p) => if p + 8 > len {
                    r == Some(Err::<Tokenizer, GgufError>(GgufError::UnexpectedEnd))
                } else {
                    match ftensor_loop(bytes@, p + 8, 0, (u32_at(bytes@, p) as usize) as int, 0, 0) {
                        ScanOutcome::Short => r == Some(Err::<Tokenizer, GgufError>(GgufError::UnexpectedEnd)),
                        ScanOutcome::Overflows => r is None,
                        ScanOutcome::Found(vs0, vo) => {
                            let vs: usize = if vs0 == 0 { 32000 } else { vs0 };
                            r matches Some(Ok(t)) && t.config() == config_with_size(vs) && if vocab_readable(len, vs, vo) {
                                let entries = fvocab(bytes@, vs, vo);
                                &&& t.vocab() == fill_plain_numbered(
                                    entries.map_values(|e: (Seq<u8>, u32)| spec_utf8_lossy(e.0)),
                                    vs as nat,
                                )
                                &&& t.scores() == entries.map_values(|e: (Seq<u8>, u32)| e.1) + Seq::new(
                                    (t.vocab().len() - entries.len()) as nat,
                                    |i: int| 0u32,
                                )
                            } else {
                                &&& t.vocab() == basic_vocab(vs as nat)
                                &&& t.scores() == Seq::new(t.vocab().len(), |i: int| 0u32)
                            }
                        },
                    }
                },
            }
        },
{
    let len = bytes.len();
    if len < 4 {
        return Some(Err(GgufError::Truncated));
    }
    if read_u32_at(bytes, 0) != 0x46554747 {
        return Some(Err(GgufError::NotGguf));
    }
    if len < 8 {
        return Some(Err(GgufError::Truncated));
    }
    let mc = read_u64_at(bytes, len - 8);
    let p = match fmeta_exec(bytes, mc) {
        Some(p) => p,
        None => return Some(Err(GgufError::UnexpectedEnd)),
    };
    if len - p < 8 {
        return Some(Err(GgufError::UnexpectedEnd));
    }
    let tc = read_u32_at(bytes, p) as usize;
    let (vs0, vo) = match ftensor_exec(bytes, p + 8, tc) {
        None => return None,
        Some(None) => return Some(Err(GgufError::UnexpectedEnd)),
        Some(Some(x)) => x,
    };
    let vs: usize = if vs0 == 0 { 32000 } else { vs0 };
    let mut t = Tokenizer::new();
    t.set_vocab_size(vs);
    if vo > 0 && vs > 0 && vo < len {
        let max_try: usize = if vs < 200000 { vs } else { 200000 };
        let (tokens, scores) = fvocab_exec(bytes, vo, max_try);
        let ghost entries = fvocab(bytes@, vs, vo);
        t.set_vocabulary(tokens, scores);
        t.pad_vocabulary(vs);
        proof {
            assert(entries.map_values(|e: (Seq<u8>, u32)| e.1).len() == entries.len());
        }
    } else {
        t.generate_basic_vocab();
    }
    Some(Ok(t))
}

} // verus!
