use vstd::prelude::*;
use crate::types::Token;
use std::collections::HashMap;
use std::collections::hash_map::DefaultHasher;
use vstd::std_specs::hash::DefaultHasherAdditionalSpecFns;
use vstd::std_specs::hash::spec_keys_iter;
use vstd::std_specs::iter::IteratorSpec;
use std::hash::Hasher;
use std::time::{Duration, SystemTime, UNIX_EPOCH};

verus! {

/// Counters reported by a prompt cache.
#[derive(Debug, Clone)]
pub struct CacheStats {
    pub num_cached: usize,
    pub total_uses: usize,
    pub max_size: usize,
}

/// Where the chunk that starts at `start` ends: `chunk` tokens later, or at the end.
pub open spec fn chunk_end(len: nat, start: nat, chunk: nat) -> nat {
    if start + chunk < len {
        start + chunk
    } else {
        len
    }
}

/// The chunks that `next_chunk` hands out one after another from position `start` on.
pub open spec fn spec_chunks(tokens: Seq<Token>, start: nat, chunk: nat) -> Seq<Seq<Token>>
    decreases tokens.len() - start,
{
    if start >= tokens.len() || chunk == 0 {
        Seq::empty()
    } else {
        let end = chunk_end(tokens.len(), start, chunk);
        seq![tokens.subrange(start as int, end as int)] + spec_chunks(tokens, end, chunk)
    }
}

/// Chunking loses nothing and reorders nothing: the chunks, joined, are the tokens from
/// `start` on, and each holds between 1 and `chunk` tokens.
pub proof fn lemma_chunks_cover(tokens: Seq<Token>, start: nat, chunk: nat)
    requires
        chunk > 0,
        start <= tokens.len(),
    ensures
        spec_chunks(tokens, start, chunk).flatten() == tokens.subrange(start as int, tokens.len() as int),
        forall|i: int| 0 <= i < spec_chunks(tokens, start, chunk).len()
            ==> 1 <= #[trigger] spec_chunks(tokens, start, chunk)[i].len() <= chunk,
    decreases tokens.len() - start,
{
    let cs = spec_chunks(tokens, start, chunk);
    if start >= tokens.len() {
        assert(tokens.subrange(start as int, tokens.len() as int) =~= Seq::<Token>::empty());
    } else {
        let end = chunk_end(tokens.len(), start, chunk);
        let first = tokens.subrange(start as int, end as int);
        lemma_chunks_cover(tokens, end, chunk);
        let rest = spec_chunks(tokens, end, chunk);
        vstd::seq_lib::lemma_flatten_concat(seq![first], rest);
        seq![first].lemma_flatten_one_element();
        assert(tokens.subrange(start as int, tokens.len() as int) =~= first + tokens.subrange(
            end as int,
            tokens.len() as int,
        ));
        assert forall|i: int| 0 <= i < cs.len() implies 1 <= #[trigger] cs[i].len() <= chunk by {
            if i > 0 {
                assert(cs[i] == rest[i - 1]);
            }
        }
    }
}

/// Chunking `tokens` from `start` on gives `ceil((len - start) / chunk)` chunks, and every
/// chunk but the last holds exactly `chunk` tokens.
pub proof fn lemma_chunk_count(tokens: Seq<Token>, start: nat, chunk: nat)
    requires
        chunk > 0,
        start <= tokens.len(),
    ensures
        spec_chunks(tokens, start, chunk).len() == (tokens.len() - start + chunk - 1) / (chunk as int),
        forall|i: int| 0 <= i < spec_chunks(tokens, start, chunk).len() - 1
            ==> #[trigger] spec_chunks(tokens, start, chunk)[i].len() == chunk,
    decreases tokens.len() - start,
{
    let cs = spec_chunks(tokens, start, chunk);
    let c = chunk as int;
    if start >= tokens.len() {
        vstd::arithmetic::div_mod::lemma_div_multiples_vanish_fancy(0, c - 1, c);
        assert(c * 0 + (c - 1) == c - 1);
    } else {
        let end = chunk_end(tokens.len(), start, chunk);
        lemma_chunk_count(tokens, end, chunk);
        let rest = spec_chunks(tokens, end, chunk);
        assert(cs == seq![tokens.subrange(start as int, end as int)] + rest);
        if start + chunk < tokens.len() {
            let y = tokens.len() - end + c - 1;
            vstd::arithmetic::div_mod::lemma_div_plus_one(y, c);
            assert(tokens.len() - start + c - 1 == c + y);
        } else {
            let x = tokens.len() - start + c - 1;
            vstd::arithmetic::div_mod::lemma_div_multiples_vanish_fancy(1, x - c, c);
            assert(c * 1 + (x - c) == x);
            vstd::arithmetic::div_mod::lemma_div_multiples_vanish_fancy(0, c - 1, c);
            assert(c * 0 + (c - 1) == c - 1);
            assert(tokens.len() - end + c - 1 == c - 1);
        }
        assert forall|i: int| 0 <= i < cs.len() - 1 implies #[trigger] cs[i].len() == chunk by {
            if i > 0 {
                assert(cs[i] == rest[i - 1]);
            }
        }
    }
}

broadcast use vstd::std_specs::hash::group_hash_axioms;

/// Each `next_chunk` call hands out the first of the chunks still to come, and the prompt it
/// leaves has exactly the rest to come: so repeated calls hand out `spec_chunks` of the prompt,
/// in order, and a complete prompt has none left.
pub proof fn lemma_next_chunk_takes_first(b: (Seq<Token>, nat, nat))
    requires
        b.2 > 0,
    ensures
        prefill_complete(b) <==> spec_chunks(b.0, b.1, b.2).len() == 0,
        !prefill_complete(b) ==> spec_chunks(b.0, b.1, b.2) == seq![prefill_chunk(b)] + spec_chunks(
            prefill_advance(b).0,
            prefill_advance(b).1,
            prefill_advance(b).2,
        ),
{
    if !prefill_complete(b) {
        let end = chunk_end(b.0.len(), b.1, b.2);
        assert(spec_chunks(b.0, b.1, b.2) == seq![b.0.subrange(b.1 as int, end as int)] + spec_chunks(b.0, end, b.2));
        assert(spec_chunks(b.0, b.1, b.2).len() > 0);
    }
}

/// A prompt whose KV cache is kept, with its bookkeeping. `L` holds one layer's cached keys
/// and values.
#[derive(Clone)]
pub struct CachedPrompt<L> {
    pub prompt_hash: u64,
    pub tokens: Vec<Token>,
    pub kv_cache: Vec<L>,
    pub created_at: u64,
    pub last_used: u64,
    pub use_count: usize,
}

#[verifier::external_type_specification]
#[verifier::external_body]
pub struct ExSystemTime(SystemTime);

/// `std::time::SystemTime::now`: the system clock's reading; nothing is stated of it.
#[verifier::external_body]
fn system_now() -> SystemTime {
    SystemTime::now()
}

/// `SystemTime::duration_since(UNIX_EPOCH)`: the time since the epoch, none when the clock
/// reads before it. Which of the two comes depends on the clock, so nothing is stated.
#[verifier::external_body]
fn since_epoch(t: &SystemTime) -> Option<Duration> {
    match t.duration_since(UNIX_EPOCH) {
        Ok(d) => Some(d),
        Err(_) => None,
    }
}

/// `Duration::as_secs`: the whole seconds of `d`. `Duration` is opaque here, so nothing is
/// stated of the value.
#[verifier::external_body]
fn whole_secs(d: Duration) -> u64 {
    d.as_secs()
}

/// The whole seconds since the Unix epoch on the system clock; none when the clock reads
/// before the epoch.
fn current_time() -> Option<u64> {
    match since_epoch(&system_now()) {
        Some(d) => Some(whole_secs(d)),
        None => None,
    }
}

/// The time stamp a prompt gets: the seconds since the epoch, 0 when the clock reads before it.
fn stamp_now() -> u64 {
    match current_time() {
        Some(s) => s,
        None => 0,
    }
}

/// The writes `<str as Hash>::hash` makes into a hasher for a string: a function of the
/// string alone.
pub uninterp spec fn spec_str_hash_writes(s: Seq<char>) -> Seq<Seq<u8>>;

/// `<str as Hash>::hash`: feeds `s` into `hasher`; the writes it makes depend on `s` alone.
#[verifier::external_body]
fn hash_str_into(s: &str, hasher: &mut DefaultHasher)
    ensures
        final(hasher)@ == old(hasher)@ + spec_str_hash_writes(s@),
{
    std::hash::Hash::hash(s, hasher)
}

/// The use counts of the prompts of `m`, summed.
pub open spec fn uses_total<L>(m: Map<u64, CachedPrompt<L>>) -> int
    decreases m.dom().len(),
    when m.dom().finite()
{
    if m.dom().len() == 0 {
        0
    } else {
        let k = m.dom().choose();
        m[k].use_count + uses_total(m.remove(k))
    }
}

/// The use counts of the prompts of `m` under the keys `ks`, summed.
pub open spec fn uses_of<L>(m: Map<u64, CachedPrompt<L>>, ks: Seq<u64>) -> int
    decreases ks.len(),
{
    if ks.len() == 0 {
        0
    } else {
        uses_of(m, ks.drop_last()) + m[ks.last()].use_count
    }
}

proof fn lemma_uses_of_remove<L>(m: Map<u64, CachedPrompt<L>>, ks: Seq<u64>, p: int)
    requires
        0 <= p < ks.len(),
    ensures
        uses_of(m, ks) == m[ks[p]].use_count + uses_of(m, ks.remove(p)),
    decreases ks.len(),
{
    if p < ks.len() - 1 {
        lemma_uses_of_remove(m, ks.drop_last(), p);
        assert(ks.remove(p).drop_last() =~= ks.drop_last().remove(p));
        assert(ks.remove(p).last() == ks.last());
    } else {
        assert(ks.remove(p) =~= ks.drop_last());
    }
}

proof fn lemma_uses_of_other_map<L>(m: Map<u64, CachedPrompt<L>>, m2: Map<u64, CachedPrompt<L>>, ks: Seq<u64>)
    requires
        forall|i: int| 0 <= i < ks.len() ==> m2.contains_key(#[trigger] ks[i]) && m2[ks[i]] == m[ks[i]],
    ensures
        uses_of(m, ks) == uses_of(m2, ks),
    decreases ks.len(),
{
    if ks.len() > 0 {
        lemma_uses_of_other_map(m, m2, ks.drop_last());
        assert(m2[ks.last()] == m[ks[ks.len() - 1]]);
    }
}

proof fn lemma_uses_prefix<L>(m: Map<u64, CachedPrompt<L>>, ks: Seq<u64>, i: int)
    requires
        0 <= i <= ks.len(),
    ensures
        uses_of(m, ks.take(i)) <= uses_of(m, ks),
    decreases ks.len(),
{
    if i < ks.len() {
        assert(ks.take(i) =~= ks.drop_last().take(i));
        lemma_uses_prefix(m, ks.drop_last(), i);
    } else {
        assert(ks.take(i) =~= ks);
    }
}

/// The total of the use counts does not depend on the order the prompts are visited in.
pub proof fn lemma_uses_any_order<L>(m: Map<u64, CachedPrompt<L>>, ks: Seq<u64>)
    requires
        m.dom().finite(),
        ks.no_duplicates(),
        ks.to_set() == m.dom(),
    ensures
        uses_of(m, ks) == uses_total(m),
    decreases ks.len(),
{
    ks.unique_seq_to_set();
    if ks.len() == 0 {
        assert(m.dom().len() == 0);
    } else {
        assert(m.dom().len() > 0);
        let k = m.dom().choose();
        assert(ks.to_set().contains(k));
        let p = ks.index_of(k);
        lemma_uses_of_remove(m, ks, p);
        let rest = ks.remove(p);
        let m2 = m.remove(k);
        assert(rest.to_set() =~= m2.dom()) by {
            assert forall|x: u64| rest.to_set().contains(x) <==> m2.dom().contains(x) by {
                if rest.to_set().contains(x) {
                    let i = rest.index_of(x);
                    if i < p {
                        assert(rest[i] == ks[i]);
                    } else {
                        assert(rest[i] == ks[i + 1]);
                    }
                }
                if m2.dom().contains(x) {
                    assert(ks.to_set().contains(x));
                    let j = ks.index_of(x);
                    if j < p {
                        assert(rest[j] == x);
                    } else {
                        assert(j != p);
                        assert(rest[j - 1] == x);
                    }
                }
            }
        }
        assert(rest.no_duplicates()) by {
            assert forall|i: int, j: int| 0 <= i < j < rest.len() implies rest[i] != rest[j] by {
                let i2 = if i < p { i } else { i + 1 };
                let j2 = if j < p { j } else { j + 1 };
                assert(rest[i] == ks[i2]);
                assert(rest[j] == ks[j2]);
            }
        }
        lemma_uses_any_order(m2, rest);
        assert forall|i: int| 0 <= i < rest.len() implies m.contains_key(#[trigger] rest[i]) && m[rest[i]] == m2[rest[i]] by {
            let i2 = if i < p { i } else { i + 1 };
            assert(rest[i] == ks[i2]);
            assert(ks.to_set().contains(ks[i2]));
        }
        lemma_uses_of_other_map(m2, m, rest);
    }
}

/// `m1` is `m0` with one of its least recently used prompts dropped (unchanged when `m0` is
/// empty).
pub open spec fn evicted_oldest<L>(m0: Map<u64, CachedPrompt<L>>, m1: Map<u64, CachedPrompt<L>>) -> bool {
    if m0.dom().len() == 0 {
        m1 == m0
    } else {
        exists|k: u64|
            #![trigger m0.remove(k)]
            m0.contains_key(k) && (forall|j: u64| #[trigger] m0.contains_key(j) ==> m0[k].last_used <= m0[j].last_used) && m1
                == m0.remove(k)
    }
}

/// `m` is `m0` (kept with capacity `cap`) after keeping a prompt under `prompt_hash`: when
/// `m0` holds `cap` prompts or more, one of its least recently used is dropped first; then the
/// new prompt, used once, is kept under the hash.
pub open spec fn prompt_inserted<L>(
    m0: Map<u64, CachedPrompt<L>>,
    cap: usize,
    m: Map<u64, CachedPrompt<L>>,
    prompt_hash: u64,
    tokens: Vec<Token>,
    kv_cache: Vec<L>,
) -> bool {
    &&& exists|m1: Map<u64, CachedPrompt<L>>|
        {
            &&& (if m0.len() >= cap {
                evicted_oldest(m0, m1)
            } else {
                m1 == m0
            })
            &&& m.remove(prompt_hash) == #[trigger] m1.remove(prompt_hash)
        }
    &&& m.contains_key(prompt_hash)
    &&& m[prompt_hash].prompt_hash == prompt_hash
    &&& m[prompt_hash].tokens == tokens
    &&& m[prompt_hash].kv_cache == kv_cache
    &&& m[prompt_hash].use_count == 1
}

/// Keeping a prompt never takes a cache beyond its capacity (or beyond one prompt when the
/// capacity is 0): the bound holds of every cache built by `new` and `insert`.
pub proof fn lemma_insert_keeps_bound<L>(
    m0: Map<u64, CachedPrompt<L>>,
    cap: usize,
    m: Map<u64, CachedPrompt<L>>,
    prompt_hash: u64,
    tokens: Vec<Token>,
    kv_cache: Vec<L>,
)
    requires
        m0.dom().finite(),
        m0.len() <= if cap > 0 { cap as nat } else { 1 },
        prompt_inserted(m0, cap, m, prompt_hash, tokens, kv_cache),
    ensures
        m.dom().finite(),
        m.len() <= if cap > 0 { cap as nat } else { 1 },
{
    let m1 = choose|m1: Map<u64, CachedPrompt<L>>|
        {
            &&& (if m0.len() >= cap {
                evicted_oldest(m0, m1)
            } else {
                m1 == m0
            })
            &&& m.remove(prompt_hash) == #[trigger] m1.remove(prompt_hash)
        };
    if m0.len() >= cap && m0.dom().len() > 0 {
        let k = choose|k: u64|
            #![trigger m0.remove(k)]
            m0.contains_key(k) && (forall|j: u64| #[trigger] m0.contains_key(j) ==> m0[k].last_used <= m0[j].last_used) && m1
                == m0.remove(k);
        assert(m1.dom() =~= m0.dom().remove(k));
    }
    assert(m1.dom().finite());
    assert(m.remove(prompt_hash).dom() =~= m1.dom().remove(prompt_hash));
    assert(m.dom() =~= m.remove(prompt_hash).dom().insert(prompt_hash));
    vstd::set::axiom_set_remove_len(m1.dom(), prompt_hash);
    vstd::set::axiom_set_insert_len(m.remove(prompt_hash).dom(), prompt_hash);
}

/// Keeps the KV caches of recent prompts, by prompt hash, up to a number of prompts; when
/// full, a new prompt replaces one of the least recently used.
pub struct PromptCache<L> {
    cache: HashMap<u64, CachedPrompt<L>>,
    max_cache_size: usize,
}

impl<L: Clone> PromptCache<L> {
    /// The kept prompts, by hash.
    pub closed spec fn prompts(&self) -> Map<u64, CachedPrompt<L>> {
        self.cache@
    }

    /// How many prompts are kept before one is replaced.
    pub closed spec fn capacity(&self) -> usize {
        self.max_cache_size
    }

    /// An empty cache for `max_cache_size` prompts.
    pub fn new(max_cache_size: usize) -> (c: Self)
        ensures
            c.prompts() == Map::<u64, CachedPrompt<L>>::empty(),
            c.capacity() == max_cache_size,
    {
        PromptCache { cache: HashMap::new(), max_cache_size }
    }

    /// A copy of the prompt kept under `prompt_hash`, marked as used once more and now (the
    /// kept prompt itself is not changed); none when there is none.
    pub fn get(&self, prompt_hash: u64) -> (r: Option<CachedPrompt<L>>)
        requires
            self.prompts().contains_key(prompt_hash) ==> self.prompts()[prompt_hash].use_count < usize::MAX,
        ensures
            !self.prompts().contains_key(prompt_hash) ==> r is None,
            self.prompts().contains_key(prompt_hash) ==> (r matches Some(c) && {
                let k = self.prompts()[prompt_hash];
                &&& c.prompt_hash == k.prompt_hash
                &&& c.tokens@ == k.tokens@
                &&& c.kv_cache@.len() == k.kv_cache@.len()
                &&& forall|i: int| 0 <= i < k.kv_cache@.len() ==> cloned(k.kv_cache@[i], #[trigger] c.kv_cache@[i])
                &&& c.created_at == k.created_at
                &&& c.use_count == k.use_count + 1
            }),
    {
        match self.cache.get(&prompt_hash) {
            Some(kept) => {
                let mut cached = CachedPrompt {
                    prompt_hash: kept.prompt_hash,
                    tokens: kept.tokens.clone(),
                    kv_cache: kept.kv_cache.clone(),
                    created_at: kept.created_at,
                    last_used: kept.last_used,
                    use_count: kept.use_count,
                };
                proof {
                    assert(cached.tokens@ =~= kept.tokens@);
                }
                cached.last_used = stamp_now();
                cached.use_count += 1;
                Some(cached)
            },
            None => None,
        }
    }

    /// Keeps a prompt under `prompt_hash`, used once, created and used now. When the cache
    /// already holds `capacity` prompts or more, one of the least recently used is dropped
    /// first. A prompt already kept under the hash is replaced.
    pub fn insert(&mut self, prompt_hash: u64, tokens: Vec<Token>, kv_cache: Vec<L>)
        ensures
            final(self).capacity() == old(self).capacity(),
            prompt_inserted(old(self).prompts(), old(self).capacity(), final(self).prompts(), prompt_hash, tokens, kv_cache),
    {
        let ghost m0 = self.cache@;
        if self.cache.len() >= self.max_cache_size {
            self.evict_oldest();
        } else {
            proof {
                assert(evicted_oldest(m0, m0) || true);
            }
        }
        let ghost m1 = self.cache@;
        let cached = CachedPrompt {
            prompt_hash,
            tokens,
            kv_cache,
            created_at: stamp_now(),
            last_used: stamp_now(),
            use_count: 1,
        };
        self.cache.insert(prompt_hash, cached);
        proof {
            assert(self.cache@.remove(prompt_hash) =~= m1.remove(prompt_hash));
        }
    }

    /// Drops the prompt kept under `prompt_hash`, if any.
    pub fn invalidate(&mut self, prompt_hash: u64)
        ensures
            final(self).prompts() == old(self).prompts().remove(prompt_hash),
            final(self).capacity() == old(self).capacity(),
    {
        self.cache.remove(&prompt_hash);
    }

    /// Drops every prompt.
    pub fn clear(&mut self)
        ensures
            final(self).prompts() == Map::<u64, CachedPrompt<L>>::empty(),
            final(self).capacity() == old(self).capacity(),
    {
        self.cache.clear();
    }

    /// How many prompts are kept, how often they were used in all, and the capacity.
    pub fn stats(&self) -> (r: CacheStats)
        requires
            uses_total(self.prompts()) <= usize::MAX,
        ensures
            r.num_cached == self.prompts().len(),
            r.total_uses == uses_total(self.prompts()),
            r.max_size == self.capacity(),
    {
        let ghost m = self.cache@;
        let mut total: usize = 0;
        for k in it: self.cache.keys()
            invariant
                m == self.cache@,
                m.dom().finite(),
                it.seq().unref().to_set() == m.dom(),
                it.seq().unref().no_duplicates(),
                0 <= it.index() <= it.seq().len(),
                total == uses_of(m, it.seq().unref().take(it.index())),
                uses_total(m) <= usize::MAX,
        {
            let ghost ks = it.seq().unref();
            let ghost i = it.index();
            proof {
                lemma_uses_any_order(m, ks);
                lemma_uses_prefix(m, ks, i + 1);
                assert(ks.take(i + 1).drop_last() =~= ks.take(i));
                assert(ks.take(i + 1).last() == *k);
                assert(ks.to_set().contains(ks[i]));
            }
            let c = match self.cache.get(k) {
                Some(p) => p.use_count,
                None => 0,
            };
            total = total + c;
        }
        proof {
            let ks = spec_keys_iter(&self.cache).remaining().unref();
            assert(ks.take(ks.len() as int) =~= ks);
            lemma_uses_any_order(m, ks);
        }
        CacheStats { num_cached: self.cache.len(), total_uses: total, max_size: self.max_cache_size }
    }

    /// Drops one of the least recently used prompts (the first met, in the map's order).
    fn evict_oldest(&mut self)
        ensures
            evicted_oldest(old(self).cache@, final(self).cache@),
            final(self).max_cache_size == old(self).max_cache_size,
    {
        let ghost m = self.cache@;
        let mut best: Option<(u64, u64)> = None;
        for k in it: self.cache.keys()
            invariant
                m == self.cache@,
                it.seq().unref().to_set() == m.dom(),
                0 <= it.index() <= it.seq().len(),
                (it.index() == 0) == (best is None),
                best matches Some((bk, bl)) ==> m.contains_key(bk) && m[bk].last_used == bl && forall|i: int|
                    0 <= i < it.index() ==> bl <= #[trigger] m[*it.seq()[i]].last_used,
        {
            let ghost i = it.index();
            proof {
                assert(it.seq().unref().to_set().contains(it.seq().unref()[i]));
            }
            let lu = match self.cache.get(k) {
                Some(p) => p.last_used,
                None => 0,
            };
            match best {
                None => {
                    best = Some((*k, lu));
                },
                Some((_, bl)) => {
                    if lu < bl {
                        best = Some((*k, lu));
                    }
                },
            }
        }
        let ghost ks = spec_keys_iter(&self.cache).remaining().unref();
        match best {
            Some((k, bl)) => {
                self.cache.remove(&k);
                proof {
                    assert forall|j: u64| #[trigger] m.contains_key(j) implies m[k].last_used <= m[j].last_used by {
                        assert(ks.to_set().contains(j));
                        let p = ks.index_of(j);
                        assert(ks[p] == j);
                    }
                    assert(m.remove(k) == self.cache@);
                }
            },
            None => {
                proof {
                    assert(ks.len() == 0);
                    assert(m.dom() =~= ks.to_set());
                }
            },
        }
    }

    /// A 64-bit hash of a prompt: `<str as Hash>::hash` into a fresh `DefaultHasher`.
    pub fn hash_prompt(prompt: &str) -> (r: u64)
        ensures
            r == DefaultHasher::spec_finish(spec_str_hash_writes(prompt@)),
    {
        let mut hasher = DefaultHasher::new();
        hash_str_into(prompt, &mut hasher);
        proof {
            assert(hasher@ =~= spec_str_hash_writes(prompt@));
        }
        hasher.finish()
    }
}

/// Feeds long prompts to the model in chunks of at most `max_chunk_size` tokens, and keeps a
/// prompt cache.
pub struct ChunkedPrefill<L> {
    max_chunk_size: usize,
    prompt_cache: PromptCache<L>,
}

/// Where the last chunk of a prompt of `len` tokens starts, in chunks of `chunk` tokens.
pub open spec fn last_chunk_start(len: int, chunk: int) -> int {
    ((len + chunk - 1) / chunk - 1) * chunk
}

impl<L: Clone> ChunkedPrefill<L> {
    /// Tokens per chunk at most.
    pub closed spec fn chunk_size(&self) -> usize {
        self.max_chunk_size
    }

    /// The prompt cache.
    pub closed spec fn cache(&self) -> PromptCache<L> {
        self.prompt_cache
    }

    /// Chunks of at most `max_chunk_size` tokens, and an empty cache for `max_cache_size`
    /// prompts.
    pub fn new(max_chunk_size: usize, max_cache_size: usize) -> (c: Self)
        ensures
            c.chunk_size() == max_chunk_size,
            c.cache().prompts() == Map::<u64, CachedPrompt<L>>::empty(),
            c.cache().capacity() == max_cache_size,
    {
        ChunkedPrefill { max_chunk_size, prompt_cache: PromptCache::new(max_cache_size) }
    }

    /// Runs `process_fn` on each chunk of `tokens` in order and returns what it gave for the
    /// last one (for a single chunk, for all of `tokens`); nothing for an empty prompt.
    pub fn process_prompt<T, F: Fn(&[Token]) -> Vec<T>>(&self, tokens: &[Token], process_fn: F) -> (r: Vec<T>)
        requires
            self.chunk_size() > 0,
            tokens@.len() + self.chunk_size() <= usize::MAX,
            forall|s: &[Token]| #[trigger] process_fn.requires((s,)),
        ensures
            tokens@.len() == 0 ==> r@.len() == 0,
            tokens@.len() > 0 ==> exists|s: &[Token]|
                #[trigger] process_fn.ensures((s,), r) && s@ == tokens@.subrange(
                    last_chunk_start(tokens@.len() as int, self.chunk_size() as int),
                    tokens@.len() as int,
                ),
    {
        let cs = self.max_chunk_size;
        let len = tokens.len();
        let num_chunks = (len + cs - 1) / cs;
        proof {
            assert((num_chunks - 1) * cs < len || len == 0) by (nonlinear_arith)
                requires
                    num_chunks == (len + cs - 1) / (cs as int),
                    cs > 0,
            ;
            assert(len == 0 ==> num_chunks == 0) by (nonlinear_arith)
                requires
                    num_chunks == (len + cs - 1) / (cs as int),
                    cs > 0,
            ;
            assert(len > 0 ==> num_chunks >= 1) by (nonlinear_arith)
                requires
                    num_chunks == (len + cs - 1) / (cs as int),
                    cs > 0,
            ;
        }
        let mut all_logits: Vec<T> = Vec::new();
        let mut chunk_idx: usize = 0;
        while chunk_idx < num_chunks
            invariant
                chunk_idx <= num_chunks,
                cs == self.max_chunk_size,
                cs > 0,
                len == tokens@.len(),
                len + cs <= usize::MAX,
                num_chunks == (len + cs - 1) / (cs as int),
                num_chunks > 0 ==> (num_chunks - 1) * cs < len,
                forall|s: &[Token]| #[trigger] process_fn.requires((s,)),
                chunk_idx == 0 ==> all_logits@.len() == 0,
                chunk_idx == num_chunks && num_chunks > 0 ==> exists|s: &[Token]|
                    #[trigger] process_fn.ensures((s,), all_logits) && s@ == tokens@.subrange(
                        last_chunk_start(len as int, cs as int),
                        len as int,
                    ),
            decreases num_chunks - chunk_idx,
        {
            proof {
                assert(chunk_idx * cs <= (num_chunks - 1) * cs) by (nonlinear_arith)
                    requires
                        chunk_idx < num_chunks,
                        cs > 0,
                ;
            }
            let start = chunk_idx * cs;
            let end = if start + cs < len { start + cs } else { len };
            let chunk = &tokens[start..end];
            let chunk_logits = process_fn(chunk);
            if chunk_idx == num_chunks - 1 {
                proof {
                    assert(start + cs >= len) by (nonlinear_arith)
                        requires
                            start == (num_chunks - 1) * cs,
                            num_chunks == (len + cs - 1) / (cs as int),
                            cs > 0,
                    ;
                    assert(start == last_chunk_start(len as int, cs as int));
                    assert(chunk@ == tokens@.subrange(start as int, len as int));
                }
                all_logits = chunk_logits;
            }
            chunk_idx += 1;
        }
        all_logits
    }

    /// The prompt cache.
    pub fn get_cache(&self) -> (r: &PromptCache<L>)
        ensures
            *r == self.cache(),
    {
        &self.prompt_cache
    }
}

/// A prompt fed to the model a chunk at a time.
pub struct PrefillBatch {
    pub tokens: Vec<Token>,
    pub start_pos: usize,
    pub chunk_size: usize,
}

impl PrefillBatch {
    pub fn new(tokens: Vec<Token>, chunk_size: usize) -> (b: Self)
        ensures
            b.tokens@ == tokens@,
            b.start_pos == 0,
            b.chunk_size == chunk_size,
    {
        PrefillBatch { start_pos: 0, tokens, chunk_size }
    }

    /// The next chunk of at most `chunk_size` tokens, or `None` once every token was handed out.
    pub fn next_chunk(&mut self) -> (r: Option<&[Token]>)
        ensures
            final(self).tokens@ == old(self).tokens@,
            final(self).chunk_size == old(self).chunk_size,
            old(self).start_pos >= old(self).tokens@.len() ==> {
                &&& r is None
                &&& final(self).start_pos == old(self).start_pos
            },
            old(self).start_pos < old(self).tokens@.len() ==> {
                let end = chunk_end(old(self).tokens@.len(), old(self).start_pos as nat, old(self).chunk_size as nat);
                &&& r matches Some(c) && c@ == old(self).tokens@.subrange(old(self).start_pos as int, end as int)
                &&& final(self).start_pos == end
            },
    {
        if self.start_pos >= self.tokens.len() {
            return None;
        }
        let end = if self.chunk_size < self.tokens.len() - self.start_pos {
            self.start_pos + self.chunk_size
        } else {
            self.tokens.len()
        };
        let start = self.start_pos;
        self.start_pos = end;
        let chunk = &self.tokens.as_slice()[start..end];
        Some(chunk)
    }

    pub fn is_complete(&self) -> (r: bool)
        ensures
            r == (self.start_pos >= self.tokens@.len()),
    {
        self.start_pos >= self.tokens.len()
    }

    pub fn remaining(&self) -> (r: usize)
        requires
            self.start_pos <= self.tokens@.len(),
        ensures
            r == self.tokens@.len() - self.start_pos,
    {
        self.tokens.len() - self.start_pos
    }
}


impl View for PrefillBatch {
    /// (tokens, position of the next chunk, chunk size)
    type V = (Seq<Token>, nat, nat);

    open spec fn view(&self) -> (Seq<Token>, nat, nat) {
        (self.tokens@, self.start_pos as nat, self.chunk_size as nat)
    }
}

/// Every token of the prompt was handed out.
pub open spec fn prefill_complete(b: (Seq<Token>, nat, nat)) -> bool {
    b.1 >= b.0.len()
}

/// The chunk a prompt hands out next.
pub open spec fn prefill_chunk(b: (Seq<Token>, nat, nat)) -> Seq<Token> {
    b.0.subrange(b.1 as int, chunk_end(b.0.len(), b.1, b.2) as int)
}

/// The prompt after it handed out its next chunk.
pub open spec fn prefill_advance(b: (Seq<Token>, nat, nat)) -> (Seq<Token>, nat, nat) {
    (b.0, chunk_end(b.0.len(), b.1, b.2), b.2)
}

/// Takes prompts from the back of `q`, at most `n` of them, dropping those already complete,
/// until one hands out a chunk; that prompt goes back to the queue unless it is now complete.
/// Gives the chunk, if any, and the queue left.
pub open spec fn scan_prefill(q: Seq<(Seq<Token>, nat, nat)>, n: nat) -> (Option<Seq<Token>>, Seq<(Seq<Token>, nat, nat)>)
    decreases n,
{
    if n == 0 || q.len() == 0 {
        (None, q)
    } else {
        let b = q.last();
        let rest = q.drop_last();
        if prefill_complete(b) {
            scan_prefill(rest, (n - 1) as nat)
        } else {
            let nb = prefill_advance(b);
            (Some(prefill_chunk(b)), if prefill_complete(nb) { rest } else { rest.push(nb) })
        }
    }
}

/// What the scheduler hands to the model next.
pub enum BatchType {
    Prefill(Vec<Token>),
    Decode(Vec<Token>),
}

/// Queues of prompts to prefill and of sequences to decode.
pub struct DynamicBatch {
    prefill_queue: Vec<PrefillBatch>,
    decode_queue: Vec<Vec<Token>>,
    max_batch_size: usize,
    max_wait_ms: u64,
}

/// A queued prompt has not gone past its end.
pub open spec fn prefill_queued_ok(b: (Seq<Token>, nat, nat)) -> bool {
    b.1 <= b.0.len()
}

impl DynamicBatch {
    pub closed spec fn prefills(&self) -> Seq<(Seq<Token>, nat, nat)> {
        self.prefill_queue@.map_values(|b: PrefillBatch| b@)
    }

    pub closed spec fn decodes(&self) -> Seq<Seq<Token>> {
        self.decode_queue@.map_values(|t: Vec<Token>| t@)
    }

    pub closed spec fn max_batch(&self) -> nat {
        self.max_batch_size as nat
    }

    pub closed spec fn max_wait(&self) -> nat {
        self.max_wait_ms as nat
    }

    pub open spec fn wf(&self) -> bool {
        forall|i: int| 0 <= i < self.prefills().len() ==> prefill_queued_ok(#[trigger] self.prefills()[i])
    }

    pub fn new(max_batch_size: usize, max_wait_ms: u64) -> (d: Self)
        ensures
            d.wf(),
            d.prefills().len() == 0,
            d.decodes().len() == 0,
            d.max_batch() == max_batch_size,
            d.max_wait() == max_wait_ms,
    {
        let d = DynamicBatch {
            prefill_queue: Vec::new(),
            decode_queue: Vec::new(),
            max_batch_size,
            max_wait_ms,
        };
        proof {
            assert(d.prefills() =~= Seq::<(Seq<Token>, nat, nat)>::empty());
            assert(d.decodes() =~= Seq::<Seq<Token>>::empty());
        }
        d
    }

    /// Queues a prompt to be prefilled in chunks of `chunk_size` tokens.
    pub fn add_prefill(&mut self, tokens: Vec<Token>, chunk_size: usize)
        requires
            old(self).wf(),
        ensures
            final(self).wf(),
            final(self).prefills() == old(self).prefills().push((tokens@, 0nat, chunk_size as nat)),
            final(self).decodes() == old(self).decodes(),
            final(self).max_batch() == old(self).max_batch(),
            final(self).max_wait() == old(self).max_wait(),
    {
        let batch = PrefillBatch::new(tokens, chunk_size);
        self.prefill_queue.push(batch);
        proof {
            assert(self.prefills() =~= old(self).prefills().push((tokens@, 0nat, chunk_size as nat)));
            assert(self.decodes() =~= old(self).decodes());
        }
    }

    /// Queues a sequence for a decode step.
    pub fn add_decode(&mut self, tokens: Vec<Token>)
        requires
            old(self).wf(),
        ensures
            final(self).wf(),
            final(self).prefills() == old(self).prefills(),
            final(self).decodes() == old(self).decodes().push(tokens@),
            final(self).max_batch() == old(self).max_batch(),
            final(self).max_wait() == old(self).max_wait(),
    {
        self.decode_queue.push(tokens);
        proof {
            assert(self.prefills() =~= old(self).prefills());
            assert(self.decodes() =~= old(self).decodes().push(tokens@));
        }
    }

    /// The next batch: a chunk of a queued prompt when one is among the last
    /// `min(pending, max_batch_size, queued prompts)` prompts, otherwise the most recently
    /// queued decode; `None` when nothing is queued.
    pub fn get_next_batch(&mut self) -> (r: Option<BatchType>)
        requires
            old(self).wf(),
            old(self).prefills().len() + old(self).decodes().len() <= usize::MAX,
        ensures
            final(self).wf(),
            final(self).max_batch() == old(self).max_batch(),
            final(self).max_wait() == old(self).max_wait(),
            ({
                let p = old(self).prefills();
                let d = old(self).decodes();
                let total = p.len() + d.len();
                let bs = if total < old(self).max_batch() { total } else { old(self).max_batch() };
                let pc = if bs < p.len() { bs } else { p.len() };
                let scan = scan_prefill(p, pc);
                if total == 0 {
                    &&& r is None
                    &&& final(self).prefills() == p
                    &&& final(self).decodes() == d
                } else if scan.0 is Some {
                    &&& r matches Some(BatchType::Prefill(t)) && t@ == scan.0->0
                    &&& final(self).prefills() == scan.1
                    &&& final(self).decodes() == d
                } else if d.len() > 0 {
                    &&& r matches Some(BatchType::Decode(t)) && t@ == d.last()
                    &&& final(self).prefills() == scan.1
                    &&& final(self).decodes() == d.drop_last()
                } else {
                    &&& r is None
                    &&& final(self).prefills() == scan.1
                    &&& final(self).decodes() == d
                }
            }),
    {
        let total_pending = self.prefill_queue.len() + self.decode_queue.len();
        if total_pending == 0 {
            return None;
        }
        let batch_size = if total_pending < self.max_batch_size {
            total_pending
        } else {
            self.max_batch_size
        };
        let prefill_count = if batch_size < self.prefill_queue.len() {
            batch_size
        } else {
            self.prefill_queue.len()
        };
        let ghost p0 = self.prefills();
        if prefill_count > 0 {
            let mut i: usize = 0;
            while i < prefill_count
                invariant
                    self.wf(),
                    i <= prefill_count,
                    scan_prefill(p0, prefill_count as nat) == scan_prefill(
                        self.prefills(),
                        (prefill_count - i) as nat,
                    ),
                    self.decodes() == old(self).decodes(),
                    p0 == old(self).prefills(),
                    total_pending == p0.len() + old(self).decodes().len(),
                    total_pending > 0,
                    batch_size == if total_pending < old(self).max_batch() { total_pending as nat } else { old(self).max_batch() },
                    prefill_count == if batch_size < p0.len() { batch_size as nat } else { p0.len() },
                    self.max_batch() == old(self).max_batch(),
                    self.max_wait() == old(self).max_wait(),
                decreases prefill_count - i,
            {
                let ghost q = self.prefills();
                if let Some(mut batch) = self.prefill_queue.pop() {
                    proof {
                        assert(self.prefills() =~= q.drop_last());
                        assert(batch@ == q.last());
                        assert(prefill_queued_ok(q[q.len() - 1]));
                    }
                    if let Some(chunk) = batch.next_chunk() {
                        let prefill_tokens = vstd::slice::slice_to_vec(chunk);
                        proof {
                            let n = (prefill_count - i) as nat;
                            let b = q.last();
                            assert(!prefill_complete(b));
                            assert(batch@ == prefill_advance(b));
                            assert(prefill_tokens@ == prefill_chunk(b));
                            assert(scan_prefill(q, n).0 == Some(prefill_chunk(b)));
                        }
                        if !batch.is_complete() {
                            self.prefill_queue.push(batch);
                            proof {
                                assert(self.prefills() =~= q.drop_last().push(batch@));
                            }
                        }
                        proof {
                            assert(self.prefills() == scan_prefill(p0, prefill_count as nat).1);
                        }
                        return Some(BatchType::Prefill(prefill_tokens));
                    }
                } else {
                    proof {
                        assert(q.len() == 0);
                    }
                }
                i += 1;
            }
        }
        if let Some(tokens) = self.decode_queue.pop() {
            return Some(BatchType::Decode(tokens));
        }
        None
    }
}

/// `s1` is `s0` after an `acquire_slot` call that returned `r`, as that call's contract says.
pub open spec fn slot_acquired(s0: SplitFuse, s1: SplitFuse, r: bool) -> bool {
    &&& s1.max_slots() == s0.max_slots()
    &&& r == (s0.active() < s0.max_slots())
    &&& (r ==> s1.active() == s0.active() + 1)
    &&& (!r ==> s1.active() == s0.active())
}

/// From a fresh admission control of `n` slots (`SplitFuse::new(n)`), `k` calls of
/// `acquire_slot` with no release in between (each related to the next state by that call's
/// contract, `slot_acquired`): the first `min(k, n)` succeed, every later one fails and leaves
/// the state as it was, and `min(k, n)` slots end up taken, never more than `n` at any point.
pub proof fn lemma_acquires_fill_slots(states: Seq<SplitFuse>, results: Seq<bool>)
    requires
        states.len() == results.len() + 1,
        states[0].active() == 0,
        forall|i: int| 0 <= i < results.len() ==> slot_acquired(states[i], states[i + 1], #[trigger] results[i]),
    ensures
        forall|i: int| 0 <= i < results.len() ==> #[trigger] results[i] == (i < states[0].max_slots()),
        states.last().active() == if results.len() < states[0].max_slots() {
            results.len() as nat
        } else {
            states[0].max_slots()
        },
        states.last().max_slots() == states[0].max_slots(),
        forall|i: int| 0 <= i < states.len() ==> #[trigger] states[i].active() <= states[0].max_slots(),
        forall|i: int| 0 <= i < results.len() && !results[i] ==> #[trigger] states[i + 1].active() == states[i].active(),
    decreases results.len(),
{
    let k = results.len();
    if k > 0 {
        let s2 = states.drop_last();
        let r2 = results.drop_last();
        assert forall|i: int| 0 <= i < r2.len() implies slot_acquired(s2[i], s2[i + 1], #[trigger] r2[i]) by {
            assert(slot_acquired(states[i], states[i + 1], results[i]));
        }
        lemma_acquires_fill_slots(s2, r2);
        assert(slot_acquired(states[k - 1], states[k as int], results[k - 1]));
        assert forall|i: int| 0 <= i < states.len() implies #[trigger] states[i].active() <= states[0].max_slots() by {
            if i < k {
                assert(s2[i] == states[i]);
            }
        }
        assert forall|i: int| 0 <= i < results.len() && !results[i] implies #[trigger] states[i + 1].active()
            == states[i].active() by {
            assert(slot_acquired(states[i], states[i + 1], results[i]));
        }
        assert forall|i: int| 0 <= i < results.len() implies #[trigger] results[i] == (i < states[0].max_slots()) by {
            if i < k - 1 {
                assert(r2[i] == results[i]);
            }
        }
    }
}

/// Admission control: at most `max_concurrent_slots` prompts are processed at once.
pub struct SplitFuse {
    max_concurrent_slots: usize,
    active_slots: usize,
}

impl SplitFuse {
    pub closed spec fn max_slots(&self) -> nat {
        self.max_concurrent_slots as nat
    }

    pub closed spec fn active(&self) -> nat {
        self.active_slots as nat
    }

    pub open spec fn wf(&self) -> bool {
        self.active() <= self.max_slots()
    }

    pub fn new(max_concurrent_slots: usize) -> (s: Self)
        ensures
            s.wf(),
            s.max_slots() == max_concurrent_slots,
            s.active() == 0,
    {
        SplitFuse { max_concurrent_slots, active_slots: 0 }
    }

    pub fn can_accept(&self) -> (r: bool)
        ensures
            r == (self.active() < self.max_slots()),
    {
        self.active_slots < self.max_concurrent_slots
    }

    /// Takes a slot when one is free.
    pub fn acquire_slot(&mut self) -> (r: bool)
        requires
            old(self).wf(),
        ensures
            final(self).wf(),
            slot_acquired(*old(self), *final(self), r),
    {
        if self.can_accept() {
            self.active_slots += 1;
            true
        } else {
            false
        }
    }

    /// Gives a slot back (none when none is taken).
    pub fn release_slot(&mut self)
        requires
            old(self).wf(),
        ensures
            final(self).wf(),
            final(self).max_slots() == old(self).max_slots(),
            old(self).active() > 0 ==> final(self).active() == old(self).active() - 1,
            old(self).active() == 0 ==> final(self).active() == 0,
    {
        if self.active_slots > 0 {
            self.active_slots -= 1;
        }
    }

    /// Runs `process_fn` on `tokens` when a slot is free, holding the slot meanwhile, and
    /// returns its result; none when no slot is free.
    pub fn process_prompt<T, F: Fn(&[Token]) -> Vec<T>>(&mut self, tokens: Vec<Token>, process_fn: F) -> (r: Option<Vec<T>>)
        requires
            old(self).wf(),
            forall|s: &[Token]| #[trigger] process_fn.requires((s,)),
        ensures
            final(self).wf(),
            final(self).max_slots() == old(self).max_slots(),
            final(self).active() == old(self).active(),
            r is Some <==> old(self).active() < old(self).max_slots(),
            r matches Some(v) ==> exists|s: &[Token]| #[trigger] process_fn.ensures((s,), v) && s@ == tokens@,
    {
        if self.acquire_slot() {
            let s = tokens.as_slice();
            let result = process_fn(s);
            proof {
                assert(s@ == tokens@);
                assert(exists|t: &[Token]| #[trigger] process_fn.ensures((t,), result) && t@ == tokens@);
            }
            self.release_slot();
            let r = Some(result);
            proof {
                assert(r->0 == result);
                assert(exists|t: &[Token]| #[trigger] process_fn.ensures((t,), r->0) && t@ == tokens@);
            }
            r
        } else {
            None
        }
    }
}

} // verus!
