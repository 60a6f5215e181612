use vstd::prelude::*;
use crate::types::{Pos, SeqId, Token};
use std::collections::HashMap;

verus! {

broadcast use vstd::std_specs::hash::group_hash_axioms;

/// The tokens of a batch together with, for each, its position, the sequences it belongs to
/// and whether its logits are wanted.
#[derive(Debug, Clone)]
pub struct Batch {
    pub n_tokens: usize,
    pub tokens: Vec<Token>,
    pub positions: Vec<Pos>,
    pub seq_ids: Vec<Vec<SeqId>>,
    pub logits: Vec<bool>,
}

/// The sequence lists of a batch as sequences.
pub open spec fn ids_view(ids: Seq<Vec<SeqId>>) -> Seq<Seq<SeqId>> {
    ids.map_values(|v: Vec<SeqId>| v@)
}

/// The tokens among the first `n` whose sequence list holds `s`, in order.
pub open spec fn tokens_of(tokens: Seq<Token>, ids: Seq<Seq<SeqId>>, s: SeqId, n: int) -> Seq<Token>
    decreases n,
{
    if n <= 0 {
        Seq::empty()
    } else if ids[n - 1].contains(s) {
        tokens_of(tokens, ids, s, n - 1).push(tokens[n - 1])
    } else {
        tokens_of(tokens, ids, s, n - 1)
    }
}

/// Every sequence id that occurs in the lists.
pub open spec fn all_ids(ids: Seq<Seq<SeqId>>) -> Set<SeqId> {
    Set::new(|s: SeqId| exists|k: int| 0 <= k < ids.len() && #[trigger] ids[k].contains(s))
}

impl Batch {
    /// Column lengths agree and `n_tokens` counts the tokens.
    pub open spec fn wf(&self) -> bool {
        &&& self.n_tokens == self.tokens@.len()
        &&& self.positions@.len() == self.tokens@.len()
        &&& self.seq_ids@.len() == self.tokens@.len()
        &&& self.logits@.len() == self.tokens@.len()
    }

    /// An empty batch.
    pub fn new(capacity: usize) -> (b: Self)
        ensures
            b.wf(),
            b.tokens@.len() == 0,
    {
        Batch {
            n_tokens: 0,
            tokens: Vec::with_capacity(capacity),
            positions: Vec::with_capacity(capacity),
            seq_ids: Vec::new(),
            logits: Vec::with_capacity(capacity),
        }
    }

    /// Empties the batch.
    pub fn clear(&mut self)
        ensures
            final(self).wf(),
            final(self).tokens@.len() == 0,
    {
        self.n_tokens = 0;
        self.tokens.clear();
        self.positions.clear();
        self.seq_ids.clear();
        self.logits.clear();
    }

    /// Appends the tokens of one sequence at positions `pos_start`, `pos_start + 1`, ...;
    /// logits are wanted for the last of them when `output_logits` holds.
    pub fn add_sequence(&mut self, seq_id: SeqId, tokens: &[Token], pos_start: Pos, output_logits: bool)
        requires
            tokens@.len() <= i32::MAX + 1,
            pos_start + tokens@.len() <= i32::MAX + 1,
        ensures
            final(self).tokens@ == old(self).tokens@ + tokens@,
            final(self).positions@ == old(self).positions@ + Seq::new(
                tokens@.len(),
                |i: int| (pos_start + i) as Pos,
            ),
            ids_view(final(self).seq_ids@) == ids_view(old(self).seq_ids@) + Seq::new(
                tokens@.len(),
                |i: int| seq![seq_id],
            ),
            final(self).logits@ == old(self).logits@ + Seq::new(
                tokens@.len(),
                |i: int| output_logits && i == tokens@.len() - 1,
            ),
            final(self).n_tokens == final(self).tokens@.len(),
    {
        let ghost t0 = self.tokens@;
        let ghost p0 = self.positions@;
        let ghost s0 = ids_view(self.seq_ids@);
        let ghost l0 = self.logits@;
        let n = tokens.len();
        let mut i: usize = 0;
        while i < n
            invariant
                n == tokens@.len(),
                n <= i32::MAX + 1,
                pos_start + n <= i32::MAX + 1,
                i <= n,
                self.tokens@ == t0 + tokens@.take(i as int),
                self.positions@ == p0 + Seq::new(i as nat, |k: int| (pos_start + k) as Pos),
                ids_view(self.seq_ids@) == s0 + Seq::new(i as nat, |k: int| seq![seq_id]),
                self.logits@ == l0 + Seq::new(i as nat, |k: int| output_logits && k == n - 1),
            decreases n - i,
        {
            let token = tokens[i];
            self.tokens.push(token);
            self.positions.push(pos_start + i as Pos);
            let ghost before = self.seq_ids@;
            self.seq_ids.push(single_id(seq_id));
            self.logits.push(output_logits && i == n - 1);
            proof {
                assert(tokens@.take(i + 1) =~= tokens@.take(i as int).push(token));
                assert(self.tokens@ =~= t0 + tokens@.take(i + 1));
                assert(self.positions@ =~= p0 + Seq::new((i + 1) as nat, |k: int| (pos_start + k) as Pos));
                assert(ids_view(self.seq_ids@) =~= ids_view(before).push(seq![seq_id]));
                assert(ids_view(self.seq_ids@) =~= s0 + Seq::new((i + 1) as nat, |k: int| seq![seq_id]));
                assert(self.logits@ =~= l0 + Seq::new((i + 1) as nat, |k: int| output_logits && k == n - 1));
            }
            i += 1;
        }
        proof {
            assert(tokens@.take(n as int) =~= tokens@);
        }
        self.n_tokens = self.tokens.len();
    }

    /// Appends one token.
    pub fn add_token(&mut self, token: Token, pos: Pos, seq_id: SeqId, output_logit: bool)
        ensures
            final(self).tokens@ == old(self).tokens@.push(token),
            final(self).positions@ == old(self).positions@.push(pos),
            ids_view(final(self).seq_ids@) == ids_view(old(self).seq_ids@).push(seq![seq_id]),
            final(self).logits@ == old(self).logits@.push(output_logit),
            final(self).n_tokens == final(self).tokens@.len(),
    {
        self.tokens.push(token);
        self.positions.push(pos);
        let ghost before = self.seq_ids@;
        self.seq_ids.push(single_id(seq_id));
        proof {
            assert(ids_view(self.seq_ids@) =~= ids_view(before).push(seq![seq_id]));
        }
        self.logits.push(output_logit);
        self.n_tokens = self.tokens.len();
    }

    /// The tokens of sequence `seq_id`, in batch order.
    pub fn get_sequence_tokens(&self, seq_id: SeqId) -> (r: Vec<Token>)
        ensures
            r@ == tokens_of(
                self.tokens@,
                ids_view(self.seq_ids@),
                seq_id,
                if self.tokens@.len() < self.seq_ids@.len() {
                    self.tokens@.len() as int
                } else {
                    self.seq_ids@.len() as int
                },
            ),
    {
        let n = if self.tokens.len() < self.seq_ids.len() {
            self.tokens.len()
        } else {
            self.seq_ids.len()
        };
        let ghost iv = ids_view(self.seq_ids@);
        let mut out: Vec<Token> = Vec::new();
        let mut k: usize = 0;
        while k < n
            invariant
                n <= self.tokens@.len(),
                n <= self.seq_ids@.len(),
                k <= n,
                iv == ids_view(self.seq_ids@),
                out@ == tokens_of(self.tokens@, iv, seq_id, k as int),
            decreases n - k,
        {
            let ids = &self.seq_ids[k];
            proof {
                assert(iv[k as int] == ids@);
            }
            if contains_id(ids, seq_id) {
                out.push(self.tokens[k]);
            }
            k += 1;
        }
        out
    }

    /// How many distinct sequences the batch holds tokens of.
    pub fn num_sequences(&self) -> (r: usize)
        ensures
            r == all_ids(ids_view(self.seq_ids@)).len(),
    {
        let ghost iv = ids_view(self.seq_ids@);
        let mut seen: Vec<SeqId> = Vec::new();
        let mut k: usize = 0;
        while k < self.seq_ids.len()
            invariant
                k <= self.seq_ids@.len(),
                iv == ids_view(self.seq_ids@),
                seen@.no_duplicates(),
                seen@.to_set() == all_ids(iv.take(k as int)),
            decreases self.seq_ids@.len() - k,
        {
            let ids = &self.seq_ids[k];
            let ghost before = seen@.to_set();
            proof {
                assert(iv[k as int] == ids@);
            }
            let mut m: usize = 0;
            while m < ids.len()
                invariant
                    m <= ids@.len(),
                    seen@.no_duplicates(),
                    seen@.to_set() == before + ids@.take(m as int).to_set(),
                decreases ids@.len() - m,
            {
                let id = ids[m];
                let ghost s1 = seen@;
                if !contains_id(&seen, id) {
                    seen.push(id);
                    proof {
                        assert(seen@[seen@.len() - 1] == id);
                        assert forall|a: int, b: int| 0 <= a < b < seen@.len() implies seen@[a] != seen@[b] by {
                            if b == seen@.len() - 1 {
                                assert(s1.contains(seen@[a]));
                            }
                        }
                    }
                }
                proof {
                    let t0 = ids@.take(m as int);
                    let t1 = ids@.take(m + 1);
                    assert(t1 =~= t0.push(id));
                    assert forall|x: SeqId| seen@.to_set().contains(x) <==> (before + t1.to_set()).contains(x) by {
                        if seen@.to_set().contains(x) && x != id {
                            assert(s1.to_set().contains(x)) by {
                                let j = choose|j: int| 0 <= j < seen@.len() && seen@[j] == x;
                                if j < s1.len() {
                                    assert(s1[j] == x);
                                }
                            }
                            if t0.to_set().contains(x) {
                                let j = choose|j: int| 0 <= j < t0.len() && t0[j] == x;
                                assert(t1[j] == x);
                            }
                        }
                        if t1.to_set().contains(x) && x != id {
                            let j = choose|j: int| 0 <= j < t1.len() && t1[j] == x;
                            assert(t0[j] == x);
                            assert(t0.to_set().contains(x));
                        }
                        if x == id {
                            assert(t1[m as int] == id);
                            assert(seen@.contains(id));
                        }
                        if s1.to_set().contains(x) {
                            let j = choose|j: int| 0 <= j < s1.len() && s1[j] == x;
                            assert(seen@[j] == x);
                        }
                    }
                    assert(seen@.to_set() =~= before + t1.to_set());
                }
                m += 1;
            }
            proof {
                assert(ids@.take(ids@.len() as int) =~= ids@);
                let a0 = iv.take(k as int);
                let a1 = iv.take(k + 1);
                assert forall|x: SeqId| all_ids(a1).contains(x) <==> (all_ids(a0) + ids@.to_set()).contains(
                    x,
                ) by {
                    if all_ids(a1).contains(x) {
                        let j = choose|j: int| 0 <= j < a1.len() && #[trigger] a1[j].contains(x);
                        if j < k {
                            assert(a0[j] == a1[j]);
                            assert(all_ids(a0).contains(x));
                        } else {
                            assert(a1[j] == ids@);
                            assert(ids@.to_set().contains(x));
                        }
                    }
                    if all_ids(a0).contains(x) {
                        let j = choose|j: int| 0 <= j < a0.len() && #[trigger] a0[j].contains(x);
                        assert(a1[j] == a0[j]);
                    }
                    if ids@.to_set().contains(x) {
                        assert(a1[k as int] == ids@);
                        assert(a1[k as int].contains(x));
                    }
                }
                assert(seen@.to_set() =~= all_ids(a1));
            }
            k += 1;
        }
        proof {
            assert(iv.take(iv.len() as int) =~= iv);
            seen@.unique_seq_to_set();
        }
        seen.len()
    }
}

/// A list holding `id` alone.
fn single_id(id: SeqId) -> (v: Vec<SeqId>)
    ensures
        v@ == seq![id],
{
    let mut v: Vec<SeqId> = Vec::new();
    v.push(id);
    proof {
        assert(v@ =~= seq![id]);
    }
    v
}

/// Whether `id` occurs in `ids`.
fn contains_id(ids: &Vec<SeqId>, id: SeqId) -> (r: bool)
    ensures
        r == ids@.contains(id),
{
    let mut k: usize = 0;
    while k < ids.len()
        invariant
            k <= ids@.len(),
            forall|j: int| 0 <= j < k ==> ids@[j] != id,
        decreases ids@.len() - k,
    {
        if ids[k] == id {
            proof {
                assert(ids@[k as int] == id);
            }
            return true;
        }
        k += 1;
    }
    false
}

/// A generated sequence: its tokens, the position of the next one, and the last token.
#[derive(Debug, Clone)]
pub struct Sequence {
    pub id: SeqId,
    pub tokens: Vec<Token>,
    pub position: Pos,
    pub finished: bool,
    pub last_token: Token,
}

impl Sequence {
    /// An empty, unfinished sequence at position 0.
    pub fn new(id: SeqId) -> (s: Self)
        ensures
            s.id == id,
            s.tokens@.len() == 0,
            s.position == 0,
            !s.finished,
            s.last_token == 0,
    {
        Sequence { id, tokens: Vec::new(), position: 0, finished: false, last_token: 0 }
    }

    /// Appends a token, which becomes the last one, and advances the position.
    pub fn append(&mut self, token: Token)
        requires
            old(self).position < i32::MAX,
        ensures
            final(self).tokens@ == old(self).tokens@.push(token),
            final(self).last_token == token,
            final(self).position == old(self).position + 1,
            final(self).id == old(self).id,
            final(self).finished == old(self).finished,
    {
        self.tokens.push(token);
        self.last_token = token;
        self.position += 1;
    }

    /// The number of tokens.
    pub fn len(&self) -> (r: usize)
        ensures
            r == self.tokens@.len(),
    {
        self.tokens.len()
    }

    /// Whether there are no tokens.
    pub fn is_empty(&self) -> (r: bool)
        ensures
            r == (self.tokens@.len() == 0),
    {
        self.tokens.len() == 0
    }
}


/// A fresh sequence (`Sequence::new`) after `k` calls of `append` (each related to the next
/// state by that call's contract) holds exactly the appended tokens, in order: `len` gives
/// `k`, and `is_empty` holds exactly when `k` is 0.
pub proof fn lemma_appends_make_sequence(states: Seq<Sequence>, appended: Seq<Token>)
    requires
        states.len() == appended.len() + 1,
        states[0].tokens@.len() == 0,
        forall|i: int| 0 <= i < appended.len() ==> #[trigger] states[i + 1].tokens@ == states[i].tokens@.push(appended[i]),
    ensures
        states.last().tokens@ == appended,
        states.last().tokens@.len() == appended.len(),
        (states.last().tokens@.len() == 0) <==> appended.len() == 0,
    decreases appended.len(),
{
    let k = appended.len();
    if k == 0 {
        assert(states.last().tokens@ =~= appended);
    } else {
        let s2 = states.drop_last();
        let a2 = appended.drop_last();
        assert forall|i: int| 0 <= i < a2.len() implies #[trigger] s2[i + 1].tokens@ == s2[i].tokens@.push(a2[i]) by {
            assert(states[i + 1].tokens@ == states[i].tokens@.push(appended[i]));
        }
        lemma_appends_make_sequence(s2, a2);
        assert(states[k as int].tokens@ == states[k - 1].tokens@.push(appended[k - 1]));
        assert(states.last().tokens@ =~= appended);
    }
}

/// What a `Sequence` holds, as values.
pub struct SequenceView {
    pub id: SeqId,
    pub tokens: Seq<Token>,
    pub position: Pos,
    pub finished: bool,
    pub last_token: Token,
}

impl View for Sequence {
    type V = SequenceView;

    open spec fn view(&self) -> SequenceView {
        SequenceView {
            id: self.id,
            tokens: self.tokens@,
            position: self.position,
            finished: self.finished,
            last_token: self.last_token,
        }
    }
}

/// A sequence after `token` was appended to it.
pub open spec fn appended(s: SequenceView, token: Token) -> SequenceView {
    SequenceView {
        id: s.id,
        tokens: s.tokens.push(token),
        position: (s.position + 1) as Pos,
        finished: s.finished,
        last_token: token,
    }
}

/// The sequences of a map, by their views.
pub open spec fn seqs_view(m: Map<SeqId, Sequence>) -> Map<SeqId, SequenceView> {
    Map::new(|k: SeqId| m.dom().contains(k), |k: SeqId| m[k]@)
}

/// `ids` without the occurrences of `id`.
pub open spec fn without_id(ids: Seq<SeqId>, id: SeqId) -> Seq<SeqId>
    decreases ids.len(),
{
    if ids.len() == 0 {
        Seq::empty()
    } else if ids.last() == id {
        without_id(ids.drop_last(), id)
    } else {
        without_id(ids.drop_last(), id).push(ids.last())
    }
}

/// A sequence that can take another step: unfinished and below the length limit.
pub open spec fn can_continue(s: SequenceView, max_seq_len: usize) -> bool {
    !s.finished && s.position < max_seq_len as Pos
}

/// The ids of `ids` whose sequences are present and can continue, in order.
pub open spec fn live_ids(ids: Seq<SeqId>, m: Map<SeqId, SequenceView>, max_seq_len: usize) -> Seq<SeqId>
    decreases ids.len(),
{
    if ids.len() == 0 {
        Seq::empty()
    } else if m.contains_key(ids.last()) && can_continue(m[ids.last()], max_seq_len) {
        live_ids(ids.drop_last(), m, max_seq_len).push(ids.last())
    } else {
        live_ids(ids.drop_last(), m, max_seq_len)
    }
}

/// The batch entries `(token, position, sequence)` that the first `n` pending ids give: one
/// per present sequence that can continue, its last token at its position.
pub open spec fn batch_entries(
    pending: Seq<SeqId>,
    m: Map<SeqId, SequenceView>,
    max_seq_len: usize,
    n: int,
) -> Seq<(Token, Pos, SeqId)>
    decreases n,
{
    if n <= 0 {
        Seq::empty()
    } else {
        let prev = batch_entries(pending, m, max_seq_len, n - 1);
        let id = pending[n - 1];
        if m.contains_key(id) && can_continue(m[id], max_seq_len) {
            prev.push((m[id].last_token, m[id].position, id))
        } else {
            prev
        }
    }
}

/// The sequences after the first `n` results were appended, result `i` to the sequence that
/// batch entry `i` belongs to.
pub open spec fn after_results(
    m: Map<SeqId, SequenceView>,
    ids: Seq<Seq<SeqId>>,
    results: Seq<Token>,
    n: int,
) -> Map<SeqId, SequenceView>
    decreases n,
{
    if n <= 0 {
        m
    } else {
        let prev = after_results(m, ids, results, n - 1);
        let k = n - 1;
        if k < ids.len() && ids[k].len() > 0 && prev.contains_key(ids[k][0]) {
            prev.insert(ids[k][0], appended(prev[ids[k][0]], results[k]))
        } else {
            prev
        }
    }
}

/// `HashMap::get_mut`: the value under `k`, which the caller may change in place; `None`
/// when `k` is absent.
#[verifier::external_body]
fn sequence_get_mut<'a>(m: &'a mut HashMap<SeqId, Sequence>, k: SeqId) -> (r: Option<&'a mut Sequence>)
    ensures
        match r {
            Some(v) => old(m)@.contains_key(k) && *v == old(m)@[k] && final(m)@ == old(m)@.insert(
                k,
                *final(v),
            ),
            None => !old(m)@.contains_key(k) && final(m)@ == old(m)@,
        },
{
    m.get_mut(&k)
}

/// Keeps the sequences being generated and schedules one token of each per step.
pub struct BatchManager {
    max_batch_size: usize,
    max_seq_len: usize,
    sequences: HashMap<SeqId, Sequence>,
    pending_sequences: Vec<SeqId>,
    current_batch: Batch,
}

impl BatchManager {
    /// The sequences, by id.
    pub closed spec fn seqs(&self) -> Map<SeqId, SequenceView> {
        seqs_view(self.sequences@)
    }

    /// The ids waiting for a step, in order (an id may occur more than once).
    pub closed spec fn pending(&self) -> Seq<SeqId> {
        self.pending_sequences@
    }

    /// The most entries a batch holds.
    pub closed spec fn batch_limit(&self) -> usize {
        self.max_batch_size
    }

    /// The position limit of a sequence.
    pub closed spec fn len_limit(&self) -> usize {
        self.max_seq_len
    }

    /// The batch of the last step.
    pub closed spec fn batch(&self) -> Batch {
        self.current_batch
    }

    /// The batch of the last step is well formed.
    pub closed spec fn wf(&self) -> bool {
        self.current_batch.wf()
    }

    /// A manager with no sequences.
    pub fn new(max_batch_size: usize, max_seq_len: usize) -> (bm: Self)
        ensures
            bm.wf(),
            bm.seqs() == Map::<SeqId, SequenceView>::empty(),
            bm.pending().len() == 0,
            bm.batch_limit() == max_batch_size,
            bm.len_limit() == max_seq_len,
            bm.batch().tokens@.len() == 0,
    {
        let bm = BatchManager {
            max_batch_size,
            max_seq_len,
            sequences: HashMap::new(),
            pending_sequences: Vec::new(),
            current_batch: Batch::new(max_batch_size),
        };
        proof {
            assert(bm.seqs() =~= Map::<SeqId, SequenceView>::empty());
        }
        bm
    }

    /// Adds (or replaces) a sequence under its id and queues the id; returns the id.
    pub fn add_sequence(&mut self, sequence: Sequence) -> (id: SeqId)
        ensures
            id == sequence.id,
            final(self).seqs() == old(self).seqs().insert(id, sequence@),
            final(self).pending() == old(self).pending().push(id),
            final(self).batch_limit() == old(self).batch_limit(),
            final(self).len_limit() == old(self).len_limit(),
            final(self).batch() == old(self).batch(),
            final(self).wf() == old(self).wf(),
    {
        let id = sequence.id;
        let ghost sv = sequence@;
        self.sequences.insert(id, sequence);
        self.pending_sequences.push(id);
        proof {
            assert(self.seqs() =~= old(self).seqs().insert(id, sv));
        }
        id
    }

    /// The position limit of a sequence.
    pub fn max_seq_len(&self) -> (r: usize)
        ensures
            r == self.len_limit(),
    {
        self.max_seq_len
    }

    /// Removes a sequence and every queued occurrence of its id; returns it if it was there.
    pub fn remove_sequence(&mut self, seq_id: SeqId) -> (r: Option<Sequence>)
        ensures
            final(self).pending() == without_id(old(self).pending(), seq_id),
            final(self).seqs() == old(self).seqs().remove(seq_id),
            match r {
                Some(s) => old(self).seqs().contains_key(seq_id) && s@ == old(self).seqs()[seq_id],
                None => !old(self).seqs().contains_key(seq_id),
            },
            final(self).batch_limit() == old(self).batch_limit(),
            final(self).len_limit() == old(self).len_limit(),
            final(self).batch() == old(self).batch(),
            final(self).wf() == old(self).wf(),
    {
        let mut kept: Vec<SeqId> = Vec::new();
        let mut k: usize = 0;
        while k < self.pending_sequences.len()
            invariant
                k <= self.pending_sequences@.len(),
                self.pending_sequences@ == old(self).pending_sequences@,
                kept@ == without_id(self.pending_sequences@.take(k as int), seq_id),
            decreases self.pending_sequences@.len() - k,
        {
            let id = self.pending_sequences[k];
            proof {
                assert(self.pending_sequences@.take(k + 1).drop_last() =~= self.pending_sequences@.take(k as int));
            }
            if id != seq_id {
                kept.push(id);
            }
            k += 1;
        }
        proof {
            assert(self.pending_sequences@.take(k as int) =~= self.pending_sequences@);
        }
        self.pending_sequences = kept;
        let r = self.sequences.remove(&seq_id);
        proof {
            assert(self.seqs() =~= old(self).seqs().remove(seq_id));
        }
        r
    }

    /// The sequence under `seq_id`, if any.
    pub fn get_sequence(&self, seq_id: SeqId) -> (r: Option<&Sequence>)
        ensures
            match r {
                Some(s) => self.seqs().contains_key(seq_id) && s@ == self.seqs()[seq_id],
                None => !self.seqs().contains_key(seq_id),
            },
    {
        self.sequences.get(&seq_id)
    }

    /// The sequence under `seq_id`, for changing in place, if any.
    pub fn get_sequence_mut(&mut self, seq_id: SeqId) -> (r: Option<&mut Sequence>)
        ensures
            match r {
                Some(s) => old(self).seqs().contains_key(seq_id) && s@ == old(self).seqs()[seq_id]
                    && final(self).seqs() == old(self).seqs().insert(seq_id, final(s)@)
                    && final(self).pending() == old(self).pending()
                    && final(self).batch() == old(self).batch()
                    && final(self).wf() == old(self).wf()
                    && final(self).batch_limit() == old(self).batch_limit()
                    && final(self).len_limit() == old(self).len_limit(),
                None => !old(self).seqs().contains_key(seq_id) && final(self).seqs() == old(self).seqs()
                    && final(self).pending() == old(self).pending()
                    && final(self).batch() == old(self).batch()
                    && final(self).wf() == old(self).wf()
                    && final(self).batch_limit() == old(self).batch_limit()
                    && final(self).len_limit() == old(self).len_limit(),
            },
    {
        proof {
            assert forall|s2: Sequence| #[trigger] seqs_view(old(self).sequences@.insert(seq_id, s2))
                == old(self).seqs().insert(seq_id, s2@) by {
                assert(seqs_view(old(self).sequences@.insert(seq_id, s2)) =~= old(self).seqs().insert(seq_id, s2@));
            }
        }
        let r = sequence_get_mut(&mut self.sequences, seq_id);
        r
    }

    /// Builds the batch of the next step: for each of the first `max_batch_size` queued ids
    /// whose sequence is present and can continue, its last token at its position, with logits.
    pub fn prepare_batch(&mut self) -> (r: &Batch)
        ensures
            final(self).wf(),
            final(self).seqs() == old(self).seqs(),
            final(self).pending() == old(self).pending(),
            final(self).batch_limit() == old(self).batch_limit(),
            final(self).len_limit() == old(self).len_limit(),
            ({
                let n = if old(self).pending().len() < old(self).batch_limit() {
                    old(self).pending().len() as int
                } else {
                    old(self).batch_limit() as int
                };
                let e = batch_entries(old(self).pending(), old(self).seqs(), old(self).len_limit(), n);
                &&& final(self).batch().tokens@ == e.map_values(|x: (Token, Pos, SeqId)| x.0)
                &&& final(self).batch().positions@ == e.map_values(|x: (Token, Pos, SeqId)| x.1)
                &&& ids_view(final(self).batch().seq_ids@) == e.map_values(
                    |x: (Token, Pos, SeqId)| seq![x.2],
                )
                &&& final(self).batch().logits@ == Seq::new(e.len(), |i: int| true)
            }),
            *r == final(self).batch(),
    {
        self.current_batch.clear();
        let n = if self.pending_sequences.len() < self.max_batch_size {
            self.pending_sequences.len()
        } else {
            self.max_batch_size
        };
        let ghost m = self.seqs();
        let mut i: usize = 0;
        while i < n
            invariant
                n <= self.pending_sequences@.len(),
                i <= n,
                m == seqs_view(self.sequences@),
                m == old(self).seqs(),
                self.pending_sequences == old(self).pending_sequences,
                self.max_batch_size == old(self).max_batch_size,
                self.max_seq_len == old(self).max_seq_len,
                n == (if old(self).pending().len() < old(self).batch_limit() {
                    old(self).pending().len() as int
                } else {
                    old(self).batch_limit() as int
                }),
                self.current_batch.wf(),
                ({
                    let e = batch_entries(self.pending_sequences@, m, self.max_seq_len, i as int);
                    &&& self.current_batch.tokens@ == e.map_values(|x: (Token, Pos, SeqId)| x.0)
                    &&& self.current_batch.positions@ == e.map_values(|x: (Token, Pos, SeqId)| x.1)
                    &&& ids_view(self.current_batch.seq_ids@) == e.map_values(
                        |x: (Token, Pos, SeqId)| seq![x.2],
                    )
                    &&& self.current_batch.logits@ == Seq::new(e.len(), |k: int| true)
                }),
            decreases n - i,
        {
            let seq_id = self.pending_sequences[i];
            let ghost e0 = batch_entries(self.pending_sequences@, m, self.max_seq_len, i as int);
            match self.sequences.get(&seq_id) {
                Some(seq) => {
                    if seq.position < #[verifier::truncate] (self.max_seq_len as Pos) && !seq.finished {
                        self.current_batch.add_token(seq.last_token, seq.position, seq_id, true);
                        proof {
                            let x = (seq.last_token, seq.position, seq_id);
                            assert(e0.push(x).map_values(|x: (Token, Pos, SeqId)| x.0) =~= e0.map_values(|x: (Token, Pos, SeqId)| x.0).push(x.0));
                            assert(e0.push(x).map_values(|x: (Token, Pos, SeqId)| x.1) =~= e0.map_values(|x: (Token, Pos, SeqId)| x.1).push(x.1));
                            assert(e0.push(x).map_values(|x: (Token, Pos, SeqId)| seq![x.2]) =~= e0.map_values(|x: (Token, Pos, SeqId)| seq![x.2]).push(seq![x.2]));
                            assert(Seq::new(e0.len() + 1, |k: int| true) =~= Seq::new(e0.len(), |k: int| true).push(true));
                        }
                    }
                },
                None => {},
            }
            i += 1;
        }
        &self.current_batch
    }

    /// Appends result `i` to the sequence of batch entry `i`, then keeps queued only the ids
    /// whose sequences are present and can continue.
    pub fn update_after_inference(&mut self, results: &[Token])
        requires
            old(self).wf(),
            forall|k: SeqId| #[trigger] old(self).seqs().contains_key(k) ==> old(self).seqs()[k].position
                + results@.len() <= i32::MAX,
        ensures
            final(self).wf(),
            final(self).seqs() == after_results(
                old(self).seqs(),
                ids_view(old(self).batch().seq_ids@),
                results@,
                results@.len() as int,
            ),
            final(self).pending() == live_ids(old(self).pending(), final(self).seqs(), old(self).len_limit()),
            final(self).batch() == old(self).batch(),
            final(self).batch_limit() == old(self).batch_limit(),
            final(self).len_limit() == old(self).len_limit(),
    {
        let ghost m0 = self.seqs();
        let ghost iv = ids_view(self.current_batch.seq_ids@);
        let nb = self.current_batch.seq_ids.len();
        proof {
            assert forall|k: SeqId| #[trigger] self.sequences@.contains_key(k) implies self.sequences@[k].position
                + (results@.len() - 0) <= i32::MAX by {
                assert(old(self).seqs().contains_key(k));
            }
        }
        let mut i: usize = 0;
        while i < results.len()
            invariant
                i <= results@.len(),
                nb == self.current_batch.seq_ids@.len(),
                iv == ids_view(self.current_batch.seq_ids@),
                self.current_batch == old(self).current_batch,
                self.pending_sequences == old(self).pending_sequences,
                self.max_seq_len == old(self).max_seq_len,
                self.max_batch_size == old(self).max_batch_size,
                seqs_view(self.sequences@) == after_results(m0, iv, results@, i as int),
                forall|k: SeqId| #[trigger] self.sequences@.contains_key(k) ==> self.sequences@[k].position
                    + (results@.len() - i) <= i32::MAX,
            decreases results@.len() - i,
        {
            let ghost prev = seqs_view(self.sequences@);
            if i < nb && self.current_batch.seq_ids[i].len() > 0 {
                let id = self.current_batch.seq_ids[i][0];
                proof {
                    assert(iv[i as int] == self.current_batch.seq_ids@[i as int]@);
                }
                let token = results[i];
                let ghost m_before = self.sequences@;
                match sequence_get_mut(&mut self.sequences, id) {
                    Some(seq) => {
                        seq.append(token);
                        proof {
                            assert(seqs_view(self.sequences@) =~= prev.insert(id, appended(prev[id], token)));
                        }
                    },
                    None => {},
                }
            }
            i += 1;
        }
        let ghost m1 = seqs_view(self.sequences@);
        let mut kept: Vec<SeqId> = Vec::new();
        let mut k: usize = 0;
        while k < self.pending_sequences.len()
            invariant
                k <= self.pending_sequences@.len(),
                m1 == seqs_view(self.sequences@),
                kept@ == live_ids(self.pending_sequences@.take(k as int), m1, self.max_seq_len),
            decreases self.pending_sequences@.len() - k,
        {
            let id = self.pending_sequences[k];
            proof {
                assert(self.pending_sequences@.take(k + 1).drop_last() =~= self.pending_sequences@.take(k as int));
            }
            match self.sequences.get(&id) {
                Some(seq) => {
                    if !seq.finished && seq.position < #[verifier::truncate] (self.max_seq_len as Pos) {
                        kept.push(id);
                    }
                },
                None => {},
            }
            k += 1;
        }
        proof {
            assert(self.pending_sequences@.take(k as int) =~= self.pending_sequences@);
        }
        self.pending_sequences = kept;
    }

    /// Whether no sequence is held.
    pub fn is_empty(&self) -> (r: bool)
        ensures
            r == (self.seqs().len() == 0),
    {
        proof {
            assert(self.seqs().dom() =~= self.sequences@.dom());
        }
        self.sequences.is_empty()
    }

    /// The number of sequences held.
    pub fn num_active_sequences(&self) -> (r: usize)
        ensures
            r == self.seqs().len(),
    {
        proof {
            assert(self.seqs().dom() =~= self.sequences@.dom());
        }
        self.sequences.len()
    }
}


/// After a step, every id left queued names a held sequence that is unfinished and below the
/// length limit.
pub proof fn lemma_queued_ids_can_continue(ids: Seq<SeqId>, m: Map<SeqId, SequenceView>, max_seq_len: usize)
    ensures
        forall|k: int| 0 <= k < live_ids(ids, m, max_seq_len).len() ==> {
            let id = #[trigger] live_ids(ids, m, max_seq_len)[k];
            m.contains_key(id) && can_continue(m[id], max_seq_len)
        },
    decreases ids.len(),
{
    if ids.len() > 0 {
        let prev = live_ids(ids.drop_last(), m, max_seq_len);
        lemma_queued_ids_can_continue(ids.drop_last(), m, max_seq_len);
        let cur = live_ids(ids, m, max_seq_len);
        assert forall|k: int| 0 <= k < cur.len() implies m.contains_key(#[trigger] cur[k]) && can_continue(
            m[cur[k]],
            max_seq_len,
        ) by {
            if k < prev.len() {
                assert(cur[k] == prev[k]);
            }
        }
    }
}

/// A batch holds no more entries than the queued ids it was built from.
pub proof fn lemma_batch_entries_bounded(
    pending: Seq<SeqId>,
    m: Map<SeqId, SequenceView>,
    max_seq_len: usize,
    n: int,
)
    requires
        0 <= n,
    ensures
        batch_entries(pending, m, max_seq_len, n).len() <= n,
    decreases n,
{
    if n > 0 {
        lemma_batch_entries_bounded(pending, m, max_seq_len, n - 1);
    }
}

} // verus!
