use vstd::prelude::*;
use crate::types::{SeqId, Token};
use std::collections::HashMap;

verus! {

/// A run of tokens of one sequence and the pages that hold it.
#[derive(Debug, Clone)]
pub struct Block {
    pub page_indices: Vec<usize>,
    pub block_size: usize,
}

impl Block {
    /// A block of `block_size` tokens with no page yet.
    pub fn new(block_size: usize) -> (b: Self)
        ensures
            b.page_indices@.len() == 0,
            b.block_size == block_size,
    {
        Block { page_indices: Vec::new(), block_size }
    }
}

/// The pages of each block, in order.
pub open spec fn block_pages(blocks: Seq<Block>) -> Seq<Seq<usize>> {
    blocks.map_values(|b: Block| b.page_indices@)
}

/// The pages of all blocks, block after block.
pub open spec fn flat_pages(pages: Seq<Seq<usize>>) -> Seq<usize>
    decreases pages.len(),
{
    if pages.len() == 0 {
        Seq::empty()
    } else {
        flat_pages(pages.drop_last()) + pages.last()
    }
}

/// The blocks of one sequence and how many tokens they cover.
#[derive(Debug, Clone)]
pub struct SequencePageTable {
    pub seq_id: SeqId,
    pub blocks: Vec<Block>,
    pub num_tokens: usize,
}

impl SequencePageTable {
    /// A table for `seq_id` with no block.
    pub fn new(seq_id: SeqId) -> (t: Self)
        ensures
            t.seq_id == seq_id,
            t.blocks@.len() == 0,
            t.num_tokens == 0,
    {
        SequencePageTable { seq_id, blocks: Vec::new(), num_tokens: 0 }
    }

    /// Appends a block of `block_size` tokens held in page `page_idx`.
    pub fn add_block(&mut self, page_idx: usize, block_size: usize)
        requires
            old(self).num_tokens + block_size <= usize::MAX,
        ensures
            final(self).seq_id == old(self).seq_id,
            final(self).blocks@.len() == old(self).blocks@.len() + 1,
            forall|i: int| 0 <= i < old(self).blocks@.len() ==> #[trigger] final(self).blocks@[i] == old(self).blocks@[i],
            final(self).blocks@.last().page_indices@ == seq![page_idx],
            final(self).blocks@.last().block_size == block_size,
            block_pages(final(self).blocks@) == block_pages(old(self).blocks@).push(seq![page_idx]),
            final(self).num_tokens == old(self).num_tokens + block_size,
    {
        let mut block = Block::new(block_size);
        block.page_indices.push(page_idx);
        proof {
            assert(block.page_indices@ =~= seq![page_idx]);
        }
        self.blocks.push(block);
        proof {
            assert(block_pages(self.blocks@) =~= block_pages(old(self).blocks@).push(seq![page_idx]));
        }
        self.num_tokens += block_size;
    }

    /// The pages of all blocks, block after block.
    pub fn get_page_indices(&self) -> (r: Vec<usize>)
        ensures
            r@ == flat_pages(block_pages(self.blocks@)),
    {
        let ghost bp = block_pages(self.blocks@);
        let mut out: Vec<usize> = Vec::new();
        let mut k: usize = 0;
        while k < self.blocks.len()
            invariant
                k <= self.blocks@.len(),
                bp == block_pages(self.blocks@),
                out@ == flat_pages(bp.take(k as int)),
            decreases self.blocks@.len() - k,
        {
            let pages = &self.blocks[k].page_indices;
            let ghost before = out@;
            let mut m: usize = 0;
            while m < pages.len()
                invariant
                    m <= pages@.len(),
                    out@ == before + pages@.take(m as int),
                decreases pages@.len() - m,
            {
                out.push(pages[m]);
                proof {
                    assert(pages@.take(m + 1) =~= pages@.take(m as int).push(pages@[m as int]));
                    assert(out@ =~= before + pages@.take(m + 1));
                }
                m += 1;
            }
            proof {
                assert(pages@.take(pages@.len() as int) =~= pages@);
                assert(bp.take(k + 1).drop_last() =~= bp.take(k as int));
                assert(bp.take(k + 1).last() == pages@);
            }
            k += 1;
        }
        proof {
            assert(bp.take(bp.len() as int) =~= bp);
        }
        out
    }
}

/// Adding a block appends its page to the table's pages.
pub proof fn lemma_add_block_appends_page(before: SequencePageTable, after: SequencePageTable, page_idx: usize)
    requires
        block_pages(after.blocks@) == block_pages(before.blocks@).push(seq![page_idx]),
    ensures
        flat_pages(block_pages(after.blocks@)) == flat_pages(block_pages(before.blocks@)).push(page_idx),
{
    let a = block_pages(after.blocks@);
    assert(a.drop_last() =~= block_pages(before.blocks@));
    assert(flat_pages(block_pages(before.blocks@)) + seq![page_idx] =~= flat_pages(block_pages(before.blocks@)).push(page_idx));
}


broadcast use vstd::std_specs::hash::group_hash_axioms;

/// A generation request. `temperature` and `top_p` are carried through scheduling untouched;
/// they hold IEEE-754 single-precision values by their bit patterns (`f32::to_bits`).
#[derive(Debug, Clone)]
pub struct InferenceRequest {
    pub seq_id: SeqId,
    pub prompt_tokens: Vec<Token>,
    pub max_tokens: usize,
    pub temperature: u32,
    pub top_p: u32,
}

/// A request being generated: its tokens so far (prompt first) and its budget.
#[derive(Debug, Clone)]
pub struct RunningRequest {
    pub seq_id: SeqId,
    pub generated_tokens: Vec<Token>,
    pub prompt_len: usize,
    pub max_tokens: usize,
    pub temperature: u32,
    pub top_p: u32,
}

/// What a running request holds, as values.
pub struct RunningView {
    pub seq_id: SeqId,
    pub tokens: Seq<Token>,
    pub prompt_len: usize,
    pub max_tokens: usize,
    pub temperature: u32,
    pub top_p: u32,
}

impl View for RunningRequest {
    type V = RunningView;

    open spec fn view(&self) -> RunningView {
        RunningView {
            seq_id: self.seq_id,
            tokens: self.generated_tokens@,
            prompt_len: self.prompt_len,
            max_tokens: self.max_tokens,
            temperature: self.temperature,
            top_p: self.top_p,
        }
    }
}

/// The running state a request starts with.
pub open spec fn started(r: InferenceRequest) -> RunningView {
    RunningView {
        seq_id: r.seq_id,
        tokens: r.prompt_tokens@,
        prompt_len: r.prompt_tokens@.len() as usize,
        max_tokens: r.max_tokens,
        temperature: r.temperature,
        top_p: r.top_p,
    }
}

/// The running requests after starting each of `batch` in turn (a later one replaces an
/// earlier one of the same id).
pub open spec fn start_all(m: Map<SeqId, RunningView>, batch: Seq<InferenceRequest>) -> Map<SeqId, RunningView>
    decreases batch.len(),
{
    if batch.len() == 0 {
        m
    } else {
        start_all(m, batch.drop_last()).insert(batch.last().seq_id, started(batch.last()))
    }
}

/// Requests by their running views.
pub open spec fn running_view(m: Map<SeqId, RunningRequest>) -> Map<SeqId, RunningView> {
    Map::new(|k: SeqId| m.dom().contains(k), |k: SeqId| m[k]@)
}

/// A copy of a token list.
fn clone_tokens(v: &Vec<Token>) -> (r: Vec<Token>)
    ensures
        r@ == v@,
{
    let r = v.clone();
    proof {
        assert(r@ =~= v@);
    }
    r
}

/// Queues requests and starts them in batches.
pub struct DynamicBatcher {
    max_batch_size: usize,
    max_waiting_time_ms: u64,
    pending_requests: Vec<InferenceRequest>,
    running_requests: HashMap<SeqId, RunningRequest>,
}

impl DynamicBatcher {
    /// The queued requests, oldest first.
    pub closed spec fn pending(&self) -> Seq<InferenceRequest> {
        self.pending_requests@
    }

    /// The running requests, by id.
    pub closed spec fn running(&self) -> Map<SeqId, RunningView> {
        running_view(self.running_requests@)
    }

    /// The most requests started at once.
    pub closed spec fn batch_limit(&self) -> usize {
        self.max_batch_size
    }

    /// The longest a request is meant to wait, in milliseconds.
    pub closed spec fn wait_limit(&self) -> u64 {
        self.max_waiting_time_ms
    }

    /// A batcher with nothing queued or running.
    pub fn new(max_batch_size: usize, max_waiting_time_ms: u64) -> (b: Self)
        ensures
            b.pending().len() == 0,
            b.running() == Map::<SeqId, RunningView>::empty(),
            b.batch_limit() == max_batch_size,
            b.wait_limit() == max_waiting_time_ms,
    {
        let b = DynamicBatcher {
            max_batch_size,
            max_waiting_time_ms,
            pending_requests: Vec::new(),
            running_requests: HashMap::new(),
        };
        proof {
            assert(b.running() =~= Map::<SeqId, RunningView>::empty());
        }
        b
    }

    /// Queues a request.
    pub fn add_request(&mut self, request: InferenceRequest)
        ensures
            final(self).pending() == old(self).pending().push(request),
            final(self).running() == old(self).running(),
            final(self).batch_limit() == old(self).batch_limit(),
            final(self).wait_limit() == old(self).wait_limit(),
    {
        self.pending_requests.push(request);
    }

    /// Starts the oldest `min(queued, max_batch_size)` requests and hands them out, oldest
    /// first; each becomes running with its prompt as its tokens so far.
    pub fn get_batch(&mut self) -> (r: Vec<InferenceRequest>)
        ensures
            ({
                let p = old(self).pending();
                let n = if p.len() < old(self).batch_limit() {
                    p.len() as int
                } else {
                    old(self).batch_limit() as int
                };
                &&& r@ == p.take(n)
                &&& final(self).pending() == p.skip(n)
                &&& final(self).running() == start_all(old(self).running(), p.take(n))
            }),
            final(self).batch_limit() == old(self).batch_limit(),
            final(self).wait_limit() == old(self).wait_limit(),
    {
        if self.pending_requests.len() == 0 {
            proof {
                assert(old(self).pending().take(0) =~= Seq::<InferenceRequest>::empty());
                assert(old(self).pending().skip(0) =~= old(self).pending());
            }
            return Vec::new();
        }
        let n = if self.pending_requests.len() < self.max_batch_size {
            self.pending_requests.len()
        } else {
            self.max_batch_size
        };
        let ghost p = self.pending_requests@;
        let mut batch = self.pending_requests.split_off(n);
        std::mem::swap(&mut batch, &mut self.pending_requests);
        let mut i: usize = 0;
        while i < batch.len()
            invariant
                batch@ == p.take(n as int),
                n <= p.len(),
                i <= n,
                running_view(self.running_requests@) == start_all(old(self).running(), p.take(i as int)),
                self.pending_requests@ == p.skip(n as int),
                self.max_batch_size == old(self).max_batch_size,
                self.max_waiting_time_ms == old(self).max_waiting_time_ms,
            decreases n - i,
        {
            let req = &batch[i];
            let tokens = clone_tokens(&req.prompt_tokens);
            let running = RunningRequest {
                seq_id: req.seq_id,
                generated_tokens: tokens,
                prompt_len: req.prompt_tokens.len(),
                max_tokens: req.max_tokens,
                temperature: req.temperature,
                top_p: req.top_p,
            };
            let ghost before = self.running_requests@;
            self.running_requests.insert(req.seq_id, running);
            proof {
                assert(p.take(i + 1).drop_last() =~= p.take(i as int));
                assert(p.take(i + 1).last() == *req);
                assert(running@ == started(*req));
                assert(running_view(self.running_requests@) =~= running_view(before).insert(req.seq_id, started(*req)));
            }
            i += 1;
        }
        batch
    }

    /// Records a generated token for `seq_id`; the request stops running once its tokens
    /// reach its prompt length plus its budget. Unknown ids change nothing.
    pub fn mark_completed(&mut self, seq_id: SeqId, generated_token: Token)
        requires
            old(self).running().contains_key(seq_id) ==> old(self).running()[seq_id].prompt_len
                + old(self).running()[seq_id].max_tokens <= usize::MAX,
        ensures
            final(self).pending() == old(self).pending(),
            final(self).batch_limit() == old(self).batch_limit(),
            final(self).wait_limit() == old(self).wait_limit(),
            !old(self).running().contains_key(seq_id) ==> final(self).running() == old(self).running(),
            old(self).running().contains_key(seq_id) ==> ({
                let r0 = old(self).running()[seq_id];
                let r1 = RunningView { tokens: r0.tokens.push(generated_token), ..r0 };
                if r1.tokens.len() >= r0.prompt_len + r0.max_tokens {
                    final(self).running() == old(self).running().remove(seq_id)
                } else {
                    final(self).running() == old(self).running().insert(seq_id, r1)
                }
            }),
    {
        match self.running_requests.remove(&seq_id) {
            Some(mut req) => {
                let ghost m1 = self.running_requests@;
                req.generated_tokens.push(generated_token);
                if req.generated_tokens.len() >= req.prompt_len + req.max_tokens {
                    proof {
                        assert(running_view(self.running_requests@) =~= old(self).running().remove(seq_id));
                    }
                } else {
                    self.running_requests.insert(seq_id, req);
                    proof {
                        assert(running_view(self.running_requests@) =~= old(self).running().insert(seq_id, req@));
                    }
                }
            },
            None => {
                proof {
                    assert(running_view(self.running_requests@) =~= old(self).running());
                }
            },
        }
    }

    /// Whether any request is queued or running.
    pub fn has_pending(&self) -> (r: bool)
        ensures
            r == (self.pending().len() > 0 || self.running().len() > 0),
    {
        proof {
            assert(self.running().dom() =~= self.running_requests@.dom());
        }
        self.pending_requests.len() != 0 || !self.running_requests.is_empty()
    }

    /// The number of running requests.
    pub fn num_running(&self) -> (r: usize)
        ensures
            r == self.running().len(),
    {
        proof {
            assert(self.running().dom() =~= self.running_requests@.dom());
        }
        self.running_requests.len()
    }
}


/// Tokens held by one page (and by one block).
pub const PAGE_SIZE: usize = 16;

/// A page of cache storage. `T` is the stored value (`f32` for the model's caches).
#[derive(Debug, Clone)]
pub struct Page<T> {
    pub data: Vec<T>,
    pub is_full: bool,
}

impl<T: Copy> Page<T> {
    /// A page of `capacity` values, each `fill`, not full.
    pub fn new(capacity: usize, fill: T) -> (p: Self)
        ensures
            p.data@ == Seq::new(capacity as nat, |i: int| fill),
            !p.is_full,
    {
        let mut data: Vec<T> = Vec::new();
        let mut i: usize = 0;
        while i < capacity
            invariant
                i <= capacity,
                data@ == Seq::new(i as nat, |j: int| fill),
            decreases capacity - i,
        {
            data.push(fill);
            proof {
                assert(data@ =~= Seq::new((i + 1) as nat, |j: int| fill));
            }
            i += 1;
        }
        Page { data, is_full: false }
    }

    /// The number of values on the page.
    pub fn len(&self) -> (r: usize)
        ensures
            r == self.data@.len(),
    {
        self.data.len()
    }
}

/// The pages of a table, block after block.
pub open spec fn table_pages(t: SequencePageTable) -> Seq<usize> {
    flat_pages(block_pages(t.blocks@))
}

/// The length of a page list after growing it to cover each of `idx` in turn.
pub open spec fn grown_len(len: nat, idx: Seq<usize>) -> nat
    decreases idx.len(),
{
    if idx.len() == 0 {
        len
    } else {
        let before = grown_len(len, idx.drop_last());
        if before <= idx.last() {
            (idx.last() + 1) as nat
        } else {
            before
        }
    }
}

/// `d` with position `dst` set to `from[src]`, when both are in range.
pub open spec fn put<T>(d: Seq<T>, dst: int, src: int, from: Seq<T>) -> Seq<T> {
    if 0 <= dst < d.len() && 0 <= src < from.len() {
        d.update(dst, from[src])
    } else {
        d
    }
}

/// Page `p`'s data after storing token `t` of head `h` of a block that starts at token `ts`:
/// the first value of the token's key goes to its slot in the first half of the page, the
/// first value of its value to the same slot in the second half, each only when in range.
/// `nkv` heads of `hd` values each. This is what the cache's code does, and not what a paged
/// cache is meant to do: the slot is counted from `p * page_size` inside page `p`'s own
/// storage, so only page 0 takes writes; one value per head is stored, not `hd`; and the keys
/// of tokens 8 to 15 land where the values of tokens 0 to 7 go.
pub open spec fn store_token<T>(d: Seq<T>, p: int, h: int, t: int, ts: int, nkv: int, hd: int, k: Seq<T>, v: Seq<T>) -> Seq<T> {
    let ps = nkv * hd * PAGE_SIZE;
    let src = h * hd + t * nkv * hd;
    let dk = p * ps + h * hd + (t - ts) * nkv * hd;
    put(put(d, dk, src, k), dk + ps / 2, src, v)
}

/// Page `p`'s data after storing tokens `ts..te` of head `h`, in order.
pub open spec fn store_tokens<T>(d: Seq<T>, p: int, h: int, ts: int, te: int, nkv: int, hd: int, k: Seq<T>, v: Seq<T>) -> Seq<T>
    decreases te - ts,
{
    if te <= ts {
        d
    } else {
        store_token(store_tokens(d, p, h, ts, te - 1, nkv, hd, k, v), p, h, te - 1, ts, nkv, hd, k, v)
    }
}

/// Page `p`'s data after storing tokens `ts..te` of heads `0..n`, head after head.
pub open spec fn store_heads<T>(d: Seq<T>, p: int, n: int, ts: int, te: int, nkv: int, hd: int, k: Seq<T>, v: Seq<T>) -> Seq<T>
    decreases n,
{
    if n <= 0 {
        d
    } else {
        store_tokens(store_heads(d, p, n - 1, ts, te, nkv, hd, k, v), p, n - 1, ts, te, nkv, hd, k, v)
    }
}

/// The token after the last one block `b` stores: the end of the block, or of the keys.
pub open spec fn block_end(b: int, nkv: int, klen: int) -> int {
    let ts = b * PAGE_SIZE;
    if ts + PAGE_SIZE < klen / nkv {
        ts + PAGE_SIZE
    } else {
        klen / nkv
    }
}

/// The pages after storing blocks `0..n`: block `b` covers tokens from `b * PAGE_SIZE` and
/// goes to page `idx[b]`.
pub open spec fn store_blocks<T>(pages: Seq<Seq<T>>, idx: Seq<usize>, n: int, nkv: int, hd: int, k: Seq<T>, v: Seq<T>) -> Seq<Seq<T>>
    decreases n,
{
    if n <= 0 {
        pages
    } else {
        let before = store_blocks(pages, idx, n - 1, nkv, hd, k, v);
        let p = idx[n - 1] as int;
        let ts = (n - 1) * PAGE_SIZE;
        before.update(p, store_heads(before[p], p, nkv, ts, block_end(n - 1, nkv, k.len() as int), nkv, hd, k, v))
    }
}

/// The offsets `write_kv` computes for token `t` of head `h` fit in a `usize` and stay in the
/// input and the page.
proof fn lemma_store_offsets(t: int, ts: int, h: int, nkv: int, hd: int, klen: int, p: int, max: int)
    requires
        0 <= ts <= t,
        t < ts + PAGE_SIZE,
        t < klen / nkv,
        0 <= h < nkv,
        hd >= 0,
        0 <= p < max,
        klen * hd <= usize::MAX,
        (max + 1) * (nkv * hd * PAGE_SIZE) <= usize::MAX,
    ensures
        t * nkv <= klen,
        t * nkv * hd <= klen * hd,
        h * hd + t * nkv * hd <= klen * hd,
        (t - ts) * nkv <= klen,
        h * hd <= nkv * hd,
        nkv * hd <= nkv * hd * PAGE_SIZE,
        (t - ts) * nkv <= PAGE_SIZE * nkv,
        (t - ts) * nkv * hd + h * hd <= nkv * hd * PAGE_SIZE,
        p * (nkv * hd * PAGE_SIZE) + nkv * hd * PAGE_SIZE + (nkv * hd * PAGE_SIZE) / 2 <= usize::MAX,
{
    let ps = nkv * hd * PAGE_SIZE;
    assert(nkv > 0);
    assert((t + 1) * nkv <= klen) by (nonlinear_arith)
        requires
            t + 1 <= klen / nkv,
            nkv > 0,
    ;
    assert(t * nkv * hd + h * hd <= (t + 1) * nkv * hd) by (nonlinear_arith)
        requires
            h < nkv,
            hd >= 0,
            t >= 0,
    ;
    assert((t + 1) * nkv * hd <= klen * hd) by (nonlinear_arith)
        requires
            (t + 1) * nkv <= klen,
            hd >= 0,
    ;
    assert(t * nkv * hd <= (t + 1) * nkv * hd) by (nonlinear_arith)
        requires
            nkv >= 0,
            hd >= 0,
            t >= 0,
    ;
    assert(t * nkv <= (t + 1) * nkv) by (nonlinear_arith)
        requires
            nkv >= 0,
    ;
    assert((t - ts) * nkv <= t * nkv) by (nonlinear_arith)
        requires
            nkv >= 0,
            0 <= ts <= t,
    ;
    assert(h * hd <= nkv * hd) by (nonlinear_arith)
        requires
            h < nkv,
            hd >= 0,
    ;
    assert(nkv * hd <= nkv * hd * PAGE_SIZE) by (nonlinear_arith)
        requires
            nkv * hd >= 0,
    ;
    assert((t - ts) * nkv <= PAGE_SIZE * nkv) by (nonlinear_arith)
        requires
            0 <= t - ts < PAGE_SIZE,
            nkv >= 0,
    ;
    assert((t - ts) * nkv * hd + h * hd <= (t - ts + 1) * nkv * hd) by (nonlinear_arith)
        requires
            h < nkv,
            hd >= 0,
            t - ts >= 0,
    ;
    assert((t - ts + 1) * nkv * hd <= PAGE_SIZE * nkv * hd) by (nonlinear_arith)
        requires
            t - ts + 1 <= PAGE_SIZE,
            nkv >= 0,
            hd >= 0,
    ;
    assert(PAGE_SIZE * nkv * hd == nkv * hd * PAGE_SIZE) by (nonlinear_arith);
    assert(p * ps + ps + ps / 2 <= (max + 1) * ps) by (nonlinear_arith)
        requires
            p + 1 <= max,
            ps >= 0,
    ;
}

/// Every page of every block is below `n`.
pub open spec fn pages_below(blocks: Seq<Block>, n: int) -> bool {
    forall|b: int, q: int|
        0 <= b < blocks.len() && 0 <= q < blocks[b].page_indices@.len() ==> #[trigger] blocks[b].page_indices@[q] < n
}

proof fn lemma_flat_below(bp: Seq<Seq<usize>>, n: int)
    requires
        forall|b: int, q: int| 0 <= b < bp.len() && 0 <= q < bp[b].len() ==> #[trigger] bp[b][q] < n,
    ensures
        forall|j: int| 0 <= j < flat_pages(bp).len() ==> #[trigger] flat_pages(bp)[j] < n,
    decreases bp.len(),
{
    if bp.len() > 0 {
        let init = bp.drop_last();
        assert forall|b: int, q: int| 0 <= b < init.len() && 0 <= q < init[b].len() implies #[trigger] init[b][q] < n by {
            assert(init[b] == bp[b]);
        }
        lemma_flat_below(init, n);
        assert forall|j: int| 0 <= j < flat_pages(bp).len() implies #[trigger] flat_pages(bp)[j] < n by {
            if j >= flat_pages(init).len() {
                assert(flat_pages(bp)[j] == bp.last()[j - flat_pages(init).len()]);
                assert(bp[bp.len() - 1][j - flat_pages(init).len()] < n);
            }
        }
    }
}

/// The pages of a table whose blocks' pages are all below `n` are all below `n`.
proof fn lemma_flat_pages_below(blocks: Seq<Block>, n: int)
    requires
        pages_below(blocks, n),
    ensures
        forall|j: int| 0 <= j < flat_pages(block_pages(blocks)).len() ==> #[trigger] flat_pages(block_pages(blocks))[j] < n,
{
    let bp = block_pages(blocks);
    assert forall|b: int, q: int| 0 <= b < bp.len() && 0 <= q < bp[b].len() implies #[trigger] bp[b][q] < n by {
        assert(bp[b] == blocks[b].page_indices@);
        assert(blocks[b].page_indices@[q] < n);
    }
    lemma_flat_below(bp, n);
}

/// `buf` with the `hd` values of `page` from `from` on copied in at `at`, when `from` is on
/// the page.
pub open spec fn copy_in<T>(buf: Seq<T>, at: int, page: Seq<T>, from: int, hd: int) -> Seq<T> {
    if from < page.len() {
        buf.take(at) + page.subrange(from, from + hd) + buf.skip(at + hd)
    } else {
        buf
    }
}

/// Keys and values after loading token `t` of head `h` of a block that starts at token `ts`
/// from page `p` (holding `page`): its key run from the first half of the page, its value run
/// from the second, each to the token's slot, each only when on the page.
pub open spec fn load_token<T>(kv: (Seq<T>, Seq<T>), page: Seq<T>, p: int, h: int, t: int, ts: int, nkv: int, hd: int) -> (Seq<T>, Seq<T>) {
    let ps = nkv * hd * PAGE_SIZE;
    let sk = p * ps + h * hd + t * nkv * hd;
    let dst = (ts + t) * nkv * hd + h * hd;
    (copy_in(kv.0, dst, page, sk, hd), copy_in(kv.1, dst, page, sk + ps / 2, hd))
}

/// ... after loading tokens `0..n` of head `h`, in order.
pub open spec fn load_tokens<T>(kv: (Seq<T>, Seq<T>), page: Seq<T>, p: int, h: int, ts: int, n: int, nkv: int, hd: int) -> (Seq<T>, Seq<T>)
    decreases n,
{
    if n <= 0 {
        kv
    } else {
        load_token(load_tokens(kv, page, p, h, ts, n - 1, nkv, hd), page, p, h, n - 1, ts, nkv, hd)
    }
}

/// ... after loading tokens `0..m` of heads `0..n`, head after head.
pub open spec fn load_heads<T>(kv: (Seq<T>, Seq<T>), page: Seq<T>, p: int, n: int, ts: int, m: int, nkv: int, hd: int) -> (Seq<T>, Seq<T>)
    decreases n,
{
    if n <= 0 {
        kv
    } else {
        load_tokens(load_heads(kv, page, p, n - 1, ts, m, nkv, hd), page, p, n - 1, ts, m, nkv, hd)
    }
}

/// How many tokens of a block starting at token `ts` are read when `num` are asked for.
pub open spec fn block_tokens(ts: int, num: int) -> int {
    if ts >= num {
        0
    } else if num - ts < PAGE_SIZE {
        num - ts
    } else {
        PAGE_SIZE as int
    }
}

/// ... after loading the block starting at token `ts` from each of its pages `idx[0..n]`.
pub open spec fn load_pages<T>(kv: (Seq<T>, Seq<T>), pages: Seq<Seq<T>>, idx: Seq<usize>, n: int, ts: int, num: int, nkv: int, hd: int) -> (Seq<T>, Seq<T>)
    decreases n,
{
    if n <= 0 {
        kv
    } else {
        let p = idx[n - 1] as int;
        load_heads(load_pages(kv, pages, idx, n - 1, ts, num, nkv, hd), pages[p], p, nkv, ts, block_tokens(ts, num), nkv, hd)
    }
}

/// ... after loading blocks `0..n` (block `b` from its pages `bp[b]`) of a sequence, `num`
/// tokens asked for.
pub open spec fn load_blocks<T>(kv: (Seq<T>, Seq<T>), pages: Seq<Seq<T>>, bp: Seq<Seq<usize>>, n: int, num: int, nkv: int, hd: int) -> (Seq<T>, Seq<T>)
    decreases n,
{
    if n <= 0 {
        kv
    } else {
        let ts = (n - 1) * PAGE_SIZE;
        load_pages(load_blocks(kv, pages, bp, n - 1, num, nkv, hd), pages, bp[n - 1], bp[n - 1].len() as int, ts, num, nkv, hd)
    }
}

/// The offsets `read_kv` computes for token `t` of head `h` fit in a `usize`, the token's runs
/// stay in the output, and a run that starts on the page ends on it.
proof fn lemma_load_offsets(t: int, ts: int, h: int, nkv: int, hd: int, num: int, p: int, max: int)
    requires
        0 <= t < PAGE_SIZE,
        0 <= ts,
        ts + t < num,
        0 <= h < nkv,
        hd >= 0,
        0 <= p < max,
        num * nkv <= usize::MAX,
        num * nkv * hd <= usize::MAX,
        (max + 1) * (nkv * hd * PAGE_SIZE) <= usize::MAX,
    ensures
        (ts + t) * nkv <= num * nkv,
        (ts + t) * nkv * hd + h * hd + hd <= num * nkv * hd,
        t * nkv <= num * nkv,
        t * nkv * hd + h * hd + hd <= nkv * hd * PAGE_SIZE,
        p * (nkv * hd * PAGE_SIZE) + nkv * hd * PAGE_SIZE + (nkv * hd * PAGE_SIZE) / 2 <= usize::MAX,
        p * (nkv * hd * PAGE_SIZE) + h * hd + t * nkv * hd < nkv * hd * PAGE_SIZE ==> p * (nkv * hd * PAGE_SIZE) + h * hd + t * nkv * hd + hd
            <= nkv * hd * PAGE_SIZE,
        p * (nkv * hd * PAGE_SIZE) + (nkv * hd * PAGE_SIZE) / 2 + h * hd + t * nkv * hd < nkv * hd * PAGE_SIZE ==> p * (nkv * hd
            * PAGE_SIZE) + (nkv * hd * PAGE_SIZE) / 2 + h * hd + t * nkv * hd + hd <= nkv * hd * PAGE_SIZE,
{
    let ps = nkv * hd * PAGE_SIZE;
    assert((ts + t) * nkv <= num * nkv) by (nonlinear_arith)
        requires
            ts + t < num,
            nkv >= 0,
    ;
    assert((ts + t) * nkv * hd + h * hd + hd <= (ts + t + 1) * nkv * hd) by (nonlinear_arith)
        requires
            h < nkv,
            hd >= 0,
            ts + t >= 0,
    ;
    assert((ts + t + 1) * nkv * hd <= num * nkv * hd) by (nonlinear_arith)
        requires
            ts + t + 1 <= num,
            nkv >= 0,
            hd >= 0,
    ;
    assert(t * nkv <= (ts + t) * nkv) by (nonlinear_arith)
        requires
            ts >= 0,
            nkv >= 0,
    ;
    assert(t * nkv * hd + h * hd + hd <= (t + 1) * nkv * hd) by (nonlinear_arith)
        requires
            h < nkv,
            hd >= 0,
            t >= 0,
    ;
    assert((t + 1) * nkv * hd <= PAGE_SIZE * nkv * hd) by (nonlinear_arith)
        requires
            t + 1 <= PAGE_SIZE,
            nkv >= 0,
            hd >= 0,
    ;
    assert(PAGE_SIZE * nkv * hd == ps) by (nonlinear_arith)
        requires
            ps == nkv * hd * PAGE_SIZE,
    ;
    assert(p * ps + ps + ps / 2 <= (max + 1) * ps) by (nonlinear_arith)
        requires
            p + 1 <= max,
            ps >= 0,
    ;
    let a = p * nkv * PAGE_SIZE + h + t * nkv;
    assert(p * ps + h * hd + t * nkv * hd == a * hd) by (nonlinear_arith)
        requires
            ps == nkv * hd * PAGE_SIZE,
            a == p * nkv * PAGE_SIZE + h + t * nkv,
    ;
    assert(ps == (nkv * PAGE_SIZE) * hd) by (nonlinear_arith)
        requires
            ps == nkv * hd * PAGE_SIZE,
    ;
    assert(a * hd < (nkv * PAGE_SIZE) * hd ==> a * hd + hd <= (nkv * PAGE_SIZE) * hd) by (nonlinear_arith)
        requires
            hd >= 0,
    ;
    assert(ps / 2 == (nkv * (PAGE_SIZE / 2)) * hd) by (nonlinear_arith)
        requires
            ps == nkv * hd * PAGE_SIZE,
            nkv >= 0,
            hd >= 0,
    ;
    let c = p * nkv * PAGE_SIZE + nkv * (PAGE_SIZE / 2) + h + t * nkv;
    assert(p * ps + ps / 2 + h * hd + t * nkv * hd == c * hd) by (nonlinear_arith)
        requires
            ps == nkv * hd * PAGE_SIZE,
            ps / 2 == (nkv * (PAGE_SIZE / 2)) * hd,
            c == p * nkv * PAGE_SIZE + nkv * (PAGE_SIZE / 2) + h + t * nkv,
    ;
    assert(c * hd < (nkv * PAGE_SIZE) * hd ==> c * hd + hd <= (nkv * PAGE_SIZE) * hd) by (nonlinear_arith)
        requires
            hd >= 0,
    ;
}

/// Copies `n` values of `page` from `from` on into `buf` at `at`.
fn copy_run<T: Copy>(buf: &mut Vec<T>, at: usize, page: &Vec<T>, from: usize, n: usize)
    requires
        at + n <= old(buf)@.len(),
        from + n <= page@.len(),
    ensures
        final(buf)@ == old(buf)@.take(at as int) + page@.subrange(from as int, from + n) + old(buf)@.skip(at + n),
{
    let buf_len = buf.len();
    let page_len = page.len();
    let mut i: usize = 0;
    while i < n
        invariant
            i <= n,
            at + n <= buf_len,
            from + n <= page_len,
            buf_len == old(buf)@.len(),
            page_len == page@.len(),
            buf@ == old(buf)@.take(at as int) + page@.subrange(from as int, from + i) + old(buf)@.skip(at + i),
        decreases n - i,
    {
        let x = page[from + i];
        buf[at + i] = x;
        proof {
            assert(buf@ =~= old(buf)@.take(at as int) + page@.subrange(from as int, from + i + 1) + old(buf)@.skip(at + i + 1));
        }
        i += 1;
    }
}

/// `n` copies of `x`.
fn filled<T: Copy>(n: usize, x: T) -> (r: Vec<T>)
    ensures
        r@ == Seq::new(n as nat, |i: int| x),
{
    let mut r: Vec<T> = Vec::new();
    let mut i: usize = 0;
    while i < n
        invariant
            i <= n,
            r@ == Seq::new(i as nat, |j: int| x),
        decreases n - i,
    {
        r.push(x);
        proof {
            assert(r@ =~= Seq::new((i + 1) as nat, |j: int| x));
        }
        i += 1;
    }
    r
}

/// A key/value cache kept in fixed-size pages handed out to sequences from a free list.
/// Each page holds `PAGE_SIZE` tokens of every head: keys in its first half, values in its
/// second half.
pub struct PagedAttentionCache<T> {
    num_kv_heads: usize,
    head_dim: usize,
    max_num_pages: usize,
    page_size: usize,
    pages: Vec<Page<T>>,
    page_tables: HashMap<SeqId, SequencePageTable>,
    free_pages: Vec<usize>,
    block_size: usize,
    fill: T,
}

impl<T: Copy> PagedAttentionCache<T> {
    /// Heads per token.
    pub closed spec fn heads(&self) -> usize {
        self.num_kv_heads
    }

    /// Values per head.
    pub closed spec fn dim(&self) -> usize {
        self.head_dim
    }

    /// The most pages the cache hands out.
    pub closed spec fn capacity(&self) -> usize {
        self.max_num_pages
    }

    /// Values per page.
    pub closed spec fn page_len(&self) -> usize {
        self.page_size
    }

    /// The value fresh pages are filled with.
    pub closed spec fn fill_value(&self) -> T {
        self.fill
    }

    /// The pages not handed out; the next one handed out is the last.
    pub closed spec fn free(&self) -> Seq<usize> {
        self.free_pages@
    }

    /// The contents of each page.
    pub closed spec fn page_data(&self) -> Seq<Seq<T>> {
        self.pages@.map_values(|p: Page<T>| p.data@)
    }

    /// The page table of each sequence.
    pub closed spec fn tables(&self) -> Map<SeqId, SequencePageTable> {
        self.page_tables@
    }

    /// The cache's invariant: pages are `heads * dim * PAGE_SIZE` values long and every index
    /// arithmetic on them fits in a `usize`; free pages are below the capacity; every page of
    /// a table exists; a table is filed under its own sequence and covers `PAGE_SIZE` tokens
    /// per block.
    pub closed spec fn wf(&self) -> bool {
        &&& self.page_size == self.num_kv_heads * self.head_dim * PAGE_SIZE
        &&& self.block_size == PAGE_SIZE
        &&& (self.max_num_pages + 1) * self.page_size <= usize::MAX
        &&& self.pages@.len() <= self.max_num_pages
        &&& forall|i: int| 0 <= i < self.free_pages@.len() ==> #[trigger] self.free_pages@[i] < self.max_num_pages
        &&& forall|i: int| 0 <= i < self.pages@.len() ==> (#[trigger] self.pages@[i]).data@.len() == self.page_size
        &&& forall|s: SeqId| #[trigger] self.page_tables@.contains_key(s) ==> {
            &&& self.page_tables@[s].seq_id == s
            &&& self.page_tables@[s].num_tokens == self.page_tables@[s].blocks@.len() * PAGE_SIZE
            &&& pages_below(self.page_tables@[s].blocks@, self.pages@.len() as int)
        }
    }

    /// A cache of up to `num_pages` pages for `num_kv_heads` heads of `head_dim` values, all
    /// pages free (handed out from the highest index down) and none allocated yet. Fresh pages
    /// are filled with `fill`. `max_seq_len` is not used.
    pub fn new(num_kv_heads: usize, head_dim: usize, max_seq_len: usize, num_pages: usize, fill: T) -> (c: Self)
        requires
            (num_pages + 1) * (num_kv_heads * head_dim * PAGE_SIZE) <= usize::MAX,
        ensures
            c.wf(),
            c.heads() == num_kv_heads,
            c.dim() == head_dim,
            c.capacity() == num_pages,
            c.page_len() == num_kv_heads * head_dim * PAGE_SIZE,
            c.fill_value() == fill,
            c.free() == Seq::new(num_pages as nat, |i: int| i as usize),
            c.page_data().len() == 0,
            c.tables() == Map::<SeqId, SequencePageTable>::empty(),
    {
        proof {
            assert(num_kv_heads * head_dim * PAGE_SIZE <= (num_pages + 1) * (num_kv_heads * head_dim * PAGE_SIZE)) by (nonlinear_arith)
                requires
                    num_pages >= 0,
                    num_kv_heads * head_dim * PAGE_SIZE >= 0,
            ;
            assert(num_kv_heads * head_dim <= num_kv_heads * head_dim * PAGE_SIZE) by (nonlinear_arith)
                requires
                    num_kv_heads * head_dim >= 0,
            ;
        }
        let page_size = num_kv_heads * head_dim * PAGE_SIZE;
        let mut free_pages: Vec<usize> = Vec::new();
        let mut i: usize = 0;
        while i < num_pages
            invariant
                i <= num_pages,
                free_pages@ == Seq::new(i as nat, |j: int| j as usize),
            decreases num_pages - i,
        {
            free_pages.push(i);
            proof {
                assert(free_pages@ =~= Seq::new((i + 1) as nat, |j: int| j as usize));
            }
            i += 1;
        }
        let c = PagedAttentionCache {
            num_kv_heads,
            head_dim,
            max_num_pages: num_pages,
            page_size,
            pages: Vec::new(),
            page_tables: HashMap::new(),
            free_pages,
            block_size: PAGE_SIZE,
            fill,
        };
        proof {
            assert(c.page_data() =~= Seq::<Seq<T>>::empty());
            assert(c.tables() =~= Map::<SeqId, SequencePageTable>::empty());
        }
        c
    }

    /// Takes pages for `num_tokens` tokens (`PAGE_SIZE` per page, rounded up) from the end of
    /// the free list, as many as there are, and hands them out in the order taken; pages not
    /// allocated yet are created, filled with the fill value.
    pub fn allocate_pages(&mut self, num_tokens: usize) -> (r: Vec<usize>)
        requires
            old(self).wf(),
            num_tokens + PAGE_SIZE <= usize::MAX,
        ensures
            final(self).wf(),
            ({
                let f = old(self).free();
                let needed = (num_tokens + PAGE_SIZE - 1) / (PAGE_SIZE as int);
                let n = if needed < f.len() { needed } else { f.len() as int };
                &&& r@.len() == n
                &&& forall|i: int| 0 <= i < n ==> #[trigger] r@[i] == f[f.len() - 1 - i]
                &&& final(self).free() == f.take(f.len() - n)
                &&& f.no_duplicates() ==> r@.no_duplicates() && forall|i: int|
                    0 <= i < n ==> !final(self).free().contains(#[trigger] r@[i])
            }),
            final(self).page_data().len() == grown_len(old(self).page_data().len(), r@),
            forall|i: int| 0 <= i < old(self).page_data().len() ==> #[trigger] final(self).page_data()[i] == old(self).page_data()[i],
            forall|i: int| old(self).page_data().len() <= i < final(self).page_data().len()
                ==> #[trigger] final(self).page_data()[i] == Seq::new(old(self).page_len() as nat, |j: int| old(self).fill_value()),
            final(self).tables() == old(self).tables(),
            final(self).heads() == old(self).heads(),
            final(self).dim() == old(self).dim(),
            final(self).capacity() == old(self).capacity(),
            final(self).page_len() == old(self).page_len(),
            final(self).fill_value() == old(self).fill_value(),
    {
        let needed = (num_tokens + PAGE_SIZE - 1) / PAGE_SIZE;
        let ghost f = self.free_pages@;
        let ghost d0 = self.page_data();
        let mut page_indices: Vec<usize> = Vec::new();
        let mut i: usize = 0;
        while i < needed
            invariant_except_break
                i <= needed,
                i <= f.len(),
            invariant
                self.wf(),
                page_indices@.len() == i,
                i <= f.len(),
                forall|k: int| 0 <= k < i ==> #[trigger] page_indices@[k] == f[f.len() - 1 - k],
                self.free_pages@ == f.take(f.len() - i),
                self.page_data().len() == grown_len(d0.len(), page_indices@),
                d0.len() <= self.page_data().len(),
                forall|k: int| 0 <= k < d0.len() ==> #[trigger] self.page_data()[k] == d0[k],
                forall|k: int| d0.len() <= k < self.page_data().len()
                    ==> #[trigger] self.page_data()[k] == Seq::new(self.page_size as nat, |j: int| self.fill),
                self.page_tables@ == old(self).page_tables@,
                self.num_kv_heads == old(self).num_kv_heads,
                self.head_dim == old(self).head_dim,
                self.max_num_pages == old(self).max_num_pages,
                self.page_size == old(self).page_size,
                self.fill == old(self).fill,
                d0.len() == old(self).pages@.len(),
                f == old(self).free_pages@,
            ensures
                page_indices@.len() == (if needed < f.len() { needed as int } else { f.len() as int }),
            decreases needed - i,
        {
            match self.free_pages.pop() {
                Some(page_idx) => {
                    proof {
                        assert(f.take(f.len() - i).last() == f[f.len() - 1 - i]);
                        assert(f.take(f.len() - i).drop_last() =~= f.take(f.len() - (i + 1)));
                    }
                    let ghost pi0 = page_indices@;
                    self.grow_to(page_idx);
                    page_indices.push(page_idx);
                    proof {
                        assert(page_indices@.drop_last() =~= pi0);
                    }
                    i += 1;
                },
                None => {
                    break;
                },
            }
        }
        proof {
            let n = page_indices@.len() as int;
            if f.no_duplicates() {
                assert forall|a: int, b: int| 0 <= a < b < n implies page_indices@[a] != page_indices@[b] by {
                    assert(f[f.len() - 1 - a] != f[f.len() - 1 - b]);
                }
                assert forall|a: int| 0 <= a < n implies !self.free_pages@.contains(#[trigger] page_indices@[a]) by {
                    if self.free_pages@.contains(page_indices@[a]) {
                        let w = choose|w: int| 0 <= w < self.free_pages@.len() && self.free_pages@[w] == page_indices@[a];
                        assert(f[w] == f[f.len() - 1 - a]);
                    }
                }
            }
        }
        page_indices
    }

    /// Creates pages, filled with the fill value, until page `page_idx` exists.
    fn grow_to(&mut self, page_idx: usize)
        requires
            old(self).wf(),
            page_idx < old(self).max_num_pages,
        ensures
            final(self).wf(),
            final(self).page_data().len() == if old(self).pages@.len() <= page_idx {
                (page_idx + 1) as nat
            } else {
                old(self).pages@.len()
            },
            forall|k: int| 0 <= k < old(self).pages@.len() ==> #[trigger] final(self).page_data()[k] == old(self).page_data()[k],
            forall|k: int| old(self).pages@.len() <= k < final(self).page_data().len()
                ==> #[trigger] final(self).page_data()[k] == Seq::new(old(self).page_size as nat, |j: int| old(self).fill),
            final(self).free_pages@ == old(self).free_pages@,
            final(self).page_tables@ == old(self).page_tables@,
            final(self).num_kv_heads == old(self).num_kv_heads,
            final(self).head_dim == old(self).head_dim,
            final(self).max_num_pages == old(self).max_num_pages,
            final(self).page_size == old(self).page_size,
            final(self).fill == old(self).fill,
            final(self).block_size == old(self).block_size,
    {
        while self.pages.len() <= page_idx
            invariant
                self.wf(),
                page_idx < self.max_num_pages,
                old(self).pages@.len() <= self.pages@.len(),
                self.pages@.len() <= if old(self).pages@.len() <= page_idx {
                    (page_idx + 1) as nat
                } else {
                    old(self).pages@.len()
                },
                forall|k: int| 0 <= k < old(self).pages@.len() ==> #[trigger] self.page_data()[k] == old(self).page_data()[k],
                forall|k: int| old(self).pages@.len() <= k < self.pages@.len()
                    ==> #[trigger] self.page_data()[k] == Seq::new(old(self).page_size as nat, |j: int| old(self).fill),
                self.free_pages@ == old(self).free_pages@,
                self.page_tables@ == old(self).page_tables@,
                self.num_kv_heads == old(self).num_kv_heads,
                self.head_dim == old(self).head_dim,
                self.max_num_pages == old(self).max_num_pages,
                self.page_size == old(self).page_size,
                self.fill == old(self).fill,
                self.block_size == old(self).block_size,
            decreases page_idx + 1 - self.pages@.len(),
        {
            let page = Page::new(self.page_size, self.fill);
            let ghost before = self.page_data();
            self.pages.push(page);
            proof {
                assert(self.page_data() =~= before.push(page.data@));
                assert forall|s: SeqId| #[trigger] self.page_tables@.contains_key(s) implies {
                    pages_below(self.page_tables@[s].blocks@, self.pages@.len() as int)
                } by {
                    assert(old(self).page_tables@.contains_key(s));
                }
            }
        }
    }

    /// Stores keys and values of `seq_id` block by block: block `b` takes tokens
    /// `b * PAGE_SIZE ..` of `k_data` and `v_data` (laid out token after token, head after head)
    /// into page `page_indices[b]`, and is appended to the sequence's table (created when
    /// missing). The offsets are those of the code as it stands (see `store_token`): what can
    /// be read back is what `lemma_read_back_first_page` states.
    pub fn write_kv(&mut self, seq_id: SeqId, page_indices: &[usize], k_data: &[T], v_data: &[T])
        requires
            old(self).wf(),
            forall|i: int| 0 <= i < page_indices@.len() ==> #[trigger] page_indices@[i] < old(self).page_data().len(),
            page_indices@.len() > 0 ==> old(self).heads() > 0,
            (page_indices@.len() + 1) * PAGE_SIZE <= usize::MAX,
            k_data@.len() * old(self).dim() <= usize::MAX,
            (if old(self).tables().contains_key(seq_id) {
                old(self).tables()[seq_id].num_tokens as int
            } else {
                0int
            }) + page_indices@.len() * PAGE_SIZE <= usize::MAX,
        ensures
            final(self).wf(),
            kv_written(*old(self), *final(self), seq_id, page_indices@, k_data@, v_data@),
    {
        let ghost had = self.page_tables@.contains_key(seq_id);
        let mut table = match self.page_tables.remove(&seq_id) {
            Some(t) => t,
            None => SequencePageTable::new(seq_id),
        };
        let ghost t0 = table;
        proof {
            if !had {
                assert(block_pages(t0.blocks@) =~= Seq::<Seq<usize>>::empty());
            }
        }
        let ghost pg_start = self.page_data();
        let nkv = self.num_kv_heads;
        let hd = self.head_dim;
        let ps = self.page_size;
        let klen = k_data.len();
        let mut b: usize = 0;
        while b < page_indices.len()
            invariant
                b <= page_indices@.len(),
                klen == k_data@.len(),
                self.page_data() == store_blocks(pg_start, page_indices@, b as int, nkv as int, hd as int, k_data@, v_data@),
                pg_start == old(self).page_data(),
                self.pages@.len() == old(self).pages@.len(),
                forall|i: int| 0 <= i < self.pages@.len() ==> (#[trigger] self.pages@[i]).data@.len() == ps,
                table.seq_id == seq_id,
                table.blocks@.len() == t0.blocks@.len() + b,
                forall|i: int| 0 <= i < t0.blocks@.len() ==> #[trigger] table.blocks@[i] == t0.blocks@[i],
                forall|i: int| t0.blocks@.len() <= i < table.blocks@.len() ==> (#[trigger] table.blocks@[i]).page_indices@ == seq![
                    page_indices@[i - t0.blocks@.len()],
                ] && table.blocks@[i].block_size == PAGE_SIZE,
                table_pages(table) == table_pages(t0) + page_indices@.take(b as int),
                table.num_tokens == t0.num_tokens + b * PAGE_SIZE,
                t0.num_tokens + page_indices@.len() * PAGE_SIZE <= usize::MAX,
                t0.seq_id == seq_id,
                forall|i: int| 0 <= i < page_indices@.len() ==> #[trigger] page_indices@[i] < old(self).pages@.len(),
                page_indices@.len() > 0 ==> nkv > 0,
                (page_indices@.len() + 1) * PAGE_SIZE <= usize::MAX,
                k_data@.len() * hd <= usize::MAX,
                ps == nkv * hd * PAGE_SIZE,
                (self.max_num_pages + 1) * ps <= usize::MAX,
                old(self).pages@.len() <= self.max_num_pages,
                nkv == self.num_kv_heads,
                hd == self.head_dim,
                ps == self.page_size,
                self.num_kv_heads == old(self).num_kv_heads,
                self.head_dim == old(self).head_dim,
                self.max_num_pages == old(self).max_num_pages,
                self.page_size == old(self).page_size,
                self.fill == old(self).fill,
                self.block_size == old(self).block_size,
                self.block_size == PAGE_SIZE,
                self.free_pages@ == old(self).free_pages@,
                self.page_tables@ == old(self).page_tables@.remove(seq_id),
            decreases page_indices@.len() - b,
        {
            let page_idx = page_indices[b];
            proof {
                assert((b + 1) * PAGE_SIZE <= (page_indices@.len() + 1) * PAGE_SIZE) by (nonlinear_arith)
                    requires
                        b < page_indices@.len(),
                ;
            }
            let ts = b * self.block_size;
            let kq = klen / nkv;
            let te = if ts + self.block_size < kq {
                ts + self.block_size
            } else {
                kq
            };
            let ghost pg_block = self.page_data();
            let ghost d0 = pg_block[page_idx as int];
            let mut h: usize = 0;
            while h < nkv
                invariant
                    h <= nkv,
                    nkv > 0,
                    klen == k_data@.len(),
                    b < page_indices@.len(),
                    page_idx == page_indices@[b as int],
                    page_idx < self.pages@.len(),
                    ts == b * PAGE_SIZE,
                    te == block_end(b as int, nkv as int, k_data@.len() as int),
                    te <= ts + PAGE_SIZE,
                    te <= (k_data@.len() as int) / (nkv as int),
                    self.pages@.len() == pg_block.len(),
                    forall|i: int| 0 <= i < self.pages@.len() ==> (#[trigger] self.pages@[i]).data@.len() == ps,
                    self.page_data() == pg_block.update(
                        page_idx as int,
                        store_heads(d0, page_idx as int, h as int, ts as int, te as int, nkv as int, hd as int, k_data@, v_data@),
                    ),
                    d0 == pg_block[page_idx as int],
                    k_data@.len() * hd <= usize::MAX,
                    ps == nkv * hd * PAGE_SIZE,
                    (self.max_num_pages + 1) * ps <= usize::MAX,
                    page_idx < self.max_num_pages,
                    nkv == self.num_kv_heads,
                    hd == self.head_dim,
                    ps == self.page_size,
                    self.num_kv_heads == old(self).num_kv_heads,
                    self.head_dim == old(self).head_dim,
                    self.max_num_pages == old(self).max_num_pages,
                    self.page_size == old(self).page_size,
                    self.fill == old(self).fill,
                    self.block_size == PAGE_SIZE,
                    self.free_pages@ == old(self).free_pages@,
                    self.page_tables@ == old(self).page_tables@.remove(seq_id),
                decreases nkv - h,
            {
                let ghost d_head = store_heads(d0, page_idx as int, h as int, ts as int, te as int, nkv as int, hd as int, k_data@, v_data@);
                let mut t: usize = ts;
                while t < te
                    invariant
                        ts <= t,
                        t <= te || t == ts,
                        klen == k_data@.len(),
                        h < nkv,
                        nkv > 0,
                        page_idx < self.pages@.len(),
                        te <= ts + PAGE_SIZE,
                        te <= (k_data@.len() as int) / (nkv as int),
                        self.pages@.len() == pg_block.len(),
                        forall|i: int| 0 <= i < self.pages@.len() ==> (#[trigger] self.pages@[i]).data@.len() == ps,
                        self.page_data() == pg_block.update(
                            page_idx as int,
                            store_tokens(d_head, page_idx as int, h as int, ts as int, t as int, nkv as int, hd as int, k_data@, v_data@),
                        ),
                        k_data@.len() * hd <= usize::MAX,
                        ps == nkv * hd * PAGE_SIZE,
                        (self.max_num_pages + 1) * ps <= usize::MAX,
                        page_idx < self.max_num_pages,
                        nkv == self.num_kv_heads,
                        hd == self.head_dim,
                        ps == self.page_size,
                        self.num_kv_heads == old(self).num_kv_heads,
                        self.head_dim == old(self).head_dim,
                        self.max_num_pages == old(self).max_num_pages,
                        self.page_size == old(self).page_size,
                        self.fill == old(self).fill,
                        self.block_size == PAGE_SIZE,
                        self.free_pages@ == old(self).free_pages@,
                        self.page_tables@ == old(self).page_tables@.remove(seq_id),
                    decreases te - t,
                {
                    proof {
                        lemma_store_offsets(t as int, ts as int, h as int, nkv as int, hd as int, k_data@.len() as int, page_idx as int, self.max_num_pages as int);
                    }
                    let src = h * hd + t * nkv * hd;
                    let dk = page_idx * ps + h * hd + (t - ts) * nkv * hd;
                    let dv = page_idx * ps + ps / 2 + h * hd + (t - ts) * nkv * hd;
                    let ghost cur = self.pages@[page_idx as int].data@;
                    let ghost pages_before = self.pages@;
                    proof {
                        assert(self.page_data()[page_idx as int] == self.pages@[page_idx as int].data@);
                        assert(cur == store_tokens(d_head, page_idx as int, h as int, ts as int, t as int, nkv as int, hd as int, k_data@, v_data@));
                    }
                    if dk < self.pages[page_idx].data.len() && src < k_data.len() {
                        self.pages[page_idx].data[dk] = k_data[src];
                    }
                    if dv < self.pages[page_idx].data.len() && src < v_data.len() {
                        self.pages[page_idx].data[dv] = v_data[src];
                    }
                    proof {
                        assert(self.pages@[page_idx as int].data@ == store_token(cur, page_idx as int, h as int, t as int, ts as int, nkv as int, hd as int, k_data@, v_data@));
                        assert(self.pages@.len() == pages_before.len());
                        assert(forall|i: int| 0 <= i < self.pages@.len() && i != page_idx ==> self.pages@[i] == pages_before[i]);
                        assert(store_tokens(d_head, page_idx as int, h as int, ts as int, t + 1, nkv as int, hd as int, k_data@, v_data@)
                            == store_token(cur, page_idx as int, h as int, t as int, ts as int, nkv as int, hd as int, k_data@, v_data@));
                        assert forall|i: int| 0 <= i < self.pages@.len() implies #[trigger] self.page_data()[i] == pg_block.update(
                            page_idx as int,
                            store_tokens(d_head, page_idx as int, h as int, ts as int, t + 1, nkv as int, hd as int, k_data@, v_data@),
                        )[i] by {
                            if i != page_idx {
                                assert(self.pages@[i] == pages_before[i]);
                                assert(pages_before.map_values(|p: Page<T>| p.data@)[i] == pages_before[i].data@);
                            }
                        }
                        assert(self.page_data() =~= pg_block.update(
                            page_idx as int,
                            store_tokens(d_head, page_idx as int, h as int, ts as int, t + 1, nkv as int, hd as int, k_data@, v_data@),
                        ));
                    }
                    t += 1;
                }
                proof {
                    if t != te {
                        assert(store_tokens(d_head, page_idx as int, h as int, ts as int, t as int, nkv as int, hd as int, k_data@, v_data@) == d_head);
                        assert(store_tokens(d_head, page_idx as int, h as int, ts as int, te as int, nkv as int, hd as int, k_data@, v_data@) == d_head);
                    }
                }
                h += 1;
            }
            let ghost table_before = table;
            proof {
                assert(table.num_tokens + PAGE_SIZE <= usize::MAX) by (nonlinear_arith)
                    requires
                        table.num_tokens == t0.num_tokens + b * PAGE_SIZE,
                        t0.num_tokens + page_indices@.len() * PAGE_SIZE <= usize::MAX,
                        b < page_indices@.len(),
                ;
            }
            table.add_block(page_idx, self.block_size);
            proof {
                lemma_add_block_appends_page(table_before, table, page_idx);
                assert forall|i: int| t0.blocks@.len() <= i < table.blocks@.len() implies (#[trigger] table.blocks@[i]).page_indices@
                    == seq![page_indices@[i - t0.blocks@.len()]] && table.blocks@[i].block_size == PAGE_SIZE by {
                    if i < table.blocks@.len() - 1 {
                        assert(table.blocks@[i] == table_before.blocks@[i]);
                        assert(table_before.blocks@[i].page_indices@ == seq![page_indices@[i - t0.blocks@.len()]]);
                    } else {
                        assert(i - t0.blocks@.len() == b);
                        assert(table.blocks@[i].page_indices@ == seq![page_idx]);
                    }
                }
                assert(page_indices@.take(b + 1) =~= page_indices@.take(b as int).push(page_idx));
            }
            b += 1;
        }
        self.page_tables.insert(seq_id, table);
        proof {
            let c0 = *old(self);
            let c1 = *self;
            let b0: Seq<Block> = if c0.tables().contains_key(seq_id) {
                c0.tables()[seq_id].blocks@
            } else {
                Seq::empty()
            };
            let t1 = c1.tables()[seq_id];
            assert(c1.tables().remove(seq_id) =~= c0.tables().remove(seq_id));
            assert(t1.blocks@.len() == b0.len() + page_indices@.len());
            assert(table_pages(t1) == flat_pages(block_pages(b0)) + page_indices@);
        }
    }

    /// Reads `num_tokens` tokens of `seq_id` into fresh key and value buffers (token after
    /// token, head after head, filled with the fill value), block by block from each block's
    /// pages; none when the sequence has no table.
    pub fn read_kv(&self, seq_id: SeqId, num_tokens: usize) -> (r: Option<(Vec<T>, Vec<T>)>)
        requires
            self.wf(),
            num_tokens * self.heads() <= usize::MAX,
            num_tokens * self.heads() * self.dim() <= usize::MAX,
        ensures
            !self.tables().contains_key(seq_id) ==> r is None,
            self.tables().contains_key(seq_id) ==> (r matches Some((k, v)) && k@ == kv_read(*self, seq_id, num_tokens as int).0
                && v@ == kv_read(*self, seq_id, num_tokens as int).1),
    {
        let table = match self.page_tables.get(&seq_id) {
            Some(t) => t,
            None => {
                return None;
            },
        };
        let nkv = self.num_kv_heads;
        let hd = self.head_dim;
        let ps = self.page_size;
        let size = num_tokens * nkv * hd;
        let mut k_data = filled(size, self.fill);
        let mut v_data = filled(size, self.fill);
        let ghost empty = k_data@;
        let ghost bp = block_pages(table.blocks@);
        let ghost pd = self.page_data();
        proof {
            assert(self.page_tables@.contains_key(seq_id));
        }
        let mut b: usize = 0;
        while b < table.blocks.len()
            invariant
                b <= table.blocks@.len(),
                self.wf(),
                self.page_tables@.contains_key(seq_id),
                *table == self.page_tables@[seq_id],
                bp == block_pages(table.blocks@),
                pd == self.page_data(),
                nkv == self.num_kv_heads,
                hd == self.head_dim,
                ps == self.page_size,
                num_tokens * nkv <= usize::MAX,
                size == num_tokens * nkv * hd,
                size <= usize::MAX,
                k_data@.len() == size,
                v_data@.len() == size,
                (k_data@, v_data@) == load_blocks((empty, empty), pd, bp, b as int, num_tokens as int, nkv as int, hd as int),
            decreases table.blocks@.len() - b,
        {
            let block = &table.blocks[b];
            proof {
                assert(b * PAGE_SIZE <= table.num_tokens) by (nonlinear_arith)
                    requires
                        table.num_tokens == table.blocks@.len() * PAGE_SIZE,
                        b < table.blocks@.len(),
                ;
            }
            let ts = b * self.block_size;
            let m = if ts >= num_tokens {
                0
            } else if num_tokens - ts < self.block_size {
                num_tokens - ts
            } else {
                self.block_size
            };
            let ghost kv_block = (k_data@, v_data@);
            proof {
                assert(bp[b as int] == block.page_indices@);
            }
            let mut q: usize = 0;
            while q < block.page_indices.len()
                invariant
                    q <= block.page_indices@.len(),
                    b < table.blocks@.len(),
                    *block == table.blocks@[b as int],
                    self.wf(),
                    self.page_tables@.contains_key(seq_id),
                    *table == self.page_tables@[seq_id],
                    pd == self.page_data(),
                    nkv == self.num_kv_heads,
                    hd == self.head_dim,
                    ps == self.page_size,
                    ts == b * PAGE_SIZE,
                    m == block_tokens(ts as int, num_tokens as int),
                    num_tokens * nkv <= usize::MAX,
                    size == num_tokens * nkv * hd,
                    size <= usize::MAX,
                    k_data@.len() == size,
                    v_data@.len() == size,
                    (k_data@, v_data@) == load_pages(kv_block, pd, block.page_indices@, q as int, ts as int, num_tokens as int, nkv as int, hd as int),
                decreases block.page_indices@.len() - q,
            {
                let page_idx = block.page_indices[q];
                proof {
                    assert(pages_below(table.blocks@, self.pages@.len() as int));
                    assert(table.blocks@[b as int].page_indices@[q as int] < self.pages@.len());
                }
                let page = &self.pages[page_idx].data;
                proof {
                    assert(pd[page_idx as int] == page@);
                }
                let ghost kv_page = (k_data@, v_data@);
                let mut h: usize = 0;
                while h < nkv
                    invariant
                        h <= nkv,
                        page_idx < self.pages@.len(),
                        page@ == pd[page_idx as int],
                        page@.len() == ps,
                        self.wf(),
                        nkv == self.num_kv_heads,
                        hd == self.head_dim,
                        ps == self.page_size,
                        m == block_tokens(ts as int, num_tokens as int),
                        num_tokens * nkv <= usize::MAX,
                        size == num_tokens * nkv * hd,
                        size <= usize::MAX,
                        k_data@.len() == size,
                        v_data@.len() == size,
                        (k_data@, v_data@) == load_heads(kv_page, page@, page_idx as int, h as int, ts as int, m as int, nkv as int, hd as int),
                    decreases nkv - h,
                {
                    let ghost kv_head = (k_data@, v_data@);
                    let mut t: usize = 0;
                    while t < m
                        invariant
                            t <= m,
                            h < nkv,
                            page_idx < self.pages@.len(),
                            page@.len() == ps,
                            self.wf(),
                            nkv == self.num_kv_heads,
                            hd == self.head_dim,
                            ps == self.page_size,
                            m == block_tokens(ts as int, num_tokens as int),
                            num_tokens * nkv <= usize::MAX,
                            size == num_tokens * nkv * hd,
                            size <= usize::MAX,
                            k_data@.len() == size,
                            v_data@.len() == size,
                            (k_data@, v_data@) == load_tokens(kv_head, page@, page_idx as int, h as int, ts as int, t as int, nkv as int, hd as int),
                        decreases m - t,
                    {
                        proof {
                            lemma_load_offsets(t as int, ts as int, h as int, nkv as int, hd as int, num_tokens as int, page_idx as int, self.max_num_pages as int);
                        }
                        let sk = page_idx * ps + h * hd + t * nkv * hd;
                        let sv = page_idx * ps + ps / 2 + h * hd + t * nkv * hd;
                        let dst = (ts + t) * nkv * hd + h * hd;
                        let ghost kv0 = (k_data@, v_data@);
                        if sk < page.len() {
                            copy_run(&mut k_data, dst, page, sk, hd);
                        }
                        if sv < page.len() {
                            copy_run(&mut v_data, dst, page, sv, hd);
                        }
                        proof {
                            assert((k_data@, v_data@) == load_token(kv0, page@, page_idx as int, h as int, t as int, ts as int, nkv as int, hd as int));
                        }
                        t += 1;
                    }
                    h += 1;
                }
                q += 1;
            }
            proof {
                assert(block.page_indices@.len() == bp[b as int].len());
            }
            b += 1;
        }
        Some((k_data, v_data))
    }

    /// The number of free pages.
    pub fn num_free_pages(&self) -> (r: usize)
        ensures
            r == self.free().len(),
    {
        self.free_pages.len()
    }

    /// Values held by the allocated pages, counted twice (keys and values).
    pub fn get_kv_cache_size(&self) -> (r: usize)
        requires
            self.page_data().len() * self.page_len() * 2 <= usize::MAX,
        ensures
            r == self.page_data().len() * self.page_len() * 2,
    {
        proof {
            assert(self.page_data().len() == self.pages@.len());
            assert(self.pages@.len() * self.page_size <= self.pages@.len() * self.page_size * 2) by (nonlinear_arith)
                requires
                    self.pages@.len() * self.page_size >= 0,
            ;
        }
        self.pages.len() * self.page_size * 2
    }

    /// Drops the table of `seq_id` and returns its pages to the end of the free list, in table
    /// order. An unknown sequence changes nothing.
    pub fn free_sequence(&mut self, seq_id: SeqId)
        requires
            old(self).wf(),
        ensures
            final(self).wf(),
            sequence_freed(*old(self), *final(self), seq_id),
    {
        match self.page_tables.remove(&seq_id) {
            Some(table) => {
                proof {
                    assert(old(self).page_tables@.contains_key(seq_id));
                }
                let ps = table.get_page_indices();
                let ghost f0 = self.free_pages@;
                let mut i: usize = 0;
                while i < ps.len()
                    invariant
                        i <= ps@.len(),
                        ps@ == table_pages(table),
                        table == old(self).page_tables@[seq_id],
                        old(self).page_tables@.contains_key(seq_id),
                        old(self).wf(),
                        self.free_pages@ == f0 + ps@.take(i as int),
                        f0 == old(self).free_pages@,
                        self.pages@ == old(self).pages@,
                        self.page_tables@ == old(self).page_tables@.remove(seq_id),
                        self.num_kv_heads == old(self).num_kv_heads,
                        self.head_dim == old(self).head_dim,
                        self.max_num_pages == old(self).max_num_pages,
                        self.page_size == old(self).page_size,
                        self.fill == old(self).fill,
                        self.block_size == old(self).block_size,
                    decreases ps@.len() - i,
                {
                    let p = ps[i];
                    self.free_pages.push(p);
                    proof {
                        assert(ps@.take(i + 1) =~= ps@.take(i as int).push(p));
                        assert(self.free_pages@ =~= f0 + ps@.take(i + 1));
                    }
                    i += 1;
                }
                proof {
                    assert(ps@.take(ps@.len() as int) =~= ps@);
                    assert forall|k: int| 0 <= k < self.free_pages@.len() implies #[trigger] self.free_pages@[k] < self.max_num_pages by {
                        if k >= f0.len() {
                            assert(self.free_pages@[k] == ps@[k - f0.len()]);
                            lemma_flat_pages_below(table.blocks@, old(self).pages@.len() as int);
                            assert(table_pages(old(self).page_tables@[seq_id])[k - f0.len()] < old(self).pages@.len());
                        }
                    }
                    assert forall|s: SeqId| #[trigger] self.page_tables@.contains_key(s) implies {
                        &&& self.page_tables@[s].seq_id == s
                        &&& self.page_tables@[s].num_tokens == self.page_tables@[s].blocks@.len() * PAGE_SIZE
                        &&& pages_below(self.page_tables@[s].blocks@, self.pages@.len() as int)
                    } by {
                        assert(old(self).page_tables@.contains_key(s));
                    }
                }
            },
            None => {},
        }
    }
}

/// `c1` is `c0` after writing keys `k` and values `v` of `seq_id` block by block into pages
/// `idx`: the pages hold what `store_blocks` gives, the sequence's table (created when
/// missing) gains one block of `PAGE_SIZE` tokens per page, and nothing else changes.
pub open spec fn kv_written<T: Copy>(
    c0: PagedAttentionCache<T>,
    c1: PagedAttentionCache<T>,
    seq_id: SeqId,
    idx: Seq<usize>,
    k: Seq<T>,
    v: Seq<T>,
) -> bool {
    let b0: Seq<Block> = if c0.tables().contains_key(seq_id) {
        c0.tables()[seq_id].blocks@
    } else {
        Seq::empty()
    };
    let n0: int = if c0.tables().contains_key(seq_id) {
        c0.tables()[seq_id].num_tokens as int
    } else {
        0
    };
    let t1 = c1.tables()[seq_id];
    &&& c1.page_data() == store_blocks(c0.page_data(), idx, idx.len() as int, c0.heads() as int, c0.dim() as int, k, v)
    &&& c1.tables().contains_key(seq_id)
    &&& c1.tables().remove(seq_id) == c0.tables().remove(seq_id)
    &&& t1.seq_id == seq_id
    &&& t1.blocks@.len() == b0.len() + idx.len()
    &&& forall|i: int| 0 <= i < b0.len() ==> #[trigger] t1.blocks@[i] == b0[i]
    &&& forall|i: int| b0.len() <= i < t1.blocks@.len() ==> (#[trigger] t1.blocks@[i]).page_indices@ == seq![idx[i - b0.len()]]
        && t1.blocks@[i].block_size == PAGE_SIZE
    &&& table_pages(t1) == flat_pages(block_pages(b0)) + idx
    &&& t1.num_tokens == n0 + idx.len() * PAGE_SIZE
    &&& c1.free() == c0.free()
    &&& c1.heads() == c0.heads()
    &&& c1.dim() == c0.dim()
    &&& c1.capacity() == c0.capacity()
    &&& c1.page_len() == c0.page_len()
    &&& c1.fill_value() == c0.fill_value()
}

/// What reading `num` tokens of `seq_id` from `c` gives: buffers of `num * heads * dim` fill
/// values into which each block of the sequence's table is loaded from each of its pages.
pub open spec fn kv_read<T: Copy>(c: PagedAttentionCache<T>, seq_id: SeqId, num: int) -> (Seq<T>, Seq<T>) {
    let empty = Seq::new((num * c.heads() * c.dim()) as nat, |i: int| c.fill_value());
    let bp = block_pages(c.tables()[seq_id].blocks@);
    load_blocks((empty, empty), c.page_data(), bp, bp.len() as int, num, c.heads() as int, c.dim() as int)
}

/// `c1` is `c0` after freeing `seq_id`: its table is gone and its pages are appended to the
/// free list in table order; nothing else changes.
pub open spec fn sequence_freed<T: Copy>(c0: PagedAttentionCache<T>, c1: PagedAttentionCache<T>, seq_id: SeqId) -> bool {
    &&& c0.tables().contains_key(seq_id) ==> c1.free() == c0.free() + table_pages(c0.tables()[seq_id])
    &&& !c0.tables().contains_key(seq_id) ==> c1.free() == c0.free()
    &&& c1.tables() == c0.tables().remove(seq_id)
    &&& c1.page_data() == c0.page_data()
    &&& c1.heads() == c0.heads()
    &&& c1.dim() == c0.dim()
    &&& c1.capacity() == c0.capacity()
    &&& c1.page_len() == c0.page_len()
    &&& c1.fill_value() == c0.fill_value()
}

/// Writing a sequence that has no table and then freeing it gives back exactly the pages it
/// was written to, in the order written, and leaves the other tables as they were.
pub proof fn lemma_free_returns_written_pages<T: Copy>(
    c0: PagedAttentionCache<T>,
    c1: PagedAttentionCache<T>,
    c2: PagedAttentionCache<T>,
    seq_id: SeqId,
    idx: Seq<usize>,
    k: Seq<T>,
    v: Seq<T>,
)
    requires
        !c0.tables().contains_key(seq_id),
        kv_written(c0, c1, seq_id, idx, k, v),
        sequence_freed(c1, c2, seq_id),
    ensures
        c2.free() == c0.free() + idx,
        c2.tables() == c0.tables(),
        c2.page_data() == c1.page_data(),
{
    assert(block_pages(Seq::<Block>::empty()) =~= Seq::<Seq<usize>>::empty());
    assert(flat_pages(Seq::<Seq<usize>>::empty()) + idx =~= idx);
    assert(c0.tables().remove(seq_id) =~= c0.tables());
}

/// Slot of token `t` of head `h` in a block laid out token after token, `nkv` heads each.
pub open spec fn kslot(h: int, t: int, nkv: int) -> int {
    h + t * nkv
}

proof fn lemma_kslot_bounds(h: int, t: int, nkv: int, n: int)
    requires
        0 <= h < nkv,
        0 <= t < n,
    ensures
        0 <= kslot(h, t, nkv) < n * nkv,
{
    assert(0 <= h + t * nkv < n * nkv) by (nonlinear_arith)
        requires
            0 <= h < nkv,
            0 <= t < n,
    ;
}

/// Position `j` of a page holds what a write of `k` and `v` puts there: a key in the first
/// half, a value in the second.
pub open spec fn holds_written<T>(d: Seq<T>, j: int, nkv: int, k: Seq<T>, v: Seq<T>) -> bool {
    if j < 8 * nkv {
        d[j] == k[j]
    } else {
        d[j] == v[j - 8 * nkv]
    }
}

proof fn lemma_store_tokens_hold<T>(d: Seq<T>, h: int, m: int, nkv: int, k: Seq<T>, v: Seq<T>)
    requires
        0 <= h < nkv,
        0 <= m <= 8,
        d.len() == 16 * nkv,
        m * nkv <= k.len(),
        k.len() == v.len(),
    ensures
        store_tokens(d, 0, h, 0, m, nkv, 1, k, v).len() == d.len(),
        forall|j: int|
            0 <= j < 16 * nkv && #[trigger] holds_written(d, j, nkv, k, v) ==> holds_written(
                store_tokens(d, 0, h, 0, m, nkv, 1, k, v),
                j,
                nkv,
                k,
                v,
            ),
        forall|t: int|
            0 <= t < m ==> holds_written(store_tokens(d, 0, h, 0, m, nkv, 1, k, v), #[trigger] kslot(h, t, nkv), nkv, k, v)
                && holds_written(store_tokens(d, 0, h, 0, m, nkv, 1, k, v), kslot(h, t, nkv) + 8 * nkv, nkv, k, v),
    decreases m,
{
    if m > 0 {
        assert((m - 1) * nkv <= m * nkv) by (nonlinear_arith)
            requires
                nkv >= 0,
        ;
        lemma_store_tokens_hold(d, h, m - 1, nkv, k, v);
        let prev = store_tokens(d, 0, h, 0, m - 1, nkv, 1, k, v);
        let t = m - 1;
        lemma_kslot_bounds(h, t, nkv, m);
        assert(m * nkv <= 8 * nkv) by (nonlinear_arith)
            requires
                m <= 8,
                nkv >= 0,
        ;
        let p = kslot(h, t, nkv);
        assert(h * 1 + t * nkv * 1 == p);
        assert(0 * (nkv * 1 * PAGE_SIZE) + h * 1 + (t - 0) * nkv * 1 == p);
        assert((nkv * 1 * PAGE_SIZE) / 2 == 8 * nkv);
        let r = store_tokens(d, 0, h, 0, m, nkv, 1, k, v);
        assert(r == store_token(prev, 0, h, t, 0, nkv, 1, k, v));
        assert(r == prev.update(p, k[p]).update(p + 8 * nkv, v[p]));
        assert forall|j: int| 0 <= j < 16 * nkv && #[trigger] holds_written(prev, j, nkv, k, v) implies holds_written(
            r,
            j,
            nkv,
            k,
            v,
        ) by {
            if j != p && j != p + 8 * nkv {
                assert(r[j] == prev[j]);
            }
        }
        assert(holds_written(r, p, nkv, k, v));
        assert(holds_written(r, p + 8 * nkv, nkv, k, v));
        assert forall|t2: int| 0 <= t2 < m implies holds_written(r, #[trigger] kslot(h, t2, nkv), nkv, k, v) && holds_written(
            r,
            kslot(h, t2, nkv) + 8 * nkv,
            nkv,
            k,
            v,
        ) by {
            if t2 < m - 1 {
                lemma_kslot_bounds(h, t2, nkv, m);
                assert(holds_written(prev, kslot(h, t2, nkv), nkv, k, v));
                assert(holds_written(prev, kslot(h, t2, nkv) + 8 * nkv, nkv, k, v));
            }
        }
    }
}

proof fn lemma_store_heads_hold<T>(d: Seq<T>, n_heads: int, m: int, nkv: int, k: Seq<T>, v: Seq<T>)
    requires
        0 <= n_heads <= nkv,
        0 <= m <= 8,
        d.len() == 16 * nkv,
        m * nkv <= k.len(),
        k.len() == v.len(),
    ensures
        store_heads(d, 0, n_heads, 0, m, nkv, 1, k, v).len() == d.len(),
        forall|h: int, t: int|
            0 <= h < n_heads && 0 <= t < m ==> holds_written(
                store_heads(d, 0, n_heads, 0, m, nkv, 1, k, v),
                #[trigger] kslot(h, t, nkv),
                nkv,
                k,
                v,
            ) && holds_written(store_heads(d, 0, n_heads, 0, m, nkv, 1, k, v), kslot(h, t, nkv) + 8 * nkv, nkv, k, v),
    decreases n_heads,
{
    if n_heads > 0 {
        lemma_store_heads_hold(d, n_heads - 1, m, nkv, k, v);
        let prev = store_heads(d, 0, n_heads - 1, 0, m, nkv, 1, k, v);
        lemma_store_tokens_hold(prev, n_heads - 1, m, nkv, k, v);
        let r = store_heads(d, 0, n_heads, 0, m, nkv, 1, k, v);
        assert(r == store_tokens(prev, 0, n_heads - 1, 0, m, nkv, 1, k, v));
        assert(m * nkv <= 8 * nkv) by (nonlinear_arith)
            requires
                m <= 8,
                nkv >= 0,
        ;
        assert forall|h: int, t: int| 0 <= h < n_heads && 0 <= t < m implies holds_written(
            r,
            #[trigger] kslot(h, t, nkv),
            nkv,
            k,
            v,
        ) && holds_written(r, kslot(h, t, nkv) + 8 * nkv, nkv, k, v) by {
            if h < n_heads - 1 {
                lemma_kslot_bounds(h, t, nkv, m);
                assert(holds_written(prev, kslot(h, t, nkv), nkv, k, v));
                assert(holds_written(prev, kslot(h, t, nkv) + 8 * nkv, nkv, k, v));
            }
        }
    }
}

/// Slot `j` of both buffers holds what a page loaded into it puts there: the key at `j`, the
/// value half a page further on.
pub open spec fn holds_loaded<T>(kv: (Seq<T>, Seq<T>), page: Seq<T>, j: int, nkv: int) -> bool {
    kv.0[j] == page[j] && kv.1[j] == page[j + 8 * nkv]
}

proof fn lemma_copy_in_one<T>(buf: Seq<T>, at: int, page: Seq<T>, from: int)
    requires
        0 <= at < buf.len(),
        0 <= from < page.len(),
    ensures
        copy_in(buf, at, page, from, 1) == buf.update(at, page[from]),
{
    assert(buf.take(at) + page.subrange(from, from + 1) + buf.skip(at + 1) =~= buf.update(at, page[from]));
}

proof fn lemma_load_tokens_hold<T>(kv: (Seq<T>, Seq<T>), page: Seq<T>, h: int, m: int, nkv: int)
    requires
        0 <= h < nkv,
        0 <= m <= 8,
        page.len() == 16 * nkv,
        m * nkv <= kv.0.len(),
        kv.0.len() == kv.1.len(),
    ensures
        load_tokens(kv, page, 0, h, 0, m, nkv, 1).0.len() == kv.0.len(),
        load_tokens(kv, page, 0, h, 0, m, nkv, 1).1.len() == kv.1.len(),
        forall|j: int|
            0 <= j < kv.0.len() && #[trigger] holds_loaded(kv, page, j, nkv) ==> holds_loaded(
                load_tokens(kv, page, 0, h, 0, m, nkv, 1),
                page,
                j,
                nkv,
            ),
        forall|t: int|
            0 <= t < m ==> holds_loaded(load_tokens(kv, page, 0, h, 0, m, nkv, 1), page, #[trigger] kslot(h, t, nkv), nkv),
    decreases m,
{
    if m > 0 {
        assert((m - 1) * nkv <= m * nkv) by (nonlinear_arith)
            requires
                nkv >= 0,
        ;
        lemma_load_tokens_hold(kv, page, h, m - 1, nkv);
        let prev = load_tokens(kv, page, 0, h, 0, m - 1, nkv, 1);
        let t = m - 1;
        lemma_kslot_bounds(h, t, nkv, m);
        assert(m * nkv <= 8 * nkv) by (nonlinear_arith)
            requires
                m <= 8,
                nkv >= 0,
        ;
        let p = kslot(h, t, nkv);
        assert(0 * (nkv * 1 * PAGE_SIZE) + h * 1 + t * nkv * 1 == p);
        assert((0 + t) * nkv * 1 + h * 1 == p);
        assert((nkv * 1 * PAGE_SIZE) / 2 == 8 * nkv);
        lemma_copy_in_one(prev.0, p, page, p);
        lemma_copy_in_one(prev.1, p, page, p + 8 * nkv);
        let r = load_tokens(kv, page, 0, h, 0, m, nkv, 1);
        assert(r == load_token(prev, page, 0, h, t, 0, nkv, 1));
        assert(r.0 == prev.0.update(p, page[p]));
        assert(r.1 == prev.1.update(p, page[p + 8 * nkv]));
        assert forall|j: int| 0 <= j < kv.0.len() && #[trigger] holds_loaded(prev, page, j, nkv) implies holds_loaded(
            r,
            page,
            j,
            nkv,
        ) by {
            if j != p {
                assert(r.0[j] == prev.0[j]);
                assert(r.1[j] == prev.1[j]);
            }
        }
        assert forall|t2: int| 0 <= t2 < m implies holds_loaded(r, page, #[trigger] kslot(h, t2, nkv), nkv) by {
            if t2 < m - 1 {
                lemma_kslot_bounds(h, t2, nkv, m);
                assert(holds_loaded(prev, page, kslot(h, t2, nkv), nkv));
            }
        }
    }
}

proof fn lemma_load_heads_hold<T>(kv: (Seq<T>, Seq<T>), page: Seq<T>, n_heads: int, m: int, nkv: int)
    requires
        0 <= n_heads <= nkv,
        0 <= m <= 8,
        page.len() == 16 * nkv,
        m * nkv <= kv.0.len(),
        kv.0.len() == kv.1.len(),
    ensures
        load_heads(kv, page, 0, n_heads, 0, m, nkv, 1).0.len() == kv.0.len(),
        load_heads(kv, page, 0, n_heads, 0, m, nkv, 1).1.len() == kv.1.len(),
        forall|h: int, t: int|
            0 <= h < n_heads && 0 <= t < m ==> holds_loaded(
                load_heads(kv, page, 0, n_heads, 0, m, nkv, 1),
                page,
                #[trigger] kslot(h, t, nkv),
                nkv,
            ),
    decreases n_heads,
{
    if n_heads > 0 {
        lemma_load_heads_hold(kv, page, n_heads - 1, m, nkv);
        let prev = load_heads(kv, page, 0, n_heads - 1, 0, m, nkv, 1);
        lemma_load_tokens_hold(prev, page, n_heads - 1, m, nkv);
        let r = load_heads(kv, page, 0, n_heads, 0, m, nkv, 1);
        assert(r == load_tokens(prev, page, 0, n_heads - 1, 0, m, nkv, 1));
        assert forall|h: int, t: int| 0 <= h < n_heads && 0 <= t < m implies holds_loaded(
            r,
            page,
            #[trigger] kslot(h, t, nkv),
            nkv,
        ) by {
            if h < n_heads - 1 {
                lemma_kslot_bounds(h, t, nkv, m);
                assert(m * nkv <= kv.0.len());
                assert(holds_loaded(prev, page, kslot(h, t, nkv), nkv));
            }
        }
    }
}


proof fn lemma_kslot_inj(h1: int, t1: int, h2: int, t2: int, nkv: int)
    requires
        0 <= h1 < nkv,
        0 <= h2 < nkv,
        0 <= t1,
        0 <= t2,
        kslot(h1, t1, nkv) == kslot(h2, t2, nkv),
    ensures
        h1 == h2,
        t1 == t2,
{
    if t1 < t2 {
        assert((t2 - t1) * nkv >= nkv) by (nonlinear_arith)
            requires
                t2 - t1 >= 1,
                nkv > 0,
        ;
        assert(t2 * nkv == t1 * nkv + (t2 - t1) * nkv) by (nonlinear_arith);
    } else if t2 < t1 {
        assert((t1 - t2) * nkv >= nkv) by (nonlinear_arith)
            requires
                t1 - t2 >= 1,
                nkv > 0,
        ;
        assert(t1 * nkv == t2 * nkv + (t1 - t2) * nkv) by (nonlinear_arith);
    }
}

proof fn lemma_store_tokens_keys<T>(d: Seq<T>, h: int, m: int, nkv: int, k: Seq<T>, v: Seq<T>)
    requires
        0 <= h < nkv,
        0 <= m <= 16,
        d.len() == 16 * nkv,
        m * nkv <= k.len(),
        k.len() == v.len(),
    ensures
        store_tokens(d, 0, h, 0, m, nkv, 1, k, v).len() == d.len(),
        forall|h2: int, t2: int|
            0 <= h2 < nkv && h2 != h && 0 <= t2 < 16 ==> store_tokens(d, 0, h, 0, m, nkv, 1, k, v)[#[trigger] kslot(
                h2,
                t2,
                nkv,
            )] == d[kslot(h2, t2, nkv)],
        forall|t: int|
            0 <= t < m ==> store_tokens(d, 0, h, 0, m, nkv, 1, k, v)[#[trigger] kslot(h, t, nkv)] == k[kslot(h, t, nkv)],
    decreases m,
{
    if m > 0 {
        assert((m - 1) * nkv <= m * nkv) by (nonlinear_arith)
            requires
                nkv >= 0,
        ;
        lemma_store_tokens_keys(d, h, m - 1, nkv, k, v);
        let prev = store_tokens(d, 0, h, 0, m - 1, nkv, 1, k, v);
        let t = m - 1;
        lemma_kslot_bounds(h, t, nkv, m);
        assert(m * nkv <= 16 * nkv) by (nonlinear_arith)
            requires
                m <= 16,
                nkv >= 0,
        ;
        let p = kslot(h, t, nkv);
        assert(h * 1 + t * nkv * 1 == p);
        assert(0 * (nkv * 1 * PAGE_SIZE) + h * 1 + (t - 0) * nkv * 1 == p);
        assert((nkv * 1 * PAGE_SIZE) / 2 == 8 * nkv);
        let r = store_tokens(d, 0, h, 0, m, nkv, 1, k, v);
        assert(r == store_token(prev, 0, h, t, 0, nkv, 1, k, v));
        let r1 = prev.update(p, k[p]);
        assert(r == put(r1, p + 8 * nkv, p, v));
        assert(p + 8 * nkv == kslot(h, t + 8, nkv)) by (nonlinear_arith)
            requires
                p == h + t * nkv,
        ;
        assert forall|h2: int, t2: int| 0 <= h2 < nkv && h2 != h && 0 <= t2 < 16 implies r[#[trigger] kslot(h2, t2, nkv)]
            == d[kslot(h2, t2, nkv)] by {
            lemma_kslot_bounds(h2, t2, nkv, 16);
            if kslot(h2, t2, nkv) == p {
                lemma_kslot_inj(h2, t2, h, t, nkv);
            }
            if kslot(h2, t2, nkv) == p + 8 * nkv {
                lemma_kslot_inj(h2, t2, h, t + 8, nkv);
            }
            assert(prev[kslot(h2, t2, nkv)] == d[kslot(h2, t2, nkv)]);
        }
        assert forall|t2: int| 0 <= t2 < m implies r[#[trigger] kslot(h, t2, nkv)] == k[kslot(h, t2, nkv)] by {
            lemma_kslot_bounds(h, t2, nkv, m);
            if kslot(h, t2, nkv) == p + 8 * nkv {
                lemma_kslot_inj(h, t2, h, t + 8, nkv);
            }
            if t2 < m - 1 {
                if kslot(h, t2, nkv) == p {
                    lemma_kslot_inj(h, t2, h, t, nkv);
                }
                assert(prev[kslot(h, t2, nkv)] == k[kslot(h, t2, nkv)]);
            }
        }
    }
}

proof fn lemma_store_heads_keys<T>(d: Seq<T>, n_heads: int, m: int, nkv: int, k: Seq<T>, v: Seq<T>)
    requires
        0 <= n_heads <= nkv,
        0 <= m <= 16,
        d.len() == 16 * nkv,
        m * nkv <= k.len(),
        k.len() == v.len(),
    ensures
        store_heads(d, 0, n_heads, 0, m, nkv, 1, k, v).len() == d.len(),
        forall|h: int, t: int|
            0 <= h < n_heads && 0 <= t < m ==> store_heads(d, 0, n_heads, 0, m, nkv, 1, k, v)[#[trigger] kslot(h, t, nkv)]
                == k[kslot(h, t, nkv)],
    decreases n_heads,
{
    if n_heads > 0 {
        lemma_store_heads_keys(d, n_heads - 1, m, nkv, k, v);
        let prev = store_heads(d, 0, n_heads - 1, 0, m, nkv, 1, k, v);
        lemma_store_tokens_keys(prev, n_heads - 1, m, nkv, k, v);
        let r = store_heads(d, 0, n_heads, 0, m, nkv, 1, k, v);
        assert(r == store_tokens(prev, 0, n_heads - 1, 0, m, nkv, 1, k, v));
        assert forall|h: int, t: int| 0 <= h < n_heads && 0 <= t < m implies r[#[trigger] kslot(h, t, nkv)] == k[kslot(
            h,
            t,
            nkv,
        )] by {
            if h < n_heads - 1 {
                assert(prev[kslot(h, t, nkv)] == k[kslot(h, t, nkv)]);
            }
        }
    }
}

proof fn lemma_load_tokens_keys<T>(kv: (Seq<T>, Seq<T>), page: Seq<T>, h: int, m: int, nkv: int)
    requires
        0 <= h < nkv,
        0 <= m <= 16,
        page.len() == 16 * nkv,
        m * nkv <= kv.0.len(),
        kv.0.len() == kv.1.len(),
    ensures
        load_tokens(kv, page, 0, h, 0, m, nkv, 1).0.len() == kv.0.len(),
        load_tokens(kv, page, 0, h, 0, m, nkv, 1).1.len() == kv.1.len(),
        forall|j: int|
            0 <= j < kv.0.len() && #[trigger] kv.0[j] == page[j] ==> load_tokens(kv, page, 0, h, 0, m, nkv, 1).0[j] == page[j],
        forall|t: int| 0 <= t < m ==> load_tokens(kv, page, 0, h, 0, m, nkv, 1).0[#[trigger] kslot(h, t, nkv)] == page[kslot(h, t, nkv)],
    decreases m,
{
    if m > 0 {
        assert((m - 1) * nkv <= m * nkv) by (nonlinear_arith)
            requires
                nkv >= 0,
        ;
        lemma_load_tokens_keys(kv, page, h, m - 1, nkv);
        let prev = load_tokens(kv, page, 0, h, 0, m - 1, nkv, 1);
        let t = m - 1;
        lemma_kslot_bounds(h, t, nkv, m);
        assert(m * nkv <= 16 * nkv) by (nonlinear_arith)
            requires
                m <= 16,
                nkv >= 0,
        ;
        let p = kslot(h, t, nkv);
        assert(0 * (nkv * 1 * PAGE_SIZE) + h * 1 + t * nkv * 1 == p);
        assert((0 + t) * nkv * 1 + h * 1 == p);
        assert((nkv * 1 * PAGE_SIZE) / 2 == 8 * nkv);
        lemma_copy_in_one(prev.0, p, page, p);
        if p + 8 * nkv < page.len() {
            lemma_copy_in_one(prev.1, p, page, p + 8 * nkv);
        }
        let r = load_tokens(kv, page, 0, h, 0, m, nkv, 1);
        assert(r == load_token(prev, page, 0, h, t, 0, nkv, 1));
        assert(r.0 == prev.0.update(p, page[p]));
        assert forall|j: int| 0 <= j < kv.0.len() && #[trigger] kv.0[j] == page[j] implies r.0[j] == page[j] by {
            if j != p {
                assert(r.0[j] == prev.0[j]);
            }
        }
        assert forall|t2: int| 0 <= t2 < m implies r.0[#[trigger] kslot(h, t2, nkv)] == page[kslot(h, t2, nkv)] by {
            if t2 < m - 1 {
                lemma_kslot_bounds(h, t2, nkv, m);
                assert(prev.0[kslot(h, t2, nkv)] == page[kslot(h, t2, nkv)]);
                if kslot(h, t2, nkv) != p {
                    assert(r.0[kslot(h, t2, nkv)] == prev.0[kslot(h, t2, nkv)]);
                }
            }
        }
    }
}


proof fn lemma_load_heads_keys<T>(kv: (Seq<T>, Seq<T>), page: Seq<T>, n_heads: int, m: int, nkv: int)
    requires
        0 <= n_heads <= nkv,
        0 <= m <= 16,
        page.len() == 16 * nkv,
        m * nkv <= kv.0.len(),
        kv.0.len() == kv.1.len(),
    ensures
        load_heads(kv, page, 0, n_heads, 0, m, nkv, 1).0.len() == kv.0.len(),
        load_heads(kv, page, 0, n_heads, 0, m, nkv, 1).1.len() == kv.1.len(),
        forall|h: int, t: int|
            0 <= h < n_heads && 0 <= t < m ==> load_heads(kv, page, 0, n_heads, 0, m, nkv, 1).0[#[trigger] kslot(h, t, nkv)]
                == page[kslot(h, t, nkv)],
    decreases n_heads,
{
    if n_heads > 0 {
        lemma_load_heads_keys(kv, page, n_heads - 1, m, nkv);
        let prev = load_heads(kv, page, 0, n_heads - 1, 0, m, nkv, 1);
        lemma_load_tokens_keys(prev, page, n_heads - 1, m, nkv);
        let r = load_heads(kv, page, 0, n_heads, 0, m, nkv, 1);
        assert(r == load_tokens(prev, page, 0, n_heads - 1, 0, m, nkv, 1));
        assert forall|h: int, t: int| 0 <= h < n_heads && 0 <= t < m implies r.0[#[trigger] kslot(h, t, nkv)] == page[kslot(
            h,
            t,
            nkv,
        )] by {
            if h < n_heads - 1 {
                lemma_kslot_bounds(h, t, nkv, m);
                assert(prev.0[kslot(h, t, nkv)] == page[kslot(h, t, nkv)]);
            }
        }
    }
}

/// Writing the keys of a sequence that has no table to page 0 of a cache with one value per
/// head, then reading back at most as many tokens as were written, up to a page of them,
/// gives back the keys written (the values, see `lemma_read_back_first_page`, come back only
/// for at most half a page).
pub proof fn lemma_read_back_keys_first_page<T: Copy>(
    c0: PagedAttentionCache<T>,
    c1: PagedAttentionCache<T>,
    seq_id: SeqId,
    k: Seq<T>,
    v: Seq<T>,
    num: int,
)
    requires
        c0.wf(),
        !c0.tables().contains_key(seq_id),
        c0.page_data().len() > 0,
        c0.heads() > 0,
        c0.dim() == 1,
        k.len() == v.len(),
        0 <= num <= (k.len() as int) / (c0.heads() as int),
        num <= PAGE_SIZE,
        kv_written(c0, c1, seq_id, seq![0usize], k, v),
    ensures
        kv_read(c1, seq_id, num).0 == k.take(num * c0.heads()),
{
    let nkv = c0.heads() as int;
    let klen = k.len() as int;
    let n = klen / nkv;
    vstd::arithmetic::div_mod::lemma_fundamental_div_mod(klen, nkv);
    vstd::arithmetic::div_mod::lemma_mod_bound(klen, nkv);
    vstd::arithmetic::div_mod::lemma_div_pos_is_pos(klen, nkv);
    let m = block_end(0, nkv, klen);
    assert(m == if 16 < n { 16 } else { n });
    assert(m * nkv <= klen) by (nonlinear_arith)
        requires
            klen == nkv * n + klen % nkv,
            0 <= klen % nkv,
            0 <= m <= n,
            nkv > 0,
    ;
    assert(num * nkv <= m * nkv) by (nonlinear_arith)
        requires
            num <= m,
            nkv > 0,
    ;
    let idx = seq![0usize];
    let p0 = c0.page_data();
    assert(p0[0] == c0.pages@[0].data@);
    assert(p0[0].len() == 16 * nkv);
    let page = store_heads(p0[0], 0, nkv, 0, m, nkv, 1, k, v);
    lemma_store_heads_keys(p0[0], nkv, m, nkv, k, v);
    assert(store_blocks(p0, idx, 0, nkv, 1, k, v) == p0);
    assert(c1.page_data() == p0.update(0, page));
    assert(c1.page_data()[0] == page);
    let t1 = c1.tables()[seq_id];
    assert(t1.blocks@.len() == 1);
    assert(t1.blocks@[0].page_indices@ == seq![0usize]);
    let bp = block_pages(t1.blocks@);
    assert(bp.len() == 1);
    assert(bp[0] == seq![0usize]);
    let empty = Seq::new((num * nkv * 1) as nat, |i: int| c1.fill_value());
    assert(num * nkv * 1 == num * nkv);
    assert(load_blocks((empty, empty), c1.page_data(), bp, 0, num, nkv, 1) == (empty, empty));
    assert(load_pages((empty, empty), c1.page_data(), bp[0], 0, 0, num, nkv, 1) == (empty, empty));
    assert(block_tokens(0, num) == num);
    let out = load_heads((empty, empty), page, 0, nkv, 0, num, nkv, 1);
    assert(load_pages((empty, empty), c1.page_data(), bp[0], 1, 0, num, nkv, 1) == out);
    assert(kv_read(c1, seq_id, num) == out);
    lemma_load_heads_keys((empty, empty), page, nkv, num, nkv);
    assert forall|j: int| 0 <= j < num * nkv implies out.0[j] == k[j] by {
        vstd::arithmetic::div_mod::lemma_fundamental_div_mod(j, nkv);
        vstd::arithmetic::div_mod::lemma_mod_bound(j, nkv);
        vstd::arithmetic::div_mod::lemma_div_pos_is_pos(j, nkv);
        let h = j % nkv;
        let t = j / nkv;
        assert(j == kslot(h, t, nkv)) by (nonlinear_arith)
            requires
                j == nkv * t + h,
        ;
        assert(t < num) by (nonlinear_arith)
            requires
                j == nkv * t + h,
                0 <= h,
                j < num * nkv,
                nkv > 0,
        ;
        assert(out.0[kslot(h, t, nkv)] == page[kslot(h, t, nkv)]);
        assert(page[kslot(h, t, nkv)] == k[kslot(h, t, nkv)]);
    }
    assert(out.0 =~= k.take(num * nkv));
}

/// Writing the keys and values of at most half a page of tokens of a sequence that has no
/// table to page 0 of a cache with one value per head, then reading back at most as many
/// tokens as were written, gives back the keys and values written.
pub proof fn lemma_read_back_first_page<T: Copy>(
    c0: PagedAttentionCache<T>,
    c1: PagedAttentionCache<T>,
    seq_id: SeqId,
    k: Seq<T>,
    v: Seq<T>,
    num: int,
)
    requires
        c0.wf(),
        !c0.tables().contains_key(seq_id),
        c0.page_data().len() > 0,
        c0.heads() > 0,
        c0.dim() == 1,
        k.len() == v.len(),
        (k.len() as int) / (c0.heads() as int) <= PAGE_SIZE / 2,
        0 <= num <= (k.len() as int) / (c0.heads() as int),
        kv_written(c0, c1, seq_id, seq![0usize], k, v),
    ensures
        kv_read(c1, seq_id, num).0 == k.take(num * c0.heads()),
        kv_read(c1, seq_id, num).1 == v.take(num * c0.heads()),
{
    let nkv = c0.heads() as int;
    let klen = k.len() as int;
    let n = klen / nkv;
    vstd::arithmetic::div_mod::lemma_fundamental_div_mod(klen, nkv);
    vstd::arithmetic::div_mod::lemma_mod_bound(klen, nkv);
    vstd::arithmetic::div_mod::lemma_div_pos_is_pos(klen, nkv);
    assert(n * nkv <= klen) by (nonlinear_arith)
        requires
            klen == nkv * n + klen % nkv,
            0 <= klen % nkv,
    ;
    assert(num * nkv <= n * nkv) by (nonlinear_arith)
        requires
            num <= n,
            nkv > 0,
    ;
    let idx = seq![0usize];
    let p0 = c0.page_data();
    assert(p0[0] == c0.pages@[0].data@);
    assert(p0[0].len() == 16 * nkv);
    assert(block_end(0, nkv, klen) == n);
    let page = store_heads(p0[0], 0, nkv, 0, n, nkv, 1, k, v);
    lemma_store_heads_hold(p0[0], nkv, n, nkv, k, v);
    assert(store_blocks(p0, idx, 0, nkv, 1, k, v) == p0);
    assert(c1.page_data() == p0.update(0, page));
    assert(c1.page_data()[0] == page);
    let t1 = c1.tables()[seq_id];
    assert(t1.blocks@.len() == 1);
    assert(t1.blocks@[0].page_indices@ == seq![0usize]);
    let bp = block_pages(t1.blocks@);
    assert(bp.len() == 1);
    assert(bp[0] == seq![0usize]);
    let empty = Seq::new((num * nkv * 1) as nat, |i: int| c1.fill_value());
    assert(num * nkv * 1 == num * nkv);
    assert(load_blocks((empty, empty), c1.page_data(), bp, 0, num, nkv, 1) == (empty, empty));
    assert(load_pages((empty, empty), c1.page_data(), bp[0], 0, 0, num, nkv, 1) == (empty, empty));
    assert(block_tokens(0, num) == num);
    let out = load_heads((empty, empty), page, 0, nkv, 0, num, nkv, 1);
    assert(load_pages((empty, empty), c1.page_data(), bp[0], 1, 0, num, nkv, 1) == out);
    assert(kv_read(c1, seq_id, num) == out);
    lemma_load_heads_hold((empty, empty), page, nkv, num, nkv);
    assert forall|j: int| 0 <= j < num * nkv implies out.0[j] == k[j] && out.1[j] == v[j] by {
        vstd::arithmetic::div_mod::lemma_fundamental_div_mod(j, nkv);
        vstd::arithmetic::div_mod::lemma_mod_bound(j, nkv);
        vstd::arithmetic::div_mod::lemma_div_pos_is_pos(j, nkv);
        let h = j % nkv;
        let t = j / nkv;
        assert(j == kslot(h, t, nkv)) by (nonlinear_arith)
            requires
                j == nkv * t + h,
        ;
        assert(t < num) by (nonlinear_arith)
            requires
                j == nkv * t + h,
                0 <= h,
                j < num * nkv,
                nkv > 0,
        ;
        lemma_kslot_bounds(h, t, nkv, n);
        assert(n * nkv <= 8 * nkv) by (nonlinear_arith)
            requires
                n <= 8,
                nkv >= 0,
        ;
        assert(holds_loaded(out, page, kslot(h, t, nkv), nkv));
        assert(holds_written(page, kslot(h, t, nkv), nkv, k, v));
        assert(holds_written(page, kslot(h, t, nkv) + 8 * nkv, nkv, k, v));
    }
    assert(out.0 =~= k.take(num * nkv));
    assert(out.1 =~= v.take(num * nkv));
}

} // verus!
