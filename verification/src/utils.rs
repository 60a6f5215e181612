use vstd::prelude::*;
use vstd::arithmetic::power2::pow2;
use vstd::arithmetic::div_mod::{lemma_fundamental_div_mod, lemma_mod_bound, lemma_mod_multiples_basic};
use vstd::arithmetic::mul::lemma_mul_is_commutative;
use std::time::Duration;
use std::time::Instant;

verus! {

#[verifier::external_type_specification]
#[verifier::external_body]
pub struct ExInstant(Instant);

/// `a` is a power of two that fits in a `usize`.
pub open spec fn is_power_of_two(a: usize) -> bool {
    exists|k: nat| k < usize::BITS && pow2(k) == a
}

/// What `align_up` computes: `size + align - 1` with the low bits of `align - 1` cleared.
pub open spec fn spec_align_up(size: usize, align: usize) -> usize
    recommends
        align > 0,
        size + align - 1 <= usize::MAX,
{
    ((size + align - 1) as usize) & !((align - 1) as usize)
}

/// The smallest multiple of `align` that is at least `size`.
pub open spec fn spec_round_up(size: int, align: int) -> int
    recommends
        align > 0,
{
    ((size + align - 1) / align) * align
}

/// For a power-of-two `align`, clearing the low bits of `x` leaves the largest multiple of
/// `align` not above `x`.
proof fn lemma_clear_low_bits(x: usize, align: usize)
    requires
        is_power_of_two(align),
    ensures
        x & !((align - 1) as usize) == (x / align) * align,
        (x & !((align - 1) as usize)) % align == 0,
{
    let k = choose|k: nat| k < usize::BITS && pow2(k) == align;
    vstd::bits::lemma_usize_pow2_no_overflow(k);
    let m: usize = (align - 1) as usize;
    assert(vstd::bits::low_bits_mask(k) == m);
    vstd::bits::lemma_usize_low_bits_mask_is_mod(x, k);
    assert(x & m == x % align);
    assert(x & !m == (x - (x & m)) as usize) by (bit_vector);
    assert(x & m <= x) by (bit_vector);
    lemma_fundamental_div_mod(x as int, align as int);
    lemma_mul_is_commutative(align as int, x as int / align as int);
    lemma_mod_multiples_basic(x as int / align as int, align as int);
}

proof fn lemma_round_up_bounds(size: int, align: int)
    requires
        size >= 0,
        align > 0,
    ensures
        spec_round_up(size, align) % align == 0,
        size <= spec_round_up(size, align) < size + align,
{
    let x = size + align - 1;
    lemma_fundamental_div_mod(x, align);
    lemma_mod_bound(x, align);
    lemma_mul_is_commutative(align, x / align);
    lemma_mod_multiples_basic(x / align, align);
}

/// Rounds `size` up to a multiple of `align` by masking; exact for power-of-two alignments.
pub fn align_up(size: usize, align: usize) -> (r: usize)
    requires
        align > 0,
        size + align - 1 <= usize::MAX,
    ensures
        r == spec_align_up(size, align),
        is_power_of_two(align) ==> r == spec_round_up(size as int, align as int),
        is_power_of_two(align) ==> r % align == 0 && size <= r && r < size + align,
{
    let r = (size + (align - 1)) & !(align - 1);
    proof {
        if is_power_of_two(align) {
            lemma_clear_low_bits((size + align - 1) as usize, align);
            lemma_round_up_bounds(size as int, align as int);
        }
    }
    r
}

/// Rounds `size` down to a multiple of `align` by masking; exact for power-of-two alignments.
pub fn align_down(size: usize, align: usize) -> (r: usize)
    requires
        align > 0,
    ensures
        r == size & !((align - 1) as usize),
        is_power_of_two(align) ==> r == (size / align) * align,
        is_power_of_two(align) ==> r % align == 0 && r <= size && size < r + align,
{
    let r = size & !(align - 1);
    proof {
        if is_power_of_two(align) {
            lemma_clear_low_bits(size, align);
            lemma_fundamental_div_mod(size as int, align as int);
            lemma_mod_bound(size as int, align as int);
            lemma_mul_is_commutative(align as int, size as int / align as int);
        }
    }
    r
}

/// Integer ceiling of `a / b`.
pub fn div_up(a: usize, b: usize) -> (r: usize)
    requires
        b > 0,
        a + b - 1 <= usize::MAX,
    ensures
        r == (a + b - 1) / (b as int),
        r * b >= a,
        r * b < a + b,
{
    let r = (a + (b - 1)) / b;
    proof {
        lemma_round_up_bounds(a as int, b as int);
    }
    r
}

/// Rounds `x` up to the next multiple of `y`.
pub fn round_up(x: usize, y: usize) -> (r: usize)
    requires
        y > 0,
        x + y - 1 <= usize::MAX,
        spec_round_up(x as int, y as int) <= usize::MAX,
    ensures
        r == spec_round_up(x as int, y as int),
        r % y == 0,
        x <= r < x + y,
{
    proof {
        lemma_round_up_bounds(x as int, y as int);
    }
    ((x + (y - 1)) / y) * y
}

/// Smallest power of two that is at least `n` (and 1 for `n == 0`).
pub fn next_power_of_2(n: usize) -> (r: usize)
    requires
        n <= usize::MAX / 2 + 1,
    ensures
        is_power_of_two(r),
        r >= n,
        r >= 1,
        n <= 1 ==> r == 1,
        n > 1 ==> r / 2 < n,
{
    if n == 0 {
        proof {
            vstd::arithmetic::power2::lemma2_to64();
            assert(pow2(0) == 1);
        }
        return 1;
    }
    let mut p: usize = 1;
    let ghost mut k: nat = 0;
    proof {
        vstd::arithmetic::power2::lemma2_to64();
    }
    while p < n
        invariant
            1 <= p,
            n <= usize::MAX / 2 + 1,
            k < usize::BITS,
            pow2(k) == p,
            p == 1 || p / 2 < n,
        decreases usize::MAX - p,
    {
        proof {
            vstd::arithmetic::power2::lemma_pow2_unfold(k + 1);
            assert(p * 2 <= usize::MAX);
            if k + 1 >= usize::BITS {
                vstd::arithmetic::power2::lemma2_to64();
                vstd::arithmetic::power2::lemma2_to64_rest();
                if k + 1 > usize::BITS {
                    vstd::arithmetic::power2::lemma_pow2_strictly_increases(usize::BITS as nat, k + 1);
                }
                assert(false);
            }
        }
        p = p * 2;
        proof {
            k = k + 1;
        }
    }
    p
}


/// Bytes needed for the key and value caches of `num_seqs` sequences (4-byte elements).
pub open spec fn spec_kv_cache_bytes(
    num_layers: int,
    num_kv_heads: int,
    head_dim: int,
    max_seq_len: int,
    num_seqs: int,
) -> int {
    num_kv_heads * head_dim * 2 * 4 * max_seq_len * num_layers * num_seqs
}

/// Every intermediate product of `estimate_memory_for_kv_cache` fits in a `usize`.
pub open spec fn kv_cache_estimate_fits(
    num_layers: usize,
    num_kv_heads: usize,
    head_dim: usize,
    max_seq_len: usize,
    num_seqs: usize,
) -> bool {
    &&& num_kv_heads * head_dim * 2 * 4 <= usize::MAX
    &&& num_kv_heads * head_dim * 2 * 4 * max_seq_len <= usize::MAX
    &&& num_kv_heads * head_dim * 2 * 4 * max_seq_len * num_layers <= usize::MAX
    &&& num_kv_heads * head_dim * 2 * 4 * max_seq_len * num_layers * num_seqs <= usize::MAX
}

/// Estimated bytes of a key/value cache: two 4-byte values per head dimension, per token,
/// per layer and per sequence.
pub fn estimate_memory_for_kv_cache(
    num_layers: usize,
    num_kv_heads: usize,
    head_dim: usize,
    max_seq_len: usize,
    num_seqs: usize,
) -> (r: usize)
    requires
        kv_cache_estimate_fits(num_layers, num_kv_heads, head_dim, max_seq_len, num_seqs),
    ensures
        r == spec_kv_cache_bytes(
            num_layers as int,
            num_kv_heads as int,
            head_dim as int,
            max_seq_len as int,
            num_seqs as int,
        ),
{
    proof {
        assert(num_kv_heads * head_dim <= usize::MAX) by (nonlinear_arith)
            requires
                num_kv_heads * head_dim * 2 * 4 <= usize::MAX,
        ;
        assert(num_kv_heads * head_dim * 2 <= usize::MAX) by (nonlinear_arith)
            requires
                num_kv_heads * head_dim * 2 * 4 <= usize::MAX,
        ;
    }
    let per_token = num_kv_heads * head_dim * 2 * 4;
    let per_seq = per_token * max_seq_len;
    per_seq * num_layers * num_seqs
}

/// Estimated bytes of the weights of a model: two vocabulary tables and the attention and
/// feed-forward weights of each layer, at 4 bytes each; halved under quantization.
pub open spec fn spec_model_bytes(
    num_layers: int,
    hidden_size: int,
    intermediate_size: int,
    vocab_size: int,
    use_quantization: bool,
) -> int {
    let full = vocab_size * hidden_size * 4 + vocab_size * hidden_size * 4 + num_layers
        * hidden_size * (hidden_size + 2 * hidden_size) + num_layers * hidden_size * (2
        * intermediate_size + intermediate_size);
    if use_quantization {
        full / 2
    } else {
        full
    }
}

/// Every intermediate value of `estimate_model_memory` fits in a `usize`.
pub open spec fn model_estimate_fits(
    num_layers: usize,
    hidden_size: usize,
    intermediate_size: usize,
    vocab_size: usize,
) -> bool {
    &&& vocab_size * hidden_size * 4 <= usize::MAX
    &&& 2 * hidden_size <= usize::MAX
    &&& hidden_size + 2 * hidden_size <= usize::MAX
    &&& num_layers * hidden_size <= usize::MAX
    &&& num_layers * hidden_size * (hidden_size + 2 * hidden_size) <= usize::MAX
    &&& 2 * intermediate_size + intermediate_size <= usize::MAX
    &&& num_layers * hidden_size * (2 * intermediate_size + intermediate_size) <= usize::MAX
    &&& vocab_size * hidden_size * 4 + vocab_size * hidden_size * 4 + num_layers * hidden_size
        * (hidden_size + 2 * hidden_size) + num_layers * hidden_size * (2 * intermediate_size
        + intermediate_size) <= usize::MAX
    &&& num_layers * hidden_size * (hidden_size + 2 * hidden_size) + num_layers * hidden_size
        * (2 * intermediate_size + intermediate_size) <= usize::MAX
}

/// Estimated bytes of the weights of a model.
pub fn estimate_model_memory(
    num_layers: usize,
    hidden_size: usize,
    intermediate_size: usize,
    vocab_size: usize,
    use_quantization: bool,
) -> (r: usize)
    requires
        model_estimate_fits(num_layers, hidden_size, intermediate_size, vocab_size),
    ensures
        r == spec_model_bytes(
            num_layers as int,
            hidden_size as int,
            intermediate_size as int,
            vocab_size as int,
            use_quantization,
        ),
{
    proof {
        assert(vocab_size * hidden_size <= usize::MAX) by (nonlinear_arith)
            requires
                vocab_size * hidden_size * 4 <= usize::MAX,
        ;
    }
    let mut size: usize = 0;
    size += vocab_size * hidden_size * 4;
    size += vocab_size * hidden_size * 4;
    let attention_weights = num_layers * hidden_size * (hidden_size + 2 * hidden_size);
    let ffn_weights = num_layers * hidden_size * (2 * intermediate_size + intermediate_size);
    size += attention_weights + ffn_weights;
    if use_quantization {
        size /= 2;
    }
    size
}

/// A region handed out by a `MemoryPool`.
struct MemoryChunk {
    offset: usize,
    size: usize,
}

/// A bump allocator over `total_size` bytes: regions are handed out one after another, and
/// only `reset` takes them back.
pub struct MemoryPool {
    total_size: usize,
    used: usize,
    chunks: Vec<MemoryChunk>,
}

impl MemoryPool {
    /// Capacity in bytes.
    pub closed spec fn total(&self) -> nat {
        self.total_size as nat
    }

    /// Bytes handed out so far.
    pub closed spec fn used(&self) -> nat {
        self.used as nat
    }

    /// The regions handed out, in order, as (offset, size).
    pub closed spec fn regions(&self) -> Seq<(nat, nat)> {
        self.chunks@.map_values(|c: MemoryChunk| (c.offset as nat, c.size as nat))
    }

    /// Regions are laid out back to back from offset 0 and end where the used bytes end,
    /// inside the capacity.
    pub open spec fn wf(&self) -> bool {
        let rs = self.regions();
        &&& self.used() <= self.total()
        &&& (rs.len() == 0 ==> self.used() == 0)
        &&& (rs.len() > 0 ==> rs[0].0 == 0 && rs.last().0 + rs.last().1 == self.used())
        &&& forall|i: int| 0 <= i < rs.len() - 1 ==> #[trigger] rs[i].0 + rs[i].1 == rs[i + 1].0
    }

    pub fn new(total_size: usize) -> (pool: Self)
        ensures
            pool.wf(),
            pool.total() == total_size,
            pool.used() == 0,
            pool.regions().len() == 0,
    {
        MemoryPool { total_size, used: 0, chunks: Vec::new() }
    }

    /// Hands out the next `align_up(size, align)` bytes, or `None` when they do not fit.
    pub fn allocate(&mut self, size: usize, align: usize) -> (r: Option<usize>)
        requires
            old(self).wf(),
            align > 0,
            size + align - 1 <= usize::MAX,
            old(self).used() + spec_align_up(size, align) <= usize::MAX,
        ensures
            final(self).wf(),
            final(self).total() == old(self).total(),
            old(self).used() + spec_align_up(size, align) > old(self).total() ==> {
                &&& r is None
                &&& final(self).used() == old(self).used()
                &&& final(self).regions() == old(self).regions()
            },
            old(self).used() + spec_align_up(size, align) <= old(self).total() ==> {
                &&& r == Some(old(self).used() as usize)
                &&& final(self).used() == old(self).used() + spec_align_up(size, align)
                &&& final(self).regions() == old(self).regions().push(
                    (old(self).used(), spec_align_up(size, align) as nat),
                )
            },
    {
        let aligned_size = align_up(size, align);
        if self.used + aligned_size > self.total_size {
            return None;
        }
        let offset = self.used;
        self.used += aligned_size;
        self.chunks.push(MemoryChunk { offset, size: aligned_size });
        proof {
            assert(self.regions() =~= old(self).regions().push((offset as nat, aligned_size as nat)));
        }
        Some(offset)
    }

    /// Takes back every region.
    pub fn reset(&mut self)
        requires
            old(self).wf(),
        ensures
            final(self).wf(),
            final(self).total() == old(self).total(),
            final(self).used() == 0,
            final(self).regions().len() == 0,
    {
        self.used = 0;
        self.chunks.clear();
        proof {
            assert(self.regions() =~= Seq::<(nat, nat)>::empty());
        }
    }

    /// Bytes not yet handed out.
    pub fn available(&self) -> (r: usize)
        requires
            self.wf(),
        ensures
            r == self.total() - self.used(),
    {
        self.total_size - self.used
    }
}

/// The bytes of the regions `rs`, summed.
pub open spec fn region_bytes(rs: Seq<(nat, nat)>) -> nat
    decreases rs.len(),
{
    if rs.len() == 0 {
        0
    } else {
        region_bytes(rs.drop_last()) + rs.last().1
    }
}

proof fn lemma_back_to_back_end(rs: Seq<(nat, nat)>)
    requires
        rs.len() > 0,
        rs[0].0 == 0,
        forall|i: int| 0 <= i < rs.len() - 1 ==> #[trigger] rs[i].0 + rs[i].1 == rs[i + 1].0,
    ensures
        rs.last().0 + rs.last().1 == region_bytes(rs),
    decreases rs.len(),
{
    if rs.len() > 1 {
        let init = rs.drop_last();
        assert forall|i: int| 0 <= i < init.len() - 1 implies #[trigger] init[i].0 + init[i].1 == init[i + 1].0 by {
            assert(rs[i].0 + rs[i].1 == rs[i + 1].0);
        }
        assert(init[0] == rs[0]);
        lemma_back_to_back_end(init);
        assert(init.last() == rs[rs.len() - 2]);
        assert(rs[rs.len() - 2].0 + rs[rs.len() - 2].1 == rs[rs.len() - 1].0);
        assert(region_bytes(rs) == region_bytes(init) + rs.last().1);
    } else {
        assert(rs.drop_last().len() == 0);
        assert(region_bytes(rs.drop_last()) == 0);
        assert(region_bytes(rs) == region_bytes(rs.drop_last()) + rs.last().1);
        assert(rs.last() == rs[0]);
    }
}

/// The bytes a pool has available are its capacity less the bytes of the regions it handed
/// out, which `allocate` records one aligned size each and `reset` forgets.
pub proof fn lemma_pool_available(pool: &MemoryPool)
    requires
        pool.wf(),
    ensures
        pool.used() == region_bytes(pool.regions()),
        pool.total() - pool.used() == pool.total() - region_bytes(pool.regions()),
        region_bytes(pool.regions()) <= pool.total(),
{
    if pool.regions().len() > 0 {
        lemma_back_to_back_end(pool.regions());
    }
}

/// A pool after `reset` is indistinguishable from a fresh pool of the same capacity: the
/// same capacity, nothing used, no region; every call's contract depends on these alone, so
/// later calls behave alike, and a second reset changes nothing.
pub proof fn lemma_reset_is_fresh(after_reset: &MemoryPool, fresh: &MemoryPool)
    requires
        after_reset.wf(),
        after_reset.used() == 0,
        after_reset.regions().len() == 0,
        fresh.used() == 0,
        fresh.regions().len() == 0,
        fresh.total() == after_reset.total(),
    ensures
        after_reset.total() == fresh.total(),
        after_reset.used() == fresh.used(),
        after_reset.regions() == fresh.regions(),
        fresh.wf(),
{
    assert(after_reset.regions() =~= fresh.regions());
}

/// Regions handed out by a pool never overlap and lie inside its capacity.
pub proof fn lemma_pool_regions_disjoint(pool: &MemoryPool, i: int, j: int)
    requires
        pool.wf(),
        0 <= i < j < pool.regions().len(),
    ensures
        pool.regions()[i].0 + pool.regions()[i].1 <= pool.regions()[j].0,
        pool.regions()[j].0 + pool.regions()[j].1 <= pool.total(),
    decreases j - i,
{
    let rs = pool.regions();
    lemma_region_end_bounded(pool, j);
    if j == i + 1 {
        assert(rs[i].0 + rs[i].1 == rs[i + 1].0);
    } else {
        lemma_pool_regions_disjoint(pool, i, j - 1);
        assert(rs[j - 1].0 + rs[j - 1].1 == rs[j].0);
    }
}

proof fn lemma_region_end_bounded(pool: &MemoryPool, j: int)
    requires
        pool.wf(),
        0 <= j < pool.regions().len(),
    ensures
        pool.regions()[j].0 + pool.regions()[j].1 <= pool.used(),
    decreases pool.regions().len() - j,
{
    let rs = pool.regions();
    if j < rs.len() - 1 {
        lemma_region_end_bounded(pool, j + 1);
        assert(rs[j].0 + rs[j].1 == rs[j + 1].0);
    }
}

/// Reads the monotonic clock through `std::time::Instant::now`; the reading is the
/// machine's, so nothing is stated of it.
#[verifier::external_body]
pub(crate) fn clock_now() -> Instant {
    Instant::now()
}

/// Time since `start` through `std::time::Instant::elapsed`; it depends on the clock, so
/// nothing is stated of it.
#[verifier::external_body]
pub(crate) fn clock_elapsed(start: &Instant) -> Duration {
    start.elapsed()
}

/// Measures the wall time of a named stretch of work.
pub struct PerfTimer {
    start: Instant,
    name: String,
}

impl PerfTimer {
    /// The label the timer was made with.
    pub closed spec fn label(&self) -> Seq<char> {
        self.name@
    }

    pub fn new(name: &str) -> (t: Self)
        ensures
            t.label() == name@,
    {
        PerfTimer { start: clock_now(), name: name.to_owned() }
    }

    pub fn elapsed(&self) -> Duration {
        clock_elapsed(&self.start)
    }
}

/// A timer for work that runs across awaits.
pub struct AsyncTimer {
    start: Instant,
    name: String,
}

impl AsyncTimer {
    /// The label the timer was made with.
    pub closed spec fn label(&self) -> Seq<char> {
        self.name@
    }

    pub fn new(name: &str) -> (t: Self)
        ensures
            t.label() == name@,
    {
        AsyncTimer { start: clock_now(), name: name.to_owned() }
    }

    pub fn elapsed(&self) -> Duration {
        clock_elapsed(&self.start)
    }
}

} // verus!
