use vstd::prelude::*;
use crate::types::SeqId;
use std::collections::HashMap;

verus! {

/// `anyhow::Error`, the error type of fallible operations of this module.
#[verifier::external_type_specification]
#[verifier::external_body]
pub struct ExAnyhowError(anyhow::Error);

broadcast use vstd::std_specs::hash::group_hash_axioms;

/// `s` with `run` written over it from `at` on.
pub open spec fn overwrite<T>(s: Seq<T>, at: int, run: Seq<T>) -> Seq<T> {
    s.take(at) + run + s.skip(at + run.len())
}

/// The keys and values of one sequence in one layer, `max_position` tokens of every head.
/// `T` is the stored value (`f32` for the model's caches); `fill` is what an empty slot holds.
#[derive(Clone)]
pub struct KVCacheEntry<T> {
    pub k_cache: Vec<T>,
    pub v_cache: Vec<T>,
    pub position: usize,
    pub max_position: usize,
    pub fill: T,
}

/// `n` copies of `x`.
fn filled_vec<T: Copy>(n: usize, x: T) -> (r: Vec<T>)
    ensures
        r@ == Seq::new(n as nat, |i: int| x),
{
    let mut r: Vec<T> = Vec::new();
    let mut i: usize = 0;
    while i < n
        invariant
            i <= n,
            r@ == Seq::new(i as nat, |j: int| x),
        decreases n - i,
    {
        r.push(x);
        proof {
            assert(r@ =~= Seq::new((i + 1) as nat, |j: int| x));
        }
        i += 1;
    }
    r
}

/// Writes the first `n` values of `src` over `dst` from `at` on.
fn write_run<T: Copy>(dst: &mut Vec<T>, at: usize, src: &[T], n: usize)
    requires
        at + n <= old(dst)@.len(),
        n <= src@.len(),
    ensures
        final(dst)@ == overwrite(old(dst)@, at as int, src@.take(n as int)),
{
    let dst_len = dst.len();
    let mut i: usize = 0;
    while i < n
        invariant
            i <= n,
            at + n <= dst_len,
            dst_len == old(dst)@.len(),
            n <= src@.len(),
            dst@ == old(dst)@.take(at as int) + src@.take(i as int) + old(dst)@.skip(at + i),
        decreases n - i,
    {
        dst[at + i] = src[i];
        proof {
            assert(dst@ =~= old(dst)@.take(at as int) + src@.take(i + 1) + old(dst)@.skip(at + i + 1));
        }
        i += 1;
    }
}

/// The `n` values of `src` from `at` on.
fn read_run<T: Copy>(src: &Vec<T>, at: usize, n: usize) -> (r: Vec<T>)
    requires
        at + n <= src@.len(),
    ensures
        r@ == src@.subrange(at as int, at + n),
{
    let src_len = src.len();
    let mut r: Vec<T> = Vec::new();
    let mut i: usize = 0;
    while i < n
        invariant
            i <= n,
            at + n <= src_len,
            src_len == src@.len(),
            r@ == src@.subrange(at as int, at + i),
        decreases n - i,
    {
        r.push(src[at + i]);
        proof {
            assert(r@ =~= src@.subrange(at as int, at + i + 1));
        }
        i += 1;
    }
    r
}

/// How many values of an input of `len` values fit in a cache of `cache_len` values from
/// `offset` on.
pub open spec fn fitting(len: int, cache_len: int, offset: int) -> int {
    let room = if cache_len > offset { cache_len - offset } else { 0 };
    if len < room { len } else { room }
}

/// `e1` is `e0` after writing keys `k` from token `start_pos` on (`nh` heads of `hd` values per
/// token): what fits is written, and the position moves to `start_pos` when anything is.
pub open spec fn keys_written<T>(e0: KVCacheEntry<T>, e1: KVCacheEntry<T>, k: Seq<T>, start_pos: int, nh: int, hd: int) -> bool {
    let offset = start_pos * nh * hd;
    let n = fitting(k.len() as int, e0.k_cache@.len() as int, offset);
    &&& n > 0 ==> e1.k_cache@ == overwrite(e0.k_cache@, offset, k.take(n)) && e1.position == start_pos
    &&& n <= 0 ==> e1.k_cache@ == e0.k_cache@ && e1.position == e0.position
    &&& e1.v_cache@ == e0.v_cache@
    &&& e1.max_position == e0.max_position
    &&& e1.fill == e0.fill
}

/// `e1` is `e0` after writing values `v` from token `start_pos` on: what fits is written.
pub open spec fn values_written<T>(e0: KVCacheEntry<T>, e1: KVCacheEntry<T>, v: Seq<T>, start_pos: int, nh: int, hd: int) -> bool {
    let offset = start_pos * nh * hd;
    let n = fitting(v.len() as int, e0.v_cache@.len() as int, offset);
    &&& n > 0 ==> e1.v_cache@ == overwrite(e0.v_cache@, offset, v.take(n))
    &&& n <= 0 ==> e1.v_cache@ == e0.v_cache@
    &&& e1.k_cache@ == e0.k_cache@
    &&& e1.position == e0.position
    &&& e1.max_position == e0.max_position
    &&& e1.fill == e0.fill
}

/// The values of tokens `start .. start + len` of a cache, or nothing when they run past it.
pub open spec fn token_run<T>(cache: Seq<T>, start: int, len: int, nh: int, hd: int) -> Seq<T> {
    let offset = start * nh * hd;
    let size = len * nh * hd;
    if offset + size > cache.len() {
        Seq::empty()
    } else {
        cache.subrange(offset, offset + size)
    }
}

/// `e1` is `e0` emptied: both caches back to the fill value, position 0.
pub open spec fn cleared<T>(e0: KVCacheEntry<T>, e1: KVCacheEntry<T>) -> bool {
    &&& e1.k_cache@ == Seq::new(e0.k_cache@.len(), |i: int| e0.fill)
    &&& e1.v_cache@ == Seq::new(e0.v_cache@.len(), |i: int| e0.fill)
    &&& e1.position == 0
    &&& e1.max_position == e0.max_position
    &&& e1.fill == e0.fill
}

/// `e1` holds what `e0` holds.
pub open spec fn same_entry<T>(e0: KVCacheEntry<T>, e1: KVCacheEntry<T>) -> bool {
    &&& e1.k_cache@ == e0.k_cache@
    &&& e1.v_cache@ == e0.v_cache@
    &&& e1.position == e0.position
    &&& e1.max_position == e0.max_position
    &&& e1.fill == e0.fill
}

impl<T: Copy> KVCacheEntry<T> {
    /// An empty entry for `max_seq_len` tokens of `num_kv_heads` heads of `head_dim` values:
    /// both caches all `fill`, position 0.
    pub fn new(max_seq_len: usize, num_kv_heads: usize, head_dim: usize, fill: T) -> (e: Self)
        requires
            max_seq_len * num_kv_heads <= usize::MAX,
            max_seq_len * num_kv_heads * head_dim <= usize::MAX,
        ensures
            e.k_cache@ == Seq::new((max_seq_len * num_kv_heads * head_dim) as nat, |i: int| fill),
            e.v_cache@ == Seq::new((max_seq_len * num_kv_heads * head_dim) as nat, |i: int| fill),
            e.position == 0,
            e.max_position == max_seq_len,
            e.fill == fill,
    {
        let capacity = max_seq_len * num_kv_heads * head_dim;
        KVCacheEntry {
            k_cache: filled_vec(capacity, fill),
            v_cache: filled_vec(capacity, fill),
            position: 0,
            max_position: max_seq_len,
            fill,
        }
    }

    /// Writes `k` from token `start_pos` on, as much of it as fits; when anything is written
    /// the position becomes `start_pos`.
    pub fn update_k(&mut self, k: &[T], start_pos: usize, num_heads: usize, head_dim: usize)
        requires
            start_pos * num_heads <= usize::MAX,
            start_pos * num_heads * head_dim <= usize::MAX,
        ensures
            keys_written(*old(self), *final(self), k@, start_pos as int, num_heads as int, head_dim as int),
    {
        let offset = start_pos * num_heads * head_dim;
        let room = if self.k_cache.len() > offset { self.k_cache.len() - offset } else { 0 };
        let copy_size = if k.len() < room { k.len() } else { room };
        if copy_size > 0 {
            write_run(&mut self.k_cache, offset, k, copy_size);
            self.position = start_pos;
        }
    }

    /// Writes `v` from token `start_pos` on, as much of it as fits.
    pub fn update_v(&mut self, v: &[T], start_pos: usize, num_heads: usize, head_dim: usize)
        requires
            start_pos * num_heads <= usize::MAX,
            start_pos * num_heads * head_dim <= usize::MAX,
        ensures
            values_written(*old(self), *final(self), v@, start_pos as int, num_heads as int, head_dim as int),
    {
        let offset = start_pos * num_heads * head_dim;
        let room = if self.v_cache.len() > offset { self.v_cache.len() - offset } else { 0 };
        let copy_size = if v.len() < room { v.len() } else { room };
        if copy_size > 0 {
            write_run(&mut self.v_cache, offset, v, copy_size);
        }
    }

    /// The keys of tokens `start .. start + len`; empty when they run past the cache.
    pub fn get_k(&self, start: usize, len: usize, num_heads: usize, head_dim: usize) -> (r: Vec<T>)
        requires
            start * num_heads <= usize::MAX,
            len * num_heads <= usize::MAX,
            start * num_heads * head_dim + len * num_heads * head_dim <= usize::MAX,
        ensures
            r@ == token_run(self.k_cache@, start as int, len as int, num_heads as int, head_dim as int),
    {
        let offset = start * num_heads * head_dim;
        let size = len * num_heads * head_dim;
        if offset + size > self.k_cache.len() {
            return Vec::new();
        }
        read_run(&self.k_cache, offset, size)
    }

    /// The values of tokens `start .. start + len`; empty when they run past the cache.
    pub fn get_v(&self, start: usize, len: usize, num_heads: usize, head_dim: usize) -> (r: Vec<T>)
        requires
            start * num_heads <= usize::MAX,
            len * num_heads <= usize::MAX,
            start * num_heads * head_dim + len * num_heads * head_dim <= usize::MAX,
        ensures
            r@ == token_run(self.v_cache@, start as int, len as int, num_heads as int, head_dim as int),
    {
        let offset = start * num_heads * head_dim;
        let size = len * num_heads * head_dim;
        if offset + size > self.v_cache.len() {
            return Vec::new();
        }
        read_run(&self.v_cache, offset, size)
    }

    /// Empties the entry: both caches back to the fill value, position 0.
    pub fn clear(&mut self)
        ensures
            cleared(*old(self), *final(self)),
    {
        let kl = self.k_cache.len();
        let vl = self.v_cache.len();
        self.k_cache = filled_vec(kl, self.fill);
        self.v_cache = filled_vec(vl, self.fill);
        self.position = 0;
    }
}

/// A fresh entry for `max_seq_len` tokens of `nkv` heads of `hd` values.
pub open spec fn fresh_entry<T>(e: KVCacheEntry<T>, max_seq_len: int, nkv: int, hd: int, fill: T) -> bool {
    &&& e.k_cache@ == Seq::new((max_seq_len * nkv * hd) as nat, |i: int| fill)
    &&& e.v_cache@ == Seq::new((max_seq_len * nkv * hd) as nat, |i: int| fill)
    &&& e.position == 0
    &&& e.max_position == max_seq_len
    &&& e.fill == fill
}

/// The slots a sequence gets when `n` sequences hold slots, `cap` slots per layer and
/// `layers` layers: slot `n` in the first layer and slot `n + 1` in each later one (the
/// number of sequences holding slots once it holds one), as far as each is below `cap`.
pub open spec fn granted_slots(n: int, cap: int, layers: int) -> Seq<usize> {
    if layers <= 0 || n >= cap {
        Seq::empty()
    } else if layers == 1 || n + 1 >= cap {
        seq![n as usize]
    } else {
        seq![n as usize] + Seq::new((layers - 1) as nat, |i: int| (n + 1) as usize)
    }
}

/// Slot `i` is among `s`.
pub open spec fn holds_slot(s: Seq<usize>, i: int) -> bool {
    exists|w: int| 0 <= w < s.len() && s[w] == i
}

/// `c` is a fresh cache: `num_layers` rows of `max_seqs` fresh entries, no sequence
/// registered.
pub open spec fn fresh_cache<T: Copy>(c: CpuKvCache<T>, num_layers: usize, num_kv_heads: usize, head_dim: usize, max_seq_len: usize, max_seqs: usize, fill: T) -> bool {
    &&& c.layers() == num_layers
    &&& c.heads() == num_kv_heads
    &&& c.dim() == head_dim
    &&& c.seq_len() == max_seq_len
    &&& c.entries().len() == num_layers
    &&& forall|l: int| 0 <= l < num_layers ==> (#[trigger] c.entries()[l]).len() == max_seqs
    &&& forall|l: int, i: int| 0 <= l < num_layers && 0 <= i < max_seqs ==> fresh_entry(
        #[trigger] c.entries()[l][i],
        max_seq_len as int,
        num_kv_heads as int,
        head_dim as int,
        fill,
    )
    &&& c.slots() == Map::<SeqId, Seq<usize>>::empty()
}

/// `c1` has the dimensions of `c0` and as many entries in each layer.
pub open spec fn same_shape<T: Copy>(c0: CpuKvCache<T>, c1: CpuKvCache<T>) -> bool {
    &&& c1.layers() == c0.layers()
    &&& c1.heads() == c0.heads()
    &&& c1.dim() == c0.dim()
    &&& c1.seq_len() == c0.seq_len()
    &&& c1.entries().len() == c0.entries().len()
    &&& forall|l: int| 0 <= l < c0.entries().len() ==> (#[trigger] c1.entries()[l]).len() == c0.entries()[l].len()
}

/// `c1` (with `r` returned) is `c0` after registering `seq_id`: a registered sequence gets
/// its first slot back; a new one gets the slots `granted_slots` gives (all of them when it
/// got one per layer, and then its first slot back, else none back).
pub open spec fn registered<T: Copy>(c0: CpuKvCache<T>, c1: CpuKvCache<T>, seq_id: SeqId, r: Option<usize>) -> bool {
    &&& same_shape(c0, c1)
    &&& c1.entries() == c0.entries()
    &&& c0.slots().contains_key(seq_id) ==> r == Some(c0.slots()[seq_id][0]) && c1.slots() == c0.slots()
    &&& !c0.slots().contains_key(seq_id) ==> ({
        let g = granted_slots(c0.slots().len() as int, c0.slot_count(), c0.layers() as int);
        &&& g.len() == 0 ==> c1.slots() == c0.slots()
        &&& g.len() > 0 ==> c1.slots() == c0.slots().insert(seq_id, g)
        &&& r == (if g.len() == c0.layers() && g.len() > 0 { Some(g[0]) } else { None::<usize> })
    })
}

/// `c1` is `c0` after unregistering `seq_id`: its registration is gone and every entry in a
/// slot it held is emptied, in every layer.
pub open spec fn unregistered<T: Copy>(c0: CpuKvCache<T>, c1: CpuKvCache<T>, seq_id: SeqId) -> bool {
    &&& same_shape(c0, c1)
    &&& c1.slots() == c0.slots().remove(seq_id)
    &&& forall|l: int, i: int| 0 <= l < c0.entries().len() && 0 <= i < c0.entries()[l].len() ==> {
        if c0.slots().contains_key(seq_id) && holds_slot(c0.slots()[seq_id], i) {
            cleared(c0.entries()[l][i], #[trigger] c1.entries()[l][i])
        } else {
            c1.entries()[l][i] == c0.entries()[l][i]
        }
    }
}

/// `c1` is `c0` after writing keys `k` from token `start_pos` on into the entry of `seq_id`
/// in layer `layer_idx`, when it holds one; nothing else changes.
pub open spec fn keys_updated<T: Copy>(c0: CpuKvCache<T>, c1: CpuKvCache<T>, layer_idx: int, seq_id: SeqId, k: Seq<T>, start_pos: int) -> bool {
    &&& same_shape(c0, c1)
    &&& c1.slots() == c0.slots()
    &&& forall|l: int, i: int| 0 <= l < c0.entries().len() && 0 <= i < c0.entries()[l].len() ==> {
        if c0.slot_of(layer_idx, seq_id) == Some(i) && l == layer_idx {
            keys_written(c0.entries()[l][i], #[trigger] c1.entries()[l][i], k, start_pos, c0.heads() as int, c0.dim() as int)
        } else {
            c1.entries()[l][i] == c0.entries()[l][i]
        }
    }
}

/// `c1` is `c0` after writing values `v` from token `start_pos` on into the entry of
/// `seq_id` in layer `layer_idx`, when it holds one; nothing else changes.
pub open spec fn values_updated<T: Copy>(c0: CpuKvCache<T>, c1: CpuKvCache<T>, layer_idx: int, seq_id: SeqId, v: Seq<T>, start_pos: int) -> bool {
    &&& same_shape(c0, c1)
    &&& c1.slots() == c0.slots()
    &&& forall|l: int, i: int| 0 <= l < c0.entries().len() && 0 <= i < c0.entries()[l].len() ==> {
        if c0.slot_of(layer_idx, seq_id) == Some(i) && l == layer_idx {
            values_written(c0.entries()[l][i], #[trigger] c1.entries()[l][i], v, start_pos, c0.heads() as int, c0.dim() as int)
        } else {
            c1.entries()[l][i] == c0.entries()[l][i]
        }
    }
}

/// A host-memory KV cache: for each layer, a row of entries (slots), and for each registered
/// sequence the slot it holds in each layer. `T` is the stored value.
pub struct CpuKvCache<T> {
    num_layers: usize,
    num_kv_heads: usize,
    head_dim: usize,
    max_seq_len: usize,
    layer_caches: Vec<Vec<KVCacheEntry<T>>>,
    seq_to_entry: HashMap<SeqId, Vec<usize>>,
}

impl<T: Copy> CpuKvCache<T> {
    /// Layers.
    pub closed spec fn layers(&self) -> usize {
        self.num_layers
    }

    /// Heads per token.
    pub closed spec fn heads(&self) -> usize {
        self.num_kv_heads
    }

    /// Values per head.
    pub closed spec fn dim(&self) -> usize {
        self.head_dim
    }

    /// Tokens per entry.
    pub closed spec fn seq_len(&self) -> usize {
        self.max_seq_len
    }

    /// The entries of each layer.
    pub closed spec fn entries(&self) -> Seq<Seq<KVCacheEntry<T>>> {
        self.layer_caches@.map_values(|l: Vec<KVCacheEntry<T>>| l@)
    }

    /// The slots of each registered sequence, one per layer (as far as it got).
    pub closed spec fn slots(&self) -> Map<SeqId, Seq<usize>> {
        self.seq_to_entry@.map_values(|v: Vec<usize>| v@)
    }

    /// Slots per layer.
    pub closed spec fn slot_count(&self) -> int {
        if self.layer_caches@.len() > 0 {
            self.layer_caches@[0]@.len() as int
        } else {
            0
        }
    }

    /// The slot of `seq_id` in layer `layer_idx`, when the sequence holds one there that
    /// exists.
    pub open spec fn slot_of(&self, layer_idx: int, seq_id: SeqId) -> Option<int> {
        if self.slots().contains_key(seq_id) && 0 <= layer_idx < self.slots()[seq_id].len() && layer_idx
            < self.entries().len() && self.slots()[seq_id][layer_idx] < self.entries()[layer_idx].len() {
            Some(self.slots()[seq_id][layer_idx] as int)
        } else {
            None
        }
    }

    /// One row of entries per layer, every row as long, and every registered sequence holds
    /// at least one slot.
    pub closed spec fn wf(&self) -> bool {
        &&& self.layer_caches@.len() == self.num_layers
        &&& forall|l: int| 0 <= l < self.layer_caches@.len() ==> (#[trigger] self.layer_caches@[l])@.len() == self.layer_caches@[0]@.len()
        &&& forall|s: SeqId| #[trigger] self.seq_to_entry@.contains_key(s) ==> self.seq_to_entry@[s]@.len() > 0
    }

    /// `num_layers` rows of `max_seqs` fresh entries, no sequence registered.
    pub fn new(num_layers: usize, num_kv_heads: usize, head_dim: usize, max_seq_len: usize, max_seqs: usize, fill: T) -> (c: Self)
        requires
            max_seq_len * num_kv_heads <= usize::MAX,
            max_seq_len * num_kv_heads * head_dim <= usize::MAX,
        ensures
            c.wf(),
            fresh_cache(c, num_layers, num_kv_heads, head_dim, max_seq_len, max_seqs, fill),
    {
        let mut layer_caches: Vec<Vec<KVCacheEntry<T>>> = Vec::new();
        let mut l: usize = 0;
        while l < num_layers
            invariant
                l <= num_layers,
                max_seq_len * num_kv_heads <= usize::MAX,
                max_seq_len * num_kv_heads * head_dim <= usize::MAX,
                layer_caches@.len() == l,
                forall|j: int| 0 <= j < l ==> (#[trigger] layer_caches@[j])@.len() == max_seqs,
                forall|j: int, i: int| 0 <= j < l && 0 <= i < max_seqs ==> fresh_entry(
                    #[trigger] layer_caches@[j]@[i],
                    max_seq_len as int,
                    num_kv_heads as int,
                    head_dim as int,
                    fill,
                ),
            decreases num_layers - l,
        {
            let mut layer: Vec<KVCacheEntry<T>> = Vec::new();
            let mut i: usize = 0;
            while i < max_seqs
                invariant
                    i <= max_seqs,
                    max_seq_len * num_kv_heads <= usize::MAX,
                    max_seq_len * num_kv_heads * head_dim <= usize::MAX,
                    layer@.len() == i,
                    forall|k: int| 0 <= k < i ==> fresh_entry(
                        #[trigger] layer@[k],
                        max_seq_len as int,
                        num_kv_heads as int,
                        head_dim as int,
                        fill,
                    ),
                decreases max_seqs - i,
            {
                layer.push(KVCacheEntry::new(max_seq_len, num_kv_heads, head_dim, fill));
                i += 1;
            }
            layer_caches.push(layer);
            l += 1;
        }
        let c = CpuKvCache {
            num_layers,
            num_kv_heads,
            head_dim,
            max_seq_len,
            layer_caches,
            seq_to_entry: HashMap::new(),
        };
        proof {
            assert(c.slots() =~= Map::<SeqId, Seq<usize>>::empty());
        }
        c
    }

    /// The first slot of `seq_id`, registering it when new: with `n` sequences registered it
    /// gets slot `n` in the first layer and `n + 1` in each later one, each only while below
    /// the slots per layer; none when the first layer has no room, or when a later one has
    /// none (the sequence then keeps the slots it got).
    pub fn register_sequence(&mut self, seq_id: SeqId) -> (r: Option<usize>)
        requires
            old(self).wf(),
        ensures
            final(self).wf(),
            registered(*old(self), *final(self), seq_id, r),
    {
        proof {
            assert(self.slots().dom() =~= self.seq_to_entry@.dom());
        }
        match self.seq_to_entry.get(&seq_id) {
            Some(entries) => {
                return Some(entries[0]);
            },
            None => {},
        }
        let ghost m0 = self.seq_to_entry@;
        let ghost n = m0.len() as int;
        let ghost cap = self.slot_count();
        let mut layer_idx: usize = 0;
        while layer_idx < self.num_layers
            invariant
                layer_idx <= self.num_layers,
                self.wf(),
                !m0.contains_key(seq_id),
                n == m0.len(),
                m0.dom().finite(),
                cap == self.slot_count(),
                self.layer_caches@ == old(self).layer_caches@,
                self.num_layers == old(self).num_layers,
                self.num_kv_heads == old(self).num_kv_heads,
                self.head_dim == old(self).head_dim,
                self.max_seq_len == old(self).max_seq_len,
                layer_idx == 0 ==> self.seq_to_entry@ == m0,
                layer_idx > 0 ==> n < cap,
                layer_idx > 1 ==> n + 1 < cap,
                layer_idx > 0 ==> self.seq_to_entry@.dom() == m0.dom().insert(seq_id),
                layer_idx > 0 ==> self.seq_to_entry@.remove(seq_id) == m0,
                layer_idx > 0 ==> self.seq_to_entry@[seq_id]@ == seq![n as usize] + Seq::new(
                    (layer_idx - 1) as nat,
                    |i: int| (n + 1) as usize,
                ),
                m0 == old(self).seq_to_entry@,
                old(self).slots().dom() == m0.dom(),
            decreases self.num_layers - layer_idx,
        {
            let entry_idx = self.seq_to_entry.len();
            proof {
                if layer_idx > 0 {
                    assert(self.seq_to_entry@.dom().len() == n + 1);
                }
            }
            if entry_idx >= self.layer_caches[0].len() {
                proof {
                    assert(old(self).slots().len() == n);
                    assert(cap == self.layer_caches@[0]@.len());
                    if layer_idx == 0 {
                        assert(entry_idx == n);
                        assert(granted_slots(n, cap, old(self).num_layers as int).len() == 0);
                    } else {
                        assert(layer_idx == 1);
                        assert(entry_idx == n + 1);
                        assert(granted_slots(n, cap, old(self).num_layers as int) == seq![n as usize]);
                        assert(self.seq_to_entry@[seq_id]@ =~= seq![n as usize]);
                    }
                    assert(self.slots() =~= if layer_idx == 0 {
                        old(self).slots()
                    } else {
                        old(self).slots().insert(seq_id, seq![n as usize])
                    });
                }
                return None;
            }
            let mut list = match self.seq_to_entry.remove(&seq_id) {
                Some(v) => v,
                None => Vec::new(),
            };
            list.push(entry_idx);
            self.seq_to_entry.insert(seq_id, list);
            proof {
                if layer_idx > 0 {
                    assert(self.seq_to_entry@[seq_id]@ =~= seq![n as usize] + Seq::new(
                        layer_idx as nat,
                        |i: int| (n + 1) as usize,
                    ));
                } else {
                    assert(self.seq_to_entry@[seq_id]@ =~= seq![n as usize] + Seq::new(0, |i: int| (n + 1) as usize));
                }
                assert(self.seq_to_entry@.remove(seq_id) =~= m0);
                assert(self.seq_to_entry@.dom() =~= m0.dom().insert(seq_id));
            }
            layer_idx += 1;
        }
        proof {
            if self.num_layers > 0 {
                let g = granted_slots(n, cap, self.num_layers as int);
                assert(g =~= seq![n as usize] + Seq::new((self.num_layers - 1) as nat, |i: int| (n + 1) as usize));
                assert(self.slots() =~= old(self).slots().insert(seq_id, g));
            } else {
                assert(self.slots() =~= old(self).slots());
            }
        }
        match self.seq_to_entry.get(&seq_id) {
            Some(v) => Some(v[0]),
            None => None,
        }
    }

    /// Drops the registration of `seq_id` and empties every entry in the slots it held, in
    /// every layer. An unknown sequence changes nothing.
    pub fn unregister_sequence(&mut self, seq_id: SeqId)
        requires
            old(self).wf(),
        ensures
            final(self).wf(),
            unregistered(*old(self), *final(self), seq_id),
    {
        let ghost e0 = self.entries();
        match self.seq_to_entry.remove(&seq_id) {
            Some(slots) => {
                proof {
                    assert(old(self).seq_to_entry@.contains_key(seq_id));
                    assert(old(self).slots()[seq_id] == slots@);
                }
                let mut j: usize = 0;
                while j < slots.len()
                    invariant
                        j <= slots@.len(),
                        old(self).wf(),
                        self.layer_caches@.len() == old(self).layer_caches@.len(),
                        e0 == old(self).entries(),
                        forall|l: int| 0 <= l < self.layer_caches@.len() ==> (#[trigger] self.layer_caches@[l])@.len() == e0[l].len(),
                        forall|l: int, i: int| 0 <= l < e0.len() && 0 <= i < e0[l].len() ==> {
                            if holds_slot(slots@.take(j as int), i) {
                                cleared(e0[l][i], #[trigger] self.layer_caches@[l]@[i])
                            } else {
                                self.layer_caches@[l]@[i] == e0[l][i]
                            }
                        },
                        self.seq_to_entry@ == old(self).seq_to_entry@.remove(seq_id),
                        self.num_layers == old(self).num_layers,
                        self.num_kv_heads == old(self).num_kv_heads,
                        self.head_dim == old(self).head_dim,
                        self.max_seq_len == old(self).max_seq_len,
                    decreases slots@.len() - j,
                {
                    let e = slots[j];
                    let ghost lc_j = self.layer_caches@;
                    let ghost st = lc_j.map_values(|v: Vec<KVCacheEntry<T>>| v@);
                    let mut l: usize = 0;
                    while l < self.layer_caches.len()
                        invariant
                            l <= self.layer_caches@.len(),
                            self.layer_caches@.len() == st.len(),
                            forall|a: int| 0 <= a < self.layer_caches@.len() ==> (#[trigger] self.layer_caches@[a])@.len() == st[a].len(),
                            forall|a: int, i: int| 0 <= a < st.len() && 0 <= i < st[a].len() ==> {
                                if a < l && i == e {
                                    cleared(st[a][i], #[trigger] self.layer_caches@[a]@[i])
                                } else {
                                    self.layer_caches@[a]@[i] == st[a][i]
                                }
                            },
                            self.seq_to_entry@ == old(self).seq_to_entry@.remove(seq_id),
                            self.num_layers == old(self).num_layers,
                            self.num_kv_heads == old(self).num_kv_heads,
                            self.head_dim == old(self).head_dim,
                            self.max_seq_len == old(self).max_seq_len,
                        decreases self.layer_caches@.len() - l,
                    {
                        if e < self.layer_caches[l].len() {
                            let ghost before = self.layer_caches@;
                            self.layer_caches[l][e].clear();
                            proof {
                                assert forall|a: int, i: int| 0 <= a < st.len() && 0 <= i < st[a].len() implies {
                                    if a < l + 1 && i == e {
                                        cleared(st[a][i], #[trigger] self.layer_caches@[a]@[i])
                                    } else {
                                        self.layer_caches@[a]@[i] == st[a][i]
                                    }
                                } by {
                                    if a != l {
                                        assert(self.layer_caches@[a] == before[a]);
                                    }
                                }
                            }
                        }
                        l += 1;
                    }
                    proof {
                        assert forall|a: int, i: int| 0 <= a < e0.len() && 0 <= i < e0[a].len() implies {
                            if holds_slot(slots@.take(j + 1), i) {
                                cleared(e0[a][i], #[trigger] self.layer_caches@[a]@[i])
                            } else {
                                self.layer_caches@[a]@[i] == e0[a][i]
                            }
                        } by {
                            let tj = slots@.take(j as int);
                            let tj1 = slots@.take(j + 1);
                            if holds_slot(tj, i) {
                                let w = choose|w: int| 0 <= w < tj.len() && tj[w] == i;
                                assert(tj1[w] == i);
                            }
                            if i == e {
                                assert(tj1[j as int] == e);
                            }
                            if holds_slot(tj1, i) {
                                let w = choose|w: int| 0 <= w < tj1.len() && tj1[w] == i;
                                if w < j {
                                    assert(tj[w] == i);
                                }
                            }
                            assert(st[a] == lc_j[a]@);
                            assert(if holds_slot(tj, i) {
                                cleared(e0[a][i], lc_j[a]@[i])
                            } else {
                                lc_j[a]@[i] == e0[a][i]
                            });
                            let cur = self.layer_caches@[a]@[i];
                            if i == e {
                                assert(cleared(st[a][i], cur));
                                if holds_slot(tj, i) {
                                    assert(cur.k_cache@ =~= Seq::new(e0[a][i].k_cache@.len(), |k: int| e0[a][i].fill));
                                    assert(cur.v_cache@ =~= Seq::new(e0[a][i].v_cache@.len(), |k: int| e0[a][i].fill));
                                }
                            } else {
                                assert(cur == st[a][i]);
                            }
                        }
                    }
                    j += 1;
                }
                proof {
                    assert(slots@.take(slots@.len() as int) =~= slots@);
                    assert(self.slots() =~= old(self).slots().remove(seq_id));
                }
            },
            None => {
                proof {
                    assert(self.slots() =~= old(self).slots().remove(seq_id));
                }
            },
        }
    }

    /// Writes keys `k` from token `start_pos` on into the entry of `seq_id` in layer
    /// `layer_idx`; nothing happens when the sequence holds no such entry.
    pub fn update_k(&mut self, layer_idx: usize, seq_id: SeqId, k: &[T], start_pos: usize)
        requires
            old(self).wf(),
            old(self).slot_of(layer_idx as int, seq_id) is Some ==> start_pos * old(self).heads() <= usize::MAX
                && start_pos * old(self).heads() * old(self).dim() <= usize::MAX,
        ensures
            final(self).wf(),
            keys_updated(*old(self), *final(self), layer_idx as int, seq_id, k@, start_pos as int),
    {
        let slot = self.slot(layer_idx, seq_id);
        match slot {
            Some(e) => {
                let nkv = self.num_kv_heads;
                let hd = self.head_dim;
                let ghost before = self.layer_caches@;
                self.layer_caches[layer_idx][e].update_k(k, start_pos, nkv, hd);
                proof {
                    assert forall|l: int| 0 <= l < self.layer_caches@.len() && l != layer_idx implies self.layer_caches@[l] == before[l] by {}
                }
            },
            None => {},
        }
    }

    /// Writes values `v` from token `start_pos` on into the entry of `seq_id` in layer
    /// `layer_idx`; nothing happens when the sequence holds no such entry.
    pub fn update_v(&mut self, layer_idx: usize, seq_id: SeqId, v: &[T], start_pos: usize)
        requires
            old(self).wf(),
            old(self).slot_of(layer_idx as int, seq_id) is Some ==> start_pos * old(self).heads() <= usize::MAX
                && start_pos * old(self).heads() * old(self).dim() <= usize::MAX,
        ensures
            final(self).wf(),
            values_updated(*old(self), *final(self), layer_idx as int, seq_id, v@, start_pos as int),
    {
        let slot = self.slot(layer_idx, seq_id);
        match slot {
            Some(e) => {
                let nkv = self.num_kv_heads;
                let hd = self.head_dim;
                let ghost before = self.layer_caches@;
                self.layer_caches[layer_idx][e].update_v(v, start_pos, nkv, hd);
                proof {
                    assert forall|l: int| 0 <= l < self.layer_caches@.len() && l != layer_idx implies self.layer_caches@[l] == before[l] by {}
                }
            },
            None => {},
        }
    }

    /// The slot of `seq_id` in layer `layer_idx`, when the sequence holds one there that exists.
    fn slot(&self, layer_idx: usize, seq_id: SeqId) -> (r: Option<usize>)
        ensures
            r == (match self.slot_of(layer_idx as int, seq_id) {
                Some(i) => Some(i as usize),
                None => None::<usize>,
            }),
    {
        match self.seq_to_entry.get(&seq_id) {
            Some(slots) => {
                proof {
                    assert(self.slots().contains_key(seq_id));
                    assert(self.slots()[seq_id] == slots@);
                }
                if layer_idx < slots.len() {
                    let e = slots[layer_idx];
                    if layer_idx < self.layer_caches.len() && e < self.layer_caches[layer_idx].len() {
                        return Some(e);
                    }
                }
                None
            },
            None => {
                proof {
                    assert(!self.slots().contains_key(seq_id));
                }
                None
            },
        }
    }

    /// Keys of tokens `start .. start + len` of `seq_id` in layer `layer_idx`; empty when the
    /// sequence holds no such entry or they run past it.
    pub fn get_k(&self, layer_idx: usize, seq_id: SeqId, start: usize, len: usize) -> (r: Vec<T>)
        requires
            self.slot_of(layer_idx as int, seq_id) is Some ==> start * self.heads() <= usize::MAX && len * self.heads()
                <= usize::MAX && start * self.heads() * self.dim() + len * self.heads() * self.dim() <= usize::MAX,
        ensures
            r@ == (match self.slot_of(layer_idx as int, seq_id) {
                Some(i) => token_run(self.entries()[layer_idx as int][i].k_cache@, start as int, len as int, self.heads() as int, self.dim() as int),
                None => Seq::<T>::empty(),
            }),
    {
        match self.slot(layer_idx, seq_id) {
            Some(e) => self.layer_caches[layer_idx][e].get_k(start, len, self.num_kv_heads, self.head_dim),
            None => Vec::new(),
        }
    }

    /// Values of tokens `start .. start + len` of `seq_id` in layer `layer_idx`; empty when
    /// the sequence holds no such entry or they run past it.
    pub fn get_v(&self, layer_idx: usize, seq_id: SeqId, start: usize, len: usize) -> (r: Vec<T>)
        requires
            self.slot_of(layer_idx as int, seq_id) is Some ==> start * self.heads() <= usize::MAX && len * self.heads()
                <= usize::MAX && start * self.heads() * self.dim() + len * self.heads() * self.dim() <= usize::MAX,
        ensures
            r@ == (match self.slot_of(layer_idx as int, seq_id) {
                Some(i) => token_run(self.entries()[layer_idx as int][i].v_cache@, start as int, len as int, self.heads() as int, self.dim() as int),
                None => Seq::<T>::empty(),
            }),
    {
        match self.slot(layer_idx, seq_id) {
            Some(e) => self.layer_caches[layer_idx][e].get_v(start, len, self.num_kv_heads, self.head_dim),
            None => Vec::new(),
        }
    }

    /// Bytes of all entries: keys and values of `f32` for every head and position, times the
    /// number of layers and slots.
    pub fn memory_usage(&self) -> (r: usize)
        requires
            self.wf(),
            self.layers() > 0,
            self.heads() * self.dim() <= usize::MAX,
            self.heads() * self.dim() * self.seq_len() <= usize::MAX,
            self.heads() * self.dim() * self.seq_len() * 2 <= usize::MAX,
            self.heads() * self.dim() * self.seq_len() * 2 * 4 <= usize::MAX,
            self.layers() * self.slot_count() <= usize::MAX,
            (self.heads() * self.dim() * self.seq_len() * 2 * 4) * (self.layers() * self.slot_count()) <= usize::MAX,
        ensures
            r == (self.heads() * self.dim() * self.seq_len() * 2 * 4) * (self.layers() * self.slot_count()),
    {
        let per_entry = self.num_kv_heads * self.head_dim * self.max_seq_len * 2 * 4;
        let total_entries = self.layer_caches.len() * self.layer_caches[0].len();
        per_entry * total_entries
    }
}

/// Keys written for a sequence that holds an entry in the layer, when they fit in it, are
/// read back unchanged: a read after a write gives back what was written.
pub proof fn lemma_keys_read_back<T: Copy>(
    c0: CpuKvCache<T>,
    c1: CpuKvCache<T>,
    layer_idx: int,
    seq_id: SeqId,
    k: Seq<T>,
    start_pos: int,
    len: int,
)
    requires
        keys_updated(c0, c1, layer_idx, seq_id, k, start_pos),
        c0.slot_of(layer_idx, seq_id) is Some,
        start_pos >= 0,
        k.len() > 0,
        k.len() == len * c0.heads() * c0.dim(),
        start_pos * c0.heads() * c0.dim() + k.len() <= c0.entries()[layer_idx][c0.slot_of(layer_idx, seq_id)->0].k_cache@.len(),
    ensures
        c1.slot_of(layer_idx, seq_id) == c0.slot_of(layer_idx, seq_id),
        token_run(
            c1.entries()[layer_idx][c1.slot_of(layer_idx, seq_id)->0].k_cache@,
            start_pos,
            len,
            c1.heads() as int,
            c1.dim() as int,
        ) == k,
{
    let i = c0.slot_of(layer_idx, seq_id)->0;
    let e0 = c0.entries()[layer_idx][i];
    let e1 = c1.entries()[layer_idx][i];
    let off = start_pos * c0.heads() * c0.dim();
    assert(keys_written(e0, e1, k, start_pos, c0.heads() as int, c0.dim() as int));
    assert(fitting(k.len() as int, e0.k_cache@.len() as int, off) == k.len());
    assert(k.take(k.len() as int) =~= k);
    assert(e1.k_cache@.subrange(off, off + k.len()) =~= k);
}

/// Registering a sequence that got its slot back gives the same slot back again and changes
/// nothing.
pub proof fn lemma_register_again<T: Copy>(
    c0: CpuKvCache<T>,
    c1: CpuKvCache<T>,
    c2: CpuKvCache<T>,
    seq_id: SeqId,
    slot: usize,
    r: Option<usize>,
)
    requires
        registered(c0, c1, seq_id, Some(slot)),
        registered(c1, c2, seq_id, r),
    ensures
        r == Some(slot),
        c2.slots() == c1.slots(),
        c2.entries() == c1.entries(),
{
    if !c0.slots().contains_key(seq_id) {
        assert(c1.slots().contains_key(seq_id));
    }
}

/// The size plan of a KV cache kept in accelerator memory.
pub struct GpuKvCache {
    device_id: usize,
    num_layers: usize,
    num_kv_heads: usize,
    head_dim: usize,
    max_seq_len: usize,
    max_seqs: usize,
    gpu_ptrs: Vec<u64>,
}

impl GpuKvCache {
    /// The accelerator the cache is meant for.
    pub closed spec fn device(&self) -> usize {
        self.device_id
    }

    /// Bytes of one cache entry: keys and values of `f32` for every head and position.
    pub closed spec fn entry_bytes(&self) -> int {
        self.num_kv_heads * self.head_dim * self.max_seq_len * 2 * 4
    }

    /// Cache entries: one per layer and sequence.
    pub closed spec fn entries(&self) -> int {
        self.num_layers * self.max_seqs
    }

    /// Every partial product of the size computation fits in a `usize`.
    pub closed spec fn sizes_fit(&self) -> bool {
        &&& self.num_kv_heads * self.head_dim <= usize::MAX
        &&& self.num_kv_heads * self.head_dim * self.max_seq_len <= usize::MAX
        &&& self.num_kv_heads * self.head_dim * self.max_seq_len * 2 <= usize::MAX
        &&& self.entry_bytes() <= usize::MAX
        &&& self.entries() <= usize::MAX
        &&& self.entry_bytes() * self.entries() <= usize::MAX
    }

    /// A cache plan with the given dimensions.
    pub fn new(
        device_id: usize,
        num_layers: usize,
        num_kv_heads: usize,
        head_dim: usize,
        max_seq_len: usize,
        max_seqs: usize,
    ) -> (c: Self)
        ensures
            c.device() == device_id,
            c.entry_bytes() == num_kv_heads * head_dim * max_seq_len * 2 * 4,
            c.entries() == num_layers * max_seqs,
            c.sizes_fit() == ({
                &&& num_kv_heads * head_dim <= usize::MAX
                &&& num_kv_heads * head_dim * max_seq_len <= usize::MAX
                &&& num_kv_heads * head_dim * max_seq_len * 2 <= usize::MAX
                &&& num_kv_heads * head_dim * max_seq_len * 2 * 4 <= usize::MAX
                &&& num_layers * max_seqs <= usize::MAX
                &&& (num_kv_heads * head_dim * max_seq_len * 2 * 4) * (num_layers * max_seqs) <= usize::MAX
            }),
    {
        GpuKvCache { device_id, num_layers, num_kv_heads, head_dim, max_seq_len, max_seqs, gpu_ptrs: Vec::new() }
    }

    /// Reserves the cache; no accelerator memory is taken, and it always succeeds.
    pub fn allocate(&mut self) -> (r: Result<(), anyhow::Error>)
        ensures
            r is Ok,
            final(self).device() == old(self).device(),
            final(self).entry_bytes() == old(self).entry_bytes(),
            final(self).entries() == old(self).entries(),
            final(self).sizes_fit() == old(self).sizes_fit(),
    {
        Ok(())
    }

    /// The bytes the cache needs.
    pub fn memory_needed(&self) -> (r: usize)
        requires
            self.sizes_fit(),
        ensures
            r == self.entry_bytes() * self.entries(),
    {
        let per_entry = self.num_kv_heads * self.head_dim * self.max_seq_len * 2 * 4;
        let total = self.num_layers * self.max_seqs;
        per_entry * total
    }

    /// Whether the cache fits in `vram_available` bytes.
    pub fn can_fit_in_vram(&self, vram_available: usize) -> (r: bool)
        requires
            self.sizes_fit(),
        ensures
            r == (self.entry_bytes() * self.entries() <= vram_available),
    {
        self.memory_needed() <= vram_available
    }
}

} // verus!
