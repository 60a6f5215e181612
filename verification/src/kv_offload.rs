use vstd::prelude::*;
use crate::cpu_kv::{
    fresh_cache, keys_updated, registered, token_run, unregistered, values_updated, CpuKvCache, GpuKvCache,
};
use crate::types::SeqId;

verus! {

/// Where the KV cache of a layer lives.
#[derive(Debug, Clone, Copy, PartialEq, Eq, Structural)]
pub enum KvLocation {
    CPU,
    GPU,
    Offloaded,
}

/// Bytes the whole cache needs: keys and values of `f32` for every head and position, for
/// every layer and sequence.
pub open spec fn kv_bytes_needed(num_layers: int, num_kv_heads: int, head_dim: int, max_seq_len: int, max_seqs: int) -> int {
    num_layers * max_seqs * (num_kv_heads * head_dim * max_seq_len * 2 * 4)
}

/// Keeps every layer's KV cache in host memory and, when the whole cache fits in accelerator
/// memory, plans a copy there too and tracks which layers use it.
pub struct KvOffloadManager<T> {
    cpu_cache: CpuKvCache<T>,
    gpu_cache: Option<GpuKvCache>,
    offload_threshold: usize,
    current_layer_gpu: Vec<bool>,
}

impl<T: Copy> KvOffloadManager<T> {
    /// The host-memory cache.
    pub closed spec fn cpu(&self) -> CpuKvCache<T> {
        self.cpu_cache
    }

    /// The accelerator cache plan, when the cache fits there.
    pub closed spec fn gpu(&self) -> Option<GpuKvCache> {
        self.gpu_cache
    }

    /// Half the accelerator memory the manager was given.
    pub closed spec fn threshold(&self) -> usize {
        self.offload_threshold
    }

    /// For each layer, whether it uses the accelerator cache.
    pub closed spec fn on_gpu(&self) -> Seq<bool> {
        self.current_layer_gpu@
    }

    /// The host cache is well formed.
    pub closed spec fn wf(&self) -> bool {
        self.cpu_cache.wf()
    }

    /// A manager with a fresh host cache; the accelerator cache is planned (on accelerator 0)
    /// exactly when the whole cache fits in `vram_available` bytes, and then every layer uses
    /// it.
    pub fn new(
        num_layers: usize,
        num_kv_heads: usize,
        head_dim: usize,
        max_seq_len: usize,
        max_seqs: usize,
        vram_available: usize,
        fill: T,
    ) -> (m: Self)
        requires
            max_seq_len * num_kv_heads <= usize::MAX,
            max_seq_len * num_kv_heads * head_dim <= usize::MAX,
            num_kv_heads * head_dim <= usize::MAX,
            num_kv_heads * head_dim * max_seq_len <= usize::MAX,
            num_kv_heads * head_dim * max_seq_len * 2 <= usize::MAX,
            num_kv_heads * head_dim * max_seq_len * 2 * 4 <= usize::MAX,
            num_layers * max_seqs <= usize::MAX,
            kv_bytes_needed(num_layers as int, num_kv_heads as int, head_dim as int, max_seq_len as int, max_seqs as int)
                <= usize::MAX,
        ensures
            m.wf(),
            fresh_cache(m.cpu(), num_layers, num_kv_heads, head_dim, max_seq_len, max_seqs, fill),
            m.gpu() is Some <==> kv_bytes_needed(
                num_layers as int,
                num_kv_heads as int,
                head_dim as int,
                max_seq_len as int,
                max_seqs as int,
            ) <= vram_available,
            m.gpu() matches Some(g) ==> g.device() == 0 && g.entry_bytes() == num_kv_heads * head_dim * max_seq_len * 2 * 4
                && g.entries() == num_layers * max_seqs && g.sizes_fit(),
            m.threshold() == vram_available / 2,
            m.on_gpu() == Seq::new(num_layers as nat, |i: int| m.gpu() is Some),
    {
        let cpu_cache = CpuKvCache::new(num_layers, num_kv_heads, head_dim, max_seq_len, max_seqs, fill);
        let per_entry = num_kv_heads * head_dim * max_seq_len * 2 * 4;
        proof {
            assert(num_layers * max_seqs * per_entry == kv_bytes_needed(
                num_layers as int,
                num_kv_heads as int,
                head_dim as int,
                max_seq_len as int,
                max_seqs as int,
            ));
        }
        let needed_gpu = num_layers * max_seqs * per_entry;
        let mut gpu_cache: Option<GpuKvCache> = None;
        if needed_gpu <= vram_available {
            gpu_cache = Some(GpuKvCache::new(0, num_layers, num_kv_heads, head_dim, max_seq_len, max_seqs));
            proof {
                assert(per_entry * (num_layers * max_seqs) == num_layers * max_seqs * per_entry) by (nonlinear_arith);
            }
        }
        let on = gpu_cache.is_some();
        let mut current_layer_gpu: Vec<bool> = Vec::new();
        let mut i: usize = 0;
        while i < num_layers
            invariant
                i <= num_layers,
                current_layer_gpu@ == Seq::new(i as nat, |j: int| on),
            decreases num_layers - i,
        {
            current_layer_gpu.push(on);
            proof {
                assert(current_layer_gpu@ =~= Seq::new((i + 1) as nat, |j: int| on));
            }
            i += 1;
        }
        KvOffloadManager { cpu_cache, gpu_cache, offload_threshold: vram_available / 2, current_layer_gpu }
    }

    /// Registers `seq_id` with the host cache; see `CpuKvCache::register_sequence`.
    pub fn register_sequence(&mut self, seq_id: SeqId) -> (r: Option<usize>)
        requires
            old(self).wf(),
        ensures
            final(self).wf(),
            registered(old(self).cpu(), final(self).cpu(), seq_id, r),
            final(self).gpu() == old(self).gpu(),
            final(self).threshold() == old(self).threshold(),
            final(self).on_gpu() == old(self).on_gpu(),
    {
        self.cpu_cache.register_sequence(seq_id)
    }

    /// Unregisters `seq_id` from the host cache; see `CpuKvCache::unregister_sequence`.
    pub fn unregister_sequence(&mut self, seq_id: SeqId)
        requires
            old(self).wf(),
        ensures
            final(self).wf(),
            unregistered(old(self).cpu(), final(self).cpu(), seq_id),
            final(self).gpu() == old(self).gpu(),
            final(self).threshold() == old(self).threshold(),
            final(self).on_gpu() == old(self).on_gpu(),
    {
        self.cpu_cache.unregister_sequence(seq_id);
    }

    /// Writes keys of `seq_id` in layer `layer_idx` from token `start_pos` on into the host
    /// cache, which always holds every layer; the accelerator copy is not written.
    pub fn update_k(&mut self, layer_idx: usize, seq_id: SeqId, k: &[T], start_pos: usize)
        requires
            old(self).wf(),
            old(self).cpu().slot_of(layer_idx as int, seq_id) is Some ==> start_pos * old(self).cpu().heads() <= usize::MAX
                && start_pos * old(self).cpu().heads() * old(self).cpu().dim() <= usize::MAX,
        ensures
            final(self).wf(),
            keys_updated(old(self).cpu(), final(self).cpu(), layer_idx as int, seq_id, k@, start_pos as int),
            final(self).gpu() == old(self).gpu(),
            final(self).threshold() == old(self).threshold(),
            final(self).on_gpu() == old(self).on_gpu(),
    {
        self.cpu_cache.update_k(layer_idx, seq_id, k, start_pos);
    }

    /// Writes values of `seq_id` in layer `layer_idx` from token `start_pos` on into the host
    /// cache; the accelerator copy is not written.
    pub fn update_v(&mut self, layer_idx: usize, seq_id: SeqId, v: &[T], start_pos: usize)
        requires
            old(self).wf(),
            old(self).cpu().slot_of(layer_idx as int, seq_id) is Some ==> start_pos * old(self).cpu().heads() <= usize::MAX
                && start_pos * old(self).cpu().heads() * old(self).cpu().dim() <= usize::MAX,
        ensures
            final(self).wf(),
            values_updated(old(self).cpu(), final(self).cpu(), layer_idx as int, seq_id, v@, start_pos as int),
            final(self).gpu() == old(self).gpu(),
            final(self).threshold() == old(self).threshold(),
            final(self).on_gpu() == old(self).on_gpu(),
    {
        self.cpu_cache.update_v(layer_idx, seq_id, v, start_pos);
    }

    /// What the accelerator copy answers for a read: nothing, it holds no data on the host.
    fn get_from_gpu_cache(&self, seq_id: SeqId, start: usize, len: usize, is_k: bool) -> (r: Vec<T>)
        ensures
            r@ == Seq::<T>::empty(),
    {
        Vec::new()
    }

    /// Keys of tokens `start .. start + len` of `seq_id` in layer `layer_idx`: the accelerator
    /// copy is asked first when the layer uses it, and it holds nothing, so they come from the
    /// host cache.
    pub fn get_k(&self, layer_idx: usize, seq_id: SeqId, start: usize, len: usize) -> (r: Vec<T>)
        requires
            self.cpu().slot_of(layer_idx as int, seq_id) is Some ==> start * self.cpu().heads() <= usize::MAX && len
                * self.cpu().heads() <= usize::MAX && start * self.cpu().heads() * self.cpu().dim() + len * self.cpu().heads()
                * self.cpu().dim() <= usize::MAX,
        ensures
            r@ == (match self.cpu().slot_of(layer_idx as int, seq_id) {
                Some(i) => token_run(
                    self.cpu().entries()[layer_idx as int][i].k_cache@,
                    start as int,
                    len as int,
                    self.cpu().heads() as int,
                    self.cpu().dim() as int,
                ),
                None => Seq::<T>::empty(),
            }),
    {
        if layer_idx < self.current_layer_gpu.len() && self.current_layer_gpu[layer_idx] {
            if self.gpu_cache.is_some() {
                let gpu_k = self.get_from_gpu_cache(seq_id, start, len, true);
                if gpu_k.len() != 0 {
                    return gpu_k;
                }
            }
        }
        self.cpu_cache.get_k(layer_idx, seq_id, start, len)
    }

    /// Values of tokens `start .. start + len` of `seq_id` in layer `layer_idx`, from the host
    /// cache (the accelerator copy, asked first when the layer uses it, holds nothing).
    pub fn get_v(&self, layer_idx: usize, seq_id: SeqId, start: usize, len: usize) -> (r: Vec<T>)
        requires
            self.cpu().slot_of(layer_idx as int, seq_id) is Some ==> start * self.cpu().heads() <= usize::MAX && len
                * self.cpu().heads() <= usize::MAX && start * self.cpu().heads() * self.cpu().dim() + len * self.cpu().heads()
                * self.cpu().dim() <= usize::MAX,
        ensures
            r@ == (match self.cpu().slot_of(layer_idx as int, seq_id) {
                Some(i) => token_run(
                    self.cpu().entries()[layer_idx as int][i].v_cache@,
                    start as int,
                    len as int,
                    self.cpu().heads() as int,
                    self.cpu().dim() as int,
                ),
                None => Seq::<T>::empty(),
            }),
    {
        if layer_idx < self.current_layer_gpu.len() && self.current_layer_gpu[layer_idx] {
            if self.gpu_cache.is_some() {
                let gpu_v = self.get_from_gpu_cache(seq_id, start, len, false);
                if gpu_v.len() != 0 {
                    return gpu_v;
                }
            }
        }
        self.cpu_cache.get_v(layer_idx, seq_id, start, len)
    }

    /// Moves layer `layer_idx` off the accelerator copy, when it uses it.
    pub fn swap_layer_to_cpu(&mut self, layer_idx: usize)
        ensures
            final(self).on_gpu() == if layer_idx < old(self).on_gpu().len() {
                old(self).on_gpu().update(layer_idx as int, false)
            } else {
                old(self).on_gpu()
            },
            final(self).cpu() == old(self).cpu(),
            final(self).gpu() == old(self).gpu(),
            final(self).threshold() == old(self).threshold(),
    {
        if layer_idx < self.current_layer_gpu.len() && self.current_layer_gpu[layer_idx] {
            self.current_layer_gpu[layer_idx] = false;
        }
        proof {
            if layer_idx < old(self).on_gpu().len() && !old(self).on_gpu()[layer_idx as int] {
                assert(old(self).on_gpu().update(layer_idx as int, false) =~= old(self).on_gpu());
            }
        }
    }

    /// Moves layer `layer_idx` onto the accelerator copy, when there is one.
    pub fn swap_layer_to_gpu(&mut self, layer_idx: usize)
        ensures
            final(self).on_gpu() == if layer_idx < old(self).on_gpu().len() && old(self).gpu() is Some {
                old(self).on_gpu().update(layer_idx as int, true)
            } else {
                old(self).on_gpu()
            },
            final(self).cpu() == old(self).cpu(),
            final(self).gpu() == old(self).gpu(),
            final(self).threshold() == old(self).threshold(),
    {
        if layer_idx < self.current_layer_gpu.len() && self.gpu_cache.is_some() {
            self.current_layer_gpu[layer_idx] = true;
        }
    }

    /// Whether layer `layer_idx` uses the accelerator copy (false for a layer that does not
    /// exist).
    pub fn is_layer_on_gpu(&self, layer_idx: usize) -> (r: bool)
        ensures
            r == (layer_idx < self.on_gpu().len() && self.on_gpu()[layer_idx as int]),
    {
        if layer_idx < self.current_layer_gpu.len() {
            self.current_layer_gpu[layer_idx]
        } else {
            false
        }
    }

    /// Bytes of the host cache plus, when planned, those of the accelerator copy.
    pub fn memory_usage(&self) -> (r: usize)
        requires
            self.wf(),
            self.cpu().layers() > 0,
            self.cpu().heads() * self.cpu().dim() <= usize::MAX,
            self.cpu().heads() * self.cpu().dim() * self.cpu().seq_len() <= usize::MAX,
            self.cpu().heads() * self.cpu().dim() * self.cpu().seq_len() * 2 <= usize::MAX,
            self.cpu().heads() * self.cpu().dim() * self.cpu().seq_len() * 2 * 4 <= usize::MAX,
            self.cpu().layers() * self.cpu().slot_count() <= usize::MAX,
            (self.cpu().heads() * self.cpu().dim() * self.cpu().seq_len() * 2 * 4) * (self.cpu().layers()
                * self.cpu().slot_count()) <= usize::MAX,
            self.gpu() matches Some(g) ==> g.sizes_fit(),
            (self.cpu().heads() * self.cpu().dim() * self.cpu().seq_len() * 2 * 4) * (self.cpu().layers()
                * self.cpu().slot_count()) + (match self.gpu() {
                Some(g) => g.entry_bytes() * g.entries(),
                None => 0,
            }) <= usize::MAX,
        ensures
            r == (self.cpu().heads() * self.cpu().dim() * self.cpu().seq_len() * 2 * 4) * (self.cpu().layers()
                * self.cpu().slot_count()) + (match self.gpu() {
                Some(g) => g.entry_bytes() * g.entries(),
                None => 0,
            }),
    {
        let cpu_mem = self.cpu_cache.memory_usage();
        let gpu_mem = match &self.gpu_cache {
            Some(c) => c.memory_needed(),
            None => 0,
        };
        cpu_mem + gpu_mem
    }
}

/// Copies the first `size` values of `src` into `dst`, as many as both hold.
pub fn swap_kv_async<T: Copy>(src: &[T], dst: &mut [T], size: usize)
    ensures
        ({
            let n = if size < src@.len() { size as int } else { src@.len() as int };
            let n = if n < old(dst)@.len() { n } else { old(dst)@.len() as int };
            final(dst)@ == src@.take(n) + old(dst)@.skip(n)
        }),
{
    let a = if size < src.len() { size } else { src.len() };
    let n = if a < dst.len() { a } else { dst.len() };
    let mut i: usize = 0;
    while i < n
        invariant
            i <= n,
            n <= src@.len(),
            n <= dst@.len(),
            dst@.len() == old(dst)@.len(),
            dst@ == src@.take(i as int) + old(dst)@.skip(i as int),
        decreases n - i,
    {
        dst[i] = src[i];
        proof {
            assert(dst@ =~= src@.take(i + 1) + old(dst)@.skip(i + 1));
        }
        i += 1;
    }
}

} // verus!
