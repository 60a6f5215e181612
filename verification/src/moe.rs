use vstd::prelude::*;
use std::collections::HashMap;

verus! {

broadcast use vstd::std_specs::hash::group_hash_axioms;

/// Spreads model layers over several accelerators, round robin.
pub struct MultiGPUManager {
    num_devices: usize,
    current_device: usize,
    layer_distribution: HashMap<usize, usize>,
}

impl MultiGPUManager {
    /// The current device is 0 or one of the devices.
    #[verifier::type_invariant]
    spec fn current_in_range(&self) -> bool {
        self.current_device == 0 || self.current_device < self.num_devices
    }

    pub closed spec fn devices(&self) -> nat {
        self.num_devices as nat
    }

    pub closed spec fn current(&self) -> nat {
        self.current_device as nat
    }

    /// Which device each distributed layer was placed on.
    pub closed spec fn placement(&self) -> Map<usize, usize> {
        self.layer_distribution@
    }

    pub fn new(num_devices: usize) -> (m: Self)
        ensures
            m.devices() == num_devices,
            m.current() == 0,
            m.placement() == Map::<usize, usize>::empty(),
    {
        MultiGPUManager { num_devices, current_device: 0, layer_distribution: HashMap::new() }
    }

    /// Places layer `i` on device `i % num_devices` for every `i < num_layers`.
    pub fn distribute_layers(&mut self, num_layers: usize)
        requires
            num_layers > 0 ==> old(self).devices() > 0,
        ensures
            final(self).devices() == old(self).devices(),
            final(self).current() == old(self).current(),
            forall|l: usize| #[trigger] final(self).placement().contains_key(l) <==> (l < num_layers
                || old(self).placement().contains_key(l)),
            forall|l: usize| l < num_layers ==> #[trigger] final(self).placement()[l] == l % old(self).devices() as usize,
            forall|l: usize| l >= num_layers && old(self).placement().contains_key(l)
                ==> #[trigger] final(self).placement()[l] == old(self).placement()[l],
    {
        proof {
            use_type_invariant(&*self);
        }
        let mut dist: HashMap<usize, usize> = HashMap::new();
        std::mem::swap(&mut dist, &mut self.layer_distribution);
        let n = self.num_devices;
        let mut layer_idx: usize = 0;
        while layer_idx < num_layers
            invariant
                layer_idx <= num_layers,
                num_layers > 0 ==> n > 0,
                n == old(self).num_devices,
                forall|l: usize| #[trigger] dist@.contains_key(l) <==> (l < layer_idx
                    || old(self).placement().contains_key(l)),
                forall|l: usize| l < layer_idx ==> #[trigger] dist@[l] == l % n,
                forall|l: usize| l >= layer_idx && old(self).placement().contains_key(l)
                    ==> #[trigger] dist@[l] == old(self).placement()[l],
            decreases num_layers - layer_idx,
        {
            let device = layer_idx % n;
            dist.insert(layer_idx, device);
            layer_idx += 1;
        }
        std::mem::swap(&mut dist, &mut self.layer_distribution);
    }

    /// The device of layer `layer_idx`; 0 for a layer that was not distributed.
    pub fn get_device(&self, layer_idx: usize) -> (r: usize)
        ensures
            self.placement().contains_key(layer_idx) ==> r == self.placement()[layer_idx],
            !self.placement().contains_key(layer_idx) ==> r == 0,
    {
        match self.layer_distribution.get(&layer_idx) {
            Some(d) => *d,
            None => 0,
        }
    }

    /// Moves on to the next device, wrapping around after the last.
    pub fn next_device(&mut self) -> (r: usize)
        requires
            old(self).devices() > 0,
        ensures
            r == (old(self).current() + 1) % old(self).devices(),
            final(self).current() == r,
            final(self).devices() == old(self).devices(),
            final(self).placement() == old(self).placement(),
    {
        proof {
            use_type_invariant(&*self);
        }
        self.current_device = (self.current_device + 1) % self.num_devices;
        self.current_device
    }

    /// Waits for every device; with no accelerator attached there is nothing to wait for.
    pub fn sync_all(&self) {
    }

    pub fn num_devices(&self) -> (r: usize)
        ensures
            r == self.devices(),
    {
        self.num_devices
    }

    pub fn current_device(&self) -> (r: usize)
        ensures
            r == self.current(),
    {
        self.current_device
    }
}

/// Splits tensors across `num_devices` devices; this process holds shard `rank`.
pub struct TensorParallelism {
    num_devices: usize,
    rank: usize,
}

/// Where shard `i` of a tensor of `len` elements split `n` ways starts.
pub open spec fn shard_start(len: nat, n: nat, i: nat) -> nat {
    i * (len / n)
}

/// Where shard `i` ends: the last shard takes the remainder.
pub open spec fn shard_end(len: nat, n: nat, i: nat) -> nat {
    if i + 1 == n {
        len
    } else {
        (i + 1) * (len / n)
    }
}

impl TensorParallelism {
    pub closed spec fn devices(&self) -> nat {
        self.num_devices as nat
    }

    pub closed spec fn spec_rank(&self) -> nat {
        self.rank as nat
    }

    pub fn new(num_devices: usize, rank: usize) -> (t: Self)
        ensures
            t.devices() == num_devices,
            t.spec_rank() == rank,
    {
        TensorParallelism { num_devices, rank }
    }

    /// Cuts `tensor` into `num_devices` consecutive shards of `len / num_devices` elements;
    /// the last shard also takes the remainder.
    pub fn split_tensor<T: Copy>(&self, tensor: &[T], dim: usize) -> (chunks: Vec<Vec<T>>)
        requires
            self.devices() > 0,
        ensures
            chunks@.len() == self.devices(),
            forall|i: int| 0 <= i < self.devices() ==> #[trigger] chunks@[i]@ == tensor@.subrange(
                shard_start(tensor@.len(), self.devices(), i as nat) as int,
                shard_end(tensor@.len(), self.devices(), i as nat) as int,
            ),
    {
        let n = self.num_devices;
        let tlen = tensor.len();
        let chunk_size = tlen / n;
        let mut chunks: Vec<Vec<T>> = Vec::new();
        let mut i: usize = 0;
        proof {
            assert(chunk_size * n <= tensor@.len()) by (nonlinear_arith)
                requires
                    chunk_size == tensor@.len() / (n as nat),
                    n > 0,
            ;
        }
        while i < n
            invariant
                n == self.devices(),
                n > 0,
                tlen == tensor@.len(),
                chunk_size == tensor@.len() / (n as nat),
                chunk_size * n <= tensor@.len(),
                i <= n,
                chunks@.len() == i,
                forall|j: int| 0 <= j < i ==> #[trigger] chunks@[j]@ == tensor@.subrange(
                    shard_start(tensor@.len(), n as nat, j as nat) as int,
                    shard_end(tensor@.len(), n as nat, j as nat) as int,
                ),
            decreases n - i,
        {
            proof {
                assert((i + 1) * chunk_size <= n * chunk_size) by (nonlinear_arith)
                    requires
                        i + 1 <= n,
                        chunk_size >= 0,
                ;
                assert(i * chunk_size <= (i + 1) * chunk_size) by (nonlinear_arith)
                    requires
                        chunk_size >= 0,
                ;
                assert(n * chunk_size == chunk_size * n) by (nonlinear_arith);
                assert((i + 1) * chunk_size <= tensor@.len());
            }
            let start = i * chunk_size;
            let end = if i == n - 1 {
                tlen
            } else {
                (i + 1) * chunk_size
            };
            let shard = vstd::slice::slice_to_vec(&tensor[start..end]);
            chunks.push(shard);
            i += 1;
        }
        chunks
    }

    /// What every device holds after gathering, with each holding `data`: `num_devices`
    /// copies of `data`, one after another.
    pub fn all_gather<T: Copy>(&self, data: &[T]) -> (r: Vec<T>)
        requires
            data@.len() * self.devices() <= usize::MAX,
        ensures
            r@ == repeated(data@, self.devices()),
    {
        let n = self.num_devices;
        let mut result: Vec<T> = Vec::new();
        let mut i: usize = 0;
        while i < n
            invariant
                i <= n,
                n == self.devices(),
                result@ == repeated(data@, i as nat),
            decreases n - i,
        {
            let ghost before = result@;
            let mut j: usize = 0;
            while j < data.len()
                invariant
                    j <= data@.len(),
                    result@ == before + data@.take(j as int),
                decreases data@.len() - j,
            {
                result.push(data[j]);
                proof {
                    assert(data@.take(j + 1) =~= data@.take(j as int).push(data@[j as int]));
                    assert(result@ =~= before + data@.take(j + 1));
                }
                j += 1;
            }
            proof {
                assert(data@.take(data@.len() as int) =~= data@);
            }
            i += 1;
        }
        result
    }

    /// This device's shard after scattering: as long as its shard (`len / num_devices`
    /// elements, the last also the remainder), holding this rank's chunk of `data` (chunks of
    /// `len / num_devices` elements, the last one shorter) and `fill` after it.
    pub fn reduce_scatter<T: Copy>(&self, data: &[T], fill: T) -> (r: Vec<T>)
        requires
            self.devices() > 0,
            data@.len() / self.devices() > 0,
            (self.spec_rank() + 1) * (data@.len() / self.devices()) <= usize::MAX,
        ensures
            ({
                let len = data@.len() as int;
                let cs = len / (self.devices() as int);
                let start = self.spec_rank() * cs;
                let end = if self.spec_rank() + 1 == self.devices() { len } else { (self.spec_rank() + 1) * cs };
                let clen = if start < len { if cs < len - start { cs } else { len - start } } else { 0 };
                &&& r@.len() == end - start
                &&& forall|j: int| 0 <= j < r@.len() ==> #[trigger] r@[j] == if j < clen { data@[start + j] } else { fill }
            }),
    {
        let n = self.num_devices;
        let len = data.len();
        let cs = len / n;
        proof {
            assert(self.rank * cs <= (self.rank + 1) * cs) by (nonlinear_arith)
                requires
                    cs >= 0,
            ;
            assert(self.rank + 1 <= (self.rank + 1) * cs) by (nonlinear_arith)
                requires
                    cs >= 1,
            ;
            assert(self.rank + 1 == n ==> self.rank * cs <= len) by (nonlinear_arith)
                requires
                    cs == (len as int) / (n as int),
                    n > 0,
            ;
        }
        let start = self.rank * cs;
        let end = if self.rank == n - 1 { len } else { (self.rank + 1) * cs };
        let size = end - start;
        let mut result: Vec<T> = Vec::new();
        let mut i: usize = 0;
        while i < size
            invariant
                i <= size,
                result@ == Seq::new(i as nat, |k: int| fill),
            decreases size - i,
        {
            result.push(fill);
            proof {
                assert(result@ =~= Seq::new((i + 1) as nat, |k: int| fill));
            }
            i += 1;
        }
        let ghost clen: int = if start < len { if cs < len - start { cs as int } else { len - start } } else { 0 };
        if start < len {
            let chunk_len = if cs < len - start { cs } else { len - start };
            proof {
                assert(chunk_len <= size) by (nonlinear_arith)
                    requires
                        chunk_len <= cs,
                        chunk_len <= len - start,
                        size == end - start,
                        end == (if self.rank == n - 1 { len as int } else { (self.rank + 1) * cs }),
                        start == self.rank * cs,
                ;
            }
            let mut j: usize = 0;
            while j < chunk_len
                invariant
                    j <= chunk_len,
                    chunk_len <= size,
                    chunk_len == clen,
                    start + chunk_len <= len,
                    len == data@.len(),
                    result@.len() == size,
                    forall|k: int| 0 <= k < size ==> #[trigger] result@[k] == if k < j { data@[start + k] } else { fill },
                decreases chunk_len - j,
            {
                result[j] = data[start + j];
                j += 1;
            }
        }
        result
    }

    pub fn rank(&self) -> (r: usize)
        ensures
            r == self.spec_rank(),
    {
        self.rank
    }
}

/// `n` copies of `s`, one after another.
pub open spec fn repeated<T>(s: Seq<T>, n: nat) -> Seq<T>
    decreases n,
{
    if n == 0 {
        Seq::empty()
    } else {
        repeated(s, (n - 1) as nat) + s
    }
}

/// The shards of `split_tensor`, joined in order, give back the whole tensor.
pub proof fn lemma_shards_cover(len: nat, n: nat)
    requires
        n > 0,
    ensures
        shard_start(len, n, 0) == 0,
        shard_end(len, n, (n - 1) as nat) == len,
        forall|i: nat| i + 1 < n ==> #[trigger] shard_end(len, n, i) == shard_start(len, n, i + 1),
        forall|i: nat| i < n ==> #[trigger] shard_start(len, n, i) <= shard_end(len, n, i),
{
    assert forall|i: nat| i < n implies #[trigger] shard_start(len, n, i) <= shard_end(len, n, i) by {
        let c = len / n;
        assert(i * c <= (i + 1) * c) by (nonlinear_arith)
            requires
                c >= 0,
        ;
        if i + 1 == n {
            assert(i * c <= n * c) by (nonlinear_arith)
                requires
                    i < n,
                    c >= 0,
            ;
            assert(n * c <= len) by (nonlinear_arith)
                requires
                    c == len / n,
                    n > 0,
            ;
        }
    }
}

/// Splits a model into consecutive stages; this process runs stage `stage_id`.
pub struct PipelineParallelism {
    num_stages: usize,
    stage_id: usize,
}

impl PipelineParallelism {
    pub closed spec fn stages(&self) -> nat {
        self.num_stages as nat
    }

    pub closed spec fn stage(&self) -> nat {
        self.stage_id as nat
    }

    pub fn new(num_stages: usize, stage_id: usize) -> (p: Self)
        ensures
            p.stages() == num_stages,
            p.stage() == stage_id,
    {
        PipelineParallelism { num_stages, stage_id }
    }

    pub fn is_first_stage(&self) -> (r: bool)
        ensures
            r == (self.stage() == 0),
    {
        self.stage_id == 0
    }

    pub fn is_last_stage(&self) -> (r: bool)
        requires
            self.stages() > 0,
        ensures
            r == (self.stage() == self.stages() - 1),
    {
        self.stage_id == self.num_stages - 1
    }

    /// The stage after this one, wrapping around after the last.
    pub fn next_stage(&self) -> (r: usize)
        requires
            self.stages() > 0,
            self.stage() + 1 <= usize::MAX,
        ensures
            r == (self.stage() + 1) % self.stages(),
    {
        (self.stage_id + 1) % self.num_stages
    }

    /// The stage before this one, wrapping around before the first.
    pub fn prev_stage(&self) -> (r: usize)
        requires
            self.stage() == 0 ==> self.stages() > 0,
        ensures
            self.stage() == 0 ==> r == self.stages() - 1,
            self.stage() > 0 ==> r == self.stage() - 1,
    {
        if self.stage_id == 0 {
            self.num_stages - 1
        } else {
            self.stage_id - 1
        }
    }

    pub fn num_stages(&self) -> (r: usize)
        ensures
            r == self.stages(),
    {
        self.num_stages
    }

    pub fn stage_id(&self) -> (r: usize)
        ensures
            r == self.stage(),
    {
        self.stage_id
    }
}

/// Stepping forward and then back through a pipeline returns to the same stage.
pub proof fn lemma_next_then_prev(num_stages: nat, stage: nat)
    requires
        stage < num_stages,
    ensures
        ({
            let next = (stage + 1) % num_stages;
            (if next == 0 { num_stages - 1 } else { next - 1 }) == stage
        }),
{
    if stage + 1 < num_stages {
        vstd::arithmetic::div_mod::lemma_small_mod((stage + 1) as nat, num_stages);
    } else {
        vstd::arithmetic::div_mod::lemma_mod_self_0(num_stages as int);
    }
}

} // verus!
