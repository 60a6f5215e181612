use vstd::prelude::*;
use crate::types::ComputeDevice;

verus! {

/// Where the weights of a layer are.
#[derive(Debug, Clone, Copy, PartialEq, Eq, Structural)]
pub enum LayerLocation {
    CPU,
    GPU,
    Loading,
}

/// The placement of one layer: where its weights are, whether they are loaded, and where it
/// last ran.
#[derive(Debug, Clone, Copy)]
pub struct LayerState {
    pub location: LayerLocation,
    pub weights_loaded: bool,
    pub compute_device: ComputeDevice,
}

impl LayerState {
    /// A layer on the host, not loaded, running on the host.
    pub fn new() -> (s: Self)
        ensures
            s.location == LayerLocation::CPU,
            !s.weights_loaded,
            s.compute_device == ComputeDevice::CPU,
    {
        LayerState { location: LayerLocation::CPU, weights_loaded: false, compute_device: ComputeDevice::CPU }
    }
}

impl Default for LayerState {
    fn default() -> (s: Self)
        ensures
            s.location == LayerLocation::CPU,
            !s.weights_loaded,
            s.compute_device == ComputeDevice::CPU,
    {
        LayerState::new()
    }
}

/// The device a layer runs on: the first half of the layers on accelerator 0, the rest on the
/// host.
pub open spec fn spec_layer_device(layer_idx: usize, num_layers: usize) -> ComputeDevice {
    if layer_idx < num_layers / 2 {
        ComputeDevice::Device(0)
    } else {
        ComputeDevice::CPU
    }
}

/// The device layer `layer_idx` of `num_layers` runs on.
pub fn select_compute_device(layer_idx: usize, num_layers: usize) -> (d: ComputeDevice)
    ensures
        d == spec_layer_device(layer_idx, num_layers),
        (d == ComputeDevice::Device(0)) == (layer_idx < num_layers / 2),
        d == ComputeDevice::Device(0) || d == ComputeDevice::CPU,
{
    if layer_idx < num_layers / 2 {
        ComputeDevice::Device(0)
    } else {
        ComputeDevice::CPU
    }
}


/// How many of layers `0..k` of `num_layers` are placed on accelerator 0.
pub open spec fn layers_on_accelerator(k: int, num_layers: usize) -> int
    decreases k,
{
    if k <= 0 {
        0
    } else {
        layers_on_accelerator(k - 1, num_layers) + if spec_layer_device((k - 1) as usize, num_layers)
            == ComputeDevice::Device(0) {
            1int
        } else {
            0int
        }
    }
}

proof fn lemma_layers_on_accelerator_upto(k: int, n: usize)
    requires
        0 <= k <= n,
    ensures
        layers_on_accelerator(k, n) == if k < n / 2 { k } else { (n / 2) as int },
    decreases k,
{
    if k > 0 {
        lemma_layers_on_accelerator_upto(k - 1, n);
    }
}

/// Layer placement splits a model in two: of its `n` layers exactly `n / 2` run on
/// accelerator 0, and they are the first ones (a layer on the accelerator has only
/// accelerator layers before it); every other layer runs on the CPU.
pub proof fn lemma_first_half_on_accelerator(n: usize)
    ensures
        layers_on_accelerator(n as int, n) == n / 2,
        forall|a: usize, b: usize|
            a <= b < n && #[trigger] spec_layer_device(b, n) == ComputeDevice::Device(0) ==> #[trigger] spec_layer_device(a, n)
                == ComputeDevice::Device(0),
        forall|l: usize| l < n ==> #[trigger] spec_layer_device(l, n) == ComputeDevice::Device(0) || spec_layer_device(l, n)
            == ComputeDevice::CPU,
{
    lemma_layers_on_accelerator_upto(n as int, n);
}

/// How many of the first `n` layers last ran on an accelerator.
pub open spec fn gpu_layers_upto(states: Seq<LayerState>, n: int) -> nat
    decreases n,
{
    if n <= 0 {
        0
    } else {
        gpu_layers_upto(states, n - 1) + if states[n - 1].compute_device is Device {
            1nat
        } else {
            0nat
        }
    }
}

/// How many layers last ran on an accelerator.
pub fn num_gpu_layers(states: &[LayerState]) -> (r: usize)
    ensures
        r == gpu_layers_upto(states@, states@.len() as int),
{
    let mut count: usize = 0;
    let mut i: usize = 0;
    while i < states.len()
        invariant
            i <= states@.len(),
            count == gpu_layers_upto(states@, i as int),
            count <= i,
        decreases states@.len() - i,
    {
        if states[i].compute_device.is_gpu() {
            count += 1;
        }
        i += 1;
    }
    count
}

/// The shape of a pipelined model run.
#[derive(Debug, Clone, Copy)]
pub struct PipelineConfig {
    pub num_layers: usize,
    pub batch_size: usize,
    pub hidden_size: usize,
    pub intermediate_size: usize,
    pub num_heads: usize,
    pub num_kv_heads: usize,
    pub head_dim: usize,
    pub max_seq_len: usize,
    pub use_gpu: bool,
    pub gpu_device_id: usize,
    pub vram_gb: usize,
}

impl Default for PipelineConfig {
    /// The shape of a 7B model: 32 layers of width 4096, 32 heads of 128, context 2048, on the
    /// host, 8 GB of accelerator memory.
    fn default() -> (c: Self)
        ensures
            c.num_layers == 32,
            c.batch_size == 1,
            c.hidden_size == 4096,
            c.intermediate_size == 11008,
            c.num_heads == 32,
            c.num_kv_heads == 32,
            c.head_dim == 128,
            c.max_seq_len == 2048,
            !c.use_gpu,
            c.gpu_device_id == 0,
            c.vram_gb == 8,
    {
        PipelineConfig {
            num_layers: 32,
            batch_size: 1,
            hidden_size: 4096,
            intermediate_size: 11008,
            num_heads: 32,
            num_kv_heads: 32,
            head_dim: 128,
            max_seq_len: 2048,
            use_gpu: false,
            gpu_device_id: 0,
            vram_gb: 8,
        }
    }
}

} // verus!
