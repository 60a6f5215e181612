use rust_llm::advanced_scheduler::{PrefillDecodeDisaggregation, RequestPhase};
use rust_llm::moe::{MultiGPUManager, PipelineParallelism, TensorParallelism};
use rust_llm::prompt_cache::{BatchType, DynamicBatch, PrefillBatch, SplitFuse};
use rust_llm::scheduler::{num_gpu_layers, select_compute_device, LayerState, PipelineConfig};
use rust_llm::types::{ComputeDevice, DeviceType};

#[test]
fn prefill_batch_chunks_in_order() {
    let mut p = PrefillBatch::new(vec![1, 2, 3, 4, 5], 2);
    assert_eq!(p.remaining(), 5);
    assert_eq!(p.next_chunk(), Some(&[1, 2][..]));
    assert_eq!(p.next_chunk(), Some(&[3, 4][..]));
    assert!(!p.is_complete());
    assert_eq!(p.next_chunk(), Some(&[5][..]));
    assert!(p.is_complete());
    assert_eq!(p.remaining(), 0);
    assert_eq!(p.next_chunk(), None);
}

#[test]
fn dynamic_batch_serves_prefill_chunks_then_decodes() {
    let mut d = DynamicBatch::new(4, 10);
    assert!(d.get_next_batch().is_none());
    d.add_decode(vec![9]);
    d.add_prefill(vec![1, 2, 3], 2);
    match d.get_next_batch() {
        Some(BatchType::Prefill(t)) => assert_eq!(t, vec![1, 2]),
        _ => panic!("expected a prefill chunk"),
    }
    match d.get_next_batch() {
        Some(BatchType::Prefill(t)) => assert_eq!(t, vec![3]),
        _ => panic!("expected the last prefill chunk"),
    }
    match d.get_next_batch() {
        Some(BatchType::Decode(t)) => assert_eq!(t, vec![9]),
        _ => panic!("expected the decode"),
    }
    assert!(d.get_next_batch().is_none());
}

#[test]
fn dynamic_batch_takes_most_recent_prompt() {
    let mut d = DynamicBatch::new(4, 10);
    d.add_prefill(vec![1], 4);
    d.add_prefill(vec![2], 4);
    match d.get_next_batch() {
        Some(BatchType::Prefill(t)) => assert_eq!(t, vec![2]),
        _ => panic!("expected a prefill chunk"),
    }
}

#[test]
fn split_fuse_slots() {
    let mut s = SplitFuse::new(2);
    assert!(s.can_accept());
    assert!(s.acquire_slot());
    assert!(s.acquire_slot());
    assert!(!s.acquire_slot());
    assert!(!s.can_accept());
    s.release_slot();
    assert!(s.can_accept());
    s.release_slot();
    s.release_slot();
    assert!(s.acquire_slot());
}

#[test]
fn multi_gpu_round_robin() {
    let mut m = MultiGPUManager::new(3);
    m.distribute_layers(7);
    assert_eq!(m.get_device(0), 0);
    assert_eq!(m.get_device(4), 1);
    assert_eq!(m.get_device(5), 2);
    // layers never distributed map to device 0
    assert_eq!(m.get_device(100), 0);
    assert_eq!(m.num_devices(), 3);
    assert_eq!(m.current_device(), 0);
    assert_eq!(m.next_device(), 1);
    assert_eq!(m.next_device(), 2);
    assert_eq!(m.next_device(), 0);
    m.sync_all();
}

#[test]
fn tensor_split_last_chunk_takes_rest() {
    let t = TensorParallelism::new(3, 1);
    let chunks = t.split_tensor(&[1, 2, 3, 4, 5, 6, 7, 8], 0);
    assert_eq!(chunks, vec![vec![1, 2], vec![3, 4], vec![5, 6, 7, 8]]);
    assert_eq!(t.rank(), 1);
}

#[test]
fn pipeline_stages_wrap() {
    let p = PipelineParallelism::new(4, 0);
    assert!(p.is_first_stage());
    assert!(!p.is_last_stage());
    assert_eq!(p.prev_stage(), 3);
    assert_eq!(p.next_stage(), 1);
    let q = PipelineParallelism::new(4, 3);
    assert!(q.is_last_stage());
    assert_eq!(q.next_stage(), 0);
    assert_eq!(q.prev_stage(), 2);
    assert_eq!(q.num_stages(), 4);
    assert_eq!(q.stage_id(), 3);
}

#[test]
fn disaggregation_thresholds() {
    let d = PrefillDecodeDisaggregation::new(DeviceType::GPU, DeviceType::CPU);
    assert!(!d.should_disaggregate(512, 8));
    assert!(d.should_disaggregate(513, 1));
    assert!(d.should_disaggregate(1, 9));
    assert_eq!(d.estimate_overhead(10, 2500), 102);
    assert_eq!(d.estimate_overhead(10, 999), 100);
    assert_eq!(RequestPhase::Prefill, RequestPhase::Prefill);
    assert_ne!(RequestPhase::Prefill, RequestPhase::Decode);
}

#[test]
fn layers_split_between_accelerator_and_host() {
    assert_eq!(select_compute_device(0, 5), ComputeDevice::Device(0));
    assert_eq!(select_compute_device(1, 5), ComputeDevice::Device(0));
    assert_eq!(select_compute_device(2, 5), ComputeDevice::CPU);
    let mut states = vec![LayerState::new(); 4];
    states[1].compute_device = ComputeDevice::Device(2);
    states[3].compute_device = ComputeDevice::Device(0);
    assert_eq!(num_gpu_layers(&states), 2);
    let c = PipelineConfig::default();
    assert_eq!(c.num_layers, 32);
    assert_eq!(c.intermediate_size, 11008);
    assert!(!c.use_gpu);
}
