use rust_llm::cuda_graphs::{CudaGraph, CudaGraphRunner, GraphExecutor, GraphPool, NodeType};
use rust_llm::types::{DataType, TensorRef};

fn t(offset: usize) -> TensorRef {
    TensorRef { offset, shape: (4, 4), dtype: DataType::F16 }
}

#[test]
fn graph_counts_nodes_and_flops() {
    let mut g = CudaGraph::new(7);
    g.add_matmul(t(0), t(1), t(2));
    g.add_attention(t(0), t(1), t(2), t(3));
    g.add_rms_norm(t(0), t(1), t(2), 1e-5f32.to_bits());
    g.add_silu(t(0), t(1));
    g.add_add(t(0), t(1), t(2));
    g.add_cast(t(0), t(1), DataType::F32);
    assert_eq!(g.num_nodes(), 6);
    assert_eq!(g.id, 7);
    // attention 4*4096*4096, normalisation 2*4096, matrix products without a shape count 0
    assert_eq!(g.estimate_flops(), 4 * 4096 * 4096 + 4096 * 2);
}

#[test]
fn executor_keeps_most_recent_graphs() {
    let mut e = GraphExecutor::new(2);
    assert_eq!(e.capture_graph().id, 0);
    assert_eq!(e.capture_graph().id, 1);
    assert_eq!(e.capture_graph().id, 2);
    assert!(e.get_graph(0).is_none());
    assert_eq!(e.get_graph(1).unwrap().id, 1);
    assert_eq!(e.get_graph(2).unwrap().num_nodes(), 0);
    assert_eq!(e.graphs().len(), 2);
    e.clear();
    assert!(e.get_graph(2).is_none());
    assert_eq!(e.capture_graph().id, 3);
}

#[test]
fn inference_step_has_eight_nodes_per_layer() {
    let mut e = GraphExecutor::new(4);
    let g = e.capture_inference_step(3);
    assert_eq!(g.num_nodes(), 24);
    // three attention nodes
    assert_eq!(g.estimate_flops(), 3 * 4 * 4096 * 4096);
    let _ = NodeType::Softmax;
}

#[test]
fn runner_captures_before_running() {
    let mut r = CudaGraphRunner::new();
    let mut ran = false;
    {
        let flag = std::cell::Cell::new(false);
        r.capture_and_execute(2, || flag.set(true));
        ran |= flag.get();
    }
    assert!(ran);
    assert_eq!(r.executor().graphs().len(), 1);
    assert_eq!(r.executor().get_graph(0).unwrap().num_nodes(), 16);
}

#[test]
fn graph_pool_hands_out_and_takes_back() {
    let mut p = GraphPool::new(3);
    assert_eq!(p.available_count(), 3);
    assert_eq!(p.acquire(), Some(2));
    assert_eq!(p.acquire(), Some(1));
    p.release(2);
    assert_eq!(p.available_count(), 2);
    assert_eq!(p.acquire(), Some(2));
    // releasing a slot that is not taken changes nothing
    p.release(0);
    assert_eq!(p.available_count(), 1);
    assert_eq!(p.acquire(), Some(0));
    assert_eq!(p.acquire(), None);
}
