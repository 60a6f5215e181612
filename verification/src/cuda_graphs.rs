use vstd::prelude::*;
use crate::types::{DataType, TensorRef};

verus! {

/// The operation of a graph node.
#[derive(Debug, Clone, Copy, PartialEq, Eq, Structural)]
pub enum NodeType {
    Matmul,
    Attention,
    Softmax,
    RmsNorm,
    Silu,
    Add,
    Mul,
    Cast,
}

/// Parameters of a graph node. `alpha` and `beta` hold IEEE-754 single-precision values by
/// their bit patterns (`f32::to_bits`).
#[derive(Debug, Clone, Copy)]
pub struct NodeParams {
    pub shape: Option<(usize, usize, usize)>,
    pub alpha: Option<u32>,
    pub beta: Option<u32>,
}

impl Default for NodeParams {
    fn default() -> (p: Self)
        ensures
            p.shape is None,
            p.alpha is None,
            p.beta is None,
    {
        NodeParams { shape: None, alpha: None, beta: None }
    }
}

/// The bit pattern of the single-precision value 1.0.
pub const F32_ONE_BITS: u32 = 0x3F80_0000u32;

/// The bit pattern of the single-precision value 0.0.
pub const F32_ZERO_BITS: u32 = 0u32;

/// One operation of a graph: what it computes, from which tensors, into which.
#[derive(Debug, Clone)]
pub struct GraphNode {
    pub node_type: NodeType,
    pub inputs: Vec<TensorRef>,
    pub output: TensorRef,
    pub params: NodeParams,
}

/// What a graph node holds, as values.
pub struct NodeView {
    pub node_type: NodeType,
    pub inputs: Seq<TensorRef>,
    pub output: TensorRef,
    pub params: NodeParams,
}

impl View for GraphNode {
    type V = NodeView;

    open spec fn view(&self) -> NodeView {
        NodeView { node_type: self.node_type, inputs: self.inputs@, output: self.output, params: self.params }
    }
}

/// A node of the given kind, inputs, output and parameters.
pub open spec fn node(t: NodeType, inputs: Seq<TensorRef>, output: TensorRef, params: NodeParams) -> NodeView {
    NodeView { node_type: t, inputs, output, params }
}

/// Parameters with no entry.
pub open spec fn no_params() -> NodeParams {
    NodeParams { shape: None, alpha: None, beta: None }
}

/// The work a node is counted as, in floating-point operations.
pub open spec fn node_flops(n: NodeView) -> int {
    match n.node_type {
        NodeType::Matmul => match n.params.shape {
            Some((m, k, p)) => 2 * m * k * p,
            None => 0,
        },
        NodeType::Attention => 4 * 4096 * 4096int,
        NodeType::RmsNorm => 4096 * 2int,
        _ => 0int,
    }
}

/// The work of the first `k` nodes.
pub open spec fn flops_upto(nodes: Seq<NodeView>, k: int) -> int
    decreases k,
{
    if k <= 0 {
        0
    } else {
        flops_upto(nodes, k - 1) + node_flops(nodes[k - 1])
    }
}

/// The count of the work of every node, and every partial product of a shape, fit in a `usize`.
pub open spec fn flops_fit(nodes: Seq<NodeView>) -> bool {
    &&& flops_upto(nodes, nodes.len() as int) <= usize::MAX
    &&& forall|i: int|
        0 <= i < nodes.len() ==> match (#[trigger] nodes[i]).params.shape {
            Some((m, k, p)) => 2 * m <= usize::MAX && 2 * m * k <= usize::MAX,
            None => true,
        }
}

proof fn lemma_flops_monotone(nodes: Seq<NodeView>, a: int, b: int)
    requires
        0 <= a <= b,
    ensures
        flops_upto(nodes, a) <= flops_upto(nodes, b),
    decreases b,
{
    if a < b {
        lemma_flops_monotone(nodes, a, b - 1);
        let n = nodes[b - 1];
        match n.params.shape {
            Some((m, k, p)) => {
                assert(2 * m * k * p >= 0) by (nonlinear_arith)
                    requires
                        m >= 0,
                        k >= 0,
                        p >= 0,
                ;
            },
            None => {},
        }
    }
}

/// A captured sequence of operations.
pub struct CudaGraph {
    pub id: usize,
    graph_nodes: Vec<GraphNode>,
}

impl CudaGraph {
    /// The graph's id.
    pub closed spec fn graph_id(&self) -> usize {
        self.id
    }

    /// The nodes, in the order they were added.
    pub closed spec fn nodes(&self) -> Seq<NodeView> {
        self.graph_nodes@.map_values(|n: GraphNode| n@)
    }

    /// An empty graph.
    pub fn new(id: usize) -> (g: Self)
        ensures
            g.graph_id() == id,
            g.nodes() == Seq::<NodeView>::empty(),
    {
        let g = CudaGraph { id, graph_nodes: Vec::new() };
        proof {
            assert(g.nodes() =~= Seq::<NodeView>::empty());
        }
        g
    }

    fn push_node(&mut self, n: GraphNode)
        ensures
            final(self).graph_id() == old(self).graph_id(),
            final(self).nodes() == old(self).nodes().push(n@),
    {
        self.graph_nodes.push(n);
        proof {
            assert(self.nodes() =~= old(self).nodes().push(n@));
        }
    }

    /// Adds `output = a × b` (scale 1, accumulate 0).
    pub fn add_matmul(&mut self, a: TensorRef, b: TensorRef, output: TensorRef)
        ensures
            final(self).graph_id() == old(self).graph_id(),
            final(self).nodes() == old(self).nodes().push(
                node(
                    NodeType::Matmul,
                    seq![a, b],
                    output,
                    NodeParams { shape: None, alpha: Some(F32_ONE_BITS), beta: Some(F32_ZERO_BITS) },
                ),
            ),
    {
        let inputs = tensors2(a, b);
        self.push_node(
            GraphNode {
                node_type: NodeType::Matmul,
                inputs,
                output,
                params: NodeParams { shape: None, alpha: Some(F32_ONE_BITS), beta: Some(F32_ZERO_BITS) },
            },
        );
    }

    /// Adds attention of `q`, `k`, `v` into `output`.
    pub fn add_attention(&mut self, q: TensorRef, k: TensorRef, v: TensorRef, output: TensorRef)
        ensures
            final(self).graph_id() == old(self).graph_id(),
            final(self).nodes() == old(self).nodes().push(
                node(NodeType::Attention, seq![q, k, v], output, no_params()),
            ),
    {
        let mut inputs = tensors2(q, k);
        inputs.push(v);
        proof {
            assert(inputs@ =~= seq![q, k, v]);
        }
        self.push_node(
            GraphNode { node_type: NodeType::Attention, inputs, output, params: NodeParams::default() },
        );
    }

    /// Adds a root-mean-square normalisation of `input` by `weight`, with `eps` (given by its
    /// bit pattern).
    pub fn add_rms_norm(&mut self, input: TensorRef, weight: TensorRef, output: TensorRef, eps: u32)
        ensures
            final(self).graph_id() == old(self).graph_id(),
            final(self).nodes() == old(self).nodes().push(
                node(
                    NodeType::RmsNorm,
                    seq![input, weight],
                    output,
                    NodeParams { shape: None, alpha: Some(eps), beta: None },
                ),
            ),
    {
        let inputs = tensors2(input, weight);
        self.push_node(
            GraphNode {
                node_type: NodeType::RmsNorm,
                inputs,
                output,
                params: NodeParams { shape: None, alpha: Some(eps), beta: None },
            },
        );
    }

    /// Adds a SiLU activation.
    pub fn add_silu(&mut self, input: TensorRef, output: TensorRef)
        ensures
            final(self).graph_id() == old(self).graph_id(),
            final(self).nodes() == old(self).nodes().push(
                node(NodeType::Silu, seq![input], output, no_params()),
            ),
    {
        let inputs = tensors1(input);
        self.push_node(
            GraphNode { node_type: NodeType::Silu, inputs, output, params: NodeParams::default() },
        );
    }

    /// Adds an element-wise sum.
    pub fn add_add(&mut self, a: TensorRef, b: TensorRef, output: TensorRef)
        ensures
            final(self).graph_id() == old(self).graph_id(),
            final(self).nodes() == old(self).nodes().push(
                node(NodeType::Add, seq![a, b], output, no_params()),
            ),
    {
        let inputs = tensors2(a, b);
        self.push_node(
            GraphNode { node_type: NodeType::Add, inputs, output, params: NodeParams::default() },
        );
    }

    /// Adds a conversion of `input` (the target encoding is not recorded).
    pub fn add_cast(&mut self, input: TensorRef, output: TensorRef, dtype: DataType)
        ensures
            final(self).graph_id() == old(self).graph_id(),
            final(self).nodes() == old(self).nodes().push(
                node(NodeType::Cast, seq![input], output, no_params()),
            ),
    {
        let inputs = tensors1(input);
        self.push_node(
            GraphNode {
                node_type: NodeType::Cast,
                inputs,
                output,
                params: NodeParams { shape: None, alpha: None, beta: None },
            },
        );
    }

    /// The number of nodes.
    pub fn num_nodes(&self) -> (r: usize)
        ensures
            r == self.nodes().len(),
    {
        self.graph_nodes.len()
    }

    /// The work of the graph: a matrix product with a known shape `(m, k, n)` counts
    /// `2·m·k·n`, an attention `4·4096·4096`, a normalisation `2·4096`, the rest nothing.
    pub fn estimate_flops(&self) -> (r: usize)
        requires
            flops_fit(self.nodes()),
        ensures
            r == flops_upto(self.nodes(), self.nodes().len() as int),
    {
        let ghost ns = self.nodes();
        let mut flops: usize = 0;
        let mut i: usize = 0;
        while i < self.graph_nodes.len()
            invariant
                i <= self.graph_nodes@.len(),
                ns == self.nodes(),
                flops_fit(ns),
                flops == flops_upto(ns, i as int),
            decreases self.graph_nodes@.len() - i,
        {
            let n = &self.graph_nodes[i];
            proof {
                assert(ns[i as int] == n@);
                lemma_flops_monotone(ns, i + 1, ns.len() as int);
            }
            match n.node_type {
                NodeType::Matmul => {
                    match n.params.shape {
                        Some((m, k, p)) => {
                            proof {
                                assert(2 * m * k <= usize::MAX);
                                assert(2 * m * k * p <= usize::MAX);
                            }
                            flops = flops + 2 * m * k * p;
                        },
                        None => {},
                    }
                },
                NodeType::Attention => {
                    flops = flops + 4 * 4096 * 4096;
                },
                NodeType::RmsNorm => {
                    flops = flops + 4096 * 2;
                },
                _ => {},
            }
            i += 1;
        }
        flops
    }
}

/// A graph by its id and nodes.
pub open spec fn graph_view(g: CudaGraph) -> (usize, Seq<NodeView>) {
    (g.graph_id(), g.nodes())
}

/// The hidden width, FFN width and head width the captured inference step is laid out for.
pub open spec fn step_dims() -> (int, int, int) {
    (4096, 11008, 128)
}

/// A half-precision tensor reference.
pub open spec fn f16_ref(offset: int, rows: int, cols: int) -> TensorRef {
    TensorRef { offset: offset as usize, shape: (rows as usize, cols as usize), dtype: DataType::F16 }
}

/// Matrix-product parameters: scale 1, accumulate 0.
pub open spec fn matmul_params() -> NodeParams {
    NodeParams { shape: None, alpha: Some(F32_ONE_BITS), beta: Some(F32_ZERO_BITS) }
}

/// The eight nodes that layer `l` of an inference step adds: the Q, K and V products, the
/// attention, the FFN input product, the activation, the output product and the residual sum.
pub open spec fn layer_nodes(l: int) -> Seq<NodeView> {
    let input = f16_ref(0, 4096, 4096);
    let q = f16_ref(l * 4096 * 128, 4096, 128);
    let k = f16_ref(l * 4096 * 128 + 1024, 1024, 128);
    let v = f16_ref(l * 4096 * 128 + 2048, 1024, 128);
    let attn = f16_ref(l * 4096, 4096, 4096);
    let ffn_in = f16_ref(l * 4096 * 2, 4096, 11008);
    let ffn_out = f16_ref(l * 4096 * 3, 4096, 11008);
    let out = f16_ref(l * 4096 * 4, 4096, 4096);
    seq![
        node(NodeType::Matmul, seq![input, q], q, matmul_params()),
        node(NodeType::Matmul, seq![input, k], k, matmul_params()),
        node(NodeType::Matmul, seq![input, v], v, matmul_params()),
        node(NodeType::Attention, seq![q, k, v], attn, no_params()),
        node(NodeType::Matmul, seq![attn, ffn_in], ffn_in, matmul_params()),
        node(NodeType::Silu, seq![ffn_in], ffn_out, no_params()),
        node(NodeType::Matmul, seq![ffn_out, out], out, matmul_params()),
        node(NodeType::Add, seq![attn, out], out, no_params()),
    ]
}

/// The nodes of an inference step over `n` layers, layer after layer.
pub open spec fn step_nodes(n: int) -> Seq<NodeView>
    decreases n,
{
    if n <= 0 {
        Seq::empty()
    } else {
        step_nodes(n - 1) + layer_nodes(n - 1)
    }
}

/// Graphs by their ids and nodes.
pub open spec fn graphs_view(gs: Seq<CudaGraph>) -> Seq<(usize, Seq<NodeView>)> {
    gs.map_values(|g: CudaGraph| graph_view(g))
}

/// Keeps the most recent captured graphs, at most `max_graphs`, numbering them in order.
pub struct GraphExecutor {
    graphs: Vec<CudaGraph>,
    max_graphs: usize,
    current_graph_id: usize,
}

impl GraphExecutor {
    /// The kept graphs, oldest first.
    pub closed spec fn kept(&self) -> Seq<(usize, Seq<NodeView>)> {
        graphs_view(self.graphs@)
    }

    /// The most graphs kept.
    pub closed spec fn limit(&self) -> usize {
        self.max_graphs
    }

    /// The id the next captured graph gets.
    pub closed spec fn next_id(&self) -> usize {
        self.current_graph_id
    }

    /// The graphs kept before a capture makes room: the oldest goes once the limit is reached.
    pub open spec fn kept_before_capture(&self) -> Seq<(usize, Seq<NodeView>)> {
        if self.kept().len() >= self.limit() {
            self.kept().drop_first()
        } else {
            self.kept()
        }
    }

    /// An executor that keeps up to `max_graphs` graphs.
    pub fn new(max_graphs: usize) -> (e: Self)
        ensures
            e.kept().len() == 0,
            e.limit() == max_graphs,
            e.next_id() == 0,
    {
        GraphExecutor { graphs: Vec::with_capacity(max_graphs), max_graphs, current_graph_id: 0 }
    }

    /// Appends `g` after dropping the oldest graph if the limit is reached; hands back `g`.
    fn install(&mut self, g: CudaGraph) -> (r: &mut CudaGraph)
        requires
            old(self).limit() > 0 || old(self).kept().len() > 0,
        ensures
            *r == g,
            final(self).kept() == old(self).kept_before_capture().push(graph_view(*final(r))),
            final(self).limit() == old(self).limit(),
            final(self).next_id() == old(self).next_id(),
    {
        if self.graphs.len() >= self.max_graphs {
            self.graphs.remove(0);
        }
        let ghost before = self.graphs@;
        self.graphs.push(g);
        let n = self.graphs.len();
        proof {
            assert(old(self).kept_before_capture() =~= graphs_view(before));
        }
        let r = &mut self.graphs[n - 1];
        proof {
            assert forall|h: CudaGraph| #[trigger] graphs_view(before.push(h)) == graphs_view(before).push(
                graph_view(h),
            ) by {
                assert(graphs_view(before.push(h)) =~= graphs_view(before).push(graph_view(h)));
            }
        }
        r
    }

    /// Starts a new, empty graph with the next id; the oldest kept graph goes once the limit is
    /// reached.
    pub fn capture_graph(&mut self) -> (r: &mut CudaGraph)
        requires
            old(self).limit() > 0 || old(self).kept().len() > 0,
            old(self).next_id() < usize::MAX,
        ensures
            r.graph_id() == old(self).next_id(),
            r.nodes() == Seq::<NodeView>::empty(),
            final(self).kept() == old(self).kept_before_capture().push(graph_view(*final(r))),
            final(self).limit() == old(self).limit(),
            final(self).next_id() == old(self).next_id() + 1,
    {
        let graph = CudaGraph::new(self.current_graph_id);
        self.current_graph_id += 1;
        self.install(graph)
    }

    /// Captures the graph of one inference step over `num_layers` layers (eight nodes per
    /// layer) as a new graph with the next id.
    pub fn capture_inference_step(&mut self, num_layers: usize) -> (r: &mut CudaGraph)
        requires
            old(self).limit() > 0 || old(self).kept().len() > 0,
            old(self).next_id() < usize::MAX,
            num_layers * (4096 * 128) <= usize::MAX,
        ensures
            r.graph_id() == old(self).next_id(),
            r.nodes() == step_nodes(num_layers as int),
            final(self).kept() == old(self).kept_before_capture().push(graph_view(*final(r))),
            final(self).limit() == old(self).limit(),
            final(self).next_id() == old(self).next_id() + 1,
    {
        let mut graph = CudaGraph::new(self.current_graph_id);
        self.current_graph_id += 1;
        let hidden_size: usize = 4096;
        let intermediate_size: usize = 11008;
        let head_dim: usize = 128;
        let mut layer_idx: usize = 0;
        while layer_idx < num_layers
            invariant
                layer_idx <= num_layers,
                num_layers * (4096 * 128) <= usize::MAX,
                hidden_size == 4096,
                intermediate_size == 11008,
                head_dim == 128,
                graph.graph_id() == old(self).next_id(),
                graph.nodes() == step_nodes(layer_idx as int),
            decreases num_layers - layer_idx,
        {
            proof {
                assert(layer_idx * (4096 * 128) + 4096 * 128 <= usize::MAX) by (nonlinear_arith)
                    requires
                        layer_idx < num_layers,
                        num_layers * (4096 * 128) <= usize::MAX,
                ;
                assert(layer_idx * 4096 * 128 == layer_idx * (4096 * 128)) by (nonlinear_arith);
                assert(layer_idx * 4096 * 4 <= layer_idx * (4096 * 128)) by (nonlinear_arith)
                    requires
                        layer_idx >= 0,
                ;
            }
            let input_ref = TensorRef { offset: 0, shape: (hidden_size, hidden_size), dtype: DataType::F16 };
            let q_ref = TensorRef {
                offset: layer_idx * hidden_size * head_dim,
                shape: (hidden_size, head_dim),
                dtype: DataType::F16,
            };
            let k_ref = TensorRef {
                offset: layer_idx * hidden_size * head_dim + 1024,
                shape: (hidden_size / 4, head_dim),
                dtype: DataType::F16,
            };
            let v_ref = TensorRef {
                offset: layer_idx * hidden_size * head_dim + 2048,
                shape: (hidden_size / 4, head_dim),
                dtype: DataType::F16,
            };
            let attn_output_ref = TensorRef {
                offset: layer_idx * hidden_size,
                shape: (hidden_size, hidden_size),
                dtype: DataType::F16,
            };
            graph.add_matmul(input_ref, q_ref, q_ref);
            graph.add_matmul(input_ref, k_ref, k_ref);
            graph.add_matmul(input_ref, v_ref, v_ref);
            graph.add_attention(q_ref, k_ref, v_ref, attn_output_ref);
            let ffn_input_ref = TensorRef {
                offset: layer_idx * hidden_size * 2,
                shape: (hidden_size, intermediate_size),
                dtype: DataType::F16,
            };
            let ffn_output_ref = TensorRef {
                offset: layer_idx * hidden_size * 3,
                shape: (hidden_size, intermediate_size),
                dtype: DataType::F16,
            };
            graph.add_matmul(attn_output_ref, ffn_input_ref, ffn_input_ref);
            graph.add_silu(ffn_input_ref, ffn_output_ref);
            let final_output_ref = TensorRef {
                offset: layer_idx * hidden_size * 4,
                shape: (hidden_size, hidden_size),
                dtype: DataType::F16,
            };
            graph.add_matmul(ffn_output_ref, final_output_ref, final_output_ref);
            graph.add_add(attn_output_ref, final_output_ref, final_output_ref);
            proof {
                let l = layer_idx as int;
                assert(layer_nodes(l) =~= seq![
                    node(NodeType::Matmul, seq![input_ref, q_ref], q_ref, matmul_params()),
                    node(NodeType::Matmul, seq![input_ref, k_ref], k_ref, matmul_params()),
                    node(NodeType::Matmul, seq![input_ref, v_ref], v_ref, matmul_params()),
                    node(NodeType::Attention, seq![q_ref, k_ref, v_ref], attn_output_ref, no_params()),
                    node(NodeType::Matmul, seq![attn_output_ref, ffn_input_ref], ffn_input_ref, matmul_params()),
                    node(NodeType::Silu, seq![ffn_input_ref], ffn_output_ref, no_params()),
                    node(NodeType::Matmul, seq![ffn_output_ref, final_output_ref], final_output_ref, matmul_params()),
                    node(NodeType::Add, seq![attn_output_ref, final_output_ref], final_output_ref, no_params()),
                ]);
                assert(graph.nodes() =~= step_nodes(l) + layer_nodes(l));
            }
            layer_idx += 1;
        }
        self.install(graph)
    }

    /// The first kept graph with id `id`.
    pub fn get_graph(&self, id: usize) -> (r: Option<&CudaGraph>)
        ensures
            match r {
                Some(g) => g.graph_id() == id && exists|i: int|
                    0 <= i < self.kept().len() && self.kept()[i] == graph_view(*g) && forall|j: int|
                        0 <= j < i ==> (#[trigger] self.kept()[j]).0 != id,
                None => forall|i: int| 0 <= i < self.kept().len() ==> (#[trigger] self.kept()[i]).0 != id,
            },
    {
        let mut i: usize = 0;
        while i < self.graphs.len()
            invariant
                i <= self.graphs@.len(),
                forall|j: int| 0 <= j < i ==> (#[trigger] self.kept()[j]).0 != id,
            decreases self.graphs@.len() - i,
        {
            proof {
                assert(self.kept()[i as int] == graph_view(self.graphs@[i as int]));
            }
            if self.graphs[i].id == id {
                return Some(&self.graphs[i]);
            }
            i += 1;
        }
        None
    }

    /// Drops every kept graph (ids keep counting on).
    pub fn clear(&mut self)
        ensures
            final(self).kept().len() == 0,
            final(self).limit() == old(self).limit(),
            final(self).next_id() == old(self).next_id(),
    {
        self.graphs.clear();
    }

    /// The kept graphs, oldest first.
    pub fn graphs(&self) -> (r: &Vec<CudaGraph>)
        ensures
            graphs_view(r@) == self.kept(),
    {
        &self.graphs
    }
}

/// Captures inference steps into graphs and runs them.
pub struct CudaGraphRunner {
    executor: GraphExecutor,
}

impl CudaGraphRunner {
    /// The graphs the runner keeps.
    pub closed spec fn executor_view(&self) -> GraphExecutor {
        self.executor
    }

    /// A runner that keeps up to 16 graphs.
    pub fn new() -> (r: Self)
        ensures
            r.executor_view().kept().len() == 0,
            r.executor_view().limit() == 16,
            r.executor_view().next_id() == 0,
    {
        CudaGraphRunner { executor: GraphExecutor::new(16) }
    }

    /// Captures the graph of an inference step over `num_layers` layers, then runs
    /// `execute_fn`.
    pub fn capture_and_execute<F>(&mut self, num_layers: usize, execute_fn: F)
        where
            F: Fn(),
        requires
            old(self).executor_view().limit() > 0 || old(self).executor_view().kept().len() > 0,
            old(self).executor_view().next_id() < usize::MAX,
            num_layers * (4096 * 128) <= usize::MAX,
            execute_fn.requires(()),
        ensures
            final(self).executor_view().kept().len() > 0,
            final(self).executor_view().kept().last().0 == old(self).executor_view().next_id(),
            final(self).executor_view().kept().last().1 == step_nodes(num_layers as int),
            final(self).executor_view().kept().drop_last() == old(self).executor_view().kept_before_capture(),
            final(self).executor_view().next_id() == old(self).executor_view().next_id() + 1,
            final(self).executor_view().limit() == old(self).executor_view().limit(),
    {
        let _graph = self.executor.capture_inference_step(num_layers);
        execute_fn();
    }

    /// The executor.
    pub fn executor(&self) -> (r: &GraphExecutor)
        ensures
            *r == self.executor_view(),
    {
        &self.executor
    }
}

impl Default for CudaGraphRunner {
    fn default() -> (r: Self)
        ensures
            r.executor_view().kept().len() == 0,
            r.executor_view().limit() == 16,
            r.executor_view().next_id() == 0,
    {
        CudaGraphRunner::new()
    }
}

fn tensors1(a: TensorRef) -> (v: Vec<TensorRef>)
    ensures
        v@ == seq![a],
{
    let mut v: Vec<TensorRef> = Vec::new();
    v.push(a);
    proof {
        assert(v@ =~= seq![a]);
    }
    v
}

fn tensors2(a: TensorRef, b: TensorRef) -> (v: Vec<TensorRef>)
    ensures
        v@ == seq![a, b],
{
    let mut v: Vec<TensorRef> = Vec::new();
    v.push(a);
    v.push(b);
    proof {
        assert(v@ =~= seq![a, b]);
    }
    v
}

/// A fixed set of graph slots, each either free or taken.
pub struct GraphPool {
    available: Vec<usize>,
    in_use: Vec<usize>,
    max_size: usize,
}

impl GraphPool {
    /// The free slots, in the order they are kept (the last is handed out next).
    pub closed spec fn free(&self) -> Seq<usize> {
        self.available@
    }

    /// The taken slots, in the order they were taken.
    pub closed spec fn taken(&self) -> Seq<usize> {
        self.in_use@
    }

    /// The number of slots.
    pub closed spec fn capacity(&self) -> usize {
        self.max_size
    }

    /// Every slot `0..capacity` is either free or taken, and none is both or listed twice.
    pub open spec fn wf(&self) -> bool {
        &&& self.free().no_duplicates()
        &&& self.taken().no_duplicates()
        &&& forall|x: usize| self.free().contains(x) ==> !self.taken().contains(x)
        &&& forall|x: usize| (self.free().contains(x) || self.taken().contains(x)) <==> x < self.capacity()
    }

    /// A pool of `max_size` free slots, `0..max_size`.
    pub fn new(max_size: usize) -> (p: Self)
        ensures
            p.wf(),
            p.capacity() == max_size,
            p.free() == Seq::new(max_size as nat, |i: int| i as usize),
            p.taken().len() == 0,
    {
        let mut available: Vec<usize> = Vec::new();
        let mut i: usize = 0;
        while i < max_size
            invariant
                i <= max_size,
                available@ == Seq::new(i as nat, |k: int| k as usize),
            decreases max_size - i,
        {
            available.push(i);
            proof {
                assert(available@ =~= Seq::new((i + 1) as nat, |k: int| k as usize));
            }
            i += 1;
        }
        let p = GraphPool { available, in_use: Vec::new(), max_size };
        proof {
            assert forall|x: usize| (p.free().contains(x) || p.taken().contains(x)) <==> x < p.capacity() by {
                if x < max_size {
                    assert(p.free()[x as int] == x);
                }
            }
        }
        p
    }

    /// Takes the last free slot, if any.
    pub fn acquire(&mut self) -> (r: Option<usize>)
        requires
            old(self).wf(),
        ensures
            final(self).wf(),
            final(self).capacity() == old(self).capacity(),
            match r {
                Some(id) => old(self).free().len() > 0 && id == old(self).free().last()
                    && final(self).free() == old(self).free().drop_last()
                    && final(self).taken() == old(self).taken().push(id),
                None => old(self).free().len() == 0 && final(self).free() == old(self).free()
                    && final(self).taken() == old(self).taken(),
            },
    {
        match self.available.pop() {
            Some(id) => {
                self.in_use.push(id);
                proof {
                    let f0 = old(self).free();
                    let t0 = old(self).taken();
                    assert(f0 =~= self.available@.push(id));
                    assert(f0.contains(id));
                    assert(!t0.contains(id));
                    assert forall|x: usize| self.available@.contains(x) implies x != id && f0.contains(x) by {
                        let k = choose|k: int| 0 <= k < self.available@.len() && self.available@[k] == x;
                        assert(f0[k] == x);
                        assert(f0[f0.len() - 1] == id);
                    }
                    assert forall|x: usize| self.in_use@.contains(x) <==> (t0.contains(x) || x == id) by {
                        if self.in_use@.contains(x) {
                            let k = choose|k: int| 0 <= k < self.in_use@.len() && self.in_use@[k] == x;
                            if k < t0.len() {
                                assert(t0[k] == x);
                            }
                        }
                        if t0.contains(x) {
                            let k = choose|k: int| 0 <= k < t0.len() && t0[k] == x;
                            assert(self.in_use@[k] == x);
                        }
                        if x == id {
                            assert(self.in_use@[t0.len() as int] == id);
                        }
                    }
                    assert forall|x: usize| f0.contains(x) implies (self.available@.contains(x) || x == id) by {
                        let k = choose|k: int| 0 <= k < f0.len() && f0[k] == x;
                        if k < f0.len() - 1 {
                            assert(self.available@[k] == x);
                        }
                    }
                    assert forall|a: int, b: int| 0 <= a < b < self.available@.len() implies self.available@[a]
                        != self.available@[b] by {
                        assert(self.available@[a] == f0[a]);
                        assert(self.available@[b] == f0[b]);
                    }
                    assert forall|a: int, b: int| 0 <= a < b < self.in_use@.len() implies self.in_use@[a]
                        != self.in_use@[b] by {
                        if b == t0.len() {
                            assert(self.in_use@[a] == t0[a]);
                            assert(t0.contains(t0[a]));
                        } else {
                            assert(self.in_use@[a] == t0[a]);
                            assert(self.in_use@[b] == t0[b]);
                        }
                    }
                    assert forall|x: usize| self.available@.contains(x) implies !self.in_use@.contains(x) by {
                        assert(f0.contains(x));
                    }
                    assert forall|x: usize| (self.available@.contains(x) || self.in_use@.contains(x)) <==> x
                        < self.max_size by {
                        assert((f0.contains(x) || t0.contains(x)) <==> x < old(self).capacity());
                        assert((f0.contains(id) || t0.contains(id)) <==> id < old(self).capacity());
                        if f0.contains(x) {
                            assert(self.available@.contains(x) || x == id);
                        }
                        if self.available@.contains(x) {
                            assert(f0.contains(x));
                        }
                    }
                }
                Some(id)
            },
            None => None,
        }
    }

    /// Gives a taken slot back: it leaves the taken slots and becomes the last free one; a
    /// slot that is not taken changes nothing.
    pub fn release(&mut self, id: usize)
        requires
            old(self).wf(),
        ensures
            final(self).wf(),
            final(self).capacity() == old(self).capacity(),
            old(self).taken().contains(id) ==> final(self).free() == old(self).free().push(id)
                && final(self).taken() == old(self).taken().remove(old(self).taken().index_of(id)),
            !old(self).taken().contains(id) ==> final(self).free() == old(self).free()
                && final(self).taken() == old(self).taken(),
    {
        let mut pos: usize = 0;
        while pos < self.in_use.len() && self.in_use[pos] != id
            invariant
                pos <= self.in_use@.len(),
                forall|k: int| 0 <= k < pos ==> self.in_use@[k] != id,
            decreases self.in_use@.len() - pos,
        {
            pos += 1;
        }
        if pos < self.in_use.len() {
            proof {
                let t0 = old(self).taken();
                assert(t0[pos as int] == id);
                assert(t0.contains(id));
                let j = t0.index_of(id);
                assert(t0[j] == id);
                assert(j == pos);
            }
            self.in_use.remove(pos);
            self.available.push(id);
            proof {
                let f0 = old(self).free();
                let t0 = old(self).taken();
                let p = pos as int;
                assert(!f0.contains(id));
                assert forall|x: usize| self.in_use@.contains(x) <==> (t0.contains(x) && x != id) by {
                    if self.in_use@.contains(x) {
                        let k = choose|k: int| 0 <= k < self.in_use@.len() && self.in_use@[k] == x;
                        if k < p {
                            assert(t0[k] == x);
                            assert(k != p);
                        } else {
                            assert(t0[k + 1] == x);
                            assert(k + 1 != p);
                        }
                    }
                    if t0.contains(x) && x != id {
                        let k = choose|k: int| 0 <= k < t0.len() && t0[k] == x;
                        if k < p {
                            assert(self.in_use@[k] == x);
                        } else {
                            assert(k != p);
                            assert(self.in_use@[k - 1] == x);
                        }
                    }
                }
                assert forall|a: int, b: int| 0 <= a < b < self.in_use@.len() implies self.in_use@[a] != self.in_use@[b] by {
                    let a1 = if a < p { a } else { a + 1 };
                    let b1 = if b < p { b } else { b + 1 };
                    assert(self.in_use@[a] == t0[a1]);
                    assert(self.in_use@[b] == t0[b1]);
                }
                assert forall|x: usize| self.available@.contains(x) <==> (f0.contains(x) || x == id) by {
                    if self.available@.contains(x) {
                        let k = choose|k: int| 0 <= k < self.available@.len() && self.available@[k] == x;
                        if k < f0.len() {
                            assert(f0[k] == x);
                        }
                    }
                    if f0.contains(x) {
                        let k = choose|k: int| 0 <= k < f0.len() && f0[k] == x;
                        assert(self.available@[k] == x);
                    }
                    if x == id {
                        assert(self.available@[f0.len() as int] == id);
                    }
                }
                assert forall|a: int, b: int| 0 <= a < b < self.available@.len() implies self.available@[a]
                    != self.available@[b] by {
                    if b == f0.len() {
                        assert(self.available@[a] == f0[a]);
                        assert(f0.contains(f0[a]));
                    } else {
                        assert(self.available@[a] == f0[a]);
                        assert(self.available@[b] == f0[b]);
                    }
                }
                assert forall|x: usize| self.available@.contains(x) implies !self.in_use@.contains(x) by {
                    if f0.contains(x) {
                        assert(!t0.contains(x));
                    }
                }
                assert forall|x: usize| (self.available@.contains(x) || self.in_use@.contains(x)) <==> x
                    < self.max_size by {
                    assert((f0.contains(x) || t0.contains(x)) <==> x < old(self).capacity());
                    assert((f0.contains(id) || t0.contains(id)) <==> id < old(self).capacity());
                    if self.in_use@.contains(x) {
                        assert(t0.contains(x));
                    }
                }
            }
        } else {
            proof {
                assert forall|k: int| 0 <= k < old(self).in_use@.len() implies old(self).in_use@[k] != id by {}
            }
        }
    }

    /// The number of free slots.
    pub fn available_count(&self) -> (r: usize)
        ensures
            r == self.free().len(),
    {
        self.available.len()
    }
}

} // verus!
