//! The graph itself: nodes indexed by slot id, edges indexed by edge id, both
//! append-only, together with its mathematical view and the well-formedness
//! invariant that every construction step preserves.

use vstd::prelude::*;

use crate::ir::{AggKind, Span};

verus! {

/// What a node stands for: an untouched slot, a constant snapshot, or the
/// kind of right-hand side (or call) that last wrote it.
#[derive(Clone, Debug, PartialEq, Eq)]
pub enum NodeOp {
    /// An original slot with no recorded definition: a parameter, or a slot
    /// not written yet.
    Nop,
    Error,
    /// A literal snapshot, holding the literal's textual form.
    Const(String),
    Use,
    Repeat,
    Ref,
    ThreadLocalRef,
    AddressOf,
    Len,
    Cast,
    BinaryOp,
    CheckedBinaryOp,
    NullaryOp,
    UnaryOp,
    Discriminant,
    Aggregate(AggKind),
    ShallowInitBox,
    CopyForDeref,
    /// A direct call, carrying the resolved callee identifier.
    Call(u64),
    /// An indirect call: the first incoming edge carries the callee value.
    CallOperand,
}

/// The nature of the relationship an edge records.
#[derive(Clone, Debug, PartialEq, Eq)]
pub enum EdgeOp {
    Nop,
    Move,
    Copy,
    Const,
    /// An immutable borrow.
    Immut,
    /// A mutable borrow.
    Mut,
    Deref,
    /// Carries the accessed field's identifier.
    Field(String),
    /// Carries the name of the variant downcast to.
    Downcast(String),
    Index,
    ConstIndex,
    SubSlice,
}

pub type EdgeIdx = usize;

pub type GraphNodes = Vec<GraphNode>;

pub type GraphEdges = Vec<GraphEdge>;

/// A directed edge from `src` to `dst`, stamped with the destination's batch
/// number at creation time.
#[derive(Clone, Debug, PartialEq, Eq)]
pub struct GraphEdge {
    pub src: usize,
    pub dst: usize,
    pub op: EdgeOp,
    pub seq: usize,
}

/// A node, with the ids of the edges it is destination and source of.
#[derive(Clone, Debug, PartialEq, Eq)]
pub struct GraphNode {
    pub op: NodeOp,
    pub span: Span,
    /// The batch number: how many statements or terminators have written this
    /// node so far. Edges with equal `seq` into one node form one batch.
    pub seq: usize,
    pub out_edges: Vec<EdgeIdx>,
    pub in_edges: Vec<EdgeIdx>,
}

/// The dependency graph of one procedure.
#[derive(Clone, Debug, PartialEq, Eq)]
pub struct Graph {
    pub def_id: u64,
    pub span: Span,
    /// The number of parameter slots; parameters are slots `1 ..= argc` and
    /// slot `0` is the return value.
    pub argc: usize,
    pub nodes: GraphNodes,
    pub edges: GraphEdges,
    /// The procedure's declared slot count; `nodes` starts with these slots
    /// and grows by synthetic and constant nodes.
    pub n_locals: usize,
}

/// The mathematical view of an edge.
#[verifier::ext_equal]
pub struct EdgeV {
    pub src: int,
    pub dst: int,
    pub op: EdgeOp,
    pub seq: nat,
}

/// The mathematical view of a node.
#[verifier::ext_equal]
pub struct NodeV {
    pub op: NodeOp,
    pub span: Span,
    pub seq: nat,
    pub out_edges: Seq<int>,
    pub in_edges: Seq<int>,
}

/// The mathematical view of a graph.
#[verifier::ext_equal]
pub struct GraphV {
    pub def_id: u64,
    pub span: Span,
    pub argc: nat,
    pub n_locals: nat,
    pub nodes: Seq<NodeV>,
    pub edges: Seq<EdgeV>,
}

pub open spec fn idxs_view(s: Seq<usize>) -> Seq<int> {
    Seq::new(s.len(), |i: int| s[i] as int)
}

impl View for GraphEdge {
    type V = EdgeV;

    open spec fn view(&self) -> EdgeV {
        EdgeV { src: self.src as int, dst: self.dst as int, op: self.op, seq: self.seq as nat }
    }
}

impl View for GraphNode {
    type V = NodeV;

    open spec fn view(&self) -> NodeV {
        NodeV {
            op: self.op,
            span: self.span,
            seq: self.seq as nat,
            out_edges: idxs_view(self.out_edges@),
            in_edges: idxs_view(self.in_edges@),
        }
    }
}

pub open spec fn nodes_view(s: Seq<GraphNode>) -> Seq<NodeV> {
    Seq::new(s.len(), |i: int| s[i]@)
}

pub open spec fn edges_view(s: Seq<GraphEdge>) -> Seq<EdgeV> {
    Seq::new(s.len(), |i: int| s[i]@)
}

impl View for Graph {
    type V = GraphV;

    open spec fn view(&self) -> GraphV {
        GraphV {
            def_id: self.def_id,
            span: self.span,
            argc: self.argc as nat,
            n_locals: self.n_locals as nat,
            nodes: nodes_view(self.nodes@),
            edges: edges_view(self.edges@),
        }
    }
}

impl GraphV {
    /// Both endpoints of edge `e` are valid node indices, and the edge's
    /// stamp never runs ahead of its destination's batch number.
    pub open spec fn edge_ok(self, e: int) -> bool {
        &&& 0 <= self.edges[e].src < self.nodes.len()
        &&& 0 <= self.edges[e].dst < self.nodes.len()
        &&& self.edges[e].seq <= self.nodes[self.edges[e].dst].seq
    }

    pub open spec fn edges_ok(self) -> bool {
        forall|e: int| 0 <= e < self.edges.len() ==> #[trigger] self.edge_ok(e)
    }

    /// Every id in node `n`'s incoming list is an edge with destination `n`.
    pub open spec fn in_list_ok(self, n: int) -> bool {
        forall|k: int|
            0 <= k < self.nodes[n].in_edges.len() ==> {
                let e = #[trigger] self.nodes[n].in_edges[k];
                &&& 0 <= e < self.edges.len()
                &&& self.edges[e].dst == n
            }
    }

    /// Every id in node `n`'s outgoing list is an edge with source `n`.
    pub open spec fn out_list_ok(self, n: int) -> bool {
        forall|k: int|
            0 <= k < self.nodes[n].out_edges.len() ==> {
                let e = #[trigger] self.nodes[n].out_edges[k];
                &&& 0 <= e < self.edges.len()
                &&& self.edges[e].src == n
            }
    }

    pub open spec fn lists_sound(self) -> bool {
        &&& forall|n: int| 0 <= n < self.nodes.len() ==> #[trigger] self.in_list_ok(n)
        &&& forall|n: int| 0 <= n < self.nodes.len() ==> #[trigger] self.out_list_ok(n)
    }

    /// Every edge is listed by its destination's incoming list and its
    /// source's outgoing list: together with `lists_sound` the lists hold
    /// exactly the edges touching the node.
    pub open spec fn lists_complete(self) -> bool {
        &&& forall|e: int|
            0 <= e < self.edges.len()
                ==> #[trigger] self.nodes[self.edges[e].dst].in_edges.contains(e)
        &&& forall|e: int|
            0 <= e < self.edges.len()
                ==> #[trigger] self.nodes[self.edges[e].src].out_edges.contains(e)
    }

    /// The construction invariant: slot 0 and the parameter slots exist, and
    /// the edge lists index the edge store exactly.
    pub open spec fn wf(self) -> bool {
        &&& self.argc + 1 <= self.n_locals
        &&& self.n_locals <= self.nodes.len()
        &&& self.edges_ok()
        &&& self.lists_sound()
        &&& self.lists_complete()
    }
}

/// The view of a freshly created node.
pub open spec fn spec_node_new() -> NodeV {
    NodeV {
        op: NodeOp::Nop,
        span: Span::dummy_spec(),
        seq: 0,
        out_edges: Seq::empty(),
        in_edges: Seq::empty(),
    }
}

/// The view of a freshly created graph: one untouched node per declared
/// slot, no edges.
pub open spec fn spec_graph_new(def_id: u64, span: Span, argc: nat, n_locals: nat) -> GraphV {
    GraphV {
        def_id,
        span,
        argc,
        n_locals,
        nodes: Seq::new(n_locals, |i: int| spec_node_new()),
        edges: Seq::empty(),
    }
}

/// Appending a fresh node with tag `op` and no edges.
pub open spec fn spec_push_node(g: GraphV, op: NodeOp) -> GraphV {
    GraphV { nodes: g.nodes.push(NodeV { op, ..spec_node_new() }), ..g }
}

/// Appending an edge from `src` to `dst`: the edge is stamped with `dst`'s
/// current batch number and its id is listed by both endpoints.
pub open spec fn spec_add_node_edge(g: GraphV, src: int, dst: int, op: EdgeOp) -> GraphV {
    let eidx = g.edges.len() as int;
    let edge = EdgeV { src, dst, op, seq: g.nodes[dst].seq };
    let nodes1 = g.nodes.update(
        dst,
        NodeV { in_edges: g.nodes[dst].in_edges.push(eidx), ..g.nodes[dst] },
    );
    let nodes2 = nodes1.update(
        src,
        NodeV { out_edges: nodes1[src].out_edges.push(eidx), ..nodes1[src] },
    );
    GraphV { nodes: nodes2, edges: g.edges.push(edge), ..g }
}

/// Appending a constant snapshot: a fresh node holding the literal's textual
/// form, and an edge from it into `dst`.
pub open spec fn spec_add_const_edge(g: GraphV, src: String, dst: int, op: EdgeOp) -> GraphV {
    spec_add_node_edge(spec_push_node(g, NodeOp::Const(src)), g.nodes.len() as int, dst, op)
}

/// Law: in a well-formed graph — and every construction step keeps the
/// graph well-formed — each edge's source and destination are valid node
/// indices.
pub proof fn lemma_edges_valid(g: GraphV, e: int)
    requires
        g.wf(),
        0 <= e < g.edges.len(),
    ensures
        0 <= g.edges[e].src < g.nodes.len(),
        0 <= g.edges[e].dst < g.nodes.len(),
{
    assert(g.edge_ok(e));
}

pub proof fn lemma_contains_push<A>(s: Seq<A>, x: A, y: A)
    ensures
        s.push(x).contains(x),
        s.contains(y) ==> s.push(x).contains(y),
{
    assert(s.push(x)[s.len() as int] == x);
    if s.contains(y) {
        let i = choose|i: int| 0 <= i < s.len() && s[i] == y;
        assert(s.push(x)[i] == y);
    }
}

/// Appending an edge preserves the invariant, leaves every node's tag, stamp
/// and position unchanged, and leaves the old edges in place.
pub proof fn lemma_add_node_edge_wf(g: GraphV, src: int, dst: int, op: EdgeOp)
    requires
        g.wf(),
        0 <= src < g.nodes.len(),
        0 <= dst < g.nodes.len(),
    ensures
        ({
            let g2 = spec_add_node_edge(g, src, dst, op);
            &&& g2.wf()
            &&& g2.nodes.len() == g.nodes.len()
            &&& g2.edges.len() == g.edges.len() + 1
            &&& g2.edges[g.edges.len() as int] == (EdgeV {
                src,
                dst,
                op,
                seq: g.nodes[dst].seq,
            })
            &&& forall|e: int| 0 <= e < g.edges.len() ==> g2.edges[e] == g.edges[e]
            &&& forall|n: int|
                0 <= n < g.nodes.len()
                    ==> (#[trigger] g2.nodes[n]).op == g.nodes[n].op && g2.nodes[n].span
                        == g.nodes[n].span && g2.nodes[n].seq == g.nodes[n].seq
            &&& g2.def_id == g.def_id
            &&& g2.span == g.span
            &&& g2.argc == g.argc
            &&& g2.n_locals == g.n_locals
        }),
{
    let g2 = spec_add_node_edge(g, src, dst, op);
    let eidx = g.edges.len() as int;

    assert forall|e: int| 0 <= e < g2.edges.len() implies #[trigger] g2.edge_ok(e) by {
        if e < g.edges.len() {
            assert(g.edge_ok(e));
        }
    }
    assert forall|n: int| 0 <= n < g2.nodes.len() implies #[trigger] g2.in_list_ok(n) by {
        assert(g.in_list_ok(n));
        assert forall|k: int| 0 <= k < g2.nodes[n].in_edges.len() implies {
            let e = #[trigger] g2.nodes[n].in_edges[k];
            0 <= e < g2.edges.len() && g2.edges[e].dst == n
        } by {
            if n == dst && k == g.nodes[dst].in_edges.len() {
                assert(g2.nodes[n].in_edges[k] == eidx);
            } else {
                assert(g2.nodes[n].in_edges[k] == g.nodes[n].in_edges[k]);
            }
        }
    }
    assert forall|n: int| 0 <= n < g2.nodes.len() implies #[trigger] g2.out_list_ok(n) by {
        assert(g.out_list_ok(n));
        assert forall|k: int| 0 <= k < g2.nodes[n].out_edges.len() implies {
            let e = #[trigger] g2.nodes[n].out_edges[k];
            0 <= e < g2.edges.len() && g2.edges[e].src == n
        } by {
            if n == src && k == g.nodes[src].out_edges.len() {
                assert(g2.nodes[n].out_edges[k] == eidx);
            } else {
                assert(g2.nodes[n].out_edges[k] == g.nodes[n].out_edges[k]);
            }
        }
    }
    assert forall|e: int|
        0 <= e < g2.edges.len() implies #[trigger] g2.nodes[g2.edges[e].dst].in_edges.contains(
        e,
    ) by {
        if e < g.edges.len() {
            assert(g.edge_ok(e));
            assert(g.nodes[g.edges[e].dst].in_edges.contains(e));
            let d = g.edges[e].dst;
            lemma_contains_push(g.nodes[dst].in_edges, eidx, e);
            if d != dst {
                assert(g2.nodes[d].in_edges == g.nodes[d].in_edges);
            }
        } else {
            lemma_contains_push(g.nodes[dst].in_edges, eidx, eidx);
        }
    }
    assert forall|e: int|
        0 <= e < g2.edges.len() implies #[trigger] g2.nodes[g2.edges[e].src].out_edges.contains(
        e,
    ) by {
        if e < g.edges.len() {
            assert(g.edge_ok(e));
            assert(g.nodes[g.edges[e].src].out_edges.contains(e));
            let s = g.edges[e].src;
            lemma_contains_push(g.nodes[src].out_edges, eidx, e);
            if s != src {
                assert(g2.nodes[s].out_edges == g.nodes[s].out_edges);
            }
        } else {
            lemma_contains_push(g.nodes[src].out_edges, eidx, eidx);
        }
    }
}

/// Appending a fresh node preserves the invariant; existing nodes and edges
/// are untouched.
pub proof fn lemma_push_node_wf(g: GraphV, op: NodeOp)
    requires
        g.wf(),
    ensures
        ({
            let g2 = spec_push_node(g, op);
            &&& g2.wf()
            &&& g2.nodes.len() == g.nodes.len() + 1
            &&& g2.edges == g.edges
            &&& forall|n: int| 0 <= n < g.nodes.len() ==> g2.nodes[n] == g.nodes[n]
            &&& g2.nodes[g.nodes.len() as int] == (NodeV { op, ..spec_node_new() })
        }),
{
    let g2 = spec_push_node(g, op);
    assert forall|e: int| 0 <= e < g2.edges.len() implies #[trigger] g2.edge_ok(e) by {
        assert(g.edge_ok(e));
    }
    assert forall|n: int| 0 <= n < g2.nodes.len() implies #[trigger] g2.in_list_ok(n) by {
        if n < g.nodes.len() {
            assert(g.in_list_ok(n));
        }
    }
    assert forall|n: int| 0 <= n < g2.nodes.len() implies #[trigger] g2.out_list_ok(n) by {
        if n < g.nodes.len() {
            assert(g.out_list_ok(n));
        }
    }
    assert forall|e: int|
        0 <= e < g2.edges.len() implies #[trigger] g2.nodes[g2.edges[e].dst].in_edges.contains(
        e,
    ) by {
        assert(g.edge_ok(e));
        assert(g.nodes[g.edges[e].dst].in_edges.contains(e));
    }
    assert forall|e: int|
        0 <= e < g2.edges.len() implies #[trigger] g2.nodes[g2.edges[e].src].out_edges.contains(
        e,
    ) by {
        assert(g.edge_ok(e));
        assert(g.nodes[g.edges[e].src].out_edges.contains(e));
    }
}

/// Appending a constant node and its edge preserves the invariant; the new
/// node starts at batch number zero.
pub proof fn lemma_add_const_edge_wf(g: GraphV, src: String, dst: int, op: EdgeOp)
    requires
        g.wf(),
        0 <= dst < g.nodes.len(),
    ensures
        ({
            let g2 = spec_add_const_edge(g, src, dst, op);
            &&& g2.wf()
            &&& g2.nodes.len() == g.nodes.len() + 1
            &&& g2.edges.len() == g.edges.len() + 1
            &&& g2.nodes[g.nodes.len() as int].seq == 0
            &&& g2.nodes[g.nodes.len() as int].op == NodeOp::Const(src)
            &&& g2.edges[g.edges.len() as int] == (EdgeV {
                src: g.nodes.len() as int,
                dst,
                op,
                seq: g.nodes[dst].seq,
            })
            &&& forall|e: int| 0 <= e < g.edges.len() ==> g2.edges[e] == g.edges[e]
            &&& forall|n: int|
                0 <= n < g.nodes.len()
                    ==> (#[trigger] g2.nodes[n]).op == g.nodes[n].op && g2.nodes[n].span
                        == g.nodes[n].span && g2.nodes[n].seq == g.nodes[n].seq
            &&& g2.def_id == g.def_id
            &&& g2.span == g.span
            &&& g2.argc == g.argc
            &&& g2.n_locals == g.n_locals
        }),
{
    let g1 = spec_push_node(g, NodeOp::Const(src));
    lemma_push_node_wf(g, NodeOp::Const(src));
    lemma_add_node_edge_wf(g1, g.nodes.len() as int, dst, op);
}

impl GraphNode {
    /// A fresh node: no definition recorded, placeholder position, batch
    /// number zero, no edges.
    pub fn new() -> (n: GraphNode)
        ensures
            n@ == spec_node_new(),
    {
        let n = GraphNode {
            op: NodeOp::Nop,
            span: Span::dummy(),
            seq: 0,
            out_edges: Vec::new(),
            in_edges: Vec::new(),
        };
        proof {
            assert(n@ =~~= spec_node_new());
        }
        n
    }
}

impl Graph {
    /// A fresh graph for a procedure with `argc` parameters and `n_locals`
    /// declared slots: one untouched node per slot, no edges.
    pub fn new(def_id: u64, span: Span, argc: usize, n_locals: usize) -> (g: Graph)
        requires
            argc < n_locals,
        ensures
            g@ == spec_graph_new(def_id, span, argc as nat, n_locals as nat),
            g@.wf(),
    {
        let mut nodes: Vec<GraphNode> = Vec::new();
        let mut i: usize = 0;
        while i < n_locals
            invariant
                i <= n_locals,
                nodes@.len() == i,
                forall|j: int| 0 <= j < i ==> (#[trigger] nodes@[j])@ == spec_node_new(),
            decreases n_locals - i,
        {
            nodes.push(GraphNode::new());
            i = i + 1;
        }
        let g = Graph { def_id, span, argc, nodes, edges: Vec::new(), n_locals };
        proof {
            assert(g@ =~~= spec_graph_new(def_id, span, argc as nat, n_locals as nat));
        }
        g
    }

    /// Appends an edge from `src` to `dst`, returning its id.
    pub fn add_node_edge(&mut self, src: usize, dst: usize, op: EdgeOp) -> (idx: EdgeIdx)
        requires
            old(self)@.wf(),
            src < old(self).nodes.len(),
            dst < old(self).nodes.len(),
        ensures
            final(self)@ == spec_add_node_edge(old(self)@, src as int, dst as int, op),
            final(self)@.wf(),
            idx == old(self)@.edges.len(),
    {
        let ghost g0 = self@;
        let ghost opg = op;
        let seq = self.nodes[dst].seq;
        let edge_idx = self.edges.len();
        self.edges.push(GraphEdge { src, dst, op, seq });
        self.nodes[dst].in_edges.push(edge_idx);
        self.nodes[src].out_edges.push(edge_idx);
        proof {
            assert(self@ =~~= spec_add_node_edge(g0, src as int, dst as int, opg));
            lemma_add_node_edge_wf(g0, src as int, dst as int, opg);
        }
        edge_idx
    }

    /// Appends a constant snapshot node holding `src`'s textual form, and an
    /// edge from it into `dst`; returns the edge's id.
    pub fn add_const_edge(&mut self, src: String, dst: usize, op: EdgeOp) -> (idx: EdgeIdx)
        requires
            old(self)@.wf(),
            dst < old(self).nodes.len(),
        ensures
            final(self)@ == spec_add_const_edge(old(self)@, src, dst as int, op),
            final(self)@.wf(),
            idx == old(self)@.edges.len(),
    {
        let ghost g0 = self@;
        let ghost srcg = src;
        let mut const_node = GraphNode::new();
        const_node.op = NodeOp::Const(src);
        let src_idx = self.nodes.len();
        self.nodes.push(const_node);
        proof {
            assert(self@ =~~= spec_push_node(g0, NodeOp::Const(srcg)));
            lemma_push_node_wf(g0, NodeOp::Const(srcg));
        }
        let idx = self.add_node_edge(src_idx, dst, op);
        idx
    }
}

} // verus!
