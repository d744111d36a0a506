//! Translating statements and terminators into graph mutations. Every
//! exec function's result is pinned to a spec-level model of the same
//! translation, so the built graph is a mathematical function of the
//! instruction stream.

use vstd::prelude::*;

use crate::ir::{
    BorrowKind, BuildError, Operand, Place, PlaceElem, Rvalue, Statement, TermKind, Terminator,
    operand_wf, operands_wf, place_elem_wf, place_wf, rvalue_supported, statement_wf,
    terminator_wf, CallFunc,
};
use crate::graph::{
    spec_add_const_edge, spec_add_node_edge, spec_push_node, lemma_add_const_edge_wf,
    lemma_add_node_edge_wf, lemma_push_node_wf, EdgeOp, Graph, GraphNode, GraphV, NodeOp, NodeV,
};

verus! {

/// One construction phase between two batch increments: nodes and edges are
/// only appended, existing stamps are untouched, fresh nodes start at stamp
/// zero, and every fresh edge carries its destination's current stamp.
pub open spec fn grown_from(g2: GraphV, g: GraphV) -> bool {
    &&& g2.nodes.len() >= g.nodes.len()
    &&& g2.edges.len() >= g.edges.len()
    &&& forall|n: int| 0 <= n < g.nodes.len() ==> (#[trigger] g2.nodes[n]).seq == g.nodes[n].seq
    &&& forall|n: int|
        g.nodes.len() <= n < g2.nodes.len() ==> (#[trigger] g2.nodes[n]).seq == 0
    &&& forall|e: int| 0 <= e < g.edges.len() ==> g2.edges[e] == g.edges[e]
    &&& forall|e: int|
        g.edges.len() <= e < g2.edges.len() ==> (#[trigger] g2.edges[e]).seq
            == g2.nodes[g2.edges[e].dst].seq
    &&& g2.def_id == g.def_id
    &&& g2.span == g.span
    &&& g2.argc == g.argc
    &&& g2.n_locals == g.n_locals
}

pub proof fn lemma_grown_trans(g0: GraphV, g1: GraphV, g2: GraphV)
    requires
        g0.wf(),
        g1.wf(),
        grown_from(g1, g0),
        grown_from(g2, g1),
    ensures
        grown_from(g2, g0),
{
    assert forall|e: int|
        g0.edges.len() <= e < g2.edges.len() implies (#[trigger] g2.edges[e]).seq
        == g2.nodes[g2.edges[e].dst].seq by {
        if e < g1.edges.len() {
            assert(g1.edge_ok(e));
            assert(g2.edges[e] == g1.edges[e]);
            assert(g1.edges[e].seq == g1.nodes[g1.edges[e].dst].seq);
        }
    }
}

/// Resolving one projection step out of `src`: a fresh synthetic node, and
/// one edge (two for indexing by value) into it.
pub open spec fn spec_parse_one_step(g: GraphV, src: int, elem: PlaceElem) -> GraphV {
    let dst = g.nodes.len() as int;
    let g1 = spec_push_node(g, NodeOp::Nop);
    match elem {
        PlaceElem::Deref => spec_add_node_edge(g1, src, dst, EdgeOp::Deref),
        PlaceElem::Field(s) => spec_add_node_edge(g1, src, dst, EdgeOp::Field(s)),
        PlaceElem::Downcast(s) => spec_add_node_edge(g1, src, dst, EdgeOp::Downcast(s)),
        PlaceElem::Index(i) => spec_add_node_edge(
            spec_add_node_edge(g1, src, dst, EdgeOp::Index),
            i as int,
            dst,
            EdgeOp::Index,
        ),
        PlaceElem::ConstantIndex => spec_add_node_edge(g1, src, dst, EdgeOp::ConstIndex),
        PlaceElem::Subslice => spec_add_node_edge(g1, src, dst, EdgeOp::SubSlice),
    }
}

/// Resolving a whole projection list, step by step; yields the grown graph
/// and the finally resolved slot.
pub open spec fn spec_parse_place_rec(g: GraphV, base: int, proj: Seq<PlaceElem>) -> (GraphV, int)
    decreases proj.len(),
{
    if proj.len() == 0 {
        (g, base)
    } else {
        let dst = g.nodes.len() as int;
        spec_parse_place_rec(spec_parse_one_step(g, base, proj[0]), dst, proj.drop_first())
    }
}

/// Resolving a memory-location expression to a slot.
pub open spec fn spec_parse_place(g: GraphV, p: Place) -> (GraphV, int) {
    spec_parse_place_rec(g, p.local as int, p.projection@)
}

/// Resolving one operand into `dst`: a copied or moved location becomes one
/// edge out of its resolved slot; a constant becomes a snapshot node.
pub open spec fn spec_add_operand(g: GraphV, operand: Operand, dst: int) -> GraphV {
    match operand {
        Operand::Copy(p) => {
            let pp = spec_parse_place(g, p);
            spec_add_node_edge(pp.0, pp.1, dst, EdgeOp::Copy)
        },
        Operand::Move(p) => {
            let pp = spec_parse_place(g, p);
            spec_add_node_edge(pp.0, pp.1, dst, EdgeOp::Move)
        },
        Operand::Constant(s) => spec_add_const_edge(g, s, dst, EdgeOp::Const),
    }
}

/// Resolving a list of operands in order into the same destination.
pub open spec fn spec_add_operands(g: GraphV, ops: Seq<Operand>, dst: int) -> GraphV
    decreases ops.len(),
{
    if ops.len() == 0 {
        g
    } else {
        spec_add_operands(spec_add_operand(g, ops[0], dst), ops.drop_first(), dst)
    }
}

/// Stamping a node with a source position.
pub open spec fn spec_set_span(g: GraphV, n: int, sp: crate::ir::Span) -> GraphV {
    GraphV { nodes: g.nodes.update(n, NodeV { span: sp, ..g.nodes[n] }), ..g }
}

/// Recording what kind of right-hand side last wrote a node.
pub open spec fn spec_set_op(g: GraphV, n: int, op: NodeOp) -> GraphV {
    GraphV { nodes: g.nodes.update(n, NodeV { op, ..g.nodes[n] }), ..g }
}

/// Closing a batch: the node's stamp moves up by one.
pub open spec fn spec_inc_seq(g: GraphV, n: int) -> GraphV {
    GraphV { nodes: g.nodes.update(n, NodeV { seq: (g.nodes[n].seq + 1) as nat, ..g.nodes[n] }), ..g }
}

/// Replacing one node with a copy that keeps its edge lists and does not
/// lower its stamp preserves the invariant: stamping a position, recording
/// a tag and closing a batch are all such replacements.
proof fn lemma_update_node_wf(g: GraphV, n: int, node2: NodeV)
    requires
        g.wf(),
        0 <= n < g.nodes.len(),
        node2.in_edges == g.nodes[n].in_edges,
        node2.out_edges == g.nodes[n].out_edges,
        node2.seq >= g.nodes[n].seq,
    ensures
        (GraphV { nodes: g.nodes.update(n, node2), ..g }).wf(),
{
    let g2 = GraphV { nodes: g.nodes.update(n, node2), ..g };
    assert forall|e: int| 0 <= e < g2.edges.len() implies #[trigger] g2.edge_ok(e) by {
        assert(g.edge_ok(e));
    }
    assert forall|m: int| 0 <= m < g2.nodes.len() implies #[trigger] g2.in_list_ok(m) by {
        assert(g.in_list_ok(m));
    }
    assert forall|m: int| 0 <= m < g2.nodes.len() implies #[trigger] g2.out_list_ok(m) by {
        assert(g.out_list_ok(m));
    }
    assert forall|e: int|
        0 <= e < g2.edges.len() implies #[trigger] g2.nodes[g2.edges[e].dst].in_edges.contains(
        e,
    ) by {
        assert(g.edge_ok(e));
        assert(g.nodes[g.edges[e].dst].in_edges.contains(e));
    }
    assert forall|e: int|
        0 <= e < g2.edges.len() implies #[trigger] g2.nodes[g2.edges[e].src].out_edges.contains(
        e,
    ) by {
        assert(g.edge_ok(e));
        assert(g.nodes[g.edges[e].src].out_edges.contains(e));
    }
}

pub proof fn lemma_set_span_wf(g: GraphV, n: int, sp: crate::ir::Span)
    requires
        g.wf(),
        0 <= n < g.nodes.len(),
    ensures
        spec_set_span(g, n, sp).wf(),
        grown_from(spec_set_span(g, n, sp), g),
{
    lemma_update_node_wf(g, n, NodeV { span: sp, ..g.nodes[n] });
}

pub proof fn lemma_set_op_wf(g: GraphV, n: int, op: NodeOp)
    requires
        g.wf(),
        0 <= n < g.nodes.len(),
    ensures
        spec_set_op(g, n, op).wf(),
        grown_from(spec_set_op(g, n, op), g),
{
    lemma_update_node_wf(g, n, NodeV { op, ..g.nodes[n] });
}

pub proof fn lemma_inc_seq_wf(g: GraphV, n: int)
    requires
        g.wf(),
        0 <= n < g.nodes.len(),
    ensures
        spec_inc_seq(g, n).wf(),
{
    lemma_update_node_wf(g, n, NodeV { seq: (g.nodes[n].seq + 1) as nat, ..g.nodes[n] });
}

impl Graph {
    /// Resolves a memory-location expression to its final slot, appending one
    /// synthetic node (and its chaining edge) per projection step.
    pub fn parse_place(&mut self, place: &Place) -> (ret: usize)
        requires
            old(self)@.wf(),
            place_wf(*place, old(self)@.n_locals as int),
        ensures
            final(self)@ == spec_parse_place(old(self)@, *place).0,
            ret as int == spec_parse_place(old(self)@, *place).1,
            ret < final(self).nodes.len(),
            final(self)@.wf(),
            grown_from(final(self)@, old(self)@),
    {
        let ghost g0 = self@;
        let mut ret = place.local;
        let mut i: usize = 0;
        proof {
            assert(place.projection@.skip(0) =~= place.projection@);
        }
        while i < place.projection.len()
            invariant
                self@.wf(),
                grown_from(self@, g0),
                g0.wf(),
                i <= place.projection@.len(),
                ret < self.nodes.len(),
                place_wf(*place, g0.n_locals as int),
                spec_parse_place_rec(self@, ret as int, place.projection@.skip(i as int))
                    == spec_parse_place(g0, *place),
            decreases place.projection@.len() - i,
        {
            let ghost g_prev = self@;
            let ghost reti = ret as int;
            let ghost tail = place.projection@.skip(i as int);
            let elem = &place.projection[i];
            let dst = self.nodes.len();
            self.nodes.push(GraphNode::new());
            proof {
                assert(self@ =~~= spec_push_node(g_prev, NodeOp::Nop));
                lemma_push_node_wf(g_prev, NodeOp::Nop);
                assert(place_elem_wf(*elem, g_prev.n_locals as int));
            }
            let ghost g1 = self@;
            match elem {
                PlaceElem::Deref => {
                    self.add_node_edge(ret, dst, EdgeOp::Deref);
                },
                PlaceElem::Field(s) => {
                    self.add_node_edge(ret, dst, EdgeOp::Field(s.clone()));
                },
                PlaceElem::Downcast(s) => {
                    self.add_node_edge(ret, dst, EdgeOp::Downcast(s.clone()));
                },
                PlaceElem::Index(idx) => {
                    self.add_node_edge(ret, dst, EdgeOp::Index);
                    self.add_node_edge(*idx, dst, EdgeOp::Index);
                },
                PlaceElem::ConstantIndex => {
                    self.add_node_edge(ret, dst, EdgeOp::ConstIndex);
                },
                PlaceElem::Subslice => {
                    self.add_node_edge(ret, dst, EdgeOp::SubSlice);
                },
            }
            proof {
                assert(self@ == spec_parse_one_step(g_prev, reti, *elem));
                lemma_grown_trans(g_prev, g1, self@);
                lemma_grown_trans(g0, g_prev, self@);
                assert(tail[0] == place.projection@[i as int]);
                assert(tail.drop_first() =~= place.projection@.skip(i + 1));
                assert(spec_parse_place_rec(g_prev, reti, tail) == spec_parse_place_rec(
                    self@,
                    dst as int,
                    place.projection@.skip(i + 1),
                ));
            }
            ret = dst;
            i = i + 1;
        }
        proof {
            assert(place.projection@.skip(place.projection@.len() as int)
                =~= Seq::<PlaceElem>::empty());
        }
        ret
    }

    /// Resolves one operand into `dst`, appending the edge (or constant
    /// snapshot) that records how the value flows in.
    pub fn add_operand(&mut self, operand: &Operand, dst: usize)
        requires
            old(self)@.wf(),
            operand_wf(*operand, old(self)@.n_locals as int),
            dst < old(self).nodes.len(),
        ensures
            final(self)@ == spec_add_operand(old(self)@, *operand, dst as int),
            final(self)@.wf(),
            grown_from(final(self)@, old(self)@),
    {
        let ghost g0 = self@;
        match operand {
            Operand::Copy(place) => {
                let src = self.parse_place(place);
                let ghost g1 = self@;
                self.add_node_edge(src, dst, EdgeOp::Copy);
                proof {
                    lemma_grown_trans(g0, g1, self@);
                }
            },
            Operand::Move(place) => {
                let src = self.parse_place(place);
                let ghost g1 = self@;
                self.add_node_edge(src, dst, EdgeOp::Move);
                proof {
                    lemma_grown_trans(g0, g1, self@);
                }
            },
            Operand::Constant(s) => {
                self.add_const_edge(s.clone(), dst, EdgeOp::Const);
                proof {
                    lemma_add_const_edge_wf(g0, *s, dst as int, EdgeOp::Const);
                }
            },
        }
    }

    /// Resolves a list of operands in order into the same destination.
    fn add_operands(&mut self, ops: &Vec<Operand>, dst: usize)
        requires
            old(self)@.wf(),
            operands_wf(ops@, old(self)@.n_locals as int),
            dst < old(self).nodes.len(),
        ensures
            final(self)@ == spec_add_operands(old(self)@, ops@, dst as int),
            final(self)@.wf(),
            grown_from(final(self)@, old(self)@),
    {
        let ghost g0 = self@;
        let mut i: usize = 0;
        proof {
            assert(ops@.skip(0) =~= ops@);
        }
        while i < ops.len()
            invariant
                self@.wf(),
                g0.wf(),
                grown_from(self@, g0),
                i <= ops@.len(),
                dst < self.nodes.len(),
                operands_wf(ops@, g0.n_locals as int),
                spec_add_operands(self@, ops@.skip(i as int), dst as int) == spec_add_operands(
                    g0,
                    ops@,
                    dst as int,
                ),
            decreases ops@.len() - i,
        {
            let ghost g_prev = self@;
            let ghost tail = ops@.skip(i as int);
            self.add_operand(&ops[i], dst);
            proof {
                lemma_grown_trans(g0, g_prev, self@);
                assert(tail[0] == ops@[i as int]);
                assert(tail.drop_first() =~= ops@.skip(i + 1));
            }
            i = i + 1;
        }
        proof {
            assert(ops@.skip(ops@.len() as int) =~= Seq::<Operand>::empty());
        }
    }
}

/// Which edge records a borrow of the given kind; a fake borrow degrades to
/// a no-op edge.
pub open spec fn spec_borrow_edge_op(bk: BorrowKind) -> EdgeOp {
    match bk {
        BorrowKind::Shared => EdgeOp::Immut,
        BorrowKind::Mut => EdgeOp::Mut,
        BorrowKind::Fake => EdgeOp::Nop,
    }
}

/// Resolving a place and drawing one edge from its resolved slot into `dst`.
pub open spec fn spec_add_place_edge(g: GraphV, p: Place, dst: int, op: EdgeOp) -> GraphV {
    let pp = spec_parse_place(g, p);
    spec_add_node_edge(pp.0, pp.1, dst, op)
}

/// The tag recorded on a destination for each right-hand-side shape. Both
/// binary-op shapes are tagged checked-binary-op uniformly.
pub open spec fn spec_statm_op(rv: Rvalue) -> NodeOp {
    match rv {
        Rvalue::Use(_) => NodeOp::Use,
        Rvalue::Repeat(_) => NodeOp::Repeat,
        Rvalue::Ref(_, _) => NodeOp::Ref,
        Rvalue::ThreadLocalRef => NodeOp::Error,
        Rvalue::RawPtr(_) => NodeOp::Error,
        Rvalue::Len(_) => NodeOp::Len,
        Rvalue::Cast(_) => NodeOp::Cast,
        Rvalue::BinaryOp(_, _) => NodeOp::CheckedBinaryOp,
        Rvalue::CheckedBinaryOp(_, _) => NodeOp::CheckedBinaryOp,
        Rvalue::NullaryOp(_) => NodeOp::NullaryOp,
        Rvalue::UnaryOp(_) => NodeOp::UnaryOp,
        Rvalue::Discriminant(_) => NodeOp::Discriminant,
        Rvalue::Aggregate(k, _) => NodeOp::Aggregate(k),
        Rvalue::ShallowInitBox(_) => NodeOp::ShallowInitBox,
        Rvalue::CopyForDeref(_) => NodeOp::CopyForDeref,
    }
}

/// The edges one supported right-hand side contributes into `dst`.
pub open spec fn spec_rvalue_edges(g: GraphV, rv: Rvalue, dst: int) -> GraphV {
    match rv {
        Rvalue::Use(op) => spec_add_operand(g, op, dst),
        Rvalue::Repeat(op) => spec_add_operand(g, op, dst),
        Rvalue::Ref(bk, p) => spec_add_place_edge(g, p, dst, spec_borrow_edge_op(bk)),
        Rvalue::ThreadLocalRef => g,
        Rvalue::RawPtr(_) => g,
        Rvalue::Len(p) => spec_add_place_edge(g, p, dst, EdgeOp::Nop),
        Rvalue::Cast(op) => spec_add_operand(g, op, dst),
        Rvalue::BinaryOp(a, b) => spec_add_operand(spec_add_operand(g, a, dst), b, dst),
        Rvalue::CheckedBinaryOp(a, b) => spec_add_operand(spec_add_operand(g, a, dst), b, dst),
        Rvalue::NullaryOp(s) => spec_add_const_edge(g, s, dst, EdgeOp::Nop),
        Rvalue::UnaryOp(op) => spec_add_operand(g, op, dst),
        Rvalue::Discriminant(p) => spec_add_place_edge(g, p, dst, EdgeOp::Nop),
        Rvalue::Aggregate(_, ops) => spec_add_operands(g, ops@, dst),
        Rvalue::ShallowInitBox(op) => spec_add_operand(g, op, dst),
        Rvalue::CopyForDeref(p) => spec_add_place_edge(g, p, dst, EdgeOp::Nop),
    }
}

/// Translating one assignment: resolve the destination, stamp its position,
/// add the right-hand side's edges, record the tag, close the batch.
pub open spec fn spec_add_statm(g: GraphV, stm: Statement) -> GraphV {
    let pp = spec_parse_place(g, stm.place);
    let g1 = spec_set_span(pp.0, pp.1, stm.span);
    let g2 = spec_rvalue_edges(g1, stm.rvalue, pp.1);
    let g3 = spec_set_op(g2, pp.1, spec_statm_op(stm.rvalue));
    spec_inc_seq(g3, pp.1)
}

/// The edges a call contributes into its destination slot. For a runtime
/// callee the callee value flows in first, so its edge is the first incoming
/// edge of the batch.
pub open spec fn spec_call_edges(g: GraphV, func: CallFunc, args: Seq<Operand>, dst: int) -> GraphV {
    match func {
        CallFunc::Resolved(_) => spec_add_operands(g, args, dst),
        CallFunc::Runtime(p) => spec_add_operands(
            spec_add_place_edge(g, p, dst, EdgeOp::Move),
            args,
            dst,
        ),
    }
}

/// The tag recorded on a call destination.
pub open spec fn spec_call_op(func: CallFunc) -> NodeOp {
    match func {
        CallFunc::Resolved(id) => NodeOp::Call(id),
        CallFunc::Runtime(_) => NodeOp::CallOperand,
    }
}

/// Translating one terminator: only calls are modeled; every other control
/// transfer leaves the graph untouched.
pub open spec fn spec_add_terminator(g: GraphV, term: Terminator) -> GraphV {
    match term.kind {
        TermKind::Call { func, args, destination } => {
            let dst = destination as int;
            let g1 = spec_call_edges(g, func, args@, dst);
            let g2 = spec_set_op(g1, dst, spec_call_op(func));
            let g3 = spec_set_span(g2, dst, term.span);
            spec_inc_seq(g3, dst)
        },
        TermKind::Other => g,
    }
}

/// Which edge records a borrow of the given kind.
pub fn borrow_edge_op(bk: &BorrowKind) -> (r: EdgeOp)
    ensures
        r == spec_borrow_edge_op(*bk),
{
    match bk {
        BorrowKind::Shared => EdgeOp::Immut,
        BorrowKind::Mut => EdgeOp::Mut,
        BorrowKind::Fake => EdgeOp::Nop,
    }
}

/// The tag a destination is given for a right-hand-side shape.
pub fn statm_node_op(rv: &Rvalue) -> (r: NodeOp)
    ensures
        r == spec_statm_op(*rv),
{
    match rv {
        Rvalue::Use(_) => NodeOp::Use,
        Rvalue::Repeat(_) => NodeOp::Repeat,
        Rvalue::Ref(_, _) => NodeOp::Ref,
        Rvalue::ThreadLocalRef => NodeOp::Error,
        Rvalue::RawPtr(_) => NodeOp::Error,
        Rvalue::Len(_) => NodeOp::Len,
        Rvalue::Cast(_) => NodeOp::Cast,
        Rvalue::BinaryOp(_, _) => NodeOp::CheckedBinaryOp,
        Rvalue::CheckedBinaryOp(_, _) => NodeOp::CheckedBinaryOp,
        Rvalue::NullaryOp(_) => NodeOp::NullaryOp,
        Rvalue::UnaryOp(_) => NodeOp::UnaryOp,
        Rvalue::Discriminant(_) => NodeOp::Discriminant,
        Rvalue::Aggregate(k, _) => NodeOp::Aggregate(*k),
        Rvalue::ShallowInitBox(_) => NodeOp::ShallowInitBox,
        Rvalue::CopyForDeref(_) => NodeOp::CopyForDeref,
    }
}

/// The tag a call destination is given.
pub fn call_node_op(func: &CallFunc) -> (r: NodeOp)
    ensures
        r == spec_call_op(*func),
{
    match func {
        CallFunc::Resolved(id) => NodeOp::Call(*id),
        CallFunc::Runtime(_) => NodeOp::CallOperand,
    }
}

impl Graph {
    /// Translates one assignment statement into the graph: the destination is
    /// resolved and stamped, the right-hand side's operands flow in as edges
    /// all carrying one batch number, the destination's tag records the
    /// shape, and the destination's batch number then moves up by one. A
    /// right-hand side outside the modeled set is reported and leaves the
    /// graph untouched.
    pub fn add_statm_to_graph(&mut self, statement: &Statement) -> (r: Result<(), BuildError>)
        requires
            old(self)@.wf(),
            statement_wf(*statement, old(self)@.n_locals as int),
            forall|n: int|
                0 <= n < old(self)@.nodes.len() ==> (#[trigger] old(self)@.nodes[n]).seq
                    < usize::MAX,
        ensures
            final(self)@.wf(),
            rvalue_supported(statement.rvalue) ==> r == Ok::<(), BuildError>(()) && final(self)@
                == spec_add_statm(old(self)@, *statement),
            !rvalue_supported(statement.rvalue) ==> r == Err::<(), BuildError>(
                BuildError::UnsupportedConstruct,
            ) && final(self)@ == old(self)@,
            final(self)@.nodes.len() >= old(self)@.nodes.len(),
            final(self)@.def_id == old(self)@.def_id,
            final(self)@.span == old(self)@.span,
            final(self)@.argc == old(self)@.argc,
            final(self)@.n_locals == old(self)@.n_locals,
            forall|n: int|
                0 <= n < old(self)@.nodes.len() ==> (#[trigger] final(self)@.nodes[n]).seq
                    <= old(self)@.nodes[n].seq + 1,
            forall|n: int|
                old(self)@.nodes.len() <= n < final(self)@.nodes.len()
                    ==> (#[trigger] final(self)@.nodes[n]).seq <= 1,
            rvalue_supported(statement.rvalue) ==> ({
                let pp = spec_parse_place(old(self)@, statement.place);
                let before = pp.0.nodes[pp.1].seq;
                &&& final(self)@.nodes[pp.1].seq == before + 1
                &&& forall|e: int|
                    old(self)@.edges.len() <= e < final(self)@.edges.len() && (
                    #[trigger] final(self)@.edges[e]).dst == pp.1 ==> final(self)@.edges[e].seq
                        == before
            }),
    {
        match &statement.rvalue {
            Rvalue::ThreadLocalRef => {
                return Err(BuildError::UnsupportedConstruct);
            },
            Rvalue::RawPtr(_) => {
                return Err(BuildError::UnsupportedConstruct);
            },
            _ => {},
        }
        let ghost g0 = self@;
        let dst = self.parse_place(&statement.place);
        let ghost dsti = dst as int;
        let ghost gp = self@;
        self.nodes[dst].span = statement.span;
        proof {
            assert(self@ =~~= spec_set_span(gp, dsti, statement.span));
            lemma_set_span_wf(gp, dsti, statement.span);
        }
        let ghost g1 = self@;
        match &statement.rvalue {
            Rvalue::Use(op) => {
                self.add_operand(op, dst);
                proof {
                    assert(self@ == spec_rvalue_edges(g1, statement.rvalue, dsti));
                }
            },
            Rvalue::Repeat(op) => {
                self.add_operand(op, dst);
                proof {
                    assert(self@ == spec_rvalue_edges(g1, statement.rvalue, dsti));
                }
            },
            Rvalue::Ref(borrow_kind, place) => {
                let src = self.parse_place(place);
                let ghost gm = self@;
                let eop = borrow_edge_op(borrow_kind);
                self.add_node_edge(src, dst, eop);
                proof {
                    lemma_grown_trans(g1, gm, self@);
                    assert(self@ == spec_rvalue_edges(g1, statement.rvalue, dsti));
                }
            },
            Rvalue::ThreadLocalRef => {
                proof {
                    assert(false);
                }
            },
            Rvalue::RawPtr(_) => {
                proof {
                    assert(false);
                }
            },
            Rvalue::Len(place) => {
                let src = self.parse_place(place);
                let ghost gm = self@;
                self.add_node_edge(src, dst, EdgeOp::Nop);
                proof {
                    lemma_grown_trans(g1, gm, self@);
                    assert(self@ == spec_rvalue_edges(g1, statement.rvalue, dsti));
                }
            },
            Rvalue::Cast(op) => {
                self.add_operand(op, dst);
                proof {
                    assert(self@ == spec_rvalue_edges(g1, statement.rvalue, dsti));
                }
            },
            Rvalue::BinaryOp(a, b) => {
                self.add_operand(a, dst);
                let ghost gm = self@;
                self.add_operand(b, dst);
                proof {
                    lemma_grown_trans(g1, gm, self@);
                    assert(self@ == spec_rvalue_edges(g1, statement.rvalue, dsti));
                }
            },
            Rvalue::CheckedBinaryOp(a, b) => {
                self.add_operand(a, dst);
                let ghost gm = self@;
                self.add_operand(b, dst);
                proof {
                    lemma_grown_trans(g1, gm, self@);
                    assert(self@ == spec_rvalue_edges(g1, statement.rvalue, dsti));
                }
            },
            Rvalue::NullaryOp(s) => {
                self.add_const_edge(s.clone(), dst, EdgeOp::Nop);
                proof {
                    assert(self@ == spec_rvalue_edges(g1, statement.rvalue, dsti));
                }
            },
            Rvalue::UnaryOp(op) => {
                self.add_operand(op, dst);
                proof {
                    assert(self@ == spec_rvalue_edges(g1, statement.rvalue, dsti));
                }
            },
            Rvalue::Discriminant(place) => {
                let src = self.parse_place(place);
                let ghost gm = self@;
                self.add_node_edge(src, dst, EdgeOp::Nop);
                proof {
                    lemma_grown_trans(g1, gm, self@);
                    assert(self@ == spec_rvalue_edges(g1, statement.rvalue, dsti));
                }
            },
            Rvalue::Aggregate(_, ops) => {
                self.add_operands(ops, dst);
                proof {
                    assert(self@ == spec_rvalue_edges(g1, statement.rvalue, dsti));
                }
            },
            Rvalue::ShallowInitBox(op) => {
                self.add_operand(op, dst);
                proof {
                    assert(self@ == spec_rvalue_edges(g1, statement.rvalue, dsti));
                }
            },
            Rvalue::CopyForDeref(place) => {
                let src = self.parse_place(place);
                let ghost gm = self@;
                self.add_node_edge(src, dst, EdgeOp::Nop);
                proof {
                    lemma_grown_trans(g1, gm, self@);
                    assert(self@ == spec_rvalue_edges(g1, statement.rvalue, dsti));
                }
            },
        }
        let ghost g2 = self@;
        proof {
            lemma_grown_trans(gp, g1, g2);
            lemma_grown_trans(g0, gp, g2);
        }
        let node_op = statm_node_op(&statement.rvalue);
        self.nodes[dst].op = node_op;
        proof {
            assert(self@ =~~= spec_set_op(g2, dsti, spec_statm_op(statement.rvalue)));
            lemma_set_op_wf(g2, dsti, spec_statm_op(statement.rvalue));
        }
        let ghost g3 = self@;
        proof {
            lemma_grown_trans(g0, g2, g3);
            lemma_grown_trans(gp, g2, g3);
            if dsti < g0.nodes.len() {
                assert(g3.nodes[dsti].seq == g0.nodes[dsti].seq);
            } else {
                assert(g3.nodes[dsti].seq == 0);
            }
        }
        let s = self.nodes[dst].seq;
        self.nodes[dst].seq = s + 1;
        proof {
            assert(self@ =~~= spec_inc_seq(g3, dsti));
            lemma_inc_seq_wf(g3, dsti);
        }
        Ok(())
    }

    /// Translates one terminator. A call's arguments (preceded, for a
    /// runtime callee, by the callee value itself) flow into the destination
    /// slot in one batch; the destination's tag records the callee and its
    /// batch number then moves up by one. Any other terminator leaves the
    /// graph untouched.
    pub fn add_terminator_to_graph(&mut self, terminator: &Terminator)
        requires
            old(self)@.wf(),
            terminator_wf(*terminator, old(self)@.n_locals as int),
            forall|n: int|
                0 <= n < old(self)@.nodes.len() ==> (#[trigger] old(self)@.nodes[n]).seq
                    < usize::MAX,
        ensures
            final(self)@.wf(),
            final(self)@ == spec_add_terminator(old(self)@, *terminator),
            final(self)@.nodes.len() >= old(self)@.nodes.len(),
            final(self)@.def_id == old(self)@.def_id,
            final(self)@.span == old(self)@.span,
            final(self)@.argc == old(self)@.argc,
            final(self)@.n_locals == old(self)@.n_locals,
            forall|n: int|
                0 <= n < old(self)@.nodes.len() ==> (#[trigger] final(self)@.nodes[n]).seq
                    <= old(self)@.nodes[n].seq + 1,
            forall|n: int|
                old(self)@.nodes.len() <= n < final(self)@.nodes.len()
                    ==> (#[trigger] final(self)@.nodes[n]).seq <= 1,
            terminator.kind matches TermKind::Call { destination, .. } ==> ({
                let before = old(self)@.nodes[destination as int].seq;
                &&& final(self)@.nodes[destination as int].seq == before + 1
                &&& forall|e: int|
                    old(self)@.edges.len() <= e < final(self)@.edges.len() && (
                    #[trigger] final(self)@.edges[e]).dst == destination as int
                        ==> final(self)@.edges[e].seq == before
            }),
    {
        let ghost g0 = self@;
        match &terminator.kind {
            TermKind::Call { func, args, destination } => {
                let dst = *destination;
                let ghost dsti = dst as int;
                proof {
                    assert(dsti < g0.n_locals);
                }
                match func {
                    CallFunc::Resolved(_) => {
                        self.add_operands(args, dst);
                        proof {
                            assert(self@ == spec_call_edges(g0, *func, args@, dsti));
                        }
                    },
                    CallFunc::Runtime(place) => {
                        let src = self.parse_place(place);
                        let ghost gm = self@;
                        self.add_node_edge(src, dst, EdgeOp::Move);
                        proof {
                            lemma_grown_trans(g0, gm, self@);
                        }
                        let ghost gm2 = self@;
                        self.add_operands(args, dst);
                        proof {
                            lemma_grown_trans(g0, gm2, self@);
                            assert(self@ == spec_call_edges(g0, *func, args@, dsti));
                        }
                    },
                }
                let ghost g1 = self@;
                let node_op = call_node_op(func);
                self.nodes[dst].op = node_op;
                proof {
                    assert(self@ =~~= spec_set_op(g1, dsti, spec_call_op(*func)));
                    lemma_set_op_wf(g1, dsti, spec_call_op(*func));
                    lemma_grown_trans(g0, g1, self@);
                }
                let ghost g2 = self@;
                self.nodes[dst].span = terminator.span;
                proof {
                    assert(self@ =~~= spec_set_span(g2, dsti, terminator.span));
                    lemma_set_span_wf(g2, dsti, terminator.span);
                    lemma_grown_trans(g0, g2, self@);
                }
                let ghost g3 = self@;
                let s = self.nodes[dst].seq;
                self.nodes[dst].seq = s + 1;
                proof {
                    assert(self@ =~~= spec_inc_seq(g3, dsti));
                    lemma_inc_seq_wf(g3, dsti);
                }
            },
            TermKind::Other => {},
        }
    }
}

} // verus!
