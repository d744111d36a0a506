use dataflow_graph::body::build_graph;
use dataflow_graph::graph::{EdgeOp, Graph, NodeOp};
use dataflow_graph::ir::{
    AggKind, BasicBlock, BorrowKind, BuildError, CallFunc, Operand, Place, PlaceElem, Rvalue,
    Span, Statement, TermKind, Terminator,
};

fn sp() -> Span {
    Span::dummy()
}

fn place(local: usize) -> Place {
    Place { local, projection: vec![] }
}

fn assign(dst: usize, rvalue: Rvalue) -> Statement {
    Statement { place: place(dst), rvalue, span: sp() }
}

#[test]
fn new_graph_has_untouched_slots() {
    let g = Graph::new(1, sp(), 1, 3);
    assert_eq!(g.nodes.len(), 3);
    assert_eq!(g.edges.len(), 0);
    assert_eq!(g.argc, 1);
    assert_eq!(g.n_locals, 3);
    for node in g.nodes.iter() {
        assert_eq!(node.op, NodeOp::Nop);
        assert_eq!(node.seq, 0);
        assert!(node.in_edges.is_empty());
        assert!(node.out_edges.is_empty());
    }
}

#[test]
fn plain_use_creates_copy_edge() {
    let mut g = Graph::new(1, sp(), 1, 3);
    let r = g.add_statm_to_graph(&assign(2, Rvalue::Use(Operand::Copy(place(1)))));
    assert_eq!(r, Ok(()));
    assert_eq!(g.edges.len(), 1);
    assert_eq!(g.edges[0].src, 1);
    assert_eq!(g.edges[0].dst, 2);
    assert_eq!(g.edges[0].op, EdgeOp::Copy);
    assert_eq!(g.edges[0].seq, 0);
    assert_eq!(g.nodes[2].op, NodeOp::Use);
    assert_eq!(g.nodes[2].seq, 1);
    assert_eq!(g.nodes[2].in_edges, vec![0]);
    assert_eq!(g.nodes[1].out_edges, vec![0]);
}

#[test]
fn binary_op_resolves_operands_in_order() {
    let mut g = Graph::new(1, sp(), 2, 4);
    let r = g.add_statm_to_graph(&assign(
        3,
        Rvalue::BinaryOp(Operand::Copy(place(1)), Operand::Copy(place(2))),
    ));
    assert_eq!(r, Ok(()));
    assert_eq!(g.edges.len(), 2);
    assert_eq!(g.edges[0].src, 1);
    assert_eq!(g.edges[1].src, 2);
    assert_eq!(g.edges[0].dst, 3);
    assert_eq!(g.edges[1].dst, 3);
    assert_eq!(g.nodes[3].op, NodeOp::CheckedBinaryOp);

    // the checked shape is tagged identically
    let mut g2 = Graph::new(1, sp(), 2, 4);
    g2.add_statm_to_graph(&assign(
        3,
        Rvalue::CheckedBinaryOp(Operand::Copy(place(1)), Operand::Copy(place(2))),
    ))
    .unwrap();
    assert_eq!(g2.nodes[3].op, NodeOp::CheckedBinaryOp);
}

#[test]
fn constant_operand_creates_snapshot_node() {
    let mut g = Graph::new(1, sp(), 1, 2);
    g.add_statm_to_graph(&assign(0, Rvalue::Use(Operand::Constant(String::from("42_i32")))))
        .unwrap();
    assert_eq!(g.nodes.len(), 3);
    assert_eq!(g.nodes[2].op, NodeOp::Const(String::from("42_i32")));
    assert_eq!(g.edges.len(), 1);
    assert_eq!(g.edges[0].src, 2);
    assert_eq!(g.edges[0].dst, 0);
    assert_eq!(g.edges[0].op, EdgeOp::Const);
    // both endpoints list the edge
    assert_eq!(g.nodes[2].out_edges, vec![0]);
    assert_eq!(g.nodes[0].in_edges, vec![0]);
}

#[test]
fn projection_steps_create_synthetic_nodes() {
    let mut g = Graph::new(1, sp(), 1, 3);
    let src_place = Place { local: 1, projection: vec![PlaceElem::Deref] };
    g.add_statm_to_graph(&assign(2, Rvalue::Use(Operand::Copy(src_place)))).unwrap();
    // one synthetic node for the dereference step
    assert_eq!(g.nodes.len(), 4);
    assert_eq!(g.edges.len(), 2);
    assert_eq!(g.edges[0].src, 1);
    assert_eq!(g.edges[0].dst, 3);
    assert_eq!(g.edges[0].op, EdgeOp::Deref);
    assert_eq!(g.edges[1].src, 3);
    assert_eq!(g.edges[1].dst, 2);
    assert_eq!(g.edges[1].op, EdgeOp::Copy);
}

#[test]
fn field_projection_records_identifier() {
    let mut g = Graph::new(1, sp(), 1, 3);
    let src_place = Place { local: 1, projection: vec![PlaceElem::Field(String::from("0"))] };
    g.add_statm_to_graph(&assign(2, Rvalue::Use(Operand::Move(src_place)))).unwrap();
    assert_eq!(g.edges[0].op, EdgeOp::Field(String::from("0")));
    assert_eq!(g.edges[1].op, EdgeOp::Move);
}

#[test]
fn index_projection_draws_two_edges() {
    let mut g = Graph::new(1, sp(), 2, 4);
    // indexing object in slot 1 by the value in slot 2: both edges carry the
    // index tag, with no structural distinction between the two roles
    let src_place = Place { local: 1, projection: vec![PlaceElem::Index(2)] };
    g.add_statm_to_graph(&assign(3, Rvalue::Use(Operand::Copy(src_place)))).unwrap();
    let synthetic = 4;
    assert_eq!(g.nodes.len(), 5);
    assert_eq!(g.edges[0].src, 1);
    assert_eq!(g.edges[0].dst, synthetic);
    assert_eq!(g.edges[0].op, EdgeOp::Index);
    assert_eq!(g.edges[1].src, 2);
    assert_eq!(g.edges[1].dst, synthetic);
    assert_eq!(g.edges[1].op, EdgeOp::Index);
}

#[test]
fn borrow_kinds_tag_edges() {
    let mut g = Graph::new(1, sp(), 1, 4);
    g.add_statm_to_graph(&assign(2, Rvalue::Ref(BorrowKind::Shared, place(1)))).unwrap();
    g.add_statm_to_graph(&assign(3, Rvalue::Ref(BorrowKind::Mut, place(1)))).unwrap();
    g.add_statm_to_graph(&assign(0, Rvalue::Ref(BorrowKind::Fake, place(1)))).unwrap();
    assert_eq!(g.edges[0].op, EdgeOp::Immut);
    assert_eq!(g.edges[1].op, EdgeOp::Mut);
    // a fake borrow degrades to a no-op edge
    assert_eq!(g.edges[2].op, EdgeOp::Nop);
    assert_eq!(g.nodes[2].op, NodeOp::Ref);
}

#[test]
fn aggregate_resolves_every_operand() {
    let mut g = Graph::new(1, sp(), 2, 4);
    g.add_statm_to_graph(&assign(
        3,
        Rvalue::Aggregate(
            AggKind::Adt(11),
            vec![
                Operand::Copy(place(1)),
                Operand::Move(place(2)),
                Operand::Constant(String::from("7_u8")),
            ],
        ),
    ))
    .unwrap();
    assert_eq!(g.edges.len(), 3);
    assert_eq!(g.nodes[3].op, NodeOp::Aggregate(AggKind::Adt(11)));
    // all edges of the batch share the destination's stamp
    for e in g.edges.iter() {
        assert_eq!(e.dst, 3);
        assert_eq!(e.seq, 0);
    }
    assert_eq!(g.nodes[3].seq, 1);
}

#[test]
fn nullary_op_records_type_text() {
    let mut g = Graph::new(1, sp(), 1, 2);
    g.add_statm_to_graph(&assign(0, Rvalue::NullaryOp(String::from("usize")))).unwrap();
    assert_eq!(g.nodes[2].op, NodeOp::Const(String::from("usize")));
    assert_eq!(g.edges[0].op, EdgeOp::Nop);
    assert_eq!(g.nodes[0].op, NodeOp::NullaryOp);
}

#[test]
fn unsupported_rvalue_is_reported() {
    let mut g = Graph::new(1, sp(), 1, 2);
    let before = g.clone();
    let r = g.add_statm_to_graph(&assign(0, Rvalue::ThreadLocalRef));
    assert_eq!(r, Err(BuildError::UnsupportedConstruct));
    // the graph is left untouched
    assert_eq!(g, before);
    let r2 = g.add_statm_to_graph(&assign(0, Rvalue::RawPtr(place(1))));
    assert_eq!(r2, Err(BuildError::UnsupportedConstruct));
    assert_eq!(g, before);
}

#[test]
fn seq_increments_per_statement() {
    let mut g = Graph::new(1, sp(), 1, 3);
    g.add_statm_to_graph(&assign(2, Rvalue::Use(Operand::Copy(place(1))))).unwrap();
    g.add_statm_to_graph(&assign(2, Rvalue::Cast(Operand::Copy(place(1))))).unwrap();
    // repeated writes to the same slot are distinguishable by their batches
    assert_eq!(g.nodes[2].seq, 2);
    assert_eq!(g.edges[0].seq, 0);
    assert_eq!(g.edges[1].seq, 1);
    assert_eq!(g.nodes[2].op, NodeOp::Cast);
}

#[test]
fn direct_call_tags_destination() {
    let mut g = Graph::new(1, sp(), 2, 4);
    let term = Terminator {
        kind: TermKind::Call {
            func: CallFunc::Resolved(7),
            args: vec![Operand::Copy(place(1)), Operand::Constant(String::from("1_u32"))],
            destination: 0,
        },
        span: sp(),
    };
    g.add_terminator_to_graph(&term);
    assert_eq!(g.nodes[0].op, NodeOp::Call(7));
    assert_eq!(g.nodes[0].seq, 1);
    assert_eq!(g.edges.len(), 2);
    for e in g.edges.iter() {
        assert_eq!(e.dst, 0);
        assert_eq!(e.seq, 0);
    }
}

#[test]
fn indirect_call_first_edge_is_callee() {
    let mut g = Graph::new(1, sp(), 2, 4);
    let term = Terminator {
        kind: TermKind::Call {
            func: CallFunc::Runtime(place(1)),
            args: vec![Operand::Copy(place(2))],
            destination: 0,
        },
        span: sp(),
    };
    g.add_terminator_to_graph(&term);
    assert_eq!(g.nodes[0].op, NodeOp::CallOperand);
    // by convention the first incoming edge carries the callee value
    let first = g.nodes[0].in_edges[0];
    assert_eq!(g.edges[first].src, 1);
    assert_eq!(g.edges[first].op, EdgeOp::Move);
    let second = g.nodes[0].in_edges[1];
    assert_eq!(g.edges[second].src, 2);
    assert_eq!(g.edges[second].op, EdgeOp::Copy);
}

#[test]
fn other_terminators_leave_graph_untouched() {
    let mut g = Graph::new(1, sp(), 1, 2);
    let before = g.clone();
    g.add_terminator_to_graph(&Terminator { kind: TermKind::Other, span: sp() });
    assert_eq!(g, before);
}

#[test]
fn build_graph_runs_blocks_in_order() {
    let blocks = vec![
        BasicBlock {
            statements: vec![assign(2, Rvalue::Use(Operand::Copy(place(1))))],
            terminator: None,
        },
        BasicBlock {
            statements: vec![],
            terminator: Some(Terminator {
                kind: TermKind::Call {
                    func: CallFunc::Resolved(9),
                    args: vec![Operand::Move(place(2))],
                    destination: 0,
                },
                span: sp(),
            }),
        },
    ];
    let g = build_graph(5, sp(), 1, 3, &blocks).unwrap();
    assert_eq!(g.def_id, 5);
    assert_eq!(g.nodes[2].op, NodeOp::Use);
    assert_eq!(g.nodes[0].op, NodeOp::Call(9));
    assert_eq!(g.edges.len(), 2);
    assert_eq!(g.edges[0].src, 1);
    assert_eq!(g.edges[0].dst, 2);
    assert_eq!(g.edges[1].src, 2);
    assert_eq!(g.edges[1].dst, 0);
}

#[test]
fn build_graph_is_deterministic() {
    let blocks = vec![BasicBlock {
        statements: vec![
            assign(2, Rvalue::Use(Operand::Copy(place(1)))),
            assign(0, Rvalue::BinaryOp(Operand::Copy(place(2)), Operand::Constant(String::from("3_i64")))),
        ],
        terminator: None,
    }];
    let g1 = build_graph(1, sp(), 1, 3, &blocks).unwrap();
    let g2 = build_graph(1, sp(), 1, 3, &blocks).unwrap();
    // structurally identical node and edge sequences
    assert_eq!(g1, g2);
}

#[test]
fn build_graph_reports_unsupported_procedure() {
    let blocks = vec![BasicBlock {
        statements: vec![
            assign(2, Rvalue::Use(Operand::Copy(place(1)))),
            assign(0, Rvalue::ThreadLocalRef),
        ],
        terminator: None,
    }];
    let r = build_graph(1, sp(), 1, 3, &blocks);
    assert_eq!(r, Err(BuildError::UnsupportedConstruct));
}

#[test]
fn edges_have_valid_endpoints() {
    let blocks = vec![BasicBlock {
        statements: vec![
            assign(
                2,
                Rvalue::Use(Operand::Copy(Place {
                    local: 1,
                    projection: vec![PlaceElem::Deref, PlaceElem::Index(1)],
                })),
            ),
            assign(3, Rvalue::Aggregate(AggKind::Tuple, vec![
                Operand::Copy(place(2)),
                Operand::Constant(String::from("0_u8")),
            ])),
            assign(0, Rvalue::Len(place(3))),
        ],
        terminator: None,
    }];
    let g = build_graph(1, sp(), 1, 4, &blocks).unwrap();
    // every edge's endpoints are valid node indices, and each endpoint's
    // edge list holds exactly the edges touching it
    for (idx, e) in g.edges.iter().enumerate() {
        assert!(e.src < g.nodes.len());
        assert!(e.dst < g.nodes.len());
        assert!(g.nodes[e.dst].in_edges.contains(&idx));
        assert!(g.nodes[e.src].out_edges.contains(&idx));
    }
    for (n, node) in g.nodes.iter().enumerate() {
        for &e in node.in_edges.iter() {
            assert_eq!(g.edges[e].dst, n);
        }
        for &e in node.out_edges.iter() {
            assert_eq!(g.edges[e].src, n);
        }
    }
}

#[test]
fn empty_body_builds_empty_graph() {
    let g = build_graph(3, sp(), 1, 2, &vec![]).unwrap();
    assert_eq!(g.nodes.len(), 2);
    assert_eq!(g.edges.len(), 0);
    let deps = g.param_return_deps();
    assert_eq!(deps, vec![true, false]);
}

#[test]
fn statement_span_is_stamped() {
    let mut g = Graph::new(1, sp(), 1, 3);
    let span = Span { lo: 10, hi: 20 };
    g.add_statm_to_graph(&Statement {
        place: place(2),
        rvalue: Rvalue::Use(Operand::Copy(place(1))),
        span,
    })
    .unwrap();
    assert_eq!(g.nodes[2].span, span);
    assert_eq!(g.nodes[1].span, Span::dummy());
}
