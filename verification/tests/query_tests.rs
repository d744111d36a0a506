use dataflow_graph::graph::{EdgeOp, Graph};
use dataflow_graph::ir::{Operand, Place, Rvalue, Span, Statement};
use dataflow_graph::traversal::{DFSStatus, Direction, EdgeValidator, NodeOperator};

fn sp() -> Span {
    Span::dummy()
}

fn place(local: usize) -> Place {
    Place { local, projection: vec![] }
}

fn assign(dst: usize, rvalue: Rvalue) -> Statement {
    Statement { place: place(dst), rvalue, span: sp() }
}

/// One parameter `p` in slot 1 and a slot 2 assigned as a plain use of it.
fn use_chain_graph() -> Graph {
    let mut g = Graph::new(1, sp(), 1, 3);
    g.add_statm_to_graph(&assign(2, Rvalue::Use(Operand::Copy(place(1))))).unwrap();
    g
}

/// Slots 1 and 2 feeding a binary op into slot 3.
fn binop_graph() -> Graph {
    let mut g = Graph::new(1, sp(), 2, 4);
    g.add_statm_to_graph(&assign(
        3,
        Rvalue::BinaryOp(Operand::Copy(place(1)), Operand::Copy(place(2))),
    ))
    .unwrap();
    g
}

#[test]
fn equivalent_locals_of_plain_use() {
    let g = use_chain_graph();
    let set = g.collect_equivalent_locals(2);
    // exactly the parameter and its renaming
    assert_eq!(set.len(), 2);
    assert!(set.contains(&1));
    assert!(set.contains(&2));
}

#[test]
fn equivalent_locals_walks_up_to_the_root() {
    // slot 2 = use of parameter 1; slot 0 = use of slot 2: one class
    let mut g = Graph::new(1, sp(), 1, 3);
    g.add_statm_to_graph(&assign(2, Rvalue::Use(Operand::Copy(place(1))))).unwrap();
    g.add_statm_to_graph(&assign(0, Rvalue::Use(Operand::Move(place(2))))).unwrap();
    let set = g.collect_equivalent_locals(0);
    assert_eq!(set.len(), 3);
    assert!(set.contains(&0));
    assert!(set.contains(&1));
    assert!(set.contains(&2));
}

#[test]
fn equivalent_locals_root_is_furthest_upstream() {
    // slot 2 is a plain use of slot 1; slot 3 is written twice, as a plain
    // use of slot 2 and then of slot 1: the class is rooted at slot 1, the
    // furthest-upstream value-preserving slot, and covers all three
    let mut g = Graph::new(1, sp(), 1, 4);
    g.add_statm_to_graph(&assign(2, Rvalue::Use(Operand::Copy(place(1))))).unwrap();
    g.add_statm_to_graph(&assign(3, Rvalue::Use(Operand::Copy(place(2))))).unwrap();
    g.add_statm_to_graph(&assign(3, Rvalue::Use(Operand::Copy(place(1))))).unwrap();
    let set = g.collect_equivalent_locals(3);
    assert_eq!(set.len(), 3);
    assert!(set.contains(&1));
    assert!(set.contains(&2));
    assert!(set.contains(&3));
}

#[test]
fn equivalence_class_ends_on_cyclic_chains() {
    // two slots assigned as plain uses of each other: the model assumes
    // such chains away, but the walk must still end and return the class
    let mut g = Graph::new(1, sp(), 1, 4);
    g.add_statm_to_graph(&assign(2, Rvalue::Use(Operand::Copy(place(3))))).unwrap();
    g.add_statm_to_graph(&assign(3, Rvalue::Use(Operand::Copy(place(2))))).unwrap();
    let set = g.collect_equivalent_locals(2);
    assert_eq!(set.len(), 2);
    assert!(set.contains(&2));
    assert!(set.contains(&3));
}

#[test]
fn equivalent_locals_stop_at_computation() {
    let g = binop_graph();
    // a computed slot bounds the class and is not part of it
    let set = g.collect_equivalent_locals(3);
    assert!(set.is_empty());
    // and the class of an operand does not cross the computation
    let set1 = g.collect_equivalent_locals(1);
    assert_eq!(set1.len(), 1);
    assert!(set1.contains(&1));
}

#[test]
fn sibling_operands_not_connected() {
    let g = binop_graph();
    assert!(g.is_connected(1, 3));
    assert!(g.is_connected(2, 3));
    // no edge runs between the sibling operands themselves
    assert!(!g.is_connected(1, 2));
}

#[test]
fn is_connected_follows_upside() {
    let g = binop_graph();
    // slot 1 is only reachable from slot 3 against the edges
    assert!(g.is_connected(3, 1));
    assert!(g.is_connected(3, 2));
}

#[test]
fn is_connected_to_itself() {
    let g = binop_graph();
    assert!(g.is_connected(2, 2));
}

#[test]
fn param_return_deps_entry_zero() {
    // entry 0 is trivially true, on every graph
    assert!(use_chain_graph().param_return_deps()[0]);
    assert!(binop_graph().param_return_deps()[0]);
    assert!(Graph::new(1, sp(), 3, 8).param_return_deps()[0]);
}

#[test]
fn param_return_deps_use_argument() {
    // return slot assigned as a plain use of the only argument
    let mut g = Graph::new(1, sp(), 1, 2);
    g.add_statm_to_graph(&assign(0, Rvalue::Use(Operand::Copy(place(1))))).unwrap();
    let deps = g.param_return_deps();
    assert_eq!(deps, vec![true, true]);
}

#[test]
fn param_return_deps_ignore_argument() {
    // return slot assigned a constant, ignoring the argument
    let mut g = Graph::new(1, sp(), 1, 2);
    g.add_statm_to_graph(&assign(0, Rvalue::Use(Operand::Constant(String::from("5_i32")))))
        .unwrap();
    let deps = g.param_return_deps();
    assert_eq!(deps, vec![true, false]);
}

#[test]
fn neighbor_accessors_positional() {
    let g = use_chain_graph();
    assert_eq!(g.get_upside_idx(2, 0), Some(1));
    assert_eq!(g.get_upside_idx(2, 1), None);
    assert_eq!(g.get_downside_idx(1, 0), Some(2));
    assert_eq!(g.get_downside_idx(1, 1), None);
    assert_eq!(g.get_upside_idx(1, 0), None);
}

#[test]
fn edge_validators_answer_by_tag() {
    let mut g = Graph::new(1, sp(), 1, 3);
    let src_place = Place {
        local: 1,
        projection: vec![dataflow_graph::ir::PlaceElem::Deref],
    };
    g.add_statm_to_graph(&assign(2, Rvalue::Use(Operand::Copy(src_place)))).unwrap();
    assert_eq!(g.edges[0].op, EdgeOp::Deref);
    assert!(matches!(Graph::equivalent_edge_validator(&g, 0), DFSStatus::Stop));
    assert_eq!(g.edges[1].op, EdgeOp::Copy);
    assert!(matches!(Graph::equivalent_edge_validator(&g, 1), DFSStatus::Continue));
    assert!(matches!(Graph::always_true_edge_validator(&g, 0), DFSStatus::Continue));
}

#[test]
fn dfs_exhaustive_downside_visits_reachable() {
    let g = binop_graph();
    let visited = g.dfs(
        1,
        Direction::Downside,
        NodeOperator::AlwaysContinue,
        EdgeValidator::AlwaysTrue,
        true,
    );
    // from slot 1 the only forward step is into the computed slot 3
    assert_eq!(visited.len(), 2);
    assert!(visited.contains(&1));
    assert!(visited.contains(&3));
}

#[test]
fn dfs_short_circuits_on_target() {
    let g = binop_graph();
    let visited = g.dfs(
        1,
        Direction::Downside,
        NodeOperator::StopAtTarget(3),
        EdgeValidator::AlwaysTrue,
        false,
    );
    assert!(visited.contains(&3));
    let missed = g.dfs(
        1,
        Direction::Downside,
        NodeOperator::StopAtTarget(2),
        EdgeValidator::AlwaysTrue,
        false,
    );
    assert!(!missed.contains(&2));
}

#[test]
fn dfs_both_directions_spans_siblings() {
    let g = binop_graph();
    let visited = g.dfs(
        1,
        Direction::Both,
        NodeOperator::AlwaysContinue,
        EdgeValidator::AlwaysTrue,
        true,
    );
    // up over the shared destination and down again to the sibling
    assert!(visited.contains(&1));
    assert!(visited.contains(&2));
    assert!(visited.contains(&3));
}

#[test]
fn equivalence_ignores_structural_edges() {
    // slot 2 is a use of a projection out of slot 1: the structural edge
    // keeps the class from crossing the projection
    let mut g = Graph::new(1, sp(), 1, 3);
    let src_place = Place {
        local: 1,
        projection: vec![dataflow_graph::ir::PlaceElem::Deref],
    };
    g.add_statm_to_graph(&assign(2, Rvalue::Use(Operand::Copy(src_place)))).unwrap();
    let set = g.collect_equivalent_locals(2);
    assert_eq!(set.len(), 2);
    assert!(set.contains(&2));
    // the synthetic projection node denotes the same value as the use
    assert!(set.contains(&3));
    assert!(!set.contains(&1));
}
