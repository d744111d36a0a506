//! The generalized depth-first traversal: one engine, parameterized by
//! direction, a node-continuation operator, an edge-admission validator and
//! an exhaustive-vs-short-circuit flag. It is specified against path
//! reachability: the visited set is sound for every parameterization,
//! complete when the search is exhaustive, and decides the target exactly
//! when it short-circuits on one.

use vstd::prelude::*;

use crate::graph::{EdgeIdx, EdgeOp, Graph, GraphV, NodeOp};

verus! {

/// Which edges the traversal follows out of a node.
#[derive(Clone, Copy, Debug, PartialEq, Eq, Structural)]
pub enum Direction {
    /// Follow incoming edges toward sources.
    Upside,
    /// Follow outgoing edges toward destinations.
    Downside,
    Both,
}

/// What a node operator or edge validator answers: go on past this node or
/// edge, or stop at it.
#[derive(Clone, Copy, Debug, PartialEq, Eq, Structural)]
pub enum DFSStatus {
    Continue,
    Stop,
}

/// The node-continuation operators the queries use: exploration proceeds
/// past a node only when its operator answers `Continue`.
#[derive(Clone, Copy, Debug, PartialEq, Eq, Structural)]
pub enum NodeOperator {
    /// Explore past every node.
    AlwaysContinue,
    /// Explore only past nodes whose tag preserves the value: an untouched
    /// slot, a plain use, or a reference.
    ValuePreserving,
    /// Stop the instant the given node is visited.
    StopAtTarget(usize),
}

/// The edge-admission validators the queries use.
#[derive(Clone, Copy, Debug, PartialEq, Eq, Structural)]
pub enum EdgeValidator {
    AlwaysTrue,
    /// Admit only equivalence-preserving edges: copies, moves and borrows.
    Equivalent,
}

/// A node tag that denotes the same value as its source: no recorded
/// definition, a plain use, or a reference.
pub open spec fn node_op_preserves_value(op: NodeOp) -> bool {
    op is Nop || op is Use || op is Ref
}

/// An edge that preserves value equivalence: a copy, a move, or a borrow.
pub open spec fn edge_op_preserves_value(op: EdgeOp) -> bool {
    op is Copy || op is Move || op is Mut || op is Immut
}

pub open spec fn node_continues(g: GraphV, n: int, nop: NodeOperator) -> bool {
    match nop {
        NodeOperator::AlwaysContinue => true,
        NodeOperator::ValuePreserving => node_op_preserves_value(g.nodes[n].op),
        NodeOperator::StopAtTarget(t) => n != t as int,
    }
}

pub open spec fn edge_admitted(g: GraphV, e: int, ev: EdgeValidator) -> bool {
    match ev {
        EdgeValidator::AlwaysTrue => true,
        EdgeValidator::Equivalent => edge_op_preserves_value(g.edges[e].op),
    }
}

/// One admitted step from `a` to `b` in the traversal's direction.
pub open spec fn dir_step(g: GraphV, dir: Direction, ev: EdgeValidator, a: int, b: int) -> bool {
    exists|e: int|
        0 <= e < g.edges.len() && #[trigger] edge_admitted(g, e, ev) && (match dir {
            Direction::Upside => g.edges[e].dst == a && g.edges[e].src == b,
            Direction::Downside => g.edges[e].src == a && g.edges[e].dst == b,
            Direction::Both => (g.edges[e].dst == a && g.edges[e].src == b) || (g.edges[e].src
                == a && g.edges[e].dst == b),
        })
}

/// A path the traversal can walk: it starts at `from`, ends at `to`, every
/// node on it is valid, every step is admitted, and every node before the
/// last one lets exploration continue.
pub open spec fn is_dfs_path(
    g: GraphV,
    dir: Direction,
    nop: NodeOperator,
    ev: EdgeValidator,
    p: Seq<int>,
    from: int,
    to: int,
) -> bool {
    &&& p.len() >= 1
    &&& p[0] == from
    &&& p.last() == to
    &&& forall|i: int| 0 <= i < p.len() ==> 0 <= #[trigger] p[i] < g.nodes.len()
    &&& forall|i: int|
        0 <= i < p.len() - 1 ==> node_continues(g, #[trigger] p[i], nop) && dir_step(
            g,
            dir,
            ev,
            p[i],
            p[i + 1],
        )
}

/// What the traversal can visit from `from`.
pub open spec fn dfs_reaches(
    g: GraphV,
    dir: Direction,
    nop: NodeOperator,
    ev: EdgeValidator,
    from: int,
    to: int,
) -> bool {
    exists|p: Seq<int>| is_dfs_path(g, dir, nop, ev, p, from, to)
}

/// Every node reaches itself by the one-node path.
pub proof fn lemma_reaches_self(
    g: GraphV,
    dir: Direction,
    nop: NodeOperator,
    ev: EdgeValidator,
    a: int,
)
    requires
        0 <= a < g.nodes.len(),
    ensures
        dfs_reaches(g, dir, nop, ev, a, a),
{
    let p = seq![a];
    assert(is_dfs_path(g, dir, nop, ev, p, a, a));
}

/// A reached node that lets exploration continue extends any of its admitted
/// steps.
pub proof fn lemma_reaches_step(
    g: GraphV,
    dir: Direction,
    nop: NodeOperator,
    ev: EdgeValidator,
    from: int,
    a: int,
    b: int,
)
    requires
        dfs_reaches(g, dir, nop, ev, from, a),
        node_continues(g, a, nop),
        dir_step(g, dir, ev, a, b),
        0 <= b < g.nodes.len(),
    ensures
        dfs_reaches(g, dir, nop, ev, from, b),
{
    let p = choose|p: Seq<int>| is_dfs_path(g, dir, nop, ev, p, from, a);
    let p2 = p.push(b);
    assert(p2.last() == b);
    assert forall|i: int| 0 <= i < p2.len() - 1 implies node_continues(
        g,
        #[trigger] p2[i],
        nop,
    ) && dir_step(g, dir, ev, p2[i], p2[i + 1]) by {
        if i < p.len() - 1 {
            assert(p2[i] == p[i]);
            assert(p2[i + 1] == p[i + 1]);
        } else {
            assert(p2[i] == p.last());
            assert(p2[i + 1] == b);
        }
    }
    assert(is_dfs_path(g, dir, nop, ev, p2, from, b));
}

/// Once a set of marks is closed under admitted steps out of continuing
/// nodes, it holds every endpoint of every path that starts inside it.
pub proof fn lemma_closed_reaches(
    g: GraphV,
    dir: Direction,
    nop: NodeOperator,
    ev: EdgeValidator,
    seen: Seq<bool>,
    p: Seq<int>,
    from: int,
    to: int,
)
    requires
        seen.len() == g.nodes.len(),
        0 <= from < g.nodes.len(),
        seen[from],
        forall|a: int, b: int|
            0 <= a < g.nodes.len() && seen[a] && node_continues(g, a, nop) && #[trigger] dir_step(
                g,
                dir,
                ev,
                a,
                b,
            ) && 0 <= b < g.nodes.len() ==> seen[b],
        is_dfs_path(g, dir, nop, ev, p, from, to),
    ensures
        seen[to],
    decreases p.len(),
{
    if p.len() == 1 {
        assert(to == from);
    } else {
        let p2 = p.drop_last();
        let a = p[p.len() - 2];
        assert(p2.last() == a);
        assert forall|i: int| 0 <= i < p2.len() - 1 implies node_continues(
            g,
            #[trigger] p2[i],
            nop,
        ) && dir_step(g, dir, ev, p2[i], p2[i + 1]) by {
            assert(p2[i] == p[i]);
            assert(p2[i + 1] == p[i + 1]);
        }
        assert(is_dfs_path(g, dir, nop, ev, p2, from, a));
        lemma_closed_reaches(g, dir, nop, ev, seen, p2, from, a);
        assert(node_continues(g, a, nop) && dir_step(g, dir, ev, a, to));
    }
}

/// A path under the always-continue operator can be cut at the target's
/// first occurrence, giving a path on which the search that stops at the
/// target still walks to it.
pub proof fn lemma_reaches_stop_at_target(
    g: GraphV,
    dir: Direction,
    ev: EdgeValidator,
    from: int,
    t: usize,
    p: Seq<int>,
)
    requires
        is_dfs_path(g, dir, NodeOperator::AlwaysContinue, ev, p, from, t as int),
    ensures
        dfs_reaches(g, dir, NodeOperator::StopAtTarget(t), ev, from, t as int),
    decreases p.len(),
{
    if exists|i: int| 0 <= i < p.len() - 1 && p[i] == t as int {
        let i = choose|i: int| 0 <= i < p.len() - 1 && p[i] == t as int;
        let p2 = p.take(i + 1);
        assert(p2.last() == p[i]);
        assert forall|k: int| 0 <= k < p2.len() - 1 implies node_continues(
            g,
            #[trigger] p2[k],
            NodeOperator::AlwaysContinue,
        ) && dir_step(g, dir, ev, p2[k], p2[k + 1]) by {
            assert(p2[k] == p[k]);
            assert(p2[k + 1] == p[k + 1]);
        }
        assert(is_dfs_path(g, dir, NodeOperator::AlwaysContinue, ev, p2, from, t as int));
        lemma_reaches_stop_at_target(g, dir, ev, from, t, p2);
    } else {
        assert forall|k: int| 0 <= k < p.len() - 1 implies node_continues(
            g,
            #[trigger] p[k],
            NodeOperator::StopAtTarget(t),
        ) && dir_step(g, dir, ev, p[k], p[k + 1]) by {
            assert(p[k] != t as int);
        }
        assert(is_dfs_path(g, dir, NodeOperator::StopAtTarget(t), ev, p, from, t as int));
    }
}

/// A path under any operator is a path under the always-continue operator.
pub proof fn lemma_reaches_always(
    g: GraphV,
    dir: Direction,
    nop: NodeOperator,
    ev: EdgeValidator,
    from: int,
    to: int,
)
    requires
        dfs_reaches(g, dir, nop, ev, from, to),
    ensures
        dfs_reaches(g, dir, NodeOperator::AlwaysContinue, ev, from, to),
{
    let p = choose|p: Seq<int>| is_dfs_path(g, dir, nop, ev, p, from, to);
    assert(is_dfs_path(g, dir, NodeOperator::AlwaysContinue, ev, p, from, to));
}

pub proof fn lemma_contains_drop_last<A>(s: Seq<A>, x: A)
    requires
        s.len() > 0,
        s.contains(x),
        x != s.last(),
    ensures
        s.drop_last().contains(x),
{
    let j = choose|j: int| 0 <= j < s.len() && s[j] == x;
    assert(s.drop_last()[j] == x);
}

pub proof fn lemma_no_duplicates_push<A>(s: Seq<A>, x: A)
    requires
        s.no_duplicates(),
        !s.contains(x),
    ensures
        s.push(x).no_duplicates(),
{
    let s2 = s.push(x);
    assert forall|i: int, j: int|
        0 <= i < s2.len() && 0 <= j < s2.len() && i != j implies s2[i] != s2[j] by {
        if i < s.len() && j < s.len() {
        } else if i == s.len() && j < s.len() {
            if s2[j] == x {
                assert(s[j] == x);
            }
        } else if j == s.len() && i < s.len() {
            if s2[i] == x {
                assert(s[i] == x);
            }
        }
    }
}

/// How many nodes a traversal has not marked yet; the traversal's measure.
pub open spec fn count_unseen(s: Seq<bool>) -> nat
    decreases s.len(),
{
    if s.len() == 0 {
        0
    } else {
        count_unseen(s.drop_last()) + (if s.last() {
            0nat
        } else {
            1nat
        })
    }
}

pub proof fn lemma_count_unseen_update(s: Seq<bool>, i: int)
    requires
        0 <= i < s.len(),
        !s[i],
    ensures
        count_unseen(s.update(i, true)) < count_unseen(s),
    decreases s.len(),
{
    let s2 = s.update(i, true);
    if i == s.len() - 1 {
        assert(s2.drop_last() =~= s.drop_last());
    } else {
        assert(s2.drop_last() =~= s.drop_last().update(i, true));
        lemma_count_unseen_update(s.drop_last(), i);
        assert(s2.last() == s.last());
    }
}

impl Graph {
    /// The validator that admits only equivalence-preserving edges: copies,
    /// moves and both borrows; every structural edge stops the traversal.
    pub fn equivalent_edge_validator(graph: &Graph, idx: EdgeIdx) -> (r: DFSStatus)
        requires
            idx < graph.edges.len(),
        ensures
            (r is Continue) == edge_op_preserves_value(graph@.edges[idx as int].op),
    {
        match &graph.edges[idx].op {
            EdgeOp::Copy => DFSStatus::Continue,
            EdgeOp::Move => DFSStatus::Continue,
            EdgeOp::Mut => DFSStatus::Continue,
            EdgeOp::Immut => DFSStatus::Continue,
            _ => DFSStatus::Stop,
        }
    }

    /// The validator that admits every edge.
    pub fn always_true_edge_validator(_graph: &Graph, _idx: EdgeIdx) -> (r: DFSStatus)
        ensures
            r is Continue,
    {
        DFSStatus::Continue
    }

    /// Answers whether exploration proceeds past node `n` under the given
    /// operator.
    pub(crate) fn node_operator_continues(&self, n: usize, nop: NodeOperator) -> (r: bool)
        requires
            n < self.nodes.len(),
        ensures
            r == node_continues(self@, n as int, nop),
    {
        match nop {
            NodeOperator::AlwaysContinue => true,
            NodeOperator::ValuePreserving => {
                match &self.nodes[n].op {
                    NodeOp::Nop => true,
                    NodeOp::Use => true,
                    NodeOp::Ref => true,
                    _ => false,
                }
            },
            NodeOperator::StopAtTarget(t) => n != t,
        }
    }

    /// Answers whether the traversal may follow edge `e` under the given
    /// validator.
    pub(crate) fn edge_validator_admits(&self, e: EdgeIdx, ev: EdgeValidator) -> (r: bool)
        requires
            e < self.edges.len(),
        ensures
            r == edge_admitted(self@, e as int, ev),
    {
        match ev {
            EdgeValidator::AlwaysTrue => {
                matches!(Graph::always_true_edge_validator(self, e), DFSStatus::Continue)
            },
            EdgeValidator::Equivalent => {
                matches!(Graph::equivalent_edge_validator(self, e), DFSStatus::Continue)
            },
        }
    }

    /// Pushes every admitted neighbor of `nd` (in the traversal's direction)
    /// onto the work stack.
    fn push_neighbors(
        &self,
        nd: usize,
        direction: Direction,
        edge_validator: EdgeValidator,
        stack: &mut Vec<usize>,
    )
        requires
            self@.wf(),
            nd < self.nodes.len(),
        ensures
            forall|x: usize| old(stack)@.contains(x) ==> final(stack)@.contains(x),
            forall|j: int|
                0 <= j < final(stack)@.len() ==> old(stack)@.contains(#[trigger] final(stack)@[j])
                    || ((final(stack)@[j] as int) < self@.nodes.len() && dir_step(
                    self@,
                    direction,
                    edge_validator,
                    nd as int,
                    final(stack)@[j] as int,
                )),
            forall|b: int|
                #[trigger] dir_step(self@, direction, edge_validator, nd as int, b) ==> 0 <= b
                    < self@.nodes.len() && final(stack)@.contains(b as usize),
    {
        let ghost g = self@;
        let ghost stack0 = stack@;
        let process_in = matches!(direction, Direction::Upside | Direction::Both);
        let process_out = matches!(direction, Direction::Downside | Direction::Both);
        if process_in {
            let m = self.nodes[nd].in_edges.len();
            let mut q: usize = 0;
            while q < m
                invariant
                    g == self@,
                    g.wf(),
                    nd < g.nodes.len(),
                    direction is Upside || direction is Both,
                    m == g.nodes[nd as int].in_edges.len(),
                    q <= m,
                    forall|x: usize| stack0.contains(x) ==> stack@.contains(x),
                    forall|j: int|
                        0 <= j < stack@.len() ==> stack0.contains(#[trigger] stack@[j]) || ((
                        stack@[j] as int) < g.nodes.len() && dir_step(
                            g,
                            direction,
                            edge_validator,
                            nd as int,
                            stack@[j] as int,
                        )),
                    forall|k: int|
                        0 <= k < q && edge_admitted(
                            g,
                            #[trigger] g.nodes[nd as int].in_edges[k],
                            edge_validator,
                        ) ==> stack@.contains(
                            g.edges[g.nodes[nd as int].in_edges[k]].src as usize,
                        ),
                decreases m - q,
            {
                let e = self.nodes[nd].in_edges[q];
                proof {
                    assert(g.in_list_ok(nd as int));
                    assert(g.nodes[nd as int].in_edges[q as int] == e as int);
                    assert((e as int) < g.edges.len() && g.edges[e as int].dst == nd as int);
                    assert(g.edge_ok(e as int));
                }
                let adm = self.edge_validator_admits(e, edge_validator);
                if adm {
                    let b = self.edges[e].src;
                    let ghost sprev = stack@;
                    stack.push(b);
                    proof {
                        assert(stack@ == sprev.push(b));
                        assert forall|x: usize| sprev.contains(x) implies stack@.contains(x) by {
                            crate::graph::lemma_contains_push(sprev, b, x);
                        }
                        crate::graph::lemma_contains_push(sprev, b, b);
                        assert(dir_step(g, direction, edge_validator, nd as int, b as int)) by {
                            assert(edge_admitted(g, e as int, edge_validator));
                            assert(g.edges[e as int].src == b as int);
                        }
                    }
                }
                q = q + 1;
            }
        }
        let ghost stack1 = stack@;
        if process_out {
            let m = self.nodes[nd].out_edges.len();
            let mut q: usize = 0;
            while q < m
                invariant
                    g == self@,
                    g.wf(),
                    nd < g.nodes.len(),
                    direction is Downside || direction is Both,
                    m == g.nodes[nd as int].out_edges.len(),
                    q <= m,
                    forall|x: usize| stack1.contains(x) ==> stack@.contains(x),
                    forall|j: int|
                        0 <= j < stack@.len() ==> stack1.contains(#[trigger] stack@[j]) || ((
                        stack@[j] as int) < g.nodes.len() && dir_step(
                            g,
                            direction,
                            edge_validator,
                            nd as int,
                            stack@[j] as int,
                        )),
                    forall|k: int|
                        0 <= k < q && edge_admitted(
                            g,
                            #[trigger] g.nodes[nd as int].out_edges[k],
                            edge_validator,
                        ) ==> stack@.contains(
                            g.edges[g.nodes[nd as int].out_edges[k]].dst as usize,
                        ),
                decreases m - q,
            {
                let e = self.nodes[nd].out_edges[q];
                proof {
                    assert(g.out_list_ok(nd as int));
                    assert(g.nodes[nd as int].out_edges[q as int] == e as int);
                    assert((e as int) < g.edges.len() && g.edges[e as int].src == nd as int);
                    assert(g.edge_ok(e as int));
                }
                let adm = self.edge_validator_admits(e, edge_validator);
                if adm {
                    let b = self.edges[e].dst;
                    let ghost sprev = stack@;
                    stack.push(b);
                    proof {
                        assert(stack@ == sprev.push(b));
                        assert forall|x: usize| sprev.contains(x) implies stack@.contains(x) by {
                            crate::graph::lemma_contains_push(sprev, b, x);
                        }
                        crate::graph::lemma_contains_push(sprev, b, b);
                        assert(dir_step(g, direction, edge_validator, nd as int, b as int)) by {
                            assert(edge_admitted(g, e as int, edge_validator));
                            assert(g.edges[e as int].dst == b as int);
                        }
                    }
                }
                q = q + 1;
            }
        }
        proof {
            assert forall|j: int|
                0 <= j < stack@.len() implies stack0.contains(#[trigger] stack@[j]) || ((stack@[j]
                as int) < g.nodes.len() && dir_step(
                g,
                direction,
                edge_validator,
                nd as int,
                stack@[j] as int,
            )) by {
                if stack1.contains(stack@[j]) {
                    let jj = choose|jj: int| 0 <= jj < stack1.len() && stack1[jj] == stack@[j];
                    assert(stack0.contains(stack1[jj]) || ((stack1[jj] as int) < g.nodes.len()
                        && dir_step(g, direction, edge_validator, nd as int, stack1[jj] as int)));
                }
            }
            assert forall|b: int|
                #[trigger] dir_step(self@, direction, edge_validator, nd as int, b) implies 0 <= b
                < self@.nodes.len() && stack@.contains(b as usize) by {
                let e = choose|e: int|
                    0 <= e < g.edges.len() && #[trigger] edge_admitted(g, e, edge_validator) && (
                    match direction {
                        Direction::Upside => g.edges[e].dst == nd as int && g.edges[e].src == b,
                        Direction::Downside => g.edges[e].src == nd as int && g.edges[e].dst == b,
                        Direction::Both => (g.edges[e].dst == nd as int && g.edges[e].src == b)
                            || (g.edges[e].src == nd as int && g.edges[e].dst == b),
                    });
                assert(g.edge_ok(e));
                if g.edges[e].dst == nd as int && g.edges[e].src == b && (direction is Upside
                    || direction is Both) {
                    assert(g.nodes[g.edges[e].dst].in_edges.contains(e));
                    let k = choose|k: int|
                        0 <= k < g.nodes[nd as int].in_edges.len()
                            && g.nodes[nd as int].in_edges[k] == e;
                    assert(edge_admitted(g, g.nodes[nd as int].in_edges[k], edge_validator));
                    assert(stack1.contains(g.edges[e].src as usize));
                    assert(stack@.contains(g.edges[e].src as usize));
                } else {
                    assert(g.nodes[g.edges[e].src].out_edges.contains(e));
                    let k = choose|k: int|
                        0 <= k < g.nodes[nd as int].out_edges.len()
                            && g.nodes[nd as int].out_edges[k] == e;
                    assert(edge_admitted(g, g.nodes[nd as int].out_edges[k], edge_validator));
                    assert(stack@.contains(g.edges[e].dst as usize));
                }
            }
        }
    }

    /// The generalized depth-first traversal, as one iterative search over an
    /// explicit work stack with a visited marker. Starting at `now`, it
    /// visits nodes along admitted edges in the given direction, exploring
    /// past a node only while the node operator answers to continue. With
    /// `traverse_all` the search is exhaustive: the visited list holds
    /// exactly the nodes the operator and validator let it walk to. Without
    /// it, the first node the operator stops at halts the entire search, so
    /// the visited list is either still exhaustive or ends at such a
    /// stopping node it holds — under the stop-at-target operator, for which
    /// the short-circuit mode is meant, it therefore holds the target
    /// exactly when the target can be walked to.
    pub fn dfs(
        &self,
        now: usize,
        direction: Direction,
        node_operator: NodeOperator,
        edge_validator: EdgeValidator,
        traverse_all: bool,
    ) -> (visited: Vec<usize>)
        requires
            self@.wf(),
            now < self.nodes.len(),
        ensures
            visited@.no_duplicates(),
            forall|j: int| 0 <= j < visited@.len() ==> (#[trigger] visited@[j]) < self.nodes.len(),
            visited@.contains(now),
            forall|n: usize|
                #[trigger] visited@.contains(n) ==> dfs_reaches(
                    self@,
                    direction,
                    node_operator,
                    edge_validator,
                    now as int,
                    n as int,
                ),
            traverse_all ==> (forall|n: usize|
                n < self.nodes.len() && dfs_reaches(
                    self@,
                    direction,
                    node_operator,
                    edge_validator,
                    now as int,
                    n as int,
                ) ==> #[trigger] visited@.contains(n)),
            !traverse_all ==> ((forall|n: usize|
                n < self.nodes.len() && dfs_reaches(
                    self@,
                    direction,
                    node_operator,
                    edge_validator,
                    now as int,
                    n as int,
                ) ==> #[trigger] visited@.contains(n)) || (exists|n: usize|
                #[trigger] visited@.contains(n) && !node_continues(
                    self@,
                    n as int,
                    node_operator,
                ))),
            node_operator matches NodeOperator::StopAtTarget(t) ==> (!traverse_all
                ==> (visited@.contains(t) <==> dfs_reaches(
                self@,
                direction,
                node_operator,
                edge_validator,
                now as int,
                t as int,
            ))),
    {
        let ghost g = self@;
        let n_nodes = self.nodes.len();
        let mut seen: Vec<bool> = Vec::new();
        let mut k: usize = 0;
        while k < n_nodes
            invariant
                k <= n_nodes,
                seen@.len() == k,
                forall|i: int| 0 <= i < k ==> !(#[trigger] seen@[i]),
            decreases n_nodes - k,
        {
            seen.push(false);
            k = k + 1;
        }
        let mut visited: Vec<usize> = Vec::new();
        let mut stack: Vec<usize> = Vec::new();
        stack.push(now);
        let mut halted = false;
        proof {
            lemma_reaches_self(g, direction, node_operator, edge_validator, now as int);
            assert(stack@ =~= seq![now]);
        }
        while !halted && stack.len() > 0
            invariant
                g == self@,
                g.wf(),
                now < g.nodes.len(),
                g.nodes.len() <= usize::MAX,
                seen@.len() == g.nodes.len(),
                visited@.no_duplicates(),
                forall|j: int|
                    0 <= j < visited@.len() ==> (#[trigger] visited@[j]) < g.nodes.len(),
                forall|ni: int|
                    0 <= ni < seen@.len() ==> ((#[trigger] seen@[ni]) <==> visited@.contains(
                        ni as usize,
                    )),
                forall|j: int|
                    0 <= j < stack@.len() ==> (#[trigger] stack@[j]) < g.nodes.len()
                        && dfs_reaches(
                        g,
                        direction,
                        node_operator,
                        edge_validator,
                        now as int,
                        stack@[j] as int,
                    ),
                forall|ni: int|
                    0 <= ni < seen@.len() && #[trigger] seen@[ni] ==> dfs_reaches(
                        g,
                        direction,
                        node_operator,
                        edge_validator,
                        now as int,
                        ni,
                    ),
                forall|a: int, b: int|
                    0 <= a < g.nodes.len() && seen@[a] && node_continues(g, a, node_operator)
                        && #[trigger] dir_step(g, direction, edge_validator, a, b) ==> 0 <= b
                        < g.nodes.len() && (seen@[b] || stack@.contains(b as usize)),
                halted ==> !traverse_all,
                halted ==> exists|ni: int|
                    0 <= ni < g.nodes.len() && #[trigger] seen@[ni] && !node_continues(
                        g,
                        ni,
                        node_operator,
                    ),
                visited@.len() == 0 ==> (!halted && stack@ == seq![now]),
                visited@.len() > 0 ==> seen@[now as int],
            decreases count_unseen(seen@), stack@.len(),
        {
            let ghost stack_pre = stack@;
            let nd = stack.pop().unwrap();
            proof {
                assert(stack@ == stack_pre.drop_last());
                assert(nd == stack_pre.last());
                assert(stack_pre[stack_pre.len() - 1] == nd);
            }
            if !seen[nd] {
                let ghost seen_pre = seen@;
                let ghost visited_pre = visited@;
                seen[nd] = true;
                visited.push(nd);
                proof {
                    lemma_count_unseen_update(seen_pre, nd as int);
                    assert(!visited_pre.contains(nd));
                    lemma_no_duplicates_push(visited_pre, nd);
                    crate::graph::lemma_contains_push(visited_pre, nd, nd);
                    assert forall|ni: int|
                        0 <= ni < seen@.len() implies ((#[trigger] seen@[ni])
                        <==> visited@.contains(ni as usize)) by {
                        crate::graph::lemma_contains_push(visited_pre, nd, ni as usize);
                        if ni != nd as int && visited@.contains(ni as usize) {
                            let j = choose|j: int|
                                0 <= j < visited@.len() && visited@[j] == ni as usize;
                            if j < visited_pre.len() {
                                assert(visited_pre.contains(ni as usize));
                            } else {
                                assert(visited@[j] == nd);
                                assert(ni == nd as int);
                            }
                        }
                    }
                }
                let cont = self.node_operator_continues(nd, node_operator);
                if cont {
                    let ghost stack_mid = stack@;
                    self.push_neighbors(nd, direction, edge_validator, &mut stack);
                    proof {
                        assert forall|j: int|
                            0 <= j < stack@.len() implies (#[trigger] stack@[j]) < g.nodes.len()
                            && dfs_reaches(
                            g,
                            direction,
                            node_operator,
                            edge_validator,
                            now as int,
                            stack@[j] as int,
                        ) by {
                            if stack_mid.contains(stack@[j]) {
                                let jj = choose|jj: int|
                                    0 <= jj < stack_mid.len() && stack_mid[jj] == stack@[j];
                                assert(stack_pre[jj] == stack@[j]);
                            } else {
                                assert(dir_step(
                                    g,
                                    direction,
                                    edge_validator,
                                    nd as int,
                                    stack@[j] as int,
                                ));
                                lemma_reaches_step(
                                    g,
                                    direction,
                                    node_operator,
                                    edge_validator,
                                    now as int,
                                    nd as int,
                                    stack@[j] as int,
                                );
                            }
                        }
                        assert forall|a: int, b: int|
                            0 <= a < g.nodes.len() && seen@[a] && node_continues(
                                g,
                                a,
                                node_operator,
                            ) && #[trigger] dir_step(g, direction, edge_validator, a, b) implies 0
                            <= b < g.nodes.len() && (seen@[b] || stack@.contains(b as usize)) by {
                            if a == nd as int {
                                assert(stack@.contains(b as usize));
                            } else {
                                assert(seen_pre[a]);
                                assert(0 <= b < g.nodes.len() && (seen_pre[b]
                                    || stack_pre.contains(b as usize)));
                                if !seen@[b] {
                                    assert(!seen_pre[b]);
                                    assert(stack_pre.contains(b as usize));
                                    assert(b != nd as int);
                                    lemma_contains_drop_last(stack_pre, b as usize);
                                    assert(stack_mid.contains(b as usize));
                                }
                            }
                        }
                    }
                } else {
                    proof {
                        assert forall|a: int, b: int|
                            0 <= a < g.nodes.len() && seen@[a] && node_continues(
                                g,
                                a,
                                node_operator,
                            ) && #[trigger] dir_step(g, direction, edge_validator, a, b) implies 0
                            <= b < g.nodes.len() && (seen@[b] || stack@.contains(b as usize)) by {
                            assert(a != nd as int);
                            assert(seen_pre[a]);
                            assert(0 <= b < g.nodes.len() && (seen_pre[b] || stack_pre.contains(
                                b as usize,
                            )));
                            if !seen@[b] {
                                assert(stack_pre.contains(b as usize));
                                assert(b != nd as int);
                                lemma_contains_drop_last(stack_pre, b as usize);
                            }
                        }
                    }
                    if !traverse_all {
                        halted = true;
                        proof {
                            assert(seen@[nd as int] && !node_continues(
                                g,
                                nd as int,
                                node_operator,
                            ));
                        }
                    }
                }
            } else {
                proof {
                    assert forall|a: int, b: int|
                        0 <= a < g.nodes.len() && seen@[a] && node_continues(g, a, node_operator)
                            && #[trigger] dir_step(g, direction, edge_validator, a, b) implies 0
                        <= b < g.nodes.len() && (seen@[b] || stack@.contains(b as usize)) by {
                        assert(0 <= b < g.nodes.len() && (seen@[b] || stack_pre.contains(
                            b as usize,
                        )));
                        if !seen@[b] {
                            assert(stack_pre.contains(b as usize));
                            assert(b as usize != nd);
                            lemma_contains_drop_last(stack_pre, b as usize);
                        }
                    }
                }
            }
        }
        proof {
            assert(visited@.len() > 0);
            assert(seen@[now as int]);
            assert(visited@.contains(now));
            assert forall|n: usize| #[trigger] visited@.contains(n) implies dfs_reaches(
                g,
                direction,
                node_operator,
                edge_validator,
                now as int,
                n as int,
            ) by {
                let j = choose|j: int| 0 <= j < visited@.len() && visited@[j] == n;
                assert((n as int) < g.nodes.len());
                assert(seen@[n as int]);
            }
            if !halted {
                assert(stack@.len() == 0);
                assert forall|a: int, b: int|
                    0 <= a < g.nodes.len() && seen@[a] && node_continues(g, a, node_operator)
                        && #[trigger] dir_step(g, direction, edge_validator, a, b) && 0 <= b
                        < g.nodes.len() implies seen@[b] by {
                    assert(seen@[b] || stack@.contains(b as usize));
                    if stack@.contains(b as usize) {
                        let j = choose|j: int|
                            0 <= j < stack@.len() && stack@[j] == b as usize;
                        assert(false);
                    }
                }
                assert forall|n: usize|
                    n < g.nodes.len() && dfs_reaches(
                        g,
                        direction,
                        node_operator,
                        edge_validator,
                        now as int,
                        n as int,
                    ) implies visited@.contains(n) by {
                    let p = choose|p: Seq<int>|
                        is_dfs_path(
                            g,
                            direction,
                            node_operator,
                            edge_validator,
                            p,
                            now as int,
                            n as int,
                        );
                    lemma_closed_reaches(
                        g,
                        direction,
                        node_operator,
                        edge_validator,
                        seen@,
                        p,
                        now as int,
                        n as int,
                    );
                }
            }
            if halted {
                let ni = choose|ni: int|
                    0 <= ni < g.nodes.len() && #[trigger] seen@[ni] && !node_continues(
                        g,
                        ni,
                        node_operator,
                    );
                assert(visited@.contains(ni as usize) && !node_continues(
                    g,
                    (ni as usize) as int,
                    node_operator,
                ));
            }
            match node_operator {
                NodeOperator::StopAtTarget(t) => {
                    if !traverse_all {
                        if halted {
                            let ni = choose|ni: int|
                                0 <= ni < g.nodes.len() && #[trigger] seen@[ni]
                                    && !node_continues(g, ni, node_operator);
                            assert(ni == t as int);
                            assert(visited@.contains(t));
                        } else {
                            if dfs_reaches(
                                g,
                                direction,
                                node_operator,
                                edge_validator,
                                now as int,
                                t as int,
                            ) {
                                let p = choose|p: Seq<int>|
                                    is_dfs_path(
                                        g,
                                        direction,
                                        node_operator,
                                        edge_validator,
                                        p,
                                        now as int,
                                        t as int,
                                    );
                                assert(p.last() == t as int && (t as int) < g.nodes.len());
                                lemma_closed_reaches(
                                    g,
                                    direction,
                                    node_operator,
                                    edge_validator,
                                    seen@,
                                    p,
                                    now as int,
                                    t as int,
                                );
                                assert(visited@.contains(t));
                            }
                        }
                    }
                },
                _ => {},
            }
        }
        visited
    }
}

} // verus!
