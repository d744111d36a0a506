//! The query layer over a built graph: value-equivalence classes, pairwise
//! reachability, the parameter-to-return dependency vector, and positional
//! neighbor accessors. All three analyses ride on the one traversal engine.

use vstd::prelude::*;

use crate::graph::{Graph, GraphV};
use crate::traversal::{
    count_unseen, dfs_reaches, dir_step, edge_admitted, is_dfs_path, lemma_reaches_always,
    lemma_reaches_self, lemma_reaches_stop_at_target, node_continues, node_op_preserves_value,
    Direction, EdgeValidator, NodeOperator,
};

verus! {

/// Slot `b` can be walked to from slot `a` along any edges, in either
/// direction of search: first following outgoing edges, then incoming ones.
pub open spec fn spec_connected(g: GraphV, a: int, b: int) -> bool {
    ||| dfs_reaches(
        g,
        Direction::Downside,
        NodeOperator::AlwaysContinue,
        EdgeValidator::AlwaysTrue,
        a,
        b,
    )
    ||| dfs_reaches(
        g,
        Direction::Upside,
        NodeOperator::AlwaysContinue,
        EdgeValidator::AlwaysTrue,
        a,
        b,
    )
}

/// No chain of equivalence-preserving edges through value-preserving nodes
/// returns to its start: the acyclicity the model assumes along
/// value-preserving edges. Nothing enforces it; the queries end either way,
/// and where it holds the equivalence root is furthest upstream.
pub open spec fn equiv_upside_acyclic(g: GraphV) -> bool {
    forall|p: Seq<int>, a: int|
        p.len() >= 2 ==> !(#[trigger] is_dfs_path(
            g,
            Direction::Upside,
            NodeOperator::ValuePreserving,
            EdgeValidator::Equivalent,
            p,
            a,
            a,
        ))
}

/// An upside path through value-preserving nodes and equivalence-preserving
/// edges runs backwards as a downside path: each followed edge is simply
/// walked in the other direction.
pub proof fn lemma_upside_path_reverses(
    g: GraphV,
    nop: NodeOperator,
    ev: EdgeValidator,
    p: Seq<int>,
    from: int,
    to: int,
)
    requires
        is_dfs_path(g, Direction::Upside, nop, ev, p, from, to),
        node_continues(g, to, nop),
    ensures
        dfs_reaches(g, Direction::Downside, nop, ev, to, from),
{
    let n = p.len() as int;
    let q = Seq::new(p.len(), |i: int| p[n - 1 - i]);
    assert(q[0] == to);
    assert(q.last() == from);
    assert forall|i: int| 0 <= i < q.len() - 1 implies node_continues(
        g,
        #[trigger] q[i],
        nop,
    ) && dir_step(g, Direction::Downside, ev, q[i], q[i + 1]) by {
        let k = n - 2 - i;
        assert(q[i] == p[k + 1]);
        assert(q[i + 1] == p[k]);
        assert(node_continues(g, p[k], nop) && dir_step(g, Direction::Upside, ev, p[k], p[k + 1]));
        if k + 1 == n - 1 {
            assert(node_continues(g, q[i], nop));
        } else {
            assert(node_continues(g, p[k + 1], nop));
        }
        let e = choose|e: int|
            0 <= e < g.edges.len() && #[trigger] crate::traversal::edge_admitted(g, e, ev)
                && g.edges[e].dst == p[k] && g.edges[e].src == p[k + 1];
        assert(crate::traversal::edge_admitted(g, e, ev));
        assert(dir_step(g, Direction::Downside, ev, p[k + 1], p[k]));
    }
    assert(is_dfs_path(g, Direction::Downside, nop, ev, q, to, from));
}

/// Whether a list holds a given slot id.
fn list_contains(v: &Vec<usize>, x: usize) -> (r: bool)
    ensures
        r == v@.contains(x),
{
    let mut i: usize = 0;
    while i < v.len()
        invariant
            i <= v@.len(),
            forall|j: int| 0 <= j < i ==> v@[j] != x,
        decreases v@.len() - i,
    {
        if v[i] == x {
            return true;
        }
        i = i + 1;
    }
    false
}

impl Graph {
    /// Looks for one equivalence-preserving step upstream out of `from`: an
    /// admitted incoming edge whose source is value-preserving and not
    /// walked yet.
    fn find_upstream_step(&self, from: usize, walked: &Vec<bool>) -> (next: Option<usize>)
        requires
            self@.wf(),
            from < self.nodes.len(),
            walked@.len() == self@.nodes.len(),
        ensures
            match next {
                Option::Some(b) => {
                    &&& (b as int) < self@.nodes.len()
                    &&& !walked@[b as int]
                    &&& node_op_preserves_value(self@.nodes[b as int].op)
                    &&& dir_step(
                        self@,
                        Direction::Upside,
                        EdgeValidator::Equivalent,
                        from as int,
                        b as int,
                    )
                },
                Option::None => forall|b: int|
                    #[trigger] dir_step(
                        self@,
                        Direction::Upside,
                        EdgeValidator::Equivalent,
                        from as int,
                        b,
                    ) ==> !(node_op_preserves_value(self@.nodes[b].op) && !walked@[b]),
            },
    {
        let ghost g = self@;
        let m = self.nodes[from].in_edges.len();
        let mut next: Option<usize> = Option::None;
        let mut q: usize = 0;
        while q < m
            invariant
                g == self@,
                g.wf(),
                from < g.nodes.len(),
                walked@.len() == g.nodes.len(),
                m == g.nodes[from as int].in_edges.len(),
                q <= m,
                match next {
                    Option::Some(b) => {
                        &&& (b as int) < g.nodes.len()
                        &&& !walked@[b as int]
                        &&& node_op_preserves_value(g.nodes[b as int].op)
                        &&& dir_step(
                            g,
                            Direction::Upside,
                            EdgeValidator::Equivalent,
                            from as int,
                            b as int,
                        )
                    },
                    Option::None => forall|k: int|
                        0 <= k < q && edge_admitted(
                            g,
                            #[trigger] g.nodes[from as int].in_edges[k],
                            EdgeValidator::Equivalent,
                        ) ==> !(node_op_preserves_value(
                            g.nodes[g.edges[g.nodes[from as int].in_edges[k]].src].op,
                        ) && !walked@[g.edges[g.nodes[from as int].in_edges[k]].src]),
                },
            decreases m - q,
        {
            if next.is_none() {
                let e = self.nodes[from].in_edges[q];
                proof {
                    assert(g.in_list_ok(from as int));
                    assert(g.nodes[from as int].in_edges[q as int] == e as int);
                    assert((e as int) < g.edges.len() && g.edges[e as int].dst == from as int);
                    assert(g.edge_ok(e as int));
                }
                let adm = self.edge_validator_admits(e, EdgeValidator::Equivalent);
                if adm {
                    let b = self.edges[e].src;
                    let keeps = self.node_operator_continues(b, NodeOperator::ValuePreserving);
                    if keeps && !walked[b] {
                        next = Option::Some(b);
                        proof {
                            assert(dir_step(
                                g,
                                Direction::Upside,
                                EdgeValidator::Equivalent,
                                from as int,
                                b as int,
                            )) by {
                                assert(edge_admitted(g, e as int, EdgeValidator::Equivalent));
                                assert(g.edges[e as int].src == b as int);
                            }
                        }
                    }
                }
            }
            q = q + 1;
        }
        proof {
            match next {
                Option::None => {
                    assert forall|b: int|
                        #[trigger] dir_step(
                            g,
                            Direction::Upside,
                            EdgeValidator::Equivalent,
                            from as int,
                            b,
                        ) implies !(node_op_preserves_value(g.nodes[b].op) && !walked@[b]) by {
                        let e = choose|e: int|
                            0 <= e < g.edges.len() && #[trigger] edge_admitted(
                                g,
                                e,
                                EdgeValidator::Equivalent,
                            ) && g.edges[e].dst == from as int && g.edges[e].src == b;
                        assert(g.edge_ok(e));
                        assert(g.nodes[g.edges[e].dst].in_edges.contains(e));
                        let k = choose|k: int|
                            0 <= k < g.nodes[from as int].in_edges.len()
                                && g.nodes[from as int].in_edges[k] == e;
                        assert(edge_admitted(
                            g,
                            g.nodes[from as int].in_edges[k],
                            EdgeValidator::Equivalent,
                        ));
                    }
                },
                Option::Some(_) => {},
            }
        }
        next
    }

    /// All slots that denote the same value as `local` through renaming and
    /// borrowing alone. The search first walks upstream from `local` along
    /// equivalence-preserving edges to a furthest value-preserving slot —
    /// the root, out of which no admitted edge leads further up to a
    /// value-preserving slot — then collects every value-preserving slot the
    /// root's downstream renaming chains cover. A slot written by any
    /// computation bounds the class and is not part of it. The walk marks
    /// the slots it passes, so it ends even on a cyclic renaming chain,
    /// which the model assumes away but nothing enforces.
    pub fn collect_equivalent_locals(&self, local: usize) -> (r: Vec<usize>)
        requires
            self@.wf(),
            local < self.nodes.len(),
        ensures
            r@.no_duplicates(),
            forall|j: int| 0 <= j < r@.len() ==> (#[trigger] r@[j]) < self.nodes.len(),
            !node_op_preserves_value(self@.nodes[local as int].op) ==> r@
                == Seq::<usize>::empty(),
            node_op_preserves_value(self@.nodes[local as int].op) ==> (exists|root: usize|
                {
                    &&& (root as int) < self@.nodes.len()
                    &&& node_op_preserves_value(self@.nodes[root as int].op)
                    &&& dfs_reaches(
                        self@,
                        Direction::Upside,
                        NodeOperator::ValuePreserving,
                        EdgeValidator::Equivalent,
                        local as int,
                        root as int,
                    )
                    &&& (equiv_upside_acyclic(self@) ==> (forall|b: int|
                        !(#[trigger] dir_step(
                            self@,
                            Direction::Upside,
                            EdgeValidator::Equivalent,
                            root as int,
                            b,
                        ) && node_op_preserves_value(self@.nodes[b].op))))
                    &&& (forall|n: usize|
                        #[trigger] r@.contains(n) <==> ((n as int) < self@.nodes.len()
                            && node_op_preserves_value(self@.nodes[n as int].op) && dfs_reaches(
                            self@,
                            Direction::Downside,
                            NodeOperator::ValuePreserving,
                            EdgeValidator::Equivalent,
                            root as int,
                            n as int,
                        )))
                    &&& r@.contains(local)
                    &&& r@.contains(root)
                }),
    {
        let ghost g = self@;
        let mut root = local;
        let ghost mut path: Seq<int> = seq![local as int];
        proof {
            assert(path.len() == 1);
            assert(path[0] == local as int);
            assert(is_dfs_path(
                g,
                Direction::Upside,
                NodeOperator::ValuePreserving,
                EdgeValidator::Equivalent,
                path,
                local as int,
                local as int,
            ));
        }
        let keeps_local = self.node_operator_continues(local, NodeOperator::ValuePreserving);
        if keeps_local {
            let n_nodes = self.nodes.len();
            let mut walked: Vec<bool> = Vec::new();
            let mut k: usize = 0;
            while k < n_nodes
                invariant
                    k <= n_nodes,
                    walked@.len() == k,
                    forall|i: int| 0 <= i < k ==> !(#[trigger] walked@[i]),
                decreases n_nodes - k,
            {
                walked.push(false);
                k = k + 1;
            }
            walked[local] = true;
            proof {
                assert(path.contains(local as int));
                assert forall|ni: int|
                    0 <= ni < walked@.len() implies ((#[trigger] walked@[ni]) <==> path.contains(
                    ni,
                )) by {
                    if path.contains(ni) {
                        let j = choose|j: int| 0 <= j < path.len() && path[j] == ni;
                        assert(ni == local as int);
                    }
                }
            }
            let mut done = false;
            while !done
                invariant
                    g == self@,
                    g.wf(),
                    local < g.nodes.len(),
                    root < g.nodes.len(),
                    walked@.len() == g.nodes.len(),
                    node_op_preserves_value(g.nodes[local as int].op),
                    node_op_preserves_value(g.nodes[root as int].op),
                    forall|i: int|
                        0 <= i < path.len() ==> node_op_preserves_value(
                            g.nodes[#[trigger] path[i]].op,
                        ),
                    is_dfs_path(
                        g,
                        Direction::Upside,
                        NodeOperator::ValuePreserving,
                        EdgeValidator::Equivalent,
                        path,
                        local as int,
                        root as int,
                    ),
                    forall|ni: int|
                        0 <= ni < walked@.len() ==> ((#[trigger] walked@[ni]) <==> path.contains(
                            ni,
                        )),
                    done ==> (forall|b: int|
                        #[trigger] dir_step(
                            g,
                            Direction::Upside,
                            EdgeValidator::Equivalent,
                            root as int,
                            b,
                        ) ==> !(node_op_preserves_value(g.nodes[b].op) && !walked@[b])),
                decreases count_unseen(walked@), (if done {
                    0int
                } else {
                    1int
                }),
            {
                let nxt = self.find_upstream_step(root, &walked);
                match nxt {
                    Option::Some(b) => {
                        let ghost path_pre = path;
                        proof {
                            crate::traversal::lemma_count_unseen_update(walked@, b as int);
                        }
                        walked[b] = true;
                        proof {
                            path = path.push(b as int);
                            assert(path.last() == b as int);
                            assert forall|i: int|
                                0 <= i < path.len() - 1 implies node_continues(
                                g,
                                #[trigger] path[i],
                                NodeOperator::ValuePreserving,
                            ) && dir_step(
                                g,
                                Direction::Upside,
                                EdgeValidator::Equivalent,
                                path[i],
                                path[i + 1],
                            ) by {
                                if i < path_pre.len() - 1 {
                                    assert(path[i] == path_pre[i]);
                                    assert(path[i + 1] == path_pre[i + 1]);
                                } else {
                                    assert(path[i] == root as int);
                                    assert(path[i + 1] == b as int);
                                }
                            }
                            assert(is_dfs_path(
                                g,
                                Direction::Upside,
                                NodeOperator::ValuePreserving,
                                EdgeValidator::Equivalent,
                                path,
                                local as int,
                                b as int,
                            ));
                            assert forall|ni: int|
                                0 <= ni < walked@.len() implies ((#[trigger] walked@[ni])
                                <==> path.contains(ni)) by {
                                crate::graph::lemma_contains_push(path_pre, b as int, ni);
                                if ni != b as int && path.contains(ni) {
                                    let j = choose|j: int|
                                        0 <= j < path.len() && path[j] == ni;
                                    if j < path_pre.len() {
                                        assert(path_pre.contains(ni));
                                    } else {
                                        assert(false);
                                    }
                                }
                            }
                        }
                        root = b;
                    },
                    Option::None => {
                        done = true;
                    },
                }
            }
            proof {
                if equiv_upside_acyclic(g) {
                    assert forall|b: int|
                        !(#[trigger] dir_step(
                            g,
                            Direction::Upside,
                            EdgeValidator::Equivalent,
                            root as int,
                            b,
                        ) && node_op_preserves_value(g.nodes[b].op)) by {
                        if dir_step(g, Direction::Upside, EdgeValidator::Equivalent, root as int, b)
                            && node_op_preserves_value(g.nodes[b].op) {
                            let e = choose|e: int|
                                0 <= e < g.edges.len() && #[trigger] edge_admitted(
                                    g,
                                    e,
                                    EdgeValidator::Equivalent,
                                ) && g.edges[e].dst == root as int && g.edges[e].src == b;
                            assert(g.edge_ok(e));
                            assert(walked@[b]);
                            assert(path.contains(b));
                            let i = choose|i: int| 0 <= i < path.len() && path[i] == b;
                            let suffix = path.subrange(i, path.len() as int);
                            let cyc = suffix.push(b);
                            assert(cyc[0] == path[i]);
                            assert(cyc.last() == b);
                            assert(cyc.len() >= 2);
                            assert forall|j: int|
                                0 <= j < cyc.len() implies 0 <= #[trigger] cyc[j] && cyc[j]
                                < g.nodes.len() by {
                                if j < suffix.len() {
                                    assert(cyc[j] == path[i + j]);
                                }
                            }
                            assert forall|j: int|
                                0 <= j < cyc.len() - 1 implies node_continues(
                                g,
                                #[trigger] cyc[j],
                                NodeOperator::ValuePreserving,
                            ) && dir_step(
                                g,
                                Direction::Upside,
                                EdgeValidator::Equivalent,
                                cyc[j],
                                cyc[j + 1],
                            ) by {
                                if j < suffix.len() - 1 {
                                    assert(cyc[j] == path[i + j]);
                                    assert(cyc[j + 1] == path[i + j + 1]);
                                    assert(node_continues(
                                        g,
                                        path[i + j],
                                        NodeOperator::ValuePreserving,
                                    ) && dir_step(
                                        g,
                                        Direction::Upside,
                                        EdgeValidator::Equivalent,
                                        path[i + j],
                                        path[i + j + 1],
                                    ));
                                } else {
                                    assert(cyc[j] == path.last());
                                    assert(cyc[j + 1] == b);
                                }
                            }
                            assert(is_dfs_path(
                                g,
                                Direction::Upside,
                                NodeOperator::ValuePreserving,
                                EdgeValidator::Equivalent,
                                cyc,
                                b,
                                b,
                            ));
                            assert(false);
                        }
                    }
                }
            }
        }
        let down = self.dfs(
            root,
            Direction::Downside,
            NodeOperator::ValuePreserving,
            EdgeValidator::Equivalent,
            true,
        );
        let mut r: Vec<usize> = Vec::new();
        let mut k: usize = 0;
        while k < down.len()
            invariant
                g == self@,
                g.wf(),
                k <= down@.len(),
                root < g.nodes.len(),
                down@.no_duplicates(),
                forall|j: int| 0 <= j < down@.len() ==> (#[trigger] down@[j]) < g.nodes.len(),
                r@.no_duplicates(),
                forall|j: int| 0 <= j < r@.len() ==> (#[trigger] r@[j]) < g.nodes.len(),
                forall|n: usize|
                    #[trigger] r@.contains(n) <==> (exists|j: int|
                        0 <= j < k && down@[j] == n && node_op_preserves_value(
                            g.nodes[n as int].op,
                        )),
            decreases down@.len() - k,
        {
            let cand = down[k];
            let keeps = self.node_operator_continues(cand, NodeOperator::ValuePreserving);
            if keeps {
                let ghost r_pre = r@;
                proof {
                    if r_pre.contains(cand) {
                        let j = choose|j: int| 0 <= j < k && down@[j] == cand;
                        assert(down@[j] == down@[k as int]);
                        assert(false);
                    }
                }
                proof {
                    crate::traversal::lemma_no_duplicates_push(r_pre, cand);
                }
                r.push(cand);
                proof {
                    assert forall|n: usize| #[trigger] r@.contains(n) implies (exists|j: int|
                        0 <= j < k + 1 && down@[j] == n && node_op_preserves_value(
                            g.nodes[n as int].op,
                        )) by {
                        crate::graph::lemma_contains_push(r_pre, cand, n);
                        let jx = choose|jx: int| 0 <= jx < r@.len() && r@[jx] == n;
                        if jx < r_pre.len() {
                            assert(r_pre.contains(n));
                        } else {
                            assert(n == cand);
                            assert(down@[k as int] == n);
                        }
                    }
                    assert forall|n: usize|
                        (exists|j: int|
                            0 <= j < k + 1 && down@[j] == n && node_op_preserves_value(
                                g.nodes[n as int].op,
                            )) implies #[trigger] r@.contains(n) by {
                        let j = choose|j: int|
                            0 <= j < k + 1 && down@[j] == n && node_op_preserves_value(
                                g.nodes[n as int].op,
                            );
                        crate::graph::lemma_contains_push(r_pre, cand, n);
                        if j < k {
                            assert(r_pre.contains(n));
                        }
                    }
                }
            } else {
                proof {
                    assert forall|n: usize|
                        (exists|j: int|
                            0 <= j < k + 1 && down@[j] == n && node_op_preserves_value(
                                g.nodes[n as int].op,
                            )) implies #[trigger] r@.contains(n) by {
                        let j = choose|j: int|
                            0 <= j < k + 1 && down@[j] == n && node_op_preserves_value(
                                g.nodes[n as int].op,
                            );
                        if j == k {
                            assert(n == cand);
                            assert(false);
                        }
                    }
                }
            }
            k = k + 1;
        }
        proof {
            assert forall|n: usize| #[trigger] r@.contains(n) implies ((n as int) < g.nodes.len()
                && node_op_preserves_value(g.nodes[n as int].op) && dfs_reaches(
                g,
                Direction::Downside,
                NodeOperator::ValuePreserving,
                EdgeValidator::Equivalent,
                root as int,
                n as int,
            )) by {
                let j = choose|j: int|
                    0 <= j < down@.len() && down@[j] == n && node_op_preserves_value(
                        g.nodes[n as int].op,
                    );
                assert(down@.contains(n));
            }
            assert forall|n: usize|
                ((n as int) < g.nodes.len() && node_op_preserves_value(g.nodes[n as int].op)
                    && dfs_reaches(
                    g,
                    Direction::Downside,
                    NodeOperator::ValuePreserving,
                    EdgeValidator::Equivalent,
                    root as int,
                    n as int,
                )) implies #[trigger] r@.contains(n) by {
                assert(down@.contains(n));
                let j = choose|j: int| 0 <= j < down@.len() && down@[j] == n;
            }
            if node_op_preserves_value(g.nodes[local as int].op) {
                lemma_upside_path_reverses(
                    g,
                    NodeOperator::ValuePreserving,
                    EdgeValidator::Equivalent,
                    path,
                    local as int,
                    root as int,
                );
                assert(r@.contains(local));
                lemma_reaches_self(
                    g,
                    Direction::Downside,
                    NodeOperator::ValuePreserving,
                    EdgeValidator::Equivalent,
                    root as int,
                );
                assert(r@.contains(root));
            } else {
                assert(root == local);
                assert(r@ =~= Seq::<usize>::empty()) by {
                    if r@.len() > 0 {
                        assert(r@.contains(r@[0]));
                        let n = r@[0];
                        assert(node_op_preserves_value(g.nodes[n as int].op));
                        let p = choose|p: Seq<int>|
                            is_dfs_path(
                                g,
                                Direction::Downside,
                                NodeOperator::ValuePreserving,
                                EdgeValidator::Equivalent,
                                p,
                                root as int,
                                n as int,
                            );
                        if p.len() >= 2 {
                            assert(node_continues(
                                g,
                                p[0],
                                NodeOperator::ValuePreserving,
                            ));
                            assert(false);
                        } else {
                            assert(n as int == root as int);
                        }
                    }
                }
            }
        }
        r
    }

    /// Whether slot `idx_2` can be reached from slot `idx_1` along any
    /// edges: first searching along outgoing edges, then, if that fails,
    /// along incoming ones. Each search stops the instant the target is
    /// visited.
    pub fn is_connected(&self, idx_1: usize, idx_2: usize) -> (r: bool)
        requires
            self@.wf(),
            idx_1 < self.nodes.len(),
            idx_2 < self.nodes.len(),
        ensures
            r == spec_connected(self@, idx_1 as int, idx_2 as int),
    {
        let ghost g = self@;
        let down = self.dfs(
            idx_1,
            Direction::Downside,
            NodeOperator::StopAtTarget(idx_2),
            EdgeValidator::AlwaysTrue,
            false,
        );
        let found_down = list_contains(&down, idx_2);
        proof {
            if found_down {
                lemma_reaches_always(
                    g,
                    Direction::Downside,
                    NodeOperator::StopAtTarget(idx_2),
                    EdgeValidator::AlwaysTrue,
                    idx_1 as int,
                    idx_2 as int,
                );
            } else {
                if dfs_reaches(
                    g,
                    Direction::Downside,
                    NodeOperator::AlwaysContinue,
                    EdgeValidator::AlwaysTrue,
                    idx_1 as int,
                    idx_2 as int,
                ) {
                    let p = choose|p: Seq<int>|
                        is_dfs_path(
                            g,
                            Direction::Downside,
                            NodeOperator::AlwaysContinue,
                            EdgeValidator::AlwaysTrue,
                            p,
                            idx_1 as int,
                            idx_2 as int,
                        );
                    lemma_reaches_stop_at_target(
                        g,
                        Direction::Downside,
                        EdgeValidator::AlwaysTrue,
                        idx_1 as int,
                        idx_2,
                        p,
                    );
                    assert(false);
                }
            }
        }
        if found_down {
            return true;
        }
        let up = self.dfs(
            idx_1,
            Direction::Upside,
            NodeOperator::StopAtTarget(idx_2),
            EdgeValidator::AlwaysTrue,
            false,
        );
        let found_up = list_contains(&up, idx_2);
        proof {
            if found_up {
                lemma_reaches_always(
                    g,
                    Direction::Upside,
                    NodeOperator::StopAtTarget(idx_2),
                    EdgeValidator::AlwaysTrue,
                    idx_1 as int,
                    idx_2 as int,
                );
            } else {
                if dfs_reaches(
                    g,
                    Direction::Upside,
                    NodeOperator::AlwaysContinue,
                    EdgeValidator::AlwaysTrue,
                    idx_1 as int,
                    idx_2 as int,
                ) {
                    let p = choose|p: Seq<int>|
                        is_dfs_path(
                            g,
                            Direction::Upside,
                            NodeOperator::AlwaysContinue,
                            EdgeValidator::AlwaysTrue,
                            p,
                            idx_1 as int,
                            idx_2 as int,
                        );
                    lemma_reaches_stop_at_target(
                        g,
                        Direction::Upside,
                        EdgeValidator::AlwaysTrue,
                        idx_1 as int,
                        idx_2,
                        p,
                    );
                    assert(false);
                }
            }
        }
        found_up
    }

    /// For each of the procedure's parameter slots, whether dataflow connects
    /// it to the return value in slot 0. The vector has `argc + 1` entries;
    /// entry 0 stands for the return slot itself and is always true, a slot
    /// being connected to itself by the search visiting its start.
    pub fn param_return_deps(&self) -> (deps: Vec<bool>)
        requires
            self@.wf(),
        ensures
            deps@.len() == self.argc + 1,
            forall|i: int| 0 <= i <= self.argc ==> deps@[i] == spec_connected(self@, i, 0),
            deps@[0] == true,
    {
        let ghost g = self@;
        let mut deps: Vec<bool> = Vec::new();
        let mut i: usize = 0;
        proof {
            assert(self.argc + 1 <= self.nodes@.len());
        }
        while i <= self.argc
            invariant
                g == self@,
                g.wf(),
                i <= self.argc + 1,
                self.argc < g.nodes.len(),
                deps@.len() == i,
                forall|j: int| 0 <= j < i ==> deps@[j] == spec_connected(g, j, 0),
            decreases self.argc + 1 - i,
        {
            let c = self.is_connected(i, 0);
            deps.push(c);
            i = i + 1;
        }
        proof {
            lemma_reaches_self(
                g,
                Direction::Downside,
                NodeOperator::AlwaysContinue,
                EdgeValidator::AlwaysTrue,
                0,
            );
            assert(deps@[0] == spec_connected(g, 0, 0));
        }
        deps
    }

    /// The slot at the other end of the `order`-th incoming edge of
    /// `node_idx`, or nothing when there are fewer incoming edges: a
    /// positional accessor into the edge list.
    pub fn get_upside_idx(&self, node_idx: usize, order: usize) -> (r: Option<usize>)
        requires
            self@.wf(),
            node_idx < self.nodes.len(),
        ensures
            match r {
                Option::Some(s) => (order as int) < self@.nodes[node_idx as int].in_edges.len()
                    && s as int
                    == self@.edges[self@.nodes[node_idx as int].in_edges[order as int]].src,
                Option::None => (order as int) >= self@.nodes[node_idx as int].in_edges.len(),
            },
    {
        if order < self.nodes[node_idx].in_edges.len() {
            let e = self.nodes[node_idx].in_edges[order];
            proof {
                assert(self@.in_list_ok(node_idx as int));
                assert(self@.nodes[node_idx as int].in_edges[order as int] == e as int);
            }
            Option::Some(self.edges[e].src)
        } else {
            Option::None
        }
    }

    /// The slot at the other end of the `order`-th outgoing edge of
    /// `node_idx`, or nothing when there are fewer outgoing edges.
    pub fn get_downside_idx(&self, node_idx: usize, order: usize) -> (r: Option<usize>)
        requires
            self@.wf(),
            node_idx < self.nodes.len(),
        ensures
            match r {
                Option::Some(s) => (order as int) < self@.nodes[node_idx as int].out_edges.len()
                    && s as int
                    == self@.edges[self@.nodes[node_idx as int].out_edges[order as int]].dst,
                Option::None => (order as int) >= self@.nodes[node_idx as int].out_edges.len(),
            },
    {
        if order < self.nodes[node_idx].out_edges.len() {
            let e = self.nodes[node_idx].out_edges[order];
            proof {
                assert(self@.out_list_ok(node_idx as int));
                assert(self@.nodes[node_idx as int].out_edges[order as int] == e as int);
            }
            Option::Some(self.edges[e].dst)
        } else {
            Option::None
        }
    }
}

} // verus!
