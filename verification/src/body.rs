//! Building the whole graph of one procedure from its basic blocks, and the
//! determinism that follows: the graph is a mathematical function of the
//! instruction stream.

use vstd::prelude::*;

use crate::ir::{
    BasicBlock, BuildError, Span, Statement, rvalue_supported, statement_wf, terminator_wf,
};
use crate::builder::{spec_add_statm, spec_add_terminator};
use crate::graph::{spec_graph_new, Graph, GraphV};

verus! {

/// Every statement and the terminator of a block only reference declared
/// slots.
pub open spec fn block_wf(b: BasicBlock, n_locals: int) -> bool {
    &&& forall|i: int|
        0 <= i < b.statements@.len() ==> statement_wf(#[trigger] b.statements@[i], n_locals)
    &&& match b.terminator {
        Option::Some(t) => terminator_wf(t, n_locals),
        Option::None => true,
    }
}

pub open spec fn blocks_wf(bs: Seq<BasicBlock>, n_locals: int) -> bool {
    forall|i: int| 0 <= i < bs.len() ==> block_wf(#[trigger] bs[i], n_locals)
}

/// Every right-hand side of the block lies in the modeled set.
pub open spec fn block_supported(b: BasicBlock) -> bool {
    forall|i: int|
        0 <= i < b.statements@.len() ==> rvalue_supported((#[trigger] b.statements@[i]).rvalue)
}

pub open spec fn blocks_supported(bs: Seq<BasicBlock>) -> bool {
    forall|i: int| 0 <= i < bs.len() ==> block_supported(#[trigger] bs[i])
}

/// An upper bound on how many batches one block closes.
pub open spec fn instr_count(b: BasicBlock) -> nat {
    b.statements@.len() + 1
}

/// An upper bound on how many batches the whole body closes.
pub open spec fn instrs_count(bs: Seq<BasicBlock>) -> nat
    decreases bs.len(),
{
    if bs.len() == 0 {
        0
    } else {
        instr_count(bs[0]) + instrs_count(bs.drop_first())
    }
}

/// Translating a list of statements in order.
pub open spec fn spec_build_statms(g: GraphV, stms: Seq<Statement>) -> GraphV
    decreases stms.len(),
{
    if stms.len() == 0 {
        g
    } else {
        spec_build_statms(spec_add_statm(g, stms[0]), stms.drop_first())
    }
}

/// Finishing a block whose remaining statements are `tail`: translate them,
/// then the block's terminator if it has one.
pub open spec fn spec_finish_block(g: GraphV, b: BasicBlock, tail: Seq<Statement>) -> GraphV {
    let g1 = spec_build_statms(g, tail);
    match b.terminator {
        Option::Some(t) => spec_add_terminator(g1, t),
        Option::None => g1,
    }
}

/// Translating one whole block.
pub open spec fn spec_build_block(g: GraphV, b: BasicBlock) -> GraphV {
    spec_finish_block(g, b, b.statements@)
}

/// Translating a list of blocks in order.
pub open spec fn spec_build_blocks(g: GraphV, bs: Seq<BasicBlock>) -> GraphV
    decreases bs.len(),
{
    if bs.len() == 0 {
        g
    } else {
        spec_build_blocks(spec_build_block(g, bs[0]), bs.drop_first())
    }
}

/// The graph of a whole procedure, as a function of the instruction stream
/// alone.
pub open spec fn spec_build_graph(
    def_id: u64,
    span: Span,
    argc: nat,
    n_locals: nat,
    blocks: Seq<BasicBlock>,
) -> GraphV {
    spec_build_blocks(spec_graph_new(def_id, span, argc, n_locals), blocks)
}

/// Law: construction is deterministic. Two builds from identical procedure
/// bodies yield identical node and edge sequences: same ids, same tags, same
/// order. The builder's own contract pins its result to `spec_build_graph`,
/// and that function depends on nothing but its arguments.
pub proof fn lemma_build_deterministic(
    def_id: u64,
    span: Span,
    argc: nat,
    n_locals: nat,
    blocks1: Seq<BasicBlock>,
    blocks2: Seq<BasicBlock>,
)
    requires
        blocks1 == blocks2,
    ensures
        spec_build_graph(def_id, span, argc, n_locals, blocks1) == spec_build_graph(
            def_id,
            span,
            argc,
            n_locals,
            blocks2,
        ),
{
}

/// Builds the dependency graph of one procedure: a fresh graph over its
/// declared slots, grown by every statement and terminator of its blocks in
/// order. The first right-hand side outside the modeled set abandons the
/// procedure and reports it, leaving no partial result behind.
pub fn build_graph(
    def_id: u64,
    span: Span,
    argc: usize,
    n_locals: usize,
    blocks: &Vec<BasicBlock>,
) -> (r: Result<Graph, BuildError>)
    requires
        argc < n_locals,
        blocks_wf(blocks@, n_locals as int),
        instrs_count(blocks@) < usize::MAX,
    ensures
        blocks_supported(blocks@) ==> (r matches Ok(g) && g@ == spec_build_graph(
            def_id,
            span,
            argc as nat,
            n_locals as nat,
            blocks@,
        ) && g@.wf()),
        !blocks_supported(blocks@) ==> r == Err::<Graph, BuildError>(
            BuildError::UnsupportedConstruct,
        ),
{
    let mut graph = Graph::new(def_id, span, argc, n_locals);
    let ghost total = instrs_count(blocks@);
    let ghost mut done: nat = 0;
    let mut bi: usize = 0;
    proof {
        assert(blocks@.skip(0) =~= blocks@);
    }
    while bi < blocks.len()
        invariant
            bi <= blocks@.len(),
            graph@.wf(),
            graph@.n_locals == n_locals as nat,
            blocks_wf(blocks@, n_locals as int),
            total == instrs_count(blocks@),
            total < usize::MAX,
            forall|n: int|
                0 <= n < graph@.nodes.len() ==> (#[trigger] graph@.nodes[n]).seq <= done,
            done + instrs_count(blocks@.skip(bi as int)) <= total,
            spec_build_blocks(graph@, blocks@.skip(bi as int)) == spec_build_graph(
                def_id,
                span,
                argc as nat,
                n_locals as nat,
                blocks@,
            ),
            forall|i: int| 0 <= i < bi ==> block_supported(#[trigger] blocks@[i]),
        decreases blocks@.len() - bi,
    {
        let block = &blocks[bi];
        let ghost g_b = graph@;
        let ghost brem = blocks@.skip(bi as int);
        proof {
            assert(brem[0] == blocks@[bi as int]);
            assert(brem.drop_first() =~= blocks@.skip(bi + 1));
            assert(block_wf(blocks@[bi as int], n_locals as int));
            assert(block.statements@.skip(0) =~= block.statements@);
        }
        let mut si: usize = 0;
        while si < block.statements.len()
            invariant
                si <= block.statements@.len(),
                bi < blocks@.len(),
                *block == blocks@[bi as int],
                graph@.wf(),
                graph@.n_locals == n_locals as nat,
                block_wf(*block, n_locals as int),
                total < usize::MAX,
                forall|n: int|
                    0 <= n < graph@.nodes.len() ==> (#[trigger] graph@.nodes[n]).seq <= done,
                done + (block.statements@.len() - si) + 1 + instrs_count(blocks@.skip(bi + 1))
                    <= total,
                spec_build_blocks(
                    spec_finish_block(graph@, *block, block.statements@.skip(si as int)),
                    blocks@.skip(bi + 1),
                ) == spec_build_graph(def_id, span, argc as nat, n_locals as nat, blocks@),
                forall|i: int|
                    0 <= i < si ==> rvalue_supported(
                        (#[trigger] block.statements@[i]).rvalue,
                    ),
            decreases block.statements@.len() - si,
        {
            let ghost g_prev = graph@;
            let ghost srem = block.statements@.skip(si as int);
            proof {
                assert(srem[0] == block.statements@[si as int]);
                assert(srem.drop_first() =~= block.statements@.skip(si + 1));
                assert(statement_wf(block.statements@[si as int], n_locals as int));
            }
            let res = graph.add_statm_to_graph(&block.statements[si]);
            match res {
                Result::Ok(_) => {},
                Result::Err(e) => {
                    proof {
                        assert(!rvalue_supported(block.statements@[si as int].rvalue));
                        assert(*block == blocks@[bi as int]);
                        assert(!blocks_supported(blocks@)) by {
                            if blocks_supported(blocks@) {
                                assert(block_supported(blocks@[bi as int]));
                                assert(rvalue_supported(
                                    blocks@[bi as int].statements@[si as int].rvalue,
                                ));
                                assert(false);
                            }
                        }
                    }
                    return Result::Err(e);
                },
            }
            proof {
                done = done + 1;
            }
            si = si + 1;
        }
        proof {
            assert(block.statements@.skip(block.statements@.len() as int)
                =~= Seq::<Statement>::empty());
        }
        match &block.terminator {
            Option::Some(t) => {
                proof {
                    assert(terminator_wf(*t, n_locals as int));
                }
                graph.add_terminator_to_graph(t);
                proof {
                    done = done + 1;
                }
            },
            Option::None => {},
        }
        proof {
            assert(spec_build_blocks(graph@, blocks@.skip(bi + 1)) == spec_build_graph(
                def_id,
                span,
                argc as nat,
                n_locals as nat,
                blocks@,
            ));
        }
        bi = bi + 1;
    }
    proof {
        assert(blocks@.skip(blocks@.len() as int) =~= Seq::<BasicBlock>::empty());
    }
    Result::Ok(graph)
}

} // verus!
