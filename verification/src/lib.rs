//! A per-procedure dataflow dependency graph.
//!
//! The crate turns one procedure's lowered instruction stream — assignment
//! statements over local slots and call terminators — into a directed graph
//! whose nodes are slots, synthetic projection steps and constant snapshots,
//! and whose edges record how each value was produced.  On top of the graph a
//! single generalized depth-first traversal answers structural questions:
//! which slots denote the same value, whether one slot can influence another,
//! and which parameters flow into the return value.

pub mod ir;

pub mod graph;

pub mod builder;

pub mod body;

pub mod traversal;

pub mod queries;

