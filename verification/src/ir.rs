//! The instruction stream handed in by the provider of a procedure's lowered
//! body: memory-location expressions, operands, right-hand sides, statements
//! and block terminators, together with the well-formedness conditions that a
//! provider guarantees (every referenced slot lies below the declared slot
//! count).

use vstd::prelude::*;

verus! {

/// A source position, carried through to the graph so that every node can be
/// traced back to the statement that last wrote it.
#[derive(Clone, Copy, Debug, PartialEq, Eq, Structural)]
pub struct Span {
    pub lo: u32,
    pub hi: u32,
}

impl Span {
    /// The placeholder position of nodes that no statement has stamped yet.
    pub open spec fn dummy_spec() -> Span {
        Span { lo: 0, hi: 0 }
    }

    pub fn dummy() -> (s: Span)
        ensures
            s == Span::dummy_spec(),
    {
        Span { lo: 0, hi: 0 }
    }
}

/// One step of a memory-location path: how a sub-location is carved out of
/// the value before it.
#[derive(Clone, Debug, PartialEq, Eq)]
pub enum PlaceElem {
    Deref,
    /// Carries the accessed field's identifier.
    Field(String),
    /// Carries the name of the variant the location is viewed as.
    Downcast(String),
    /// Indexing by the value held in another slot.
    Index(usize),
    ConstantIndex,
    Subslice,
}

/// A memory-location expression: a base slot and the projection steps applied
/// to it.
#[derive(Clone, Debug, PartialEq, Eq)]
pub struct Place {
    pub local: usize,
    pub projection: Vec<PlaceElem>,
}

/// An operand of a right-hand side: a copied or moved location, or a constant
/// given by its canonical textual form.
#[derive(Clone, Debug, PartialEq, Eq)]
pub enum Operand {
    Copy(Place),
    Move(Place),
    Constant(String),
}

/// How a reference-taking right-hand side borrows its place.
#[derive(Clone, Copy, Debug, PartialEq, Eq, Structural)]
pub enum BorrowKind {
    Shared,
    Mut,
    /// A borrow inserted for checking only; it degrades to a no-op edge.
    Fake,
}

/// The shape of an aggregate right-hand side.
#[derive(Clone, Copy, Debug, PartialEq, Eq, Structural)]
pub enum AggKind {
    Array,
    Tuple,
    /// A data-structure instance, identified by its type id.
    Adt(u64),
    /// A closure, identified by its id.
    Closure(u64),
}

/// The right-hand side of an assignment statement.
#[derive(Clone, Debug, PartialEq, Eq)]
pub enum Rvalue {
    Use(Operand),
    Repeat(Operand),
    Ref(BorrowKind, Place),
    /// Not modeled: translating it is an unsupported-construct condition.
    ThreadLocalRef,
    /// Taking a raw address. Not modeled: translating it is an
    /// unsupported-construct condition.
    RawPtr(Place),
    Len(Place),
    Cast(Operand),
    BinaryOp(Operand, Operand),
    CheckedBinaryOp(Operand, Operand),
    /// Carries the textual form of the operand type.
    NullaryOp(String),
    UnaryOp(Operand),
    Discriminant(Place),
    Aggregate(AggKind, Vec<Operand>),
    ShallowInitBox(Operand),
    CopyForDeref(Place),
}

/// An assignment statement: destination location, right-hand side, and the
/// source position it came from.
#[derive(Clone, Debug, PartialEq, Eq)]
pub struct Statement {
    pub place: Place,
    pub rvalue: Rvalue,
    pub span: Span,
}

/// The call target of a call terminator: either resolved at compile time to a
/// callee identifier, or itself a runtime value read from a location.
#[derive(Clone, Debug, PartialEq, Eq)]
pub enum CallFunc {
    Resolved(u64),
    Runtime(Place),
}

/// A block-terminating instruction. Only calls are modeled; every other
/// control transfer leaves the graph untouched.
#[derive(Clone, Debug, PartialEq, Eq)]
pub enum TermKind {
    Call { func: CallFunc, args: Vec<Operand>, destination: usize },
    Other,
}

#[derive(Clone, Debug, PartialEq, Eq)]
pub struct Terminator {
    pub kind: TermKind,
    pub span: Span,
}

/// One basic block: its assignment statements in order, then its terminator.
#[derive(Clone, Debug, PartialEq, Eq)]
pub struct BasicBlock {
    pub statements: Vec<Statement>,
    pub terminator: Option<Terminator>,
}

/// Why translating a procedure failed. Translation is a recoverable,
/// per-procedure condition: the caller may skip the procedure and go on.
#[derive(Clone, Copy, Debug, PartialEq, Eq, Structural)]
pub enum BuildError {
    /// A right-hand-side shape outside the modeled set.
    UnsupportedConstruct,
}

/// A projection step only references other slots through indexing by value.
pub open spec fn place_elem_wf(e: PlaceElem, n_locals: int) -> bool {
    match e {
        PlaceElem::Index(i) => (i as int) < n_locals,
        _ => true,
    }
}

/// Every slot a memory-location expression mentions lies below the declared
/// slot count.
pub open spec fn place_wf(p: Place, n_locals: int) -> bool {
    &&& (p.local as int) < n_locals
    &&& forall|i: int|
        0 <= i < p.projection@.len() ==> place_elem_wf(#[trigger] p.projection@[i], n_locals)
}

pub open spec fn operand_wf(op: Operand, n_locals: int) -> bool {
    match op {
        Operand::Copy(p) => place_wf(p, n_locals),
        Operand::Move(p) => place_wf(p, n_locals),
        Operand::Constant(_) => true,
    }
}

pub open spec fn operands_wf(ops: Seq<Operand>, n_locals: int) -> bool {
    forall|i: int| 0 <= i < ops.len() ==> operand_wf(#[trigger] ops[i], n_locals)
}

pub open spec fn rvalue_wf(rv: Rvalue, n_locals: int) -> bool {
    match rv {
        Rvalue::Use(op) => operand_wf(op, n_locals),
        Rvalue::Repeat(op) => operand_wf(op, n_locals),
        Rvalue::Ref(_, p) => place_wf(p, n_locals),
        Rvalue::ThreadLocalRef => true,
        Rvalue::RawPtr(p) => place_wf(p, n_locals),
        Rvalue::Len(p) => place_wf(p, n_locals),
        Rvalue::Cast(op) => operand_wf(op, n_locals),
        Rvalue::BinaryOp(a, b) => operand_wf(a, n_locals) && operand_wf(b, n_locals),
        Rvalue::CheckedBinaryOp(a, b) => operand_wf(a, n_locals) && operand_wf(b, n_locals),
        Rvalue::NullaryOp(_) => true,
        Rvalue::UnaryOp(op) => operand_wf(op, n_locals),
        Rvalue::Discriminant(p) => place_wf(p, n_locals),
        Rvalue::Aggregate(_, ops) => operands_wf(ops@, n_locals),
        Rvalue::ShallowInitBox(op) => operand_wf(op, n_locals),
        Rvalue::CopyForDeref(p) => place_wf(p, n_locals),
    }
}

/// The right-hand-side shapes the builder models. The two remaining shapes
/// are reported as `BuildError::UnsupportedConstruct`.
pub open spec fn rvalue_supported(rv: Rvalue) -> bool {
    !(rv is ThreadLocalRef) && !(rv is RawPtr)
}

pub open spec fn statement_wf(s: Statement, n_locals: int) -> bool {
    place_wf(s.place, n_locals) && rvalue_wf(s.rvalue, n_locals)
}

pub open spec fn terminator_wf(t: Terminator, n_locals: int) -> bool {
    match t.kind {
        TermKind::Call { func, args, destination } => {
            &&& (destination as int) < n_locals
            &&& operands_wf(args@, n_locals)
            &&& match func {
                CallFunc::Resolved(_) => true,
                CallFunc::Runtime(p) => place_wf(p, n_locals),
            }
        },
        TermKind::Other => true,
    }
}

} // verus!
