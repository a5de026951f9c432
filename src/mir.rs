use vstd::prelude::*;

verus! {

/// A storage slot, possibly reached through a pointer.
#[derive(Copy, Clone, Debug, PartialEq, Eq, Structural)]
pub struct Place {
    /// The slot.
    pub local: u32,
    /// Whether the place goes through a dereference of the slot (`*x`).
    pub indirect: bool,
}

/// A value read by a statement or terminator.
#[derive(Copy, Clone, Debug, PartialEq, Eq, Structural)]
pub enum Operand {
    /// A copy of the value in a place.
    Copy(Place),
    /// The value in a place, moved out.
    Move(Place),
    /// A constant.
    Constant,
}

/// What one declared slot holds.
#[derive(Copy, Clone, Debug, PartialEq, Eq, Structural)]
pub struct LocalDecl {
    /// Its type is a reference or a raw pointer.
    pub is_ptr: bool,
    /// Its type is a mutable reference or a mutable raw pointer.
    pub is_mut_ptr: bool,
    /// Its type is a raw pointer.
    pub is_raw_ptr: bool,
}

/// The right-hand side of an assignment.
#[derive(Clone, Debug)]
pub enum Rvalue {
    /// A move or copy of an operand.
    Use(Operand),
    /// A reference to a place, `&p` or `&mut p`.
    Ref { mutable: bool, place: Place },
    /// A raw pointer to a place.
    AddressOf(Place),
    /// A tuple, array or struct built from operands.
    Aggregate(Vec<Operand>),
    /// A cast; `sizes` holds the byte sizes of the source and target types
    /// when both are known.
    Cast { operand: Operand, sizes: Option<(u64, u64)> },
    /// A binary operation.
    BinaryOp(Operand, Operand),
    /// A unary operation.
    UnaryOp(Operand),
    /// A query on a type alone, such as its size.
    NullaryOp,
    /// A fresh box around an operand.
    ShallowInitBox(Operand),
    /// The discriminant of an enum in a place.
    Discriminant(Place),
    /// Any other shape.
    Unsupported,
}

/// One statement of a basic block.
#[derive(Clone, Debug)]
pub enum Statement {
    Assign(Place, Rvalue),
    SetDiscriminant(Place),
    StorageLive(u32),
    StorageDead(u32),
    /// Any other shape.
    Unsupported,
}

/// The statement that ends a basic block.
#[derive(Clone, Debug)]
pub enum Terminator {
    /// A call; `callee` is the index of the called function's body in the
    /// program when that body is known and was not produced by macro expansion.
    Call { args: Vec<Operand>, destination: Option<Place>, callee: Option<usize> },
    Assert(Operand),
    SwitchInt(Operand),
    Goto,
    Drop,
    Return,
    Resume,
    Unreachable,
    /// Any other shape.
    Unsupported,
}

/// A sequence of statements followed by at most one terminator.
#[derive(Clone, Debug)]
pub struct BasicBlock {
    pub statements: Vec<Statement>,
    pub terminator: Option<Terminator>,
}

/// One function in control-flow-graph form.
#[derive(Clone, Debug)]
pub struct Body {
    /// The function's display name.
    pub name: String,
    /// The number of declared parameters: slots `1..=arg_count`.
    pub arg_count: usize,
    /// The declared slots, by slot identifier.
    pub locals: Vec<LocalDecl>,
    /// The basic blocks, in layout order.
    pub blocks: Vec<BasicBlock>,
    /// Source-level names of slots.
    pub var_names: Vec<(u32, String)>,
}

/// The functions whose bodies are known; calls refer to them by index.
#[derive(Clone, Debug)]
pub struct Program {
    pub bodies: Vec<Body>,
}

} // verus!
