//! The SSA-style intermediate form that code generation produces.
//!
//! A module is a list of functions; a function body is a list of basic
//! blocks, each a list of instructions that ends in a terminator. Values,
//! stack slots and blocks are numbered within their function: a value is the
//! index of its type in `Function::values`, a slot the index of its type in
//! `Function::slots`, a block the index of its kind in `Function::block_kinds`.
//! The parameters of a function are its first values.

use vstd::prelude::*;
use crate::ast::Type;

verus! {

/// Arithmetic on two operands of one type. On integers `Div` is signed,
/// truncating division.
#[derive(Clone, Copy, Debug, PartialEq, Eq, Structural)]
pub enum ArithOp {
    Add,
    Sub,
    Mul,
    Div,
}

/// A comparison. On integers the orderings are signed; on floats they are
/// ordered (false when either operand is NaN).
#[derive(Clone, Copy, Debug, PartialEq, Eq, Structural)]
pub enum Predicate {
    Eq,
    Ne,
    Gt,
    Lt,
    Ge,
    Le,
}

#[derive(Debug)]
pub enum Instruction {
    /// `dest = <64-bit integer written in decimal in value>`
    ConstInt { dest: usize, value: i64 },
    /// `dest = <1-bit integer>`
    ConstBool { dest: usize, value: bool },
    /// `dest = <float of type ty, written in decimal in value>`
    ConstFloat { dest: usize, ty: Type, value: String },
    /// `dest = <address of a constant zero-terminated copy of value>`
    GlobalString { dest: usize, value: String },
    /// Reserves a stack slot of type `ty` for the variable `name`.
    Alloca { slot: usize, ty: Type, name: String },
    /// `*slot = value`
    Store { slot: usize, value: usize },
    /// `dest = *slot`
    Load { dest: usize, slot: usize, name: String },
    IntArith { dest: usize, op: ArithOp, lhs: usize, rhs: usize },
    IntCompare { dest: usize, pred: Predicate, lhs: usize, rhs: usize },
    FloatArith { dest: usize, op: ArithOp, lhs: usize, rhs: usize },
    FloatCompare { dest: usize, pred: Predicate, lhs: usize, rhs: usize },
    /// A call; `dest` is `None` when the callee returns nothing.
    Call { dest: Option<usize>, func: String, args: Vec<usize> },
    /// Unconditional jump to a block.
    Branch { target: usize },
    /// Jump to `then_block` when `cond` is true, else to `else_block`.
    CondBranch { cond: usize, then_block: usize, else_block: usize },
    Return { value: Option<usize> },
    /// Marks a point that control never reaches.
    Unreachable,
}

/// Whether the instruction ends a basic block.
pub open spec fn is_terminator(i: Instruction) -> bool {
    match i {
        Instruction::Branch { .. } => true,
        Instruction::CondBranch { .. } => true,
        Instruction::Return { .. } => true,
        Instruction::Unreachable => true,
        _ => false,
    }
}

impl Instruction {
    pub fn is_terminator(&self) -> (r: bool)
        ensures
            r == is_terminator(*self),
    {
        match self {
            Instruction::Branch { .. } => true,
            Instruction::CondBranch { .. } => true,
            Instruction::Return { .. } => true,
            Instruction::Unreachable => true,
            _ => false,
        }
    }
}

/// What a block is for.
#[derive(Clone, Copy, Debug, PartialEq, Eq, Structural)]
pub enum BlockKind {
    /// Where the function starts.
    Entry,
    /// The branch taken when a condition holds.
    Then,
    /// The branch taken when it does not.
    Else,
    /// Where control continues after a conditional or a checked division.
    Cont,
    /// Where a division by zero aborts.
    Panic,
    /// Code that follows a return.
    Unreachable,
}

impl BlockKind {
    /// The label a backend gives blocks of this kind.
    pub fn label(&self) -> (r: &'static str) {
        match self {
            BlockKind::Entry => "entry",
            BlockKind::Then => "then_bb",
            BlockKind::Else => "else_bb",
            BlockKind::Cont => "cont_bb",
            BlockKind::Panic => "panic_bb",
            BlockKind::Unreachable => "unreachable_bb",
        }
    }
}

#[derive(Debug)]
pub struct BasicBlock {
    /// The block's number within its function.
    pub id: usize,
    pub instructions: Vec<Instruction>,
}

/// Whether the block's last instruction ends it.
pub open spec fn is_terminated(b: BasicBlock) -> bool {
    b.instructions@.len() > 0 && is_terminator(b.instructions@.last())
}

#[derive(Debug)]
pub struct Function {
    pub name: String,
    pub params: Vec<(String, Type)>,
    /// `None` for a function that returns nothing.
    pub return_type: Option<Type>,
    /// Whether the body lives outside the module (a runtime routine).
    pub external: bool,
    /// The blocks in the order they were filled; the first is the entry.
    pub blocks: Vec<BasicBlock>,
    pub block_kinds: Vec<BlockKind>,
    pub values: Vec<Type>,
    pub slots: Vec<Type>,
}

#[derive(Debug)]
pub struct Module {
    pub functions: Vec<Function>,
}

/// Whether the instruction refers only to values below `nv`, stack slots
/// below `ns` and blocks below `nb`.
pub open spec fn refs_within(i: Instruction, nv: nat, ns: nat, nb: nat) -> bool {
    match i {
        Instruction::ConstInt { dest, .. } => dest < nv,
        Instruction::ConstBool { dest, .. } => dest < nv,
        Instruction::ConstFloat { dest, .. } => dest < nv,
        Instruction::GlobalString { dest, .. } => dest < nv,
        Instruction::Alloca { slot, .. } => slot < ns,
        Instruction::Store { slot, value } => slot < ns && value < nv,
        Instruction::Load { dest, slot, .. } => dest < nv && slot < ns,
        Instruction::IntArith { dest, lhs, rhs, .. } => dest < nv && lhs < nv && rhs < nv,
        Instruction::IntCompare { dest, lhs, rhs, .. } => dest < nv && lhs < nv && rhs < nv,
        Instruction::FloatArith { dest, lhs, rhs, .. } => dest < nv && lhs < nv && rhs < nv,
        Instruction::FloatCompare { dest, lhs, rhs, .. } => dest < nv && lhs < nv && rhs < nv,
        Instruction::Call { dest, args, .. } => (dest matches Some(d) ==> d < nv) && forall|k: int|
            0 <= k < args@.len() ==> #[trigger] args@[k] < nv,
        Instruction::Branch { target } => target < nb,
        Instruction::CondBranch { cond, then_block, else_block } => cond < nv && then_block < nb
            && else_block < nb,
        Instruction::Return { value } => value matches Some(v) ==> v < nv,
        Instruction::Unreachable => true,
    }
}

/// Instructions that refer only to what exists, with no terminator before
/// the last one.
pub open spec fn body_within(insts: Seq<Instruction>, nv: nat, ns: nat, nb: nat) -> bool {
    forall|k: int|
        0 <= k < insts.len() ==> refs_within(#[trigger] insts[k], nv, ns, nb) && (k + 1 < insts.len()
            ==> !is_terminator(insts[k]))
}

/// A finished block: a valid number, a well-formed body, and a terminator
/// at its end.
pub open spec fn block_complete(b: BasicBlock, nv: nat, ns: nat, nb: nat) -> bool {
    b.id < nb && body_within(b.instructions@, nv, ns, nb) && is_terminated(b)
}

/// A function with a body has an entry block, and each of its blocks ends
/// in its only terminator and refers only to the function's own values,
/// slots and blocks.
pub open spec fn well_formed(f: Function) -> bool {
    f.external || (f.blocks@.len() > 0 && forall|k: int|
        0 <= k < f.blocks@.len() ==> block_complete(
            #[trigger] f.blocks@[k],
            f.values@.len(),
            f.slots@.len(),
            f.block_kinds@.len(),
        ))
}

/// What a call site needs of a function: its name and its return type.
pub open spec fn signature_of(f: Function) -> (Seq<char>, Option<Type>) {
    (f.name@, f.return_type)
}

/// The signatures of the module's functions, in order.
pub open spec fn signatures(fs: Seq<Function>) -> Seq<(Seq<char>, Option<Type>)> {
    fs.map_values(|f: Function| signature_of(f))
}

} // verus!
