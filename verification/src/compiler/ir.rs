//! The intermediate representation: a module as the flat sequence of
//! instructions that build it.
//!
//! Instructions are numbered by their place in the sequence. An
//! instruction that yields a value is referred to by its number, and so is
//! a basic block or a function. A `Function` instruction opens a function;
//! the blocks that follow belong to it; `Position` picks the block that the
//! instructions after it are appended to.

use vstd::prelude::*;

verus! {

/// The integer types of the target, and `Void` for "no value".
#[derive(Debug, Copy, Clone, PartialEq, Eq, Structural)]
pub enum IrType {
    I1,
    I8,
    I16,
    I32,
    I64,
    I128,
    Void,
}

/// An operand of an instruction.
#[derive(Debug, Copy, Clone, PartialEq, Eq, Structural)]
pub enum Value {
    /// An integer constant of type `ty`.
    Const { ty: IrType, value: u64 },
    /// The incoming argument number `index` of the current function.
    Param { index: usize },
    /// What instruction number `id` yields.
    Inst { id: usize },
}

/// Two-operand integer instructions.
#[derive(Debug, Copy, Clone, PartialEq, Eq, Structural)]
pub enum BinaryOp {
    Add,
    Sub,
    Mul,
    SDiv,
    SRem,
    And,
    Or,
    Xor,
}

/// Signed integer comparisons.
#[derive(Debug, Copy, Clone, PartialEq, Eq, Structural)]
pub enum Predicate {
    Eq,
    Ne,
    Slt,
    Sle,
    Sgt,
    Sge,
}

/// What a basic block is for.
#[derive(Debug, Copy, Clone, PartialEq, Eq, Structural)]
pub enum BlockLabel {
    /// The first block of a function.
    Entry,
    /// The consequent of an `if`.
    Cons,
    /// The alternative of an `if`.
    Alter,
    /// Where the two branches of an `if` meet.
    Merge,
}

/// One instruction of a module.
#[derive(Debug, PartialEq, Eq)]
pub enum Inst {
    /// Registers a function under `name` and makes it the current one.
    Function { name: String, params: Vec<IrType>, ret: IrType },
    /// Appends a basic block to the current function.
    Block { label: BlockLabel },
    /// Moves the insertion point to the end of block `block`.
    Position { block: usize },
    /// Reserves a stack slot of type `ty`; yields its address.
    Alloca { ty: IrType, name: String },
    /// Stores `value` to the slot at `ptr`.
    Store { value: Value, ptr: Value },
    /// Loads from the slot at `ptr`; yields what was stored.
    Load { ptr: Value },
    /// Calls function `callee` with `args`; yields what it returns.
    Call { callee: usize, args: Vec<Value> },
    /// Integer negation.
    Neg { operand: Value },
    /// Bitwise complement, which on one bit is logical negation.
    Not { operand: Value },
    /// A two-operand integer instruction.
    Binary { op: BinaryOp, lhs: Value, rhs: Value },
    /// A signed integer comparison; yields one bit.
    Compare { pred: Predicate, lhs: Value, rhs: Value },
    /// Branches to `then_block` if `cond` is 1, else to `else_block`.
    CondBr { cond: Value, then_block: usize, else_block: usize },
    /// Branches to `target`.
    Br { target: usize },
    /// Returns `value` from the current function.
    Ret { value: Value },
    /// Returns from the current function without a value.
    RetVoid,
}

/// An instruction as the contracts see it.
pub enum InstView {
    Function { name: Seq<char>, params: Seq<IrType>, ret: IrType },
    Block { label: BlockLabel },
    Position { block: usize },
    Alloca { ty: IrType, name: Seq<char> },
    Store { value: Value, ptr: Value },
    Load { ptr: Value },
    Call { callee: usize, args: Seq<Value> },
    Neg { operand: Value },
    Not { operand: Value },
    Binary { op: BinaryOp, lhs: Value, rhs: Value },
    Compare { pred: Predicate, lhs: Value, rhs: Value },
    CondBr { cond: Value, then_block: usize, else_block: usize },
    Br { target: usize },
    Ret { value: Value },
    RetVoid,
}

impl View for Inst {
    type V = InstView;

    open spec fn view(&self) -> InstView {
        match self {
            Inst::Function { name, params, ret } => InstView::Function {
                name: name@,
                params: params@,
                ret: *ret,
            },
            Inst::Block { label } => InstView::Block { label: *label },
            Inst::Position { block } => InstView::Position { block: *block },
            Inst::Alloca { ty, name } => InstView::Alloca { ty: *ty, name: name@ },
            Inst::Store { value, ptr } => InstView::Store { value: *value, ptr: *ptr },
            Inst::Load { ptr } => InstView::Load { ptr: *ptr },
            Inst::Call { callee, args } => InstView::Call { callee: *callee, args: args@ },
            Inst::Neg { operand } => InstView::Neg { operand: *operand },
            Inst::Not { operand } => InstView::Not { operand: *operand },
            Inst::Binary { op, lhs, rhs } => InstView::Binary { op: *op, lhs: *lhs, rhs: *rhs },
            Inst::Compare { pred, lhs, rhs } => InstView::Compare {
                pred: *pred,
                lhs: *lhs,
                rhs: *rhs,
            },
            Inst::CondBr { cond, then_block, else_block } => InstView::CondBr {
                cond: *cond,
                then_block: *then_block,
                else_block: *else_block,
            },
            Inst::Br { target } => InstView::Br { target: *target },
            Inst::Ret { value } => InstView::Ret { value: *value },
            Inst::RetVoid => InstView::RetVoid,
        }
    }
}

/// The views of a list of instructions.
pub open spec fn insts_view(insts: Seq<Inst>) -> Seq<InstView> {
    Seq::new(insts.len(), |i: int| insts[i]@)
}

/// Whether an instruction ends its basic block.
pub open spec fn is_terminator(inst: InstView) -> bool {
    inst is Ret || inst is RetVoid || inst is Br || inst is CondBr
}

impl Inst {
    /// Whether this instruction ends its basic block.
    pub fn is_terminator(&self) -> (yes: bool)
        ensures
            yes == is_terminator(self@),
    {
        match self {
            Inst::Ret { .. } | Inst::RetVoid | Inst::Br { .. } | Inst::CondBr { .. } => true,
            _ => false,
        }
    }
}

} // verus!
