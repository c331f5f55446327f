//! What the code generator emits, as functions on syntax trees.
//!
//! Lowering threads a state through the tree: the instructions emitted so
//! far, the stack slot of each local name, and the functions registered.
//! Each function here gives the state after one construct, or the first
//! error.

use super::ir::{is_terminator, BinaryOp, BlockLabel, InstView, IrType, Predicate, Value};
use crate::lexer::token::TokenKind;
use crate::parser::ast::{DeclView, ExprView, FieldView, LitView, StmtView, TypeView};
use vstd::prelude::*;

verus! {

/// Why code generation stopped.
#[derive(Debug, Copy, Clone, PartialEq, Eq, Structural)]
pub enum CodegenError {
    /// A declaration that is not a function.
    UnsupportedDeclaration,
    /// An expression statement.
    UnsupportedStatement,
    /// A string literal or a postfix operator.
    UnsupportedExpression,
    /// A type whose name is none of the primitive types.
    UnknownType,
    /// A name that no `let` or parameter of the function binds.
    UnboundIdentifier,
    /// A call of a name that no function before it, nor the function
    /// itself, is registered under.
    UnknownFunction,
    /// A `let` without a type.
    MissingTypeAnnotation,
    /// A prefix operator other than `-` and `!`.
    InvalidPrefixOperator,
    /// A token that is no infix operator in the place of one.
    InvalidInfixOperator,
}

/// A name and the number of the instruction that stands for it: the stack
/// slot of a local, or a function.
pub struct Entry {
    pub name: Seq<char>,
    pub id: usize,
}

/// The state of code generation.
pub struct GenState {
    /// The instructions emitted so far.
    pub insts: Seq<InstView>,
    /// The locals of the current function, in the order bound.
    pub symbols: Seq<Entry>,
    /// The functions registered so far.
    pub functions: Seq<Entry>,
}

/// A state together with the value of the expression just lowered.
pub struct Emitted {
    pub state: GenState,
    pub value: Value,
}

/// The state before anything is emitted.
pub open spec fn initial_state() -> GenState {
    GenState { insts: Seq::empty(), symbols: Seq::empty(), functions: Seq::empty() }
}

/// The number under which `name` was entered last.
pub open spec fn lookup(table: Seq<Entry>, name: Seq<char>) -> Option<usize>
    decreases table.len(),
{
    if table.len() == 0 {
        None
    } else if table.last().name == name {
        Some(table.last().id)
    } else {
        lookup(table.drop_last(), name)
    }
}

/// The number that the next instruction gets.
pub open spec fn next_id(st: GenState) -> usize {
    st.insts.len() as usize
}

/// The state after `inst` is appended.
pub open spec fn emit(st: GenState, inst: InstView) -> GenState {
    GenState { insts: st.insts.push(inst), ..st }
}

/// The state after `inst` is appended, with the value that `inst` yields.
pub open spec fn emit_value(st: GenState, inst: InstView) -> Emitted {
    Emitted { state: emit(st, inst), value: Value::Inst { id: next_id(st) } }
}

/// The state after `name` is bound to stack slot `id`.
pub open spec fn bind(st: GenState, name: Seq<char>, id: usize) -> GenState {
    GenState { symbols: st.symbols.push(Entry { name, id }), ..st }
}

/// Whether the block that instructions are appended to has its
/// terminator: the last instruction emitted is one.
pub open spec fn block_closed(st: GenState) -> bool {
    st.insts.len() > 0 && is_terminator(st.insts.last())
}

/// The primitive type that a type name stands for.
pub open spec fn primitive(name: Seq<char>) -> Option<IrType> {
    if name == "i128"@ {
        Some(IrType::I128)
    } else if name == "i64"@ {
        Some(IrType::I64)
    } else if name == "i32"@ {
        Some(IrType::I32)
    } else if name == "i16"@ {
        Some(IrType::I16)
    } else if name == "i8"@ {
        Some(IrType::I8)
    } else if name == "bool"@ {
        Some(IrType::I1)
    } else {
        None
    }
}

/// The type that a type of the language is lowered to; its generic
/// arguments are not looked at.
pub open spec fn lower_type(t: TypeView) -> Result<IrType, CodegenError> {
    match primitive(t.name) {
        Some(ty) => Ok(ty),
        None => Err(CodegenError::UnknownType),
    }
}

/// The instruction that the infix operator `op` is lowered to.
pub open spec fn infix_inst(op: TokenKind, lhs: Value, rhs: Value) -> Result<
    InstView,
    CodegenError,
> {
    match op {
        TokenKind::Plus => Ok(InstView::Binary { op: BinaryOp::Add, lhs, rhs }),
        TokenKind::Minus => Ok(InstView::Binary { op: BinaryOp::Sub, lhs, rhs }),
        TokenKind::Asterisk => Ok(InstView::Binary { op: BinaryOp::Mul, lhs, rhs }),
        TokenKind::Slash => Ok(InstView::Binary { op: BinaryOp::SDiv, lhs, rhs }),
        TokenKind::Percent => Ok(InstView::Binary { op: BinaryOp::SRem, lhs, rhs }),
        TokenKind::And => Ok(InstView::Binary { op: BinaryOp::And, lhs, rhs }),
        TokenKind::Pipe => Ok(InstView::Binary { op: BinaryOp::Or, lhs, rhs }),
        TokenKind::Caret => Ok(InstView::Binary { op: BinaryOp::Xor, lhs, rhs }),
        TokenKind::Equal => Ok(InstView::Compare { pred: Predicate::Eq, lhs, rhs }),
        TokenKind::UnEqual => Ok(InstView::Compare { pred: Predicate::Ne, lhs, rhs }),
        TokenKind::LessThan => Ok(InstView::Compare { pred: Predicate::Slt, lhs, rhs }),
        TokenKind::LessEqual => Ok(InstView::Compare { pred: Predicate::Sle, lhs, rhs }),
        TokenKind::GreaterThan => Ok(InstView::Compare { pred: Predicate::Sgt, lhs, rhs }),
        TokenKind::GreaterEqual => Ok(InstView::Compare { pred: Predicate::Sge, lhs, rhs }),
        _ => Err(CodegenError::InvalidInfixOperator),
    }
}

/// The instruction that the prefix operator `op` is lowered to.
pub open spec fn prefix_inst(op: TokenKind, operand: Value) -> Result<InstView, CodegenError> {
    match op {
        TokenKind::Minus => Ok(InstView::Neg { operand }),
        TokenKind::Bang => Ok(InstView::Not { operand }),
        _ => Err(CodegenError::InvalidPrefixOperator),
    }
}

/// The constant that a literal is lowered to: integers have 64 bits,
/// booleans one.
pub open spec fn lower_literal(lit: LitView) -> Result<Value, CodegenError> {
    match lit {
        LitView::Integer(i) => Ok(Value::Const { ty: IrType::I64, value: i as u64 }),
        LitView::Boolean(b) => Ok(
            Value::Const {
                ty: IrType::I1,
                value: if b {
                    1
                } else {
                    0
                },
            },
        ),
        LitView::String(_) => Err(CodegenError::UnsupportedExpression),
    }
}

/// Lowers an expression: operands first and from left to right, then the
/// instruction that combines them.
pub open spec fn lower_expr(st: GenState, e: ExprView) -> Result<Emitted, CodegenError>
    decreases e, 0nat,
{
    match e {
        ExprView::Literal(lit) => match lower_literal(lit) {
            Ok(value) => Ok(Emitted { state: st, value }),
            Err(err) => Err(err),
        },
        ExprView::Ident(name) => match lookup(st.symbols, name) {
            Some(slot) => Ok(emit_value(st, InstView::Load { ptr: Value::Inst { id: slot } })),
            None => Err(CodegenError::UnboundIdentifier),
        },
        ExprView::Call { name, args } => match lower_args(st, args, 0, Seq::empty()) {
            Ok(lowered) => match lookup(lowered.state.functions, name) {
                Some(callee) => Ok(
                    emit_value(lowered.state, InstView::Call { callee, args: lowered.values }),
                ),
                None => Err(CodegenError::UnknownFunction),
            },
            Err(err) => Err(err),
        },
        ExprView::Prefix { op, expr } => match lower_expr(st, *expr) {
            Ok(x) => match prefix_inst(op, x.value) {
                Ok(inst) => Ok(emit_value(x.state, inst)),
                Err(err) => Err(err),
            },
            Err(err) => Err(err),
        },
        ExprView::Infix { op, left, right } => match lower_expr(st, *left) {
            Ok(lhs) => match lower_expr(lhs.state, *right) {
                Ok(rhs) => match infix_inst(op, lhs.value, rhs.value) {
                    Ok(inst) => Ok(emit_value(rhs.state, inst)),
                    Err(err) => Err(err),
                },
                Err(err) => Err(err),
            },
            Err(err) => Err(err),
        },
        ExprView::Postfix { .. } => Err(CodegenError::UnsupportedExpression),
    }
}

/// A state together with the values of the arguments lowered so far.
pub struct LoweredArgs {
    pub state: GenState,
    pub values: Seq<Value>,
}

/// Lowers the arguments of a call from number `from` on, in order, and adds
/// their values to `acc`.
pub open spec fn lower_args(
    st: GenState,
    args: Seq<ExprView>,
    from: nat,
    acc: Seq<Value>,
) -> Result<
    LoweredArgs,
    CodegenError,
>
    decreases args, args.len() - from,
{
    if from >= args.len() {
        Ok(LoweredArgs { state: st, values: acc })
    } else {
        match lower_expr(st, args[from as int]) {
            Ok(arg) => lower_args(arg.state, args, from + 1, acc.push(arg.value)),
            Err(err) => Err(err),
        }
    }
}

/// The instruction that stores `value` to stack slot `slot`.
pub open spec fn store(value: Value, slot: usize) -> InstView {
    InstView::Store { value, ptr: Value::Inst { id: slot } }
}

/// Closes the current block with a branch to `target`, unless it has its
/// terminator already.
pub open spec fn branch_if_open(st: GenState, target: usize) -> GenState {
    if block_closed(st) {
        st
    } else {
        emit(st, InstView::Br { target })
    }
}

/// The numbers of the three blocks of an `if`.
pub struct IfBlocks {
    pub cons: usize,
    pub alter: usize,
    pub merge: usize,
}

/// The numbers that the blocks of an `if` get when they are appended to
/// `st`: consequent, alternative and merge block, in this order.
pub open spec fn if_blocks(st: GenState) -> IfBlocks {
    IfBlocks {
        cons: st.insts.len() as usize,
        alter: (st.insts.len() + 1) as usize,
        merge: (st.insts.len() + 2) as usize,
    }
}

/// The state with the three blocks of an `if` appended and the branch on
/// `cond` emitted, ready for the consequent.
pub open spec fn open_if(st: GenState, cond: Value) -> GenState {
    let blocks = if_blocks(st);
    let with_cons = emit(st, InstView::Block { label: BlockLabel::Cons });
    let with_alter = emit(with_cons, InstView::Block { label: BlockLabel::Alter });
    let with_merge = emit(with_alter, InstView::Block { label: BlockLabel::Merge });
    let branched = emit(
        with_merge,
        InstView::CondBr { cond, then_block: blocks.cons, else_block: blocks.alter },
    );
    emit(branched, InstView::Position { block: blocks.cons })
}

/// Lowers a statement.
///
/// A `let` reserves its slot and binds its name before its initialiser is
/// lowered. An `if` appends its three blocks, branches on the condition,
/// lowers each branch into its block and joins them in the merge block; a
/// branch that has returned gets no jump to the merge block.
pub open spec fn lower_stmt(st: GenState, s: StmtView) -> Result<GenState, CodegenError>
    decreases s, 0nat,
{
    match s {
        StmtView::Block { body } => lower_stmts(st, body, 0),
        StmtView::Let { name, typ, value } => match typ {
            Some(t) => match lower_type(t) {
                Ok(ty) => {
                    let slot = next_id(st);
                    let bound = bind(emit(st, InstView::Alloca { ty, name }), name, slot);
                    match lower_expr(bound, value) {
                        Ok(init) => Ok(emit(init.state, store(init.value, slot))),
                        Err(err) => Err(err),
                    }
                },
                Err(err) => Err(err),
            },
            None => Err(CodegenError::MissingTypeAnnotation),
        },
        StmtView::Assign { name, op, value } => match lookup(st.symbols, name) {
            Some(slot) => match lower_expr(st, value) {
                Ok(rhs) => Ok(emit(rhs.state, store(rhs.value, slot))),
                Err(err) => Err(err),
            },
            None => Err(CodegenError::UnboundIdentifier),
        },
        StmtView::If { expr, body, elze } => match lower_expr(st, expr) {
            Ok(cond) => {
                let blocks = if_blocks(cond.state);
                match lower_stmt(open_if(cond.state, cond.value), *body) {
                    Ok(after_body) => {
                        let in_alter = emit(
                            branch_if_open(after_body, blocks.merge),
                            InstView::Position { block: blocks.alter },
                        );
                        let after_else = match elze {
                            Some(alt) => lower_stmt(in_alter, *alt),
                            None => Ok(in_alter),
                        };
                        match after_else {
                            Ok(done) => Ok(
                                emit(
                                    branch_if_open(done, blocks.merge),
                                    InstView::Position { block: blocks.merge },
                                ),
                            ),
                            Err(err) => Err(err),
                        }
                    },
                    Err(err) => Err(err),
                }
            },
            Err(err) => Err(err),
        },
        StmtView::Return { value } => match value {
            Some(e) => match lower_expr(st, e) {
                Ok(result) => Ok(emit(result.state, InstView::Ret { value: result.value })),
                Err(err) => Err(err),
            },
            None => Ok(emit(st, InstView::RetVoid)),
        },
        StmtView::Expr { .. } => Err(CodegenError::UnsupportedStatement),
    }
}

/// Lowers the statements of a block from number `from` on, in order.
pub open spec fn lower_stmts(st: GenState, stmts: Seq<StmtView>, from: nat) -> Result<
    GenState,
    CodegenError,
>
    decreases stmts, stmts.len() - from,
{
    if from >= stmts.len() {
        Ok(st)
    } else {
        match lower_stmt(st, stmts[from as int]) {
            Ok(next) => lower_stmts(next, stmts, from + 1),
            Err(err) => Err(err),
        }
    }
}

/// The types of the parameters from number `from` on, added to `acc`.
pub open spec fn lower_param_types(params: Seq<FieldView>, from: nat, acc: Seq<IrType>) -> Result<
    Seq<IrType>,
    CodegenError,
>
    decreases params.len() - from,
{
    if from >= params.len() {
        Ok(acc)
    } else {
        match lower_type(params[from as int].typ) {
            Ok(ty) => lower_param_types(params, from + 1, acc.push(ty)),
            Err(err) => Err(err),
        }
    }
}

/// The return type of a function; `Void` where none is written.
pub open spec fn lower_return_type(rtyp: Option<TypeView>) -> Result<IrType, CodegenError> {
    match rtyp {
        Some(t) => lower_type(t),
        None => Ok(IrType::Void),
    }
}

/// The name that the stack slot of every parameter is given.
pub open spec fn param_slot_name() -> Seq<char> {
    "param"@
}

/// Gives each parameter from number `from` on its stack slot: reserves the
/// slot, stores the incoming argument to it, and binds the parameter's
/// name to it. `types` are the lowered types of the parameters.
pub open spec fn spill_params(
    st: GenState,
    params: Seq<FieldView>,
    types: Seq<IrType>,
    from: nat,
) -> GenState
    recommends
        types.len() == params.len(),
    decreases params.len() - from,
{
    if from >= params.len() {
        st
    } else {
        let slot = next_id(st);
        let reserved = emit(
            st,
            InstView::Alloca { ty: types[from as int], name: param_slot_name() },
        );
        let stored = emit(reserved, store(Value::Param { index: from as usize }, slot));
        spill_params(bind(stored, params[from as int].name, slot), params, types, from + 1)
    }
}

/// The state with function `name` registered and its entry block open:
/// the table of locals is empty, and instructions go to the entry block.
pub open spec fn open_function(
    st: GenState,
    name: Seq<char>,
    params: Seq<IrType>,
    ret: IrType,
) -> GenState {
    let id = next_id(st);
    let registered = GenState {
        insts: st.insts.push(InstView::Function { name, params, ret }),
        symbols: Seq::empty(),
        functions: st.functions.push(Entry { name, id }),
    };
    let entry = next_id(registered);
    emit(
        emit(registered, InstView::Block { label: BlockLabel::Entry }),
        InstView::Position { block: entry },
    )
}

/// Lowers a declaration. A function is registered under its name before
/// its body is lowered, so that the body can call it; a struct is not
/// lowered at all.
pub open spec fn lower_decl(st: GenState, d: DeclView) -> Result<GenState, CodegenError> {
    match d {
        DeclView::Function { name, params, body, rtyp } => match lower_param_types(
            params,
            0,
            Seq::empty(),
        ) {
            Ok(types) => match lower_return_type(rtyp) {
                Ok(ret) => lower_stmt(
                    spill_params(open_function(st, name, types, ret), params, types, 0),
                    body,
                ),
                Err(err) => Err(err),
            },
            Err(err) => Err(err),
        },
        DeclView::Struct { .. } => Err(CodegenError::UnsupportedDeclaration),
    }
}

/// Lowers the declarations from number `from` on, in order.
pub open spec fn lower_decls(st: GenState, decls: Seq<DeclView>, from: nat) -> Result<
    GenState,
    CodegenError,
>
    decreases decls.len() - from,
{
    if from >= decls.len() {
        Ok(st)
    } else {
        match lower_decl(st, decls[from as int]) {
            Ok(next) => lower_decls(next, decls, from + 1),
            Err(err) => Err(err),
        }
    }
}

/// The module that a program is lowered to: its instructions, or the
/// first error.
pub open spec fn lower_program(decls: Seq<DeclView>) -> Result<Seq<InstView>, CodegenError> {
    match lower_decls(initial_state(), decls, 0) {
        Ok(st) => Ok(st.insts),
        Err(err) => Err(err),
    }
}

} // verus!
