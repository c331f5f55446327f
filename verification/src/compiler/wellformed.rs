//! Well-formed modules: every instruction refers only to what stands
//! before it, and to the right sort of instruction.
//!
//! What the code generator emits is well-formed in this sense, whatever
//! the program.

use super::ir::{BlockLabel, InstView, IrType, Value};
use super::lower::{
    bind, branch_if_open, emit, if_blocks, infix_inst, initial_state, lookup, lower_args,
    lower_decl, lower_decls, lower_expr, lower_param_types, lower_program, lower_return_type,
    lower_stmt, lower_stmts, lower_type, next_id, open_function, open_if, param_slot_name,
    prefix_inst, spill_params, Entry, GenState,
};
use crate::parser::ast::{DeclView, ExprView, FieldView, StmtView};
use vstd::prelude::*;

verus! {

/// Whether an instruction yields a value.
pub open spec fn yields_value(inst: InstView) -> bool {
    inst is Alloca || inst is Load || inst is Call || inst is Neg || inst is Not || inst is Binary
        || inst is Compare
}

/// Whether instruction number `at` may use `v`: a constant, a parameter,
/// or what an earlier instruction yields.
pub open spec fn value_ok(insts: Seq<InstView>, at: int, v: Value) -> bool {
    match v {
        Value::Inst { id } => id < at && id < insts.len() && yields_value(insts[id as int]),
        _ => true,
    }
}

/// Whether instruction number `at` may use `v` as an address: it is the
/// stack slot that an earlier instruction reserved.
pub open spec fn slot_ok(insts: Seq<InstView>, at: int, v: Value) -> bool {
    match v {
        Value::Inst { id } => id < at && id < insts.len() && insts[id as int] is Alloca,
        _ => false,
    }
}

/// Whether instruction number `at` may refer to block `block`: an earlier
/// instruction appended it.
pub open spec fn block_ok(insts: Seq<InstView>, at: int, block: usize) -> bool {
    block < at && block < insts.len() && insts[block as int] is Block
}

/// Whether instruction number `at` may call `callee`: an earlier
/// instruction registered it.
pub open spec fn callee_ok(insts: Seq<InstView>, at: int, callee: usize) -> bool {
    callee < at && callee < insts.len() && insts[callee as int] is Function
}

/// Whether instruction number `i` refers only to what stands before it.
pub open spec fn inst_ok(insts: Seq<InstView>, i: int) -> bool {
    match insts[i] {
        InstView::Function { .. } => true,
        InstView::Block { .. } => true,
        InstView::Alloca { .. } => true,
        InstView::RetVoid => true,
        InstView::Position { block } => block_ok(insts, i, block),
        InstView::Store { value, ptr } => value_ok(insts, i, value) && slot_ok(insts, i, ptr),
        InstView::Load { ptr } => slot_ok(insts, i, ptr),
        InstView::Call { callee, args } => callee_ok(insts, i, callee) && forall|k: int|
            0 <= k < args.len() ==> value_ok(insts, i, #[trigger] args[k]),
        InstView::Neg { operand } => value_ok(insts, i, operand),
        InstView::Not { operand } => value_ok(insts, i, operand),
        InstView::Binary { op, lhs, rhs } => value_ok(insts, i, lhs) && value_ok(insts, i, rhs),
        InstView::Compare { pred, lhs, rhs } => value_ok(insts, i, lhs) && value_ok(insts, i, rhs),
        InstView::CondBr { cond, then_block, else_block } => value_ok(insts, i, cond) && block_ok(
            insts,
            i,
            then_block,
        ) && block_ok(insts, i, else_block),
        InstView::Br { target } => block_ok(insts, i, target),
        InstView::Ret { value } => value_ok(insts, i, value),
    }
}

/// A module is well-formed if each of its instructions refers only to
/// what stands before it: operands to instructions that yield a value,
/// addresses to stack slots, branch targets to blocks, callees to
/// functions.
#[verifier::opaque]
pub open spec fn module_ok(insts: Seq<InstView>) -> bool {
    forall|i: int| 0 <= i < insts.len() ==> #[trigger] inst_ok(insts, i)
}

/// Whether every entry of `table` stands for a stack slot.
#[verifier::opaque]
pub open spec fn slots_ok(insts: Seq<InstView>, table: Seq<Entry>) -> bool {
    forall|k: int|
        0 <= k < table.len() ==> (#[trigger] table[k]).id < insts.len() && insts[table[k].id as int]
            is Alloca
}

/// Whether every entry of `table` stands for a function.
#[verifier::opaque]
pub open spec fn functions_ok(insts: Seq<InstView>, table: Seq<Entry>) -> bool {
    forall|k: int|
        0 <= k < table.len() ==> (#[trigger] table[k]).id < insts.len() && insts[table[k].id as int]
            is Function
}

/// A state of code generation is well-formed if its module is, its
/// instructions can be numbered in a machine word, and its tables stand
/// for what they say.
pub open spec fn state_ok(st: GenState) -> bool {
    &&& st.insts.len() <= usize::MAX
    &&& module_ok(st.insts)
    &&& slots_ok(st.insts, st.symbols)
    &&& functions_ok(st.insts, st.functions)
}

/// Whether `a` is the beginning of `b`.
#[verifier::opaque]
pub open spec fn begins(a: Seq<InstView>, b: Seq<InstView>) -> bool {
    a.len() <= b.len() && forall|i: int| 0 <= i < a.len() ==> #[trigger] a[i] == b[i]
}

/// A sequence begins what it is extended to, and is no longer than that.
proof fn lemma_begins(a: Seq<InstView>, inst: InstView)
    ensures
        begins(a, a),
        begins(a, a.push(inst)),
{
    reveal(begins);
}

/// `begins` is transitive.
proof fn lemma_begins_trans(a: Seq<InstView>, b: Seq<InstView>, c: Seq<InstView>)
    requires
        begins(a, b),
        begins(b, c),
    ensures
        begins(a, c),
        a.len() <= b.len() <= c.len(),
{
    reveal(begins);
    assert forall|i: int| 0 <= i < a.len() implies #[trigger] a[i] == c[i] by {
        assert(a[i] == b[i]);
        assert(b[i] == c[i]);
    }
}

/// A value that may be used at one place may be used at every later one.
proof fn lemma_value_ok_extends(a: Seq<InstView>, b: Seq<InstView>, at: int, later: int, v: Value)
    requires
        begins(a, b),
        at <= a.len(),
        at <= later,
        value_ok(a, at, v),
    ensures
        value_ok(b, later, v),
{
    reveal(begins);
    if let Value::Inst { id } = v {
        assert(a[id as int] == b[id as int]);
    }
}

/// Instructions keep their standing when more are appended.
proof fn lemma_inst_ok_extends(a: Seq<InstView>, b: Seq<InstView>, i: int)
    requires
        begins(a, b),
        0 <= i < a.len(),
        inst_ok(a, i),
    ensures
        inst_ok(b, i),
{
    reveal(begins);
    assert(a[i] == b[i]);
    match a[i] {
        InstView::Call { callee, args } => {
            assert(a[callee as int] == b[callee as int]);
            assert forall|k: int| 0 <= k < args.len() implies value_ok(
                b,
                i,
                #[trigger] args[k],
            ) by {
                assert(value_ok(a, i, args[k]));
                lemma_value_ok_extends(a, b, i, i, args[k]);
            }
        },
        InstView::Position { block } => {
            assert(a[block as int] == b[block as int]);
        },
        InstView::Store { value, ptr } => {
            lemma_value_ok_extends(a, b, i, i, value);
            if let Value::Inst { id } = ptr {
                assert(a[id as int] == b[id as int]);
            }
        },
        InstView::Load { ptr } => {
            if let Value::Inst { id } = ptr {
                assert(a[id as int] == b[id as int]);
            }
        },
        InstView::Neg { operand } => {
            lemma_value_ok_extends(a, b, i, i, operand);
        },
        InstView::Not { operand } => {
            lemma_value_ok_extends(a, b, i, i, operand);
        },
        InstView::Binary { op, lhs, rhs } => {
            lemma_value_ok_extends(a, b, i, i, lhs);
            lemma_value_ok_extends(a, b, i, i, rhs);
        },
        InstView::Compare { pred, lhs, rhs } => {
            lemma_value_ok_extends(a, b, i, i, lhs);
            lemma_value_ok_extends(a, b, i, i, rhs);
        },
        InstView::CondBr { cond, then_block, else_block } => {
            lemma_value_ok_extends(a, b, i, i, cond);
            assert(a[then_block as int] == b[then_block as int]);
            assert(a[else_block as int] == b[else_block as int]);
        },
        InstView::Br { target } => {
            assert(a[target as int] == b[target as int]);
        },
        InstView::Ret { value } => {
            lemma_value_ok_extends(a, b, i, i, value);
        },
        _ => {},
    }
}

/// Appending an instruction that refers only to what stands before it
/// keeps a state well-formed.
proof fn lemma_emit_ok(st: GenState, inst: InstView)
    requires
        state_ok(st),
        st.insts.len() < usize::MAX,
        inst_ok(st.insts.push(inst), st.insts.len() as int),
    ensures
        state_ok(emit(st, inst)),
        next_id(st) == st.insts.len(),
        yields_value(inst) ==> value_ok(
            emit(st, inst).insts,
            emit(st, inst).insts.len() as int,
            Value::Inst { id: next_id(st) },
        ),
{
    let after = st.insts.push(inst);
    lemma_begins(st.insts, inst);
    assert(module_ok(after)) by {
        reveal(module_ok);
        assert forall|i: int| 0 <= i < after.len() implies #[trigger] inst_ok(after, i) by {
            if i < st.insts.len() {
                lemma_inst_ok_extends(st.insts, after, i);
            }
        }
    }
    assert(slots_ok(after, st.symbols) && functions_ok(after, st.functions)) by {
        reveal(slots_ok);
        reveal(functions_ok);
        reveal(begins);
        assert forall|k: int| 0 <= k < st.symbols.len() implies (#[trigger] st.symbols[k]).id
            < after.len() && after[st.symbols[k].id as int] is Alloca by {
            assert(st.insts[st.symbols[k].id as int] == after[st.symbols[k].id as int]);
        }
        assert forall|k: int| 0 <= k < st.functions.len() implies (#[trigger] st.functions[k]).id
            < after.len() && after[st.functions[k].id as int] is Function by {
            assert(st.insts[st.functions[k].id as int] == after[st.functions[k].id as int]);
        }
    }
}

/// What a table gives for a name is the number of one of its entries.
proof fn lemma_lookup_is_entry(table: Seq<Entry>, name: Seq<char>)
    ensures
        lookup(table, name) matches Some(id) ==> exists|k: int|
            0 <= k < table.len() && (#[trigger] table[k]).id == id,
    decreases table.len(),
{
    if table.len() > 0 {
        if table.last().name == name {
            assert(table[table.len() - 1].id == table.last().id);
        } else {
            lemma_lookup_is_entry(table.drop_last(), name);
            if let Some(id) = lookup(table.drop_last(), name) {
                let k = choose|k: int|
                    0 <= k < table.drop_last().len() && (#[trigger] table.drop_last()[k]).id == id;
                assert(table[k].id == id);
            }
        }
    }
}

/// The slot that a well-formed state holds for a name is a stack slot.
proof fn lemma_slot_lookup(st: GenState, name: Seq<char>)
    requires
        state_ok(st),
    ensures
        lookup(st.symbols, name) matches Some(slot) ==> slot_ok(
            st.insts,
            st.insts.len() as int,
            Value::Inst { id: slot },
        ),
{
    reveal(slots_ok);
    lemma_lookup_is_entry(st.symbols, name);
}

/// The function that a well-formed state holds for a name is a function.
proof fn lemma_callee_lookup(st: GenState, name: Seq<char>)
    requires
        state_ok(st),
    ensures
        lookup(st.functions, name) matches Some(callee) ==> callee_ok(
            st.insts,
            st.insts.len() as int,
            callee,
        ),
{
    reveal(functions_ok);
    lemma_lookup_is_entry(st.functions, name);
}

/// Whether each of `values` may be used by instruction number `at`.
pub open spec fn values_ok(insts: Seq<InstView>, at: int, values: Seq<Value>) -> bool {
    forall|k: int| 0 <= k < values.len() ==> value_ok(insts, at, #[trigger] values[k])
}

/// The instruction of an operator uses its operands and yields a value.
proof fn lemma_operator_inst_ok(insts: Seq<InstView>, inst: InstView, lhs: Value, rhs: Value)
    requires
        value_ok(insts, insts.len() as int, lhs),
        value_ok(insts, insts.len() as int, rhs),
        inst == (InstView::Neg { operand: lhs }) || inst == (InstView::Not { operand: lhs }) || (
        inst matches InstView::Binary { op, lhs: l, rhs: r } && l == lhs && r == rhs) || (
        inst matches InstView::Compare { pred, lhs: l, rhs: r } && l == lhs && r == rhs),
    ensures
        inst_ok(insts.push(inst), insts.len() as int),
        yields_value(inst),
{
    lemma_begins(insts, inst);
    lemma_value_ok_extends(insts, insts.push(inst), insts.len() as int, insts.len() as int, lhs);
    lemma_value_ok_extends(insts, insts.push(inst), insts.len() as int, insts.len() as int, rhs);
}

/// Lowering an expression appends to the module, leaves the tables alone,
/// and keeps a well-formed state well-formed; the value it gives may be
/// used by the next instruction.
pub proof fn lemma_expr_ok(st: GenState, e: ExprView)
    ensures
        lower_expr(st, e) matches Ok(em) ==> {
            &&& begins(st.insts, em.state.insts)
            &&& em.state.symbols == st.symbols
            &&& em.state.functions == st.functions
            &&& state_ok(st) && em.state.insts.len() <= usize::MAX ==> state_ok(em.state)
                && value_ok(em.state.insts, em.state.insts.len() as int, em.value)
        },
    decreases e, 0nat,
{
    if let Ok(em) = lower_expr(st, e) {
        let fits = state_ok(st) && em.state.insts.len() <= usize::MAX;
        match e {
            ExprView::Literal(lit) => {
                lemma_begins(st.insts, InstView::RetVoid);
            },
            ExprView::Ident(name) => {
                let slot = lookup(st.symbols, name).unwrap();
                let inst = InstView::Load { ptr: Value::Inst { id: slot } };
                lemma_begins(st.insts, inst);
                if fits {
                    lemma_slot_lookup(st, name);
                    lemma_emit_ok(st, inst);
                }
            },
            ExprView::Call { name, args } => {
                lemma_args_ok(st, args, 0, Seq::empty());
                let lowered = lower_args(st, args, 0, Seq::empty()).unwrap();
                let callee = lookup(lowered.state.functions, name).unwrap();
                let inst = InstView::Call { callee, args: lowered.values };
                lemma_begins(lowered.state.insts, inst);
                lemma_begins_trans(st.insts, lowered.state.insts, em.state.insts);
                if fits {
                    lemma_callee_lookup(lowered.state, name);
                    let at = lowered.state.insts.len() as int;
                    assert(inst_ok(lowered.state.insts.push(inst), at)) by {
                        assert forall|k: int| 0 <= k < lowered.values.len() implies value_ok(
                            lowered.state.insts.push(inst),
                            lowered.state.insts.len() as int,
                            #[trigger] lowered.values[k],
                        ) by {
                            lemma_value_ok_extends(
                                lowered.state.insts,
                                lowered.state.insts.push(inst),
                                lowered.state.insts.len() as int,
                                lowered.state.insts.len() as int,
                                lowered.values[k],
                            );
                        }
                    }
                    lemma_emit_ok(lowered.state, inst);
                }
            },
            ExprView::Prefix { op, expr } => {
                lemma_expr_ok(st, *expr);
                let x = lower_expr(st, *expr).unwrap();
                let inst = prefix_inst(op, x.value).unwrap();
                lemma_begins(x.state.insts, inst);
                lemma_begins_trans(st.insts, x.state.insts, em.state.insts);
                if fits {
                    lemma_operator_inst_ok(x.state.insts, inst, x.value, x.value);
                    lemma_emit_ok(x.state, inst);
                }
            },
            ExprView::Infix { op, left, right } => {
                lemma_expr_ok(st, *left);
                let lhs = lower_expr(st, *left).unwrap();
                lemma_expr_ok(lhs.state, *right);
                let rhs = lower_expr(lhs.state, *right).unwrap();
                let inst = infix_inst(op, lhs.value, rhs.value).unwrap();
                lemma_begins(rhs.state.insts, inst);
                lemma_begins_trans(st.insts, lhs.state.insts, rhs.state.insts);
                lemma_begins_trans(st.insts, rhs.state.insts, em.state.insts);
                if fits {
                    lemma_value_ok_extends(
                        lhs.state.insts,
                        rhs.state.insts,
                        lhs.state.insts.len() as int,
                        rhs.state.insts.len() as int,
                        lhs.value,
                    );
                    lemma_operator_inst_ok(rhs.state.insts, inst, lhs.value, rhs.value);
                    lemma_emit_ok(rhs.state, inst);
                }
            },
            ExprView::Postfix { .. } => {},
        }
    }
}

/// Lowering the arguments of a call keeps a well-formed state well-formed;
/// the values it gives may be used by the next instruction.
pub proof fn lemma_args_ok(st: GenState, args: Seq<ExprView>, from: nat, acc: Seq<Value>)
    ensures
        lower_args(st, args, from, acc) matches Ok(l) ==> {
            &&& begins(st.insts, l.state.insts)
            &&& l.state.symbols == st.symbols
            &&& l.state.functions == st.functions
            &&& state_ok(st) && l.state.insts.len() <= usize::MAX && values_ok(
                st.insts,
                st.insts.len() as int,
                acc,
            ) ==> state_ok(l.state) && values_ok(
                l.state.insts,
                l.state.insts.len() as int,
                l.values,
            )
        },
    decreases args, args.len() - from,
{
    if let Ok(l) = lower_args(st, args, from, acc) {
        if from < args.len() {
            lemma_expr_ok(st, args[from as int]);
            let arg = lower_expr(st, args[from as int]).unwrap();
            lemma_args_ok(arg.state, args, from + 1, acc.push(arg.value));
            lemma_begins_trans(st.insts, arg.state.insts, l.state.insts);
            if state_ok(st) && l.state.insts.len() <= usize::MAX && values_ok(
                st.insts,
                st.insts.len() as int,
                acc,
            ) {
                let next = acc.push(arg.value);
                assert forall|k: int| 0 <= k < next.len() implies value_ok(
                    arg.state.insts,
                    arg.state.insts.len() as int,
                    #[trigger] next[k],
                ) by {
                    if k < acc.len() {
                        lemma_value_ok_extends(
                            st.insts,
                            arg.state.insts,
                            st.insts.len() as int,
                            arg.state.insts.len() as int,
                            acc[k],
                        );
                    }
                }
            }
        } else {
            lemma_begins(st.insts, InstView::RetVoid);
        }
    }
}

/// A block that may be referred to at one place may be referred to at
/// every later one.
proof fn lemma_block_ok_extends(
    a: Seq<InstView>,
    b: Seq<InstView>,
    at: int,
    later: int,
    block: usize,
)
    requires
        begins(a, b),
        at <= a.len(),
        at <= later,
        block_ok(a, at, block),
    ensures
        block_ok(b, later, block),
{
    reveal(begins);
    assert(a[block as int] == b[block as int]);
}

/// Binding a name to a stack slot keeps a state well-formed.
proof fn lemma_bind_ok(st: GenState, name: Seq<char>, id: usize)
    requires
        state_ok(st),
        id < st.insts.len(),
        st.insts[id as int] is Alloca,
    ensures
        state_ok(bind(st, name, id)),
{
    reveal(slots_ok);
    let after = bind(st, name, id);
    assert forall|k: int| 0 <= k < after.symbols.len() implies (#[trigger] after.symbols[k]).id
        < after.insts.len() && after.insts[after.symbols[k].id as int] is Alloca by {
        if k < st.symbols.len() {
            assert(after.symbols[k] == st.symbols[k]);
        }
    }
}

/// Appending one instruction, whatever it is, extends the module by one.
proof fn lemma_emit_begins(st: GenState, inst: InstView)
    ensures
        begins(st.insts, emit(st, inst).insts),
        emit(st, inst).insts.len() == st.insts.len() + 1,
        emit(st, inst).symbols == st.symbols,
        emit(st, inst).functions == st.functions,
{
    lemma_begins(st.insts, inst);
}

/// Opening an `if` appends five instructions.
proof fn lemma_open_if_begins(st: GenState, cond: Value)
    ensures
        begins(st.insts, open_if(st, cond).insts),
        open_if(st, cond).insts.len() == st.insts.len() + 5,
        open_if(st, cond).symbols == st.symbols,
        open_if(st, cond).functions == st.functions,
{
    reveal(begins);
}

/// Opening an `if` keeps a state well-formed, and its three blocks may be
/// referred to from then on.
proof fn lemma_open_if_ok(st: GenState, cond: Value)
    requires
        state_ok(st),
        st.insts.len() + 5 <= usize::MAX,
        value_ok(st.insts, st.insts.len() as int, cond),
    ensures
        state_ok(open_if(st, cond)),
        block_ok(open_if(st, cond).insts, (st.insts.len() + 5) as int, if_blocks(st).cons),
        block_ok(open_if(st, cond).insts, (st.insts.len() + 5) as int, if_blocks(st).alter),
        block_ok(open_if(st, cond).insts, (st.insts.len() + 5) as int, if_blocks(st).merge),
{
    let blocks = if_blocks(st);
    let cons = InstView::Block { label: BlockLabel::Cons };
    let alter = InstView::Block { label: BlockLabel::Alter };
    let merge = InstView::Block { label: BlockLabel::Merge };
    let s1 = emit(st, cons);
    lemma_emit_ok(st, cons);
    let s2 = emit(s1, alter);
    lemma_emit_ok(s1, alter);
    let s3 = emit(s2, merge);
    lemma_emit_ok(s2, merge);
    let branch = InstView::CondBr { cond, then_block: blocks.cons, else_block: blocks.alter };
    lemma_emit_begins(st, cons);
    lemma_emit_begins(s1, alter);
    lemma_emit_begins(s2, merge);
    lemma_begins_trans(st.insts, s1.insts, s2.insts);
    lemma_begins_trans(st.insts, s2.insts, s3.insts);
    lemma_begins(s3.insts, branch);
    lemma_begins_trans(st.insts, s3.insts, s3.insts.push(branch));
    lemma_value_ok_extends(
        st.insts,
        s3.insts.push(branch),
        st.insts.len() as int,
        s3.insts.len() as int,
        cond,
    );
    lemma_emit_ok(s3, branch);
    let s4 = emit(s3, branch);
    let position = InstView::Position { block: blocks.cons };
    lemma_emit_ok(s4, position);
}

/// Closing the current block appends at most one instruction.
proof fn lemma_branch_begins(st: GenState, target: usize)
    ensures
        begins(st.insts, branch_if_open(st, target).insts),
        branch_if_open(st, target).symbols == st.symbols,
        branch_if_open(st, target).functions == st.functions,
{
    lemma_begins(st.insts, InstView::Br { target });
}

/// Closing the current block with a branch to a block that may be
/// referred to keeps a state well-formed.
proof fn lemma_branch_ok(st: GenState, target: usize)
    requires
        state_ok(st),
        branch_if_open(st, target).insts.len() <= usize::MAX,
        block_ok(st.insts, st.insts.len() as int, target),
    ensures
        state_ok(branch_if_open(st, target)),
{
    let inst = InstView::Br { target };
    if branch_if_open(st, target) != st {
        lemma_emit_ok(st, inst);
    }
}

/// Moving to a block that may be referred to keeps a state well-formed.
proof fn lemma_position_ok(st: GenState, block: usize)
    requires
        state_ok(st),
        st.insts.len() < usize::MAX,
        block_ok(st.insts, st.insts.len() as int, block),
    ensures
        state_ok(emit(st, InstView::Position { block })),
{
    lemma_emit_ok(st, InstView::Position { block });
}

/// Storing a value that may be used to a stack slot keeps a state
/// well-formed.
proof fn lemma_store_ok(st: GenState, value: Value, slot: usize)
    requires
        state_ok(st),
        st.insts.len() < usize::MAX,
        value_ok(st.insts, st.insts.len() as int, value),
        slot_ok(st.insts, st.insts.len() as int, Value::Inst { id: slot }),
    ensures
        state_ok(emit(st, InstView::Store { value, ptr: Value::Inst { id: slot } })),
{
    lemma_emit_ok(st, InstView::Store { value, ptr: Value::Inst { id: slot } });
}

/// A stack slot that may be used at one place may be used at every later
/// one.
proof fn lemma_slot_ok_extends(a: Seq<InstView>, b: Seq<InstView>, at: int, later: int, v: Value)
    requires
        begins(a, b),
        at <= a.len(),
        at <= later,
        slot_ok(a, at, v),
    ensures
        slot_ok(b, later, v),
{
    reveal(begins);
    if let Value::Inst { id } = v {
        assert(a[id as int] == b[id as int]);
    }
}

/// Lowering a statement appends to the module, leaves the functions alone,
/// and keeps a well-formed state well-formed.
pub proof fn lemma_stmt_ok(st: GenState, s: StmtView)
    ensures
        lower_stmt(st, s) matches Ok(after) ==> {
            &&& begins(st.insts, after.insts)
            &&& after.functions == st.functions
            &&& state_ok(st) && after.insts.len() <= usize::MAX ==> state_ok(after)
        },
    decreases s, 1nat,
{
    if let Ok(after) = lower_stmt(st, s) {
        let fits = state_ok(st) && after.insts.len() <= usize::MAX;
        match s {
            StmtView::Block { body } => {
                lemma_stmts_ok(st, body, 0);
            },
            StmtView::Let { name, typ, value } => {
                let ty = lower_type(typ.unwrap()).unwrap();
                let slot = next_id(st);
                let reserve = InstView::Alloca { ty, name };
                let reserved = emit(st, reserve);
                let bound = bind(reserved, name, slot);
                lemma_emit_begins(st, reserve);
                lemma_expr_ok(bound, value);
                let init = lower_expr(bound, value).unwrap();
                let store = InstView::Store { value: init.value, ptr: Value::Inst { id: slot } };
                lemma_emit_begins(init.state, store);
                lemma_begins_trans(st.insts, bound.insts, init.state.insts);
                lemma_begins_trans(st.insts, init.state.insts, after.insts);
                if fits {
                    lemma_emit_ok(st, reserve);
                    lemma_bind_ok(reserved, name, slot);
                    lemma_slot_ok_extends(
                        bound.insts,
                        init.state.insts,
                        bound.insts.len() as int,
                        init.state.insts.len() as int,
                        Value::Inst { id: slot },
                    );
                    lemma_store_ok(init.state, init.value, slot);
                }
            },
            StmtView::Assign { name, op, value } => {
                let slot = lookup(st.symbols, name).unwrap();
                lemma_expr_ok(st, value);
                let rhs = lower_expr(st, value).unwrap();
                let store = InstView::Store { value: rhs.value, ptr: Value::Inst { id: slot } };
                lemma_emit_begins(rhs.state, store);
                lemma_begins_trans(st.insts, rhs.state.insts, after.insts);
                if fits {
                    lemma_slot_lookup(st, name);
                    lemma_slot_ok_extends(
                        st.insts,
                        rhs.state.insts,
                        st.insts.len() as int,
                        rhs.state.insts.len() as int,
                        Value::Inst { id: slot },
                    );
                    lemma_store_ok(rhs.state, rhs.value, slot);
                }
            },
            StmtView::If { .. } => {
                lemma_if_ok(st, s);
            },
            StmtView::Return { value } => {
                match value {
                    Some(e) => {
                        lemma_expr_ok(st, e);
                        let result = lower_expr(st, e).unwrap();
                        let ret = InstView::Ret { value: result.value };
                        lemma_emit_begins(result.state, ret);
                        lemma_begins_trans(st.insts, result.state.insts, after.insts);
                        if fits {
                            lemma_value_ok_extends(
                                result.state.insts,
                                result.state.insts.push(ret),
                                result.state.insts.len() as int,
                                result.state.insts.len() as int,
                                result.value,
                            );
                            lemma_emit_ok(result.state, ret);
                        }
                    },
                    None => {
                        lemma_emit_begins(st, InstView::RetVoid);
                        if fits {
                            lemma_emit_ok(st, InstView::RetVoid);
                        }
                    },
                }
            },
            StmtView::Expr { .. } => {},
        }
    }
}

/// Lowering an `if` keeps a well-formed state well-formed.
proof fn lemma_if_ok(st: GenState, s: StmtView)
    requires
        s is If,
    ensures
        lower_stmt(st, s) matches Ok(after) ==> {
            &&& begins(st.insts, after.insts)
            &&& after.functions == st.functions
            &&& state_ok(st) && after.insts.len() <= usize::MAX ==> state_ok(after)
        },
    decreases s, 0nat,
{
    let expr = s->If_expr;
    let body = *s->If_body;
    let elze = s->elze;
    if let Ok(after) = lower_stmt(st, s) {
        let fits = state_ok(st) && after.insts.len() <= usize::MAX;
        lemma_expr_ok(st, expr);
        let cond = lower_expr(st, expr).unwrap();
        let blocks = if_blocks(cond.state);
        let opened = open_if(cond.state, cond.value);
        lemma_open_if_begins(cond.state, cond.value);
        lemma_stmt_ok(opened, body);
        let after_body = lower_stmt(opened, body).unwrap();
        let closed_body = branch_if_open(after_body, blocks.merge);
        lemma_branch_begins(after_body, blocks.merge);
        let to_alter = InstView::Position { block: blocks.alter };
        let in_alter = emit(closed_body, to_alter);
        lemma_emit_begins(closed_body, to_alter);
        let done = match elze {
            Some(alt) => lower_stmt(in_alter, *alt).unwrap(),
            None => in_alter,
        };
        match elze {
            Some(alt) => {
                lemma_stmt_ok(in_alter, *alt);
            },
            None => {
                lemma_begins(in_alter.insts, to_alter);
            },
        }
        let closed_else = branch_if_open(done, blocks.merge);
        lemma_branch_begins(done, blocks.merge);
        let to_merge = InstView::Position { block: blocks.merge };
        lemma_emit_begins(closed_else, to_merge);
        assert(after == emit(closed_else, to_merge));
        lemma_begins_trans(st.insts, cond.state.insts, opened.insts);
        lemma_begins_trans(st.insts, opened.insts, after_body.insts);
        lemma_begins_trans(st.insts, after_body.insts, closed_body.insts);
        lemma_begins_trans(st.insts, closed_body.insts, in_alter.insts);
        lemma_begins_trans(st.insts, in_alter.insts, done.insts);
        lemma_begins_trans(st.insts, done.insts, closed_else.insts);
        lemma_begins_trans(st.insts, closed_else.insts, after.insts);
        lemma_begins_trans(opened.insts, after_body.insts, closed_body.insts);
        lemma_begins_trans(opened.insts, closed_body.insts, in_alter.insts);
        lemma_begins_trans(opened.insts, in_alter.insts, done.insts);
        lemma_begins_trans(opened.insts, done.insts, closed_else.insts);
        if fits {
            lemma_open_if_ok(cond.state, cond.value);
            lemma_block_ok_extends(
                opened.insts,
                after_body.insts,
                opened.insts.len() as int,
                after_body.insts.len() as int,
                blocks.merge,
            );
            lemma_branch_ok(after_body, blocks.merge);
            lemma_block_ok_extends(
                opened.insts,
                closed_body.insts,
                opened.insts.len() as int,
                closed_body.insts.len() as int,
                blocks.alter,
            );
            lemma_position_ok(closed_body, blocks.alter);
            lemma_block_ok_extends(
                opened.insts,
                done.insts,
                opened.insts.len() as int,
                done.insts.len() as int,
                blocks.merge,
            );
            lemma_branch_ok(done, blocks.merge);
            lemma_block_ok_extends(
                opened.insts,
                closed_else.insts,
                opened.insts.len() as int,
                closed_else.insts.len() as int,
                blocks.merge,
            );
            lemma_position_ok(closed_else, blocks.merge);
        }
    }
}

/// Lowering the statements of a block keeps a well-formed state
/// well-formed.
pub proof fn lemma_stmts_ok(st: GenState, stmts: Seq<StmtView>, from: nat)
    ensures
        lower_stmts(st, stmts, from) matches Ok(after) ==> {
            &&& begins(st.insts, after.insts)
            &&& after.functions == st.functions
            &&& state_ok(st) && after.insts.len() <= usize::MAX ==> state_ok(after)
        },
    decreases stmts, stmts.len() - from,
{
    if let Ok(after) = lower_stmts(st, stmts, from) {
        if from < stmts.len() {
            lemma_stmt_ok(st, stmts[from as int]);
            let next = lower_stmt(st, stmts[from as int]).unwrap();
            lemma_stmts_ok(next, stmts, from + 1);
            lemma_begins_trans(st.insts, next.insts, after.insts);
        } else {
            lemma_begins(st.insts, InstView::RetVoid);
        }
    }
}

/// Spilling the parameters appends to the module and leaves the functions
/// alone.
proof fn lemma_spill_ok(st: GenState, params: Seq<FieldView>, types: Seq<IrType>, from: nat)
    ensures
        begins(st.insts, spill_params(st, params, types, from).insts),
        spill_params(st, params, types, from).functions == st.functions,
        state_ok(st) && spill_params(st, params, types, from).insts.len() <= usize::MAX
            ==> state_ok(spill_params(st, params, types, from)),
    decreases params.len() - from,
{
    if from < params.len() {
        let slot = next_id(st);
        let reserve = InstView::Alloca { ty: types[from as int], name: param_slot_name() };
        let reserved = emit(st, reserve);
        let store = InstView::Store {
            value: Value::Param { index: from as usize },
            ptr: Value::Inst { id: slot },
        };
        let stored = emit(reserved, store);
        let bound = bind(stored, params[from as int].name, slot);
        lemma_emit_begins(st, reserve);
        lemma_emit_begins(reserved, store);
        lemma_spill_ok(bound, params, types, from + 1);
        let after = spill_params(st, params, types, from);
        lemma_begins_trans(st.insts, reserved.insts, stored.insts);
        lemma_begins_trans(st.insts, bound.insts, after.insts);
        if state_ok(st) && after.insts.len() <= usize::MAX {
            lemma_emit_ok(st, reserve);
            lemma_store_ok(reserved, Value::Param { index: from as usize }, slot);
            lemma_begins(stored.insts, store);
            lemma_bind_ok(stored, params[from as int].name, slot);
        }
    } else {
        lemma_begins(st.insts, InstView::RetVoid);
    }
}

/// Opening a function appends three instructions, and keeps a well-formed
/// state well-formed.
proof fn lemma_open_function_ok(
    st: GenState,
    name: Seq<char>,
    params: Seq<IrType>,
    ret: IrType,
)
    ensures
        begins(st.insts, open_function(st, name, params, ret).insts),
        state_ok(st) && open_function(st, name, params, ret).insts.len() <= usize::MAX
            ==> state_ok(open_function(st, name, params, ret)),
{
    let id = next_id(st);
    let function = InstView::Function { name, params, ret };
    let registered = GenState {
        insts: st.insts.push(function),
        symbols: Seq::empty(),
        functions: st.functions.push(Entry { name, id }),
    };
    let block = InstView::Block { label: BlockLabel::Entry };
    let entry = next_id(registered);
    let with_block = emit(registered, block);
    let position = InstView::Position { block: entry };
    let after = open_function(st, name, params, ret);
    lemma_begins(st.insts, function);
    lemma_emit_begins(registered, block);
    lemma_emit_begins(with_block, position);
    lemma_begins_trans(st.insts, registered.insts, with_block.insts);
    lemma_begins_trans(st.insts, with_block.insts, after.insts);
    if state_ok(st) && after.insts.len() <= usize::MAX {
        lemma_emit_ok(st, function);
        assert(state_ok(registered)) by {
            reveal(slots_ok);
            reveal(functions_ok);
            let plain = emit(st, function);
            assert forall|k: int| 0 <= k < registered.functions.len() implies (
            #[trigger] registered.functions[k]).id < registered.insts.len()
                && registered.insts[registered.functions[k].id as int] is Function by {
                if k < st.functions.len() {
                    assert(registered.functions[k] == plain.functions[k]);
                }
            }
        }
        lemma_emit_ok(registered, block);
        lemma_position_ok(with_block, entry);
    }
}

/// Lowering a declaration appends to the module and keeps a well-formed
/// state well-formed.
pub proof fn lemma_decl_ok(st: GenState, d: DeclView)
    ensures
        lower_decl(st, d) matches Ok(after) ==> {
            &&& begins(st.insts, after.insts)
            &&& state_ok(st) && after.insts.len() <= usize::MAX ==> state_ok(after)
        },
{
    if let Ok(after) = lower_decl(st, d) {
        if let DeclView::Function { name, params, body, rtyp } = d {
            let types = lower_param_types(params, 0, Seq::empty()).unwrap();
            let ret = lower_return_type(rtyp).unwrap();
            let opened = open_function(st, name, types, ret);
            let spilled = spill_params(opened, params, types, 0);
            lemma_open_function_ok(st, name, types, ret);
            lemma_spill_ok(opened, params, types, 0);
            lemma_stmt_ok(spilled, body);
            lemma_begins_trans(st.insts, opened.insts, spilled.insts);
            lemma_begins_trans(st.insts, spilled.insts, after.insts);
            lemma_begins_trans(opened.insts, spilled.insts, after.insts);
        }
    }
}

/// Lowering declarations appends to the module and keeps a well-formed
/// state well-formed.
pub proof fn lemma_decls_ok(st: GenState, decls: Seq<DeclView>, from: nat)
    ensures
        lower_decls(st, decls, from) matches Ok(after) ==> {
            &&& begins(st.insts, after.insts)
            &&& state_ok(st) && after.insts.len() <= usize::MAX ==> state_ok(after)
        },
    decreases decls.len() - from,
{
    if let Ok(after) = lower_decls(st, decls, from) {
        if from < decls.len() {
            lemma_decl_ok(st, decls[from as int]);
            let next = lower_decl(st, decls[from as int]).unwrap();
            lemma_decls_ok(next, decls, from + 1);
            lemma_begins_trans(st.insts, next.insts, after.insts);
        } else {
            lemma_begins(st.insts, InstView::RetVoid);
        }
    }
}

/// The state before anything is emitted is well-formed.
pub proof fn lemma_initial_state_ok()
    ensures
        state_ok(initial_state()),
{
    reveal(module_ok);
    reveal(slots_ok);
    reveal(functions_ok);
}

/// The module of every program that can be lowered is well-formed, as
/// long as its instructions can be numbered in a machine word.
pub proof fn lemma_program_ok(decls: Seq<DeclView>)
    ensures
        lower_program(decls) matches Ok(insts) ==> insts.len() <= usize::MAX ==> module_ok(insts),
{
    lemma_initial_state_ok();
    lemma_decls_ok(initial_state(), decls, 0);
}

} // verus!
