use lyth::compiler::ir::{BinaryOp, BlockLabel, Inst, IrType, Predicate, Value};
use lyth::compiler::lower::CodegenError;
use lyth::compiler::{find, infix_instruction, prefix_instruction, CompileError, Compiler};
use lyth::lexer::token::TokenKind;
use lyth::parser::ast::{Expr, Lit, Stmt, Type};
use lyth::parser::grammar::ParseErrorKind;
use std::collections::HashMap;

/// Runs `main` of a compiled module and gives what it returns, as a number
/// of the width of its type. `None` stands for a return without a value.
fn run(insts: &[Inst], entry: &str) -> Option<i128> {
    let f = insts
        .iter()
        .position(|i| matches!(i, Inst::Function { name, .. } if name == entry))
        .expect("no such function");
    call(insts, f, &[])
}

fn width(ty: IrType) -> u32 {
    match ty {
        IrType::I1 => 1,
        IrType::I8 => 8,
        IrType::I16 => 16,
        IrType::I32 => 32,
        IrType::I64 => 64,
        IrType::I128 => 128,
        IrType::Void => 0,
    }
}

fn wrap(bits: u32, v: i128) -> i128 {
    if bits >= 128 {
        v
    } else {
        let m = v & ((1i128 << bits) - 1);
        if bits > 1 && m >> (bits - 1) == 1 {
            m - (1i128 << bits)
        } else {
            m
        }
    }
}

/// The instructions of each block of function `f`, and the first block.
fn blocks_of(insts: &[Inst], f: usize) -> (HashMap<usize, Vec<usize>>, usize) {
    let mut blocks: HashMap<usize, Vec<usize>> = HashMap::new();
    let mut first = None;
    let mut current = None;
    let mut i = f + 1;
    while i < insts.len() && !matches!(insts[i], Inst::Function { .. }) {
        match &insts[i] {
            Inst::Block { .. } => {
                blocks.insert(i, Vec::new());
                if first.is_none() {
                    first = Some(i);
                }
            }
            Inst::Position { block } => current = Some(*block),
            _ => blocks.get_mut(&current.unwrap()).unwrap().push(i),
        }
        i += 1;
    }
    (blocks, first.unwrap())
}

fn call(insts: &[Inst], f: usize, args: &[(u32, i128)]) -> Option<i128> {
    let (blocks, entry) = blocks_of(insts, f);
    let mut values: HashMap<usize, (u32, i128)> = HashMap::new();
    let mut slots: HashMap<usize, (u32, i128)> = HashMap::new();
    let mut block = entry;
    let mut steps = 0;
    loop {
        let mut next = None;
        for &i in &blocks[&block] {
            steps += 1;
            assert!(steps < 100_000, "does not end");
            let get = |v: &Value, values: &HashMap<usize, (u32, i128)>| match v {
                Value::Const { ty, value } => (width(*ty), wrap(width(*ty), *value as i128)),
                Value::Param { index } => args[*index],
                Value::Inst { id } => values[id],
            };
            match &insts[i] {
                Inst::Alloca { ty, .. } => {
                    slots.insert(i, (width(*ty), 0));
                }
                Inst::Store { value, ptr } => {
                    let v = get(value, &values);
                    let Value::Inst { id } = ptr else { panic!("store to no slot") };
                    assert_eq!(slots[id].0, v.0, "store of another width");
                    slots.insert(*id, v);
                }
                Inst::Load { ptr } => {
                    let Value::Inst { id } = ptr else { panic!("load from no slot") };
                    values.insert(i, slots[id]);
                }
                Inst::Call { callee, args: actual } => {
                    let actual: Vec<(u32, i128)> = actual.iter().map(|a| get(a, &values)).collect();
                    let Inst::Function { ret, .. } = &insts[*callee] else { panic!("no function") };
                    let r = call(insts, *callee, &actual);
                    values.insert(i, (width(*ret), r.unwrap_or(0)));
                }
                Inst::Neg { operand } => {
                    let (b, v) = get(operand, &values);
                    values.insert(i, (b, wrap(b, v.wrapping_neg())));
                }
                Inst::Not { operand } => {
                    let (b, v) = get(operand, &values);
                    values.insert(i, (b, wrap(b, !v)));
                }
                Inst::Binary { op, lhs, rhs } => {
                    let (b, l) = get(lhs, &values);
                    let (b2, r) = get(rhs, &values);
                    assert_eq!(b, b2, "operands of two widths");
                    let v = match op {
                        BinaryOp::Add => l.wrapping_add(r),
                        BinaryOp::Sub => l.wrapping_sub(r),
                        BinaryOp::Mul => l.wrapping_mul(r),
                        BinaryOp::SDiv => l.wrapping_div(r),
                        BinaryOp::SRem => l.wrapping_rem(r),
                        BinaryOp::And => l & r,
                        BinaryOp::Or => l | r,
                        BinaryOp::Xor => l ^ r,
                    };
                    values.insert(i, (b, wrap(b, v)));
                }
                Inst::Compare { pred, lhs, rhs } => {
                    let (_, l) = get(lhs, &values);
                    let (_, r) = get(rhs, &values);
                    let v = match pred {
                        Predicate::Eq => l == r,
                        Predicate::Ne => l != r,
                        Predicate::Slt => l < r,
                        Predicate::Sle => l <= r,
                        Predicate::Sgt => l > r,
                        Predicate::Sge => l >= r,
                    };
                    values.insert(i, (1, v as i128));
                }
                Inst::CondBr { cond, then_block, else_block } => {
                    let (_, c) = get(cond, &values);
                    next = Some(if c & 1 == 1 { *then_block } else { *else_block });
                    break;
                }
                Inst::Br { target } => {
                    next = Some(*target);
                    break;
                }
                Inst::Ret { value } => {
                    let (b, v) = get(value, &values);
                    return Some(if b == 1 { v & 1 } else { v });
                }
                Inst::RetVoid => return None,
                Inst::Function { .. } | Inst::Block { .. } | Inst::Position { .. } => {
                    unreachable!()
                }
            }
        }
        block = next.expect("block without terminator");
    }
}

fn compile_and_run(source: &str) -> Option<i128> {
    let mut compiler = Compiler::new("test.ly", source);
    compiler.compile().unwrap();
    run(compiler.instructions(), "main")
}

fn codegen_error(source: &str) -> CodegenError {
    let mut compiler = Compiler::new("test.ly", source);
    match compiler.compile() {
        Err(CompileError::Codegen(e)) => e,
        other => panic!("expected a code generation error, got {:?}", other),
    }
}

fn slot(id: usize) -> Value {
    Value::Inst { id }
}

fn i64c(value: u64) -> Value {
    Value::Const { ty: IrType::I64, value }
}

#[test]
fn scenario_return_constant() {
    assert_eq!(compile_and_run("fn main() i64 { return 42; }"), Some(42));
}

#[test]
fn scenario_precedence() {
    assert_eq!(
        compile_and_run("fn main() i64 { let a: i64 = 1; let b: i64 = 2; return a + b * 3; }"),
        Some(7)
    );
}

#[test]
fn scenario_left_associativity() {
    assert_eq!(
        compile_and_run("fn main() i64 { let a: i64 = 10; let b: i64 = 3; return a - b - 2; }"),
        Some(5)
    );
}

#[test]
fn scenario_if_with_call() {
    assert_eq!(
        compile_and_run(
            "fn abs(x: i64) i64 { if x < 0 { return -x; } return x; }\n\
             fn main() i64 { return abs(-7); }"
        ),
        Some(7)
    );
    assert_eq!(
        compile_and_run(
            "fn abs(x: i64) i64 { if x < 0 { return -x; } return x; }\n\
             fn main() i64 { return abs(9); }"
        ),
        Some(9)
    );
}

#[test]
fn scenario_bitwise_on_booleans() {
    assert_eq!(
        compile_and_run(
            "fn main() bool { let t: bool = true; let f: bool = false; return t & !f; }"
        ),
        Some(1)
    );
}

#[test]
fn scenario_unbound_identifier_fails() {
    assert_eq!(codegen_error("fn main() i64 { return a; }"), CodegenError::UnboundIdentifier);
}

#[test]
fn module_of_the_smallest_program() {
    let mut compiler = Compiler::new("test.ly", "fn main() i64 { return 42; }");
    assert!(compiler.instructions().is_empty());
    compiler.compile().unwrap();
    assert_eq!(
        compiler.instructions(),
        &vec![
            Inst::Function { name: "main".to_string(), params: vec![], ret: IrType::I64 },
            Inst::Block { label: BlockLabel::Entry },
            Inst::Position { block: 1 },
            Inst::Ret { value: i64c(42) },
        ]
    );
}

#[test]
fn parameters_are_spilled_to_slots_named_param() {
    let mut compiler = Compiler::new("test.ly", "fn f(a: i8, b: bool) { return; }");
    compiler.compile().unwrap();
    assert_eq!(
        compiler.instructions(),
        &vec![
            Inst::Function {
                name: "f".to_string(),
                params: vec![IrType::I8, IrType::I1],
                ret: IrType::Void
            },
            Inst::Block { label: BlockLabel::Entry },
            Inst::Position { block: 1 },
            Inst::Alloca { ty: IrType::I8, name: "param".to_string() },
            Inst::Store { value: Value::Param { index: 0 }, ptr: slot(3) },
            Inst::Alloca { ty: IrType::I1, name: "param".to_string() },
            Inst::Store { value: Value::Param { index: 1 }, ptr: slot(5) },
            Inst::RetVoid,
        ]
    );
}

#[test]
fn let_binds_before_its_initialiser_is_lowered() {
    let mut compiler = Compiler::new("test.ly", "fn f() { let a: i64 = a; }");
    compiler.compile().unwrap();
    assert_eq!(
        &compiler.instructions()[3..],
        &[
            Inst::Alloca { ty: IrType::I64, name: "a".to_string() },
            Inst::Load { ptr: slot(3) },
            Inst::Store { value: slot(4), ptr: slot(3) },
        ]
    );
}

#[test]
fn if_else_lowers_to_three_blocks() {
    let mut compiler = Compiler::new(
        "test.ly",
        "fn f(c: bool) i64 { let r: i64 = 0; if c { r = 1; } else { r = 2; } return r; }",
    );
    compiler.compile().unwrap();
    assert_eq!(
        &compiler.instructions()[5..],
        &[
            Inst::Alloca { ty: IrType::I64, name: "r".to_string() },
            Inst::Store { value: i64c(0), ptr: slot(5) },
            Inst::Load { ptr: slot(3) },
            Inst::Block { label: BlockLabel::Cons },
            Inst::Block { label: BlockLabel::Alter },
            Inst::Block { label: BlockLabel::Merge },
            Inst::CondBr { cond: slot(7), then_block: 8, else_block: 9 },
            Inst::Position { block: 8 },
            Inst::Store { value: i64c(1), ptr: slot(5) },
            Inst::Br { target: 10 },
            Inst::Position { block: 9 },
            Inst::Store { value: i64c(2), ptr: slot(5) },
            Inst::Br { target: 10 },
            Inst::Position { block: 10 },
            Inst::Load { ptr: slot(5) },
            Inst::Ret { value: slot(19) },
        ]
    );
}

#[test]
fn branch_that_returns_gets_no_jump_to_the_merge_block() {
    let mut compiler = Compiler::new("test.ly", "fn f() i64 { if true { return 1; } return 2; }");
    compiler.compile().unwrap();
    assert_eq!(
        &compiler.instructions()[3..],
        &[
            Inst::Block { label: BlockLabel::Cons },
            Inst::Block { label: BlockLabel::Alter },
            Inst::Block { label: BlockLabel::Merge },
            Inst::CondBr {
                cond: Value::Const { ty: IrType::I1, value: 1 },
                then_block: 3,
                else_block: 4
            },
            Inst::Position { block: 3 },
            Inst::Ret { value: i64c(1) },
            Inst::Position { block: 4 },
            Inst::Br { target: 5 },
            Inst::Position { block: 5 },
            Inst::Ret { value: i64c(2) },
        ]
    );
}

#[test]
fn if_without_else_runs_either_way() {
    let source = |x: i64| {
        format!(
            "fn pick(x: i64) i64 {{ let r: i64 = 10; if x == 1 {{ r = 20; }} return r; }}\n\
             fn main() i64 {{ return pick({}); }}",
            x
        )
    };
    assert_eq!(compile_and_run(&source(1)), Some(20));
    assert_eq!(compile_and_run(&source(2)), Some(10));
}

#[test]
fn else_if_chain_runs() {
    let source = |x: i64| {
        format!(
            "fn sign(x: i64) i64 {{ if x < 0 {{ return 0 - 1; }} else if x == 0 {{ return 0; }} \
             else {{ return 1; }} }}\n\
             fn main() i64 {{ return sign(0 + {}); }}",
            x
        )
    };
    assert_eq!(compile_and_run(&source(5)), Some(1));
    assert_eq!(compile_and_run(&source(0)), Some(0));
    assert_eq!(compile_and_run(&source(-3)), Some(-1));
}

#[test]
fn arithmetic_and_comparison_operators_run() {
    let value = |e: &str| compile_and_run(&format!("fn main() i64 {{ return {}; }}", e));
    assert_eq!(value("7 + 5"), Some(12));
    assert_eq!(value("7 - 5"), Some(2));
    assert_eq!(value("7 * 5"), Some(35));
    assert_eq!(value("7 / 2"), Some(3));
    assert_eq!(value("(0 - 7) / 2"), Some(-3));
    assert_eq!(value("7 % 4"), Some(3));
    assert_eq!(value("(0 - 7) % 4"), Some(-3));
    assert_eq!(value("12 & 10"), Some(8));
    assert_eq!(value("12 | 10"), Some(14));
    assert_eq!(value("12 ^ 10"), Some(6));
    assert_eq!(value("-5"), Some(-5));
    assert_eq!(value("!5"), Some(-6));
    let truth = |e: &str| compile_and_run(&format!("fn main() bool {{ return {}; }}", e));
    assert_eq!(truth("1 == 1"), Some(1));
    assert_eq!(truth("1 != 1"), Some(0));
    assert_eq!(truth("1 < 2"), Some(1));
    assert_eq!(truth("2 <= 1"), Some(0));
    assert_eq!(truth("2 > 1"), Some(1));
    assert_eq!(truth("1 >= 2"), Some(0));
    assert_eq!(truth("0 - 1 < 1"), Some(1));
    assert_eq!(truth("!true"), Some(0));
    assert_eq!(truth("true | false"), Some(1));
}

#[test]
fn operators_lower_to_their_instructions() {
    let l = i64c(1);
    let r = i64c(2);
    let binary = |op| Ok(Inst::Binary { op, lhs: l, rhs: r });
    let compare = |pred| Ok(Inst::Compare { pred, lhs: l, rhs: r });
    assert_eq!(infix_instruction(TokenKind::Plus, l, r), binary(BinaryOp::Add));
    assert_eq!(infix_instruction(TokenKind::Minus, l, r), binary(BinaryOp::Sub));
    assert_eq!(infix_instruction(TokenKind::Asterisk, l, r), binary(BinaryOp::Mul));
    assert_eq!(infix_instruction(TokenKind::Slash, l, r), binary(BinaryOp::SDiv));
    assert_eq!(infix_instruction(TokenKind::Percent, l, r), binary(BinaryOp::SRem));
    assert_eq!(infix_instruction(TokenKind::And, l, r), binary(BinaryOp::And));
    assert_eq!(infix_instruction(TokenKind::Pipe, l, r), binary(BinaryOp::Or));
    assert_eq!(infix_instruction(TokenKind::Caret, l, r), binary(BinaryOp::Xor));
    assert_eq!(infix_instruction(TokenKind::Equal, l, r), compare(Predicate::Eq));
    assert_eq!(infix_instruction(TokenKind::UnEqual, l, r), compare(Predicate::Ne));
    assert_eq!(infix_instruction(TokenKind::LessThan, l, r), compare(Predicate::Slt));
    assert_eq!(infix_instruction(TokenKind::LessEqual, l, r), compare(Predicate::Sle));
    assert_eq!(infix_instruction(TokenKind::GreaterThan, l, r), compare(Predicate::Sgt));
    assert_eq!(infix_instruction(TokenKind::GreaterEqual, l, r), compare(Predicate::Sge));
    assert_eq!(
        infix_instruction(TokenKind::Bang, l, r),
        Err(CodegenError::InvalidInfixOperator)
    );
    assert_eq!(prefix_instruction(TokenKind::Minus, l), Ok(Inst::Neg { operand: l }));
    assert_eq!(prefix_instruction(TokenKind::Bang, l), Ok(Inst::Not { operand: l }));
    assert_eq!(
        prefix_instruction(TokenKind::Plus, l),
        Err(CodegenError::InvalidPrefixOperator)
    );
}

#[test]
fn both_operands_are_lowered_without_short_circuit() {
    let mut compiler = Compiler::new(
        "test.ly",
        "fn t() bool { return true; } fn main() bool { return t() | t(); }",
    );
    compiler.compile().unwrap();
    let calls = compiler.instructions().iter().filter(|i| matches!(i, Inst::Call { .. })).count();
    assert_eq!(calls, 2);
}

#[test]
fn calls_pass_their_arguments_in_order() {
    assert_eq!(
        compile_and_run(
            "fn sub(a: i64, b: i64) i64 { return a - b; }\n\
             fn main() i64 { return sub(10, 4); }"
        ),
        Some(6)
    );
}

#[test]
fn function_can_call_itself() {
    assert_eq!(
        compile_and_run(
            "fn fact(n: i64) i64 { if n < 2 { return 1; } return n * fact(n - 1); }\n\
             fn main() i64 { return fact(5); }"
        ),
        Some(120)
    );
}

#[test]
fn call_of_a_later_function_fails() {
    assert_eq!(
        codegen_error("fn main() i64 { return later(); } fn later() i64 { return 1; }"),
        CodegenError::UnknownFunction
    );
    assert_eq!(
        codegen_error("fn main() i64 { return nowhere(1); }"),
        CodegenError::UnknownFunction
    );
}

#[test]
fn arguments_are_lowered_before_the_callee_is_looked_up() {
    assert_eq!(
        codegen_error("fn main() i64 { return nowhere(a); }"),
        CodegenError::UnboundIdentifier
    );
}

#[test]
fn locals_are_reset_at_each_function() {
    assert_eq!(
        codegen_error("fn f(a: i64) i64 { return a; } fn g() i64 { return a; }"),
        CodegenError::UnboundIdentifier
    );
}

#[test]
fn parameters_and_locals_share_one_namespace() {
    assert_eq!(
        compile_and_run(
            "fn f(a: i64) i64 { let b: i64 = a + 1; a = b; return a; }\n\
             fn main() i64 { return f(1); }"
        ),
        Some(2)
    );
    // A `let` of a parameter's name takes the name over for the rest of
    // the function.
    assert_eq!(
        compile_and_run(
            "fn f(a: i64) i64 { let a: i64 = 5; return a; }\n\
             fn main() i64 { return f(1); }"
        ),
        Some(5)
    );
}

#[test]
fn assignment_stores_to_the_slot() {
    assert_eq!(
        compile_and_run("fn main() i64 { let a: i64 = 1; a = a + 41; return a; }"),
        Some(42)
    );
    assert_eq!(codegen_error("fn main() { a = 1; }"), CodegenError::UnboundIdentifier);
    assert_eq!(codegen_error("fn main() { a = b; }"), CodegenError::UnboundIdentifier);
}

#[test]
fn every_primitive_type_is_known() {
    let compiler = Compiler::new("t", "");
    let ty = |name: &str| compiler.get_type(&Type { name: name.to_string(), generics: vec![] });
    assert_eq!(ty("i8"), Ok(IrType::I8));
    assert_eq!(ty("i16"), Ok(IrType::I16));
    assert_eq!(ty("i32"), Ok(IrType::I32));
    assert_eq!(ty("i64"), Ok(IrType::I64));
    assert_eq!(ty("i128"), Ok(IrType::I128));
    assert_eq!(ty("bool"), Ok(IrType::I1));
    assert_eq!(ty("u8"), Err(CodegenError::UnknownType));
    assert_eq!(ty(""), Err(CodegenError::UnknownType));
    assert_eq!(ty("I64"), Err(CodegenError::UnknownType));
}

#[test]
fn generic_arguments_of_a_type_are_ignored() {
    let compiler = Compiler::new("t", "");
    let generic = Type {
        name: "i64".to_string(),
        generics: vec![Type { name: "nonsense".to_string(), generics: vec![] }],
    };
    assert_eq!(compiler.get_type(&generic), Ok(IrType::I64));
    assert!(Compiler::new("t", "fn f(a: i32<x>) { return; }").compile().is_ok());
}

#[test]
fn unknown_types_fail() {
    assert_eq!(codegen_error("fn f(a: u8) { }"), CodegenError::UnknownType);
    assert_eq!(codegen_error("fn f() string { }"), CodegenError::UnknownType);
    assert_eq!(codegen_error("fn f() { let a: float = 1; }"), CodegenError::UnknownType);
}

#[test]
fn let_without_a_type_fails() {
    assert_eq!(codegen_error("fn f() { let a = 1; }"), CodegenError::MissingTypeAnnotation);
}

#[test]
fn unsupported_constructs_fail() {
    assert_eq!(codegen_error("struct S { a: i64 }"), CodegenError::UnsupportedDeclaration);
    assert_eq!(codegen_error("fn f() { f(); }"), CodegenError::UnsupportedStatement);
    assert_eq!(codegen_error("fn f() { (1); }"), CodegenError::UnsupportedStatement);
    assert_eq!(codegen_error("fn f() i64 { return \"s\"; }"), CodegenError::UnsupportedExpression);
    assert_eq!(codegen_error("fn f() i64 { return 1!; }"), CodegenError::UnsupportedExpression);
}

#[test]
fn operator_out_of_place_fails() {
    let mut compiler = Compiler::new("t", "");
    let one = || Box::new(Expr::Literal(Lit::Integer(1)));
    assert_eq!(
        compiler.compile_expr(&Expr::Prefix { op: TokenKind::Plus, expr: one() }),
        Err(CodegenError::InvalidPrefixOperator)
    );
    assert_eq!(
        compiler.compile_expr(&Expr::Infix { op: TokenKind::Comma, left: one(), right: one() }),
        Err(CodegenError::InvalidInfixOperator)
    );
    assert_eq!(
        compiler.compile_expr(&Expr::Infix { op: TokenKind::Plus, left: one(), right: one() }),
        Ok(Value::Inst { id: 0 })
    );
}

#[test]
fn statements_can_be_lowered_one_by_one() {
    let mut compiler = Compiler::new("t", "");
    assert_eq!(compiler.compile_stmt(&Stmt::Return { value: None }), Ok(()));
    assert_eq!(
        compiler.compile_stmt(&Stmt::Expr { value: Box::new(Expr::Literal(Lit::Integer(1))) }),
        Err(CodegenError::UnsupportedStatement)
    );
    assert_eq!(compiler.instructions(), &vec![Inst::RetVoid]);
}

#[test]
fn syntax_errors_come_out_of_compile() {
    let mut compiler = Compiler::new("prog.ly", "fn main() i64 { return 42 }");
    match compiler.compile() {
        Err(CompileError::Parse(e)) => {
            assert_eq!(
                e.kind,
                ParseErrorKind::Expected {
                    expected: TokenKind::SemiColon,
                    found: TokenKind::ClosedBrace
                }
            );
            assert_eq!((e.loc.file, e.loc.line, e.loc.col), ("prog.ly", 1, 27));
        }
        other => panic!("expected a syntax error, got {:?}", other),
    }
}

#[test]
fn lookup_finds_the_last_entry_of_a_name() {
    let table = vec![("a".to_string(), 1), ("b".to_string(), 2), ("a".to_string(), 3)];
    assert_eq!(find(&table, "a"), Some(3));
    assert_eq!(find(&table, "b"), Some(2));
    assert_eq!(find(&table, "c"), None);
    assert_eq!(find(&Vec::new(), "a"), None);
}

#[test]
fn terminators() {
    assert!(Inst::RetVoid.is_terminator());
    assert!(Inst::Ret { value: i64c(0) }.is_terminator());
    assert!(Inst::Br { target: 0 }.is_terminator());
    assert!(Inst::CondBr { cond: i64c(0), then_block: 0, else_block: 1 }.is_terminator());
    assert!(!Inst::Position { block: 0 }.is_terminator());
    assert!(!Inst::Load { ptr: slot(0) }.is_terminator());
}

#[test]
fn integer_literals_have_64_bits() {
    let mut compiler = Compiler::new("t", "");
    assert_eq!(
        compiler.compile_expr(&Expr::Literal(Lit::Integer(usize::MAX))),
        Ok(Value::Const { ty: IrType::I64, value: usize::MAX as u64 })
    );
    assert_eq!(
        compiler.compile_expr(&Expr::Literal(Lit::Boolean(true))),
        Ok(Value::Const { ty: IrType::I1, value: 1 })
    );
    assert_eq!(
        compiler.compile_expr(&Expr::Literal(Lit::Boolean(false))),
        Ok(Value::Const { ty: IrType::I1, value: 0 })
    );
    assert!(compiler.instructions().is_empty());
}
