use lyth::compiler::ir::{Inst, Value};
use lyth::compiler::Compiler;
use lyth::format::{digit_text, push_decimal};
use lyth::lexer::token::TokenKind;
use lyth::lexer::Location;
use lyth::parser::ast::{Expr, Lit};
use lyth::parser::expressions::parse_integer;
use lyth::parser::grammar::ParseErrorKind;
use lyth::parser::{ParseError, Parser};

fn decimal(n: usize) -> String {
    let mut out = String::new();
    push_decimal(&mut out, n);
    out
}

#[test]
fn decimal_text_of_numbers() {
    assert_eq!(decimal(0), "0");
    assert_eq!(decimal(7), "7");
    assert_eq!(decimal(10), "10");
    assert_eq!(decimal(909), "909");
    assert_eq!(decimal(1234567890), "1234567890");
    assert_eq!(decimal(usize::MAX), usize::MAX.to_string());
    let mut out = String::from("n=");
    push_decimal(&mut out, 42);
    assert_eq!(out, "n=42");
    for d in 0..10 {
        assert_eq!(digit_text(d), d.to_string());
    }
}

#[test]
fn decimal_text_reads_back() {
    for n in [0, 1, 9, 10, 11, 99, 100, 4096, 65535, usize::MAX - 1, usize::MAX] {
        assert_eq!(parse_integer(&decimal(n)), Some(n));
    }
}

#[test]
fn location_as_text() {
    let loc = Location { file: "src/main.ly", line: 12, col: 3 };
    assert_eq!(loc.to_text(), "src/main.ly:12:3");
    assert_eq!(Location { file: "", line: 1, col: 1 }.to_text(), ":1:1");
}

#[test]
fn token_kind_names() {
    assert_eq!(TokenKind::Identifier.name(), "Identifier");
    assert_eq!(TokenKind::UnEqual.name(), "UnEqual");
    assert_eq!(TokenKind::SemiColon.name(), "SemiColon");
    assert_eq!(TokenKind::Function.name(), "Function");
    assert_eq!(TokenKind::Eof.name(), "Eof");
    for kind in [TokenKind::Plus, TokenKind::If, TokenKind::Else, TokenKind::ClosedBrace] {
        assert_eq!(kind.name(), format!("{:?}", kind));
    }
}

#[test]
fn literals_as_text() {
    assert_eq!(Lit::Integer(42).to_text(), "42");
    assert_eq!(Lit::Boolean(true).to_text(), "true");
    assert_eq!(Lit::Boolean(false).to_text(), "false");
    assert_eq!(Lit::String("hi".to_string()).to_text(), "\"hi\"");
    assert_eq!(Lit::String(String::new()).to_text(), "\"\"");
}

#[test]
fn expressions_as_text_are_fully_parenthesised() {
    let text = |input: &str| Parser::new("t", input).expression().unwrap().to_text();
    assert_eq!(text("x"), "x");
    assert_eq!(text("1 + 2 * 3"), "(1 Plus (2 Asterisk 3))");
    assert_eq!(text("a - b - 2"), "((a Minus b) Minus 2)");
    assert_eq!(text("-x"), "(Minus x)");
    assert_eq!(text("x!"), "(x Bang)");
    assert_eq!(text("f()"), "f()");
    assert_eq!(text("f(1, g(x), \"s\")"), "f(1,g(x,),\"s\",)");
    assert_eq!(text("t & !f"), "(t And (Bang f))");
    let mut out = String::from("> ");
    Expr::Ident("y".to_string()).write_text(&mut out);
    assert_eq!(out, "> y");
}

#[test]
fn error_messages() {
    assert_eq!(ParseErrorKind::UnexpectedEof.message(), "unexpected end of file");
    assert_eq!(
        ParseErrorKind::Expected { expected: TokenKind::SemiColon, found: TokenKind::ClosedBrace }
            .message(),
        "expected SemiColon but got ClosedBrace"
    );
    assert_eq!(
        ParseErrorKind::UnknownExpressionStart { found: TokenKind::Comma }.message(),
        "unknown start of expression: Comma"
    );
    assert_eq!(
        ParseErrorKind::UnknownOperator { found: TokenKind::Tilde }.message(),
        "unknown operator: Tilde"
    );
    assert_eq!(
        ParseErrorKind::UnknownDeclarationStart { found: TokenKind::Let }.message(),
        "unknown start of declaration: Let"
    );
    assert_eq!(
        ParseErrorKind::ExpectedBlock { found: TokenKind::Eof }.message(),
        "expected a block after function header but got Eof"
    );
    assert_eq!(
        ParseErrorKind::ExpectedBlockOrIf { found: TokenKind::Return }.message(),
        "expected a block or an `if` after `else` but got Return"
    );
    assert_eq!(ParseErrorKind::InvalidInteger.message(), "invalid integer literal");
    assert_eq!(ParseErrorKind::InvalidBoolean.message(), "invalid bool literal");
    assert_eq!(ParseErrorKind::InvalidString.message(), "invalid string literal");
}

#[test]
fn diagnostic_has_file_line_column_and_message() {
    let e = Parser::new("prog.ly", "fn main() {\n  return 1\n}").parse().unwrap_err();
    assert_eq!(e.to_text(), "prog.ly:3:1: expected SemiColon but got ClosedBrace");
    let e = ParseError {
        kind: ParseErrorKind::UnexpectedEof,
        loc: Location { file: "a", line: 10, col: 20 },
    };
    assert_eq!(e.to_text(), "a:10:20: unexpected end of file");
}

fn refers_back(insts: &[Inst]) -> bool {
    let value = |at: usize, v: &Value| match v {
        Value::Inst { id } => {
            *id < at
                && matches!(
                    insts[*id],
                    Inst::Alloca { .. }
                        | Inst::Load { .. }
                        | Inst::Call { .. }
                        | Inst::Neg { .. }
                        | Inst::Not { .. }
                        | Inst::Binary { .. }
                        | Inst::Compare { .. }
                )
        }
        _ => true,
    };
    let slot = |at: usize, v: &Value| match v {
        Value::Inst { id } => *id < at && matches!(insts[*id], Inst::Alloca { .. }),
        _ => false,
    };
    let block = |at: usize, b: usize| b < at && matches!(insts[b], Inst::Block { .. });
    insts.iter().enumerate().all(|(i, inst)| match inst {
        Inst::Position { block: b } => block(i, *b),
        Inst::Store { value: v, ptr } => value(i, v) && slot(i, ptr),
        Inst::Load { ptr } => slot(i, ptr),
        Inst::Call { callee, args } => {
            *callee < i
                && matches!(insts[*callee], Inst::Function { .. })
                && args.iter().all(|a| value(i, a))
        }
        Inst::Neg { operand } | Inst::Not { operand } => value(i, operand),
        Inst::Binary { lhs, rhs, .. } | Inst::Compare { lhs, rhs, .. } => {
            value(i, lhs) && value(i, rhs)
        }
        Inst::CondBr { cond, then_block, else_block } => {
            value(i, cond) && block(i, *then_block) && block(i, *else_block)
        }
        Inst::Br { target } => block(i, *target),
        Inst::Ret { value: v } => value(i, v),
        _ => true,
    })
}

#[test]
fn compiled_modules_refer_only_backwards() {
    let sources = [
        "fn main() i64 { return 42; }",
        "fn abs(x: i64) i64 { if x < 0 { return -x; } return x; }\n\
         fn main() i64 { return abs(-7); }",
        "fn f(a: i64, b: bool) i64 { let c: i64 = a; if b { c = c * 2; } else if !b { c = 0 - c; } \
         else { } return f(c, b | b) + 1; }",
        "fn g() { if true { if false { return; } } return; }",
    ];
    for source in sources {
        let mut compiler = Compiler::new("t", source);
        compiler.compile().unwrap();
        assert!(!compiler.instructions().is_empty());
        assert!(refers_back(compiler.instructions()));
    }
    assert!(!refers_back(&[Inst::Br { target: 0 }]));
    assert!(!refers_back(&[Inst::RetVoid, Inst::Load { ptr: Value::Inst { id: 0 } }]));
}
