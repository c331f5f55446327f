use lyth::lexer::token::TokenKind;
use lyth::parser::ast::{Decl, Expr, Lit, Stmt, Type};
use lyth::parser::expressions::{parse_boolean, parse_integer, parse_literal, parse_string};
use lyth::parser::grammar::ParseErrorKind;
use lyth::parser::{same_text, Parser};

fn expr(input: &str) -> Expr {
    Parser::new("test.ly", input).expression().unwrap()
}

fn expr_err(input: &str) -> (ParseErrorKind, usize, usize) {
    let e = Parser::new("test.ly", input).expression().unwrap_err();
    (e.kind, e.loc.line, e.loc.col)
}

fn stmt(input: &str) -> Stmt {
    Parser::new("test.ly", input).statement().unwrap()
}

fn stmt_err(input: &str) -> (ParseErrorKind, usize, usize) {
    let e = Parser::new("test.ly", input).statement().unwrap_err();
    (e.kind, e.loc.line, e.loc.col)
}

fn program(input: &str) -> Vec<Decl> {
    Parser::new("test.ly", input).parse().unwrap()
}

fn program_err(input: &str) -> (ParseErrorKind, usize, usize) {
    let e = Parser::new("test.ly", input).parse().unwrap_err();
    (e.kind, e.loc.line, e.loc.col)
}

fn id(name: &str) -> Expr {
    Expr::Ident(name.to_string())
}

fn num(i: usize) -> Expr {
    Expr::Literal(Lit::Integer(i))
}

fn infix(op: TokenKind, left: Expr, right: Expr) -> Expr {
    Expr::Infix { op, left: Box::new(left), right: Box::new(right) }
}

fn prefix(op: TokenKind, e: Expr) -> Expr {
    Expr::Prefix { op, expr: Box::new(e) }
}

fn ty(name: &str) -> Type {
    Type { name: name.to_string(), generics: vec![] }
}

const INFIX: [(TokenKind, &str, u8); 16] = [
    (TokenKind::Pipe, "|", 1),
    (TokenKind::And, "&", 3),
    (TokenKind::Equal, "==", 5),
    (TokenKind::UnEqual, "!=", 5),
    (TokenKind::LessThan, "<", 7),
    (TokenKind::GreaterThan, ">", 7),
    (TokenKind::LessEqual, "<=", 7),
    (TokenKind::GreaterEqual, ">=", 7),
    (TokenKind::Caret, "^", 9),
    (TokenKind::Plus, "+", 11),
    (TokenKind::Minus, "-", 11),
    (TokenKind::Asterisk, "*", 13),
    (TokenKind::Slash, "/", 13),
    (TokenKind::Percent, "%", 13),
    (TokenKind::Plus, "+", 11),
    (TokenKind::Asterisk, "*", 13),
];

#[test]
fn literals() {
    assert_eq!(expr("42"), num(42));
    assert_eq!(expr("0"), num(0));
    assert_eq!(expr("true"), Expr::Literal(Lit::Boolean(true)));
    assert_eq!(expr("false"), Expr::Literal(Lit::Boolean(false)));
    assert_eq!(expr(r#""hi""#), Expr::Literal(Lit::String("hi".to_string())));
    assert_eq!(expr(r#""""#), Expr::Literal(Lit::String(String::new())));
}

#[test]
fn string_literal_keeps_its_escapes() {
    assert_eq!(expr(r#""a\"b""#), Expr::Literal(Lit::String(r#"a\"b"#.to_string())));
    assert_eq!(expr("\"h\u{e9}\""), Expr::Literal(Lit::String("h\u{e9}".to_string())));
}

#[test]
fn integer_literal_values() {
    assert_eq!(parse_integer("0"), Some(0));
    assert_eq!(parse_integer("007"), Some(7));
    assert_eq!(parse_integer("1234567890"), Some(1234567890));
    assert_eq!(parse_integer(&usize::MAX.to_string()), Some(usize::MAX));
    assert_eq!(parse_integer(""), None);
    assert_eq!(parse_integer("12a"), None);
    assert_eq!(parse_integer("0x1F"), None);
    assert_eq!(parse_integer("+5"), None);
    assert_eq!(parse_integer("\u{663}"), None);
}

#[test]
fn integer_literal_that_does_not_fit_is_an_error() {
    let too_big = format!("{}0", usize::MAX);
    assert_eq!(parse_integer(&too_big), None);
    let one_more = "18446744073709551616";
    if usize::MAX as u128 == u64::MAX as u128 {
        assert_eq!(parse_integer(one_more), None);
    }
    assert_eq!(expr_err(&too_big), (ParseErrorKind::InvalidInteger, 1, 1));
}

#[test]
fn prefixed_integer_literals_have_no_value() {
    assert_eq!(expr_err("0x1F"), (ParseErrorKind::InvalidInteger, 1, 1));
    assert_eq!(expr_err("1 + 0b11"), (ParseErrorKind::InvalidInteger, 1, 5));
    assert_eq!(expr_err("0o7"), (ParseErrorKind::InvalidInteger, 1, 1));
}

#[test]
fn boolean_and_string_literal_values() {
    assert_eq!(parse_boolean("true"), Some(true));
    assert_eq!(parse_boolean("false"), Some(false));
    assert_eq!(parse_boolean("True"), None);
    assert_eq!(parse_boolean(""), None);
    assert_eq!(parse_string(r#""ab""#), Some("ab".to_string()));
    assert_eq!(parse_string(r#""""#), Some(String::new()));
    assert_eq!(parse_string("\""), None);
    assert_eq!(parse_string(""), None);
}

#[test]
fn literal_by_kind() {
    assert_eq!(parse_literal(TokenKind::Integer, "12"), Ok(Lit::Integer(12)));
    assert_eq!(parse_literal(TokenKind::Integer, "x"), Err(ParseErrorKind::InvalidInteger));
    assert_eq!(parse_literal(TokenKind::Boolean, "true"), Ok(Lit::Boolean(true)));
    assert_eq!(parse_literal(TokenKind::Boolean, "maybe"), Err(ParseErrorKind::InvalidBoolean));
    assert_eq!(parse_literal(TokenKind::String, "\"s\""), Ok(Lit::String("s".to_string())));
    assert_eq!(parse_literal(TokenKind::String, "s"), Err(ParseErrorKind::InvalidString));
}

#[test]
fn same_text_compares_characters() {
    assert!(same_text("", ""));
    assert!(same_text("abc", "abc"));
    assert!(!same_text("abc", "abd"));
    assert!(!same_text("abc", "ab"));
    assert!(!same_text("ab", "abc"));
    assert!(same_text("h\u{e9}", "h\u{e9}"));
}

#[test]
fn identifier_and_call() {
    assert_eq!(expr("x"), id("x"));
    assert_eq!(expr("f()"), Expr::Call { name: "f".to_string(), args: vec![] });
    assert_eq!(
        expr("f(1, x)"),
        Expr::Call { name: "f".to_string(), args: vec![Box::new(num(1)), Box::new(id("x"))] }
    );
    assert_eq!(
        expr("f(1, x,)"),
        Expr::Call { name: "f".to_string(), args: vec![Box::new(num(1)), Box::new(id("x"))] }
    );
    assert_eq!(
        expr("f(g(1))"),
        Expr::Call {
            name: "f".to_string(),
            args: vec![Box::new(Expr::Call { name: "g".to_string(), args: vec![Box::new(num(1))] })]
        }
    );
}

#[test]
fn parentheses_leave_no_node() {
    assert_eq!(expr("(x)"), id("x"));
    assert_eq!(expr("((1))"), num(1));
    assert_eq!(
        expr("(a + b) * c"),
        infix(TokenKind::Asterisk, infix(TokenKind::Plus, id("a"), id("b")), id("c"))
    );
    assert_eq!(
        expr("a - (b - c)"),
        infix(TokenKind::Minus, id("a"), infix(TokenKind::Minus, id("b"), id("c")))
    );
}

#[test]
fn prefix_operators_bind_tighter_than_infix() {
    assert_eq!(expr("-x"), prefix(TokenKind::Minus, id("x")));
    assert_eq!(expr("!x"), prefix(TokenKind::Bang, id("x")));
    assert_eq!(
        expr("-a * b"),
        infix(TokenKind::Asterisk, prefix(TokenKind::Minus, id("a")), id("b"))
    );
    assert_eq!(
        expr("t & !f"),
        infix(TokenKind::And, id("t"), prefix(TokenKind::Bang, id("f")))
    );
    assert_eq!(expr("--x"), prefix(TokenKind::Minus, prefix(TokenKind::Minus, id("x"))));
}

#[test]
fn prefix_plus_starts_no_expression() {
    assert_eq!(
        expr_err("+x"),
        (ParseErrorKind::UnknownExpressionStart { found: TokenKind::Plus }, 1, 1)
    );
}

#[test]
fn postfix_bang_wraps_its_operand() {
    assert_eq!(expr("x!"), Expr::Postfix { op: TokenKind::Bang, expr: Box::new(id("x")) });
    assert_eq!(
        expr("-x!"),
        prefix(TokenKind::Minus, Expr::Postfix { op: TokenKind::Bang, expr: Box::new(id("x")) })
    );
    assert_eq!(
        expr("a + b!"),
        infix(
            TokenKind::Plus,
            id("a"),
            Expr::Postfix { op: TokenKind::Bang, expr: Box::new(id("b")) }
        )
    );
}

#[test]
fn precedence_of_sum_and_product() {
    assert_eq!(
        expr("a + b * 3"),
        infix(TokenKind::Plus, id("a"), infix(TokenKind::Asterisk, id("b"), num(3)))
    );
    assert_eq!(
        expr("a * b + 3"),
        infix(TokenKind::Plus, infix(TokenKind::Asterisk, id("a"), id("b")), num(3))
    );
}

#[test]
fn precedence_for_every_pair_of_operators() {
    for (a, a_text, a_power) in INFIX.iter() {
        for (b, b_text, b_power) in INFIX.iter() {
            let got = expr(&format!("x {} y {} z", a_text, b_text));
            let expected = if b_power > a_power {
                infix(*a, id("x"), infix(*b, id("y"), id("z")))
            } else {
                infix(*b, infix(*a, id("x"), id("y")), id("z"))
            };
            assert_eq!(got, expected);
        }
    }
}

#[test]
fn every_infix_operator_is_left_associative() {
    for (op, text, _) in INFIX.iter() {
        let got = expr(&format!("a {} b {} c", text, text));
        assert_eq!(got, infix(*op, infix(*op, id("a"), id("b")), id("c")));
    }
    assert_eq!(
        expr("a - b - 2"),
        infix(TokenKind::Minus, infix(TokenKind::Minus, id("a"), id("b")), num(2))
    );
}

#[test]
fn expression_in_full_parentheses_parses_to_itself() {
    assert_eq!(
        expr("(a) + ((b) * (c))"),
        infix(TokenKind::Plus, id("a"), infix(TokenKind::Asterisk, id("b"), id("c")))
    );
    assert_eq!(
        expr("((a) + (b)) * (c)"),
        infix(TokenKind::Asterisk, infix(TokenKind::Plus, id("a"), id("b")), id("c"))
    );
    assert_eq!(
        expr("-((f((x) - (1), y))!)"),
        prefix(
            TokenKind::Minus,
            Expr::Postfix {
                op: TokenKind::Bang,
                expr: Box::new(Expr::Call {
                    name: "f".to_string(),
                    args: vec![
                        Box::new(infix(TokenKind::Minus, id("x"), num(1))),
                        Box::new(id("y"))
                    ],
                }),
            }
        )
    );
}

#[test]
fn binding_powers_of_the_table() {
    assert_eq!(TokenKind::Pipe.infix_binding_power(), Some((1, 2)));
    assert_eq!(TokenKind::And.infix_binding_power(), Some((3, 4)));
    assert_eq!(TokenKind::Equal.infix_binding_power(), Some((5, 6)));
    assert_eq!(TokenKind::UnEqual.infix_binding_power(), Some((5, 6)));
    assert_eq!(TokenKind::LessThan.infix_binding_power(), Some((7, 8)));
    assert_eq!(TokenKind::GreaterThan.infix_binding_power(), Some((7, 8)));
    assert_eq!(TokenKind::LessEqual.infix_binding_power(), Some((7, 8)));
    assert_eq!(TokenKind::GreaterEqual.infix_binding_power(), Some((7, 8)));
    assert_eq!(TokenKind::Caret.infix_binding_power(), Some((9, 10)));
    assert_eq!(TokenKind::Plus.infix_binding_power(), Some((11, 12)));
    assert_eq!(TokenKind::Minus.infix_binding_power(), Some((11, 12)));
    assert_eq!(TokenKind::Asterisk.infix_binding_power(), Some((13, 14)));
    assert_eq!(TokenKind::Slash.infix_binding_power(), Some((13, 14)));
    assert_eq!(TokenKind::Percent.infix_binding_power(), Some((13, 14)));
    assert_eq!(TokenKind::Bang.infix_binding_power(), None);
    assert_eq!(TokenKind::Assign.infix_binding_power(), None);
    assert_eq!(TokenKind::Bang.postfix_binding_power(), Some((101, ())));
    assert_eq!(TokenKind::Minus.postfix_binding_power(), None);
    assert_eq!(TokenKind::Minus.prefix_binding_power(), ((), 51));
    assert_eq!(TokenKind::Bang.prefix_binding_power(), ((), 51));
}

#[test]
fn expression_stops_at_its_end_tokens() {
    for input in ["a + b)", "a + b}", "a + b{", "a + b,", "a + b;", "a + b"] {
        let mut parser = Parser::new("test.ly", input);
        assert_eq!(parser.expression().unwrap(), infix(TokenKind::Plus, id("a"), id("b")));
    }
}

#[test]
fn binding_power_threshold_ends_the_expression() {
    let mut parser = Parser::new("test.ly", "a * b + c");
    assert_eq!(
        parser.parse_expression(12).unwrap(),
        infix(TokenKind::Asterisk, id("a"), id("b"))
    );
    assert!(parser.at(TokenKind::Plus));
    let mut parser = Parser::new("test.ly", "a + b");
    assert_eq!(parser.parse_expression(14).unwrap(), id("a"));
    assert_eq!(parser.peek(), TokenKind::Plus);
}

#[test]
fn unknown_operator_is_an_error() {
    assert_eq!(
        expr_err("a b"),
        (ParseErrorKind::UnknownOperator { found: TokenKind::Identifier }, 1, 3)
    );
    assert_eq!(
        expr_err("a = b"),
        (ParseErrorKind::UnknownOperator { found: TokenKind::Assign }, 1, 3)
    );
    assert_eq!(
        expr_err("a ~ b"),
        (ParseErrorKind::UnknownOperator { found: TokenKind::Tilde }, 1, 3)
    );
    assert_eq!(
        expr_err("1\n  return"),
        (ParseErrorKind::UnknownOperator { found: TokenKind::Return }, 2, 3)
    );
}

#[test]
fn unknown_expression_start_is_an_error() {
    assert_eq!(
        expr_err("a + ;"),
        (ParseErrorKind::UnknownExpressionStart { found: TokenKind::SemiColon }, 1, 5)
    );
    assert_eq!(
        expr_err(""),
        (ParseErrorKind::UnknownExpressionStart { found: TokenKind::Eof }, 1, 1)
    );
    assert_eq!(
        expr_err("a *"),
        (ParseErrorKind::UnknownExpressionStart { found: TokenKind::Eof }, 1, 4)
    );
}

#[test]
fn missing_closing_parenthesis_is_an_error() {
    assert_eq!(expr_err("(a + b"), (ParseErrorKind::UnexpectedEof, 1, 7));
    assert_eq!(
        expr_err("(a + b;"),
        (
            ParseErrorKind::Expected {
                expected: TokenKind::ClosedParen,
                found: TokenKind::SemiColon
            },
            1,
            7
        )
    );
    assert_eq!(
        expr_err("f(a"),
        (ParseErrorKind::UnknownExpressionStart { found: TokenKind::Eof }, 1, 4)
    );
}

#[test]
fn types() {
    assert_eq!(Parser::new("t", "i64").type_().unwrap(), ty("i64"));
    assert_eq!(
        Parser::new("t", "Map<K, List<V>>").type_().unwrap(),
        Type {
            name: "Map".to_string(),
            generics: vec![ty("K"), Type { name: "List".to_string(), generics: vec![ty("V")] }]
        }
    );
    assert_eq!(
        Parser::new("t", "Box<T,>").type_().unwrap(),
        Type { name: "Box".to_string(), generics: vec![ty("T")] }
    );
    assert_eq!(
        Parser::new("t", "Unit<>").type_().unwrap(),
        Type { name: "Unit".to_string(), generics: vec![] }
    );
}

#[test]
fn type_errors() {
    let e = Parser::new("t", "").type_().unwrap_err();
    assert_eq!(e.kind, ParseErrorKind::UnexpectedEof);
    let e = Parser::new("t", "42").type_().unwrap_err();
    assert_eq!(
        e.kind,
        ParseErrorKind::Expected { expected: TokenKind::Identifier, found: TokenKind::Integer }
    );
    let e = Parser::new("t", "A<B").type_().unwrap_err();
    assert_eq!(e.kind, ParseErrorKind::UnexpectedEof);
    assert_eq!((e.loc.line, e.loc.col), (1, 4));
}

#[test]
fn let_statement() {
    assert_eq!(
        stmt("let a: i64 = 1;"),
        Stmt::Let { name: "a".to_string(), typ: Some(ty("i64")), value: Box::new(num(1)) }
    );
    assert_eq!(
        stmt("let a = b + 1;"),
        Stmt::Let {
            name: "a".to_string(),
            typ: None,
            value: Box::new(infix(TokenKind::Plus, id("b"), num(1)))
        }
    );
}

#[test]
fn let_statement_errors() {
    assert_eq!(stmt_err("let"), (ParseErrorKind::UnexpectedEof, 1, 4));
    assert_eq!(
        stmt_err("let 1 = 2;"),
        (
            ParseErrorKind::Expected { expected: TokenKind::Identifier, found: TokenKind::Integer },
            1,
            5
        )
    );
    assert_eq!(
        stmt_err("let a 1;"),
        (ParseErrorKind::Expected { expected: TokenKind::Assign, found: TokenKind::Integer }, 1, 7)
    );
    assert_eq!(stmt_err("let a = 1"), (ParseErrorKind::UnexpectedEof, 1, 10));
}

#[test]
fn assignment_and_call_statement() {
    assert_eq!(
        stmt("a = 2;"),
        Stmt::Assign { name: "a".to_string(), op: None, value: Box::new(num(2)) }
    );
    assert_eq!(
        stmt("f(1, a);"),
        Stmt::Expr {
            value: Box::new(Expr::Call {
                name: "f".to_string(),
                args: vec![Box::new(num(1)), Box::new(id("a"))]
            })
        }
    );
}

#[test]
fn statement_that_starts_with_a_name_is_an_assignment_or_a_call() {
    assert_eq!(
        stmt_err("a + 1;"),
        (ParseErrorKind::Expected { expected: TokenKind::OpenParen, found: TokenKind::Plus }, 1, 3)
    );
    assert_eq!(stmt_err("a"), (ParseErrorKind::UnexpectedEof, 1, 2));
    assert_eq!(stmt_err("f(1)"), (ParseErrorKind::UnexpectedEof, 1, 5));
}

#[test]
fn return_statement() {
    assert_eq!(stmt("return;"), Stmt::Return { value: None });
    assert_eq!(stmt("return 42;"), Stmt::Return { value: Some(Box::new(num(42))) });
    assert_eq!(stmt_err("return 42"), (ParseErrorKind::UnexpectedEof, 1, 10));
}

#[test]
fn expression_statement() {
    assert_eq!(
        stmt("1 + 2;"),
        Stmt::Expr { value: Box::new(infix(TokenKind::Plus, num(1), num(2))) }
    );
    assert_eq!(stmt("(a);"), Stmt::Expr { value: Box::new(id("a")) });
}

#[test]
fn if_statement() {
    assert_eq!(
        stmt("if x < 0 { return 1; }"),
        Stmt::If {
            expr: Box::new(infix(TokenKind::LessThan, id("x"), num(0))),
            body: Box::new(Stmt::Block {
                body: vec![Stmt::Return { value: Some(Box::new(num(1))) }]
            }),
            elze: None,
        }
    );
    assert_eq!(
        stmt("if a { } else { }"),
        Stmt::If {
            expr: Box::new(id("a")),
            body: Box::new(Stmt::Block { body: vec![] }),
            elze: Some(Box::new(Stmt::Block { body: vec![] })),
        }
    );
    assert_eq!(
        stmt("if a { } else if b { } else { return; }"),
        Stmt::If {
            expr: Box::new(id("a")),
            body: Box::new(Stmt::Block { body: vec![] }),
            elze: Some(Box::new(Stmt::If {
                expr: Box::new(id("b")),
                body: Box::new(Stmt::Block { body: vec![] }),
                elze: Some(Box::new(Stmt::Block { body: vec![Stmt::Return { value: None }] })),
            })),
        }
    );
}

#[test]
fn if_statement_errors() {
    assert_eq!(
        stmt_err("if a { } else return;"),
        (ParseErrorKind::ExpectedBlockOrIf { found: TokenKind::Return }, 1, 15)
    );
    assert_eq!(
        stmt_err("if a { } else"),
        (ParseErrorKind::ExpectedBlockOrIf { found: TokenKind::Eof }, 1, 14)
    );
    assert_eq!(
        stmt_err("if a return;"),
        (ParseErrorKind::UnknownOperator { found: TokenKind::Return }, 1, 6)
    );
    assert_eq!(
        stmt_err("if a ; "),
        (ParseErrorKind::UnknownExpressionStart { found: TokenKind::SemiColon }, 1, 6)
    );
}

#[test]
fn block_of_one_expression_statement_keeps_its_shape() {
    assert_eq!(
        stmt("{ 1 + 2; }"),
        Stmt::Block {
            body: vec![Stmt::Expr { value: Box::new(infix(TokenKind::Plus, num(1), num(2))) }]
        }
    );
    assert_eq!(
        stmt("{ f(); }"),
        Stmt::Block {
            body: vec![Stmt::Expr {
                value: Box::new(Expr::Call { name: "f".to_string(), args: vec![] })
            }]
        }
    );
    assert_eq!(
        stmt("{ { (x); } }"),
        Stmt::Block {
            body: vec![Stmt::Block { body: vec![Stmt::Expr { value: Box::new(id("x")) }] }]
        }
    );
}

#[test]
fn blocks() {
    assert_eq!(stmt("{ }"), Stmt::Block { body: vec![] });
    assert_eq!(
        stmt("{ let a: i8 = 1; a = 2; return a; }"),
        Stmt::Block {
            body: vec![
                Stmt::Let { name: "a".to_string(), typ: Some(ty("i8")), value: Box::new(num(1)) },
                Stmt::Assign { name: "a".to_string(), op: None, value: Box::new(num(2)) },
                Stmt::Return { value: Some(Box::new(id("a"))) },
            ]
        }
    );
    assert_eq!(
        stmt_err("{ return;"),
        (ParseErrorKind::UnknownExpressionStart { found: TokenKind::Eof }, 1, 10)
    );
}

#[test]
fn function_declarations() {
    assert_eq!(
        program("fn main() i64 { return 42; }"),
        vec![Decl::Function {
            name: "main".to_string(),
            params: vec![],
            body: Stmt::Block { body: vec![Stmt::Return { value: Some(Box::new(num(42))) }] },
            rtyp: Some(ty("i64")),
        }]
    );
    assert_eq!(
        program("fn f(a: i64, b: bool,) { }"),
        vec![Decl::Function {
            name: "f".to_string(),
            params: vec![("a".to_string(), ty("i64")), ("b".to_string(), ty("bool"))],
            body: Stmt::Block { body: vec![] },
            rtyp: None,
        }]
    );
}

#[test]
fn struct_declarations() {
    assert_eq!(
        program("struct Pair<A, B> { first: A, second: B }"),
        vec![Decl::Struct {
            name: Type { name: "Pair".to_string(), generics: vec![ty("A"), ty("B")] },
            members: vec![("first".to_string(), ty("A")), ("second".to_string(), ty("B"))],
        }]
    );
    assert_eq!(
        program("struct Empty { }"),
        vec![Decl::Struct { name: ty("Empty"), members: vec![] }]
    );
}

#[test]
fn programs_are_lists_of_declarations() {
    assert_eq!(program(""), vec![]);
    assert_eq!(program("  \n "), vec![]);
    let decls = program("struct S { } fn a() { } fn b() { }");
    assert_eq!(decls.len(), 3);
    assert!(matches!(decls[0], Decl::Struct { .. }));
    assert!(matches!(decls[2], Decl::Function { .. }));
}

#[test]
fn declaration_errors() {
    assert_eq!(
        program_err("let a = 1;"),
        (ParseErrorKind::UnknownDeclarationStart { found: TokenKind::Let }, 1, 1)
    );
    assert_eq!(program_err("fn"), (ParseErrorKind::UnexpectedEof, 1, 3));
    assert_eq!(
        program_err("fn 1() { }"),
        (
            ParseErrorKind::Expected { expected: TokenKind::Identifier, found: TokenKind::Integer },
            1,
            4
        )
    );
    assert_eq!(
        program_err("fn f { }"),
        (
            ParseErrorKind::Expected {
                expected: TokenKind::OpenParen,
                found: TokenKind::OpenBrace
            },
            1,
            6
        )
    );
    assert_eq!(program_err("fn f(a: i64"), (ParseErrorKind::UnexpectedEof, 1, 12));
    assert_eq!(
        program_err("fn f(a) { }"),
        (
            ParseErrorKind::Expected { expected: TokenKind::Colon, found: TokenKind::ClosedParen },
            1,
            7
        )
    );
    assert_eq!(
        program_err("fn f() i64 return 1;"),
        (ParseErrorKind::ExpectedBlock { found: TokenKind::Return }, 1, 12)
    );
    assert_eq!(
        program_err("fn f() i64"),
        (ParseErrorKind::ExpectedBlock { found: TokenKind::Eof }, 1, 11)
    );
    assert_eq!(
        program_err("struct S { a: }"),
        (
            ParseErrorKind::Expected {
                expected: TokenKind::Identifier,
                found: TokenKind::ClosedBrace
            },
            1,
            15
        )
    );
}

#[test]
fn error_carries_the_file_name() {
    let e = Parser::new("dir/prog.ly", "fn").parse().unwrap_err();
    assert_eq!(e.loc.file, "dir/prog.ly");
    let e = Parser::new("dir/prog.ly", "fn f() { return }").parse().unwrap_err();
    assert_eq!(e.loc.file, "dir/prog.ly");
    assert_eq!(e.kind, ParseErrorKind::UnknownExpressionStart { found: TokenKind::ClosedBrace });
    assert_eq!((e.loc.line, e.loc.col), (1, 17));
}

#[test]
fn unknown_character_looks_like_the_end_of_the_input() {
    assert_eq!(program("fn f() { } # fn"), program("fn f() { }"));
    assert_eq!(program_err("fn f() { return 1 # ; }"), (ParseErrorKind::UnexpectedEof, 1, 18));
}

#[test]
fn token_access() {
    let mut parser = Parser::new("test.ly", "a , b");
    assert!(!parser.at_end());
    assert_eq!(parser.peek(), TokenKind::Identifier);
    let tok = parser.current();
    assert_eq!(parser.text(tok), "a");
    assert_eq!(parser.next().unwrap().text, "a");
    assert!(parser.at(TokenKind::Comma));
    assert!(parser.consume(TokenKind::Comma).is_ok());
    let e = parser.consume(TokenKind::Comma).unwrap_err();
    assert_eq!(
        e.kind,
        ParseErrorKind::Expected { expected: TokenKind::Comma, found: TokenKind::Identifier }
    );
    assert_eq!((e.loc.line, e.loc.col), (1, 5));
    parser.advance();
    assert!(parser.at_end());
    assert_eq!(parser.peek(), TokenKind::Eof);
    assert!(parser.next().is_none());
    let e = parser.consume(TokenKind::Comma).unwrap_err();
    assert_eq!(e.kind, ParseErrorKind::UnexpectedEof);
    assert_eq!((e.loc.line, e.loc.col), (1, 6));
    let e = parser.error(ParseErrorKind::InvalidBoolean);
    assert_eq!((e.kind, e.loc.line, e.loc.col), (ParseErrorKind::InvalidBoolean, 1, 6));
}
