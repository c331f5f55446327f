//! Laws of the grammar: how precedence and associativity shape the tree of
//! an expression, and that a block keeps its shape.

use super::ast::{ExprView, StmtView};
use super::grammar::{
    digit_value, digits_value, done, ends_expression, infix_power, integer_value, lemma_statement_advances, parse_arguments, parse_block,
    parse_expr, parse_literal, parse_operand, parse_operators, parse_statement, peek_kind,
    postfix_power, prefix_power,
};
use crate::format::{decimal_text, digit_char};
use crate::lexer::token::{TokenKind, TokenView};
use vstd::prelude::*;

verus! {

/// The expression that the token at `pos` is by itself: an identifier that
/// is not the name of a call, or a literal that has a value.
pub open spec fn simple_operand(ts: Seq<TokenView>, pos: nat) -> Option<ExprView> {
    match peek_kind(ts, pos) {
        TokenKind::Identifier => if peek_kind(ts, pos + 1) != TokenKind::OpenParen {
            Some(ExprView::Ident(ts[pos as int].text))
        } else {
            None
        },
        TokenKind::Integer | TokenKind::Boolean | TokenKind::String => match parse_literal(
            ts,
            pos,
        ) {
            Ok(lit) => Some(ExprView::Literal(lit)),
            Err(_) => None,
        },
        _ => None,
    }
}

/// The tree `left op right`.
pub open spec fn infix(op: TokenKind, left: ExprView, right: ExprView) -> ExprView {
    ExprView::Infix { op, left: Box::new(left), right: Box::new(right) }
}

/// From `pos` the tokens read `x a y b z`: three simple operands with the
/// infix operators `a` and `b` between them, and then the expression ends.
pub open spec fn two_operator_chain(
    ts: Seq<TokenView>,
    pos: nat,
    a: TokenKind,
    b: TokenKind,
) -> bool {
    &&& simple_operand(ts, pos) is Some
    &&& peek_kind(ts, pos + 1) == a
    &&& infix_power(a) is Some
    &&& simple_operand(ts, pos + 2) is Some
    &&& peek_kind(ts, pos + 3) == b
    &&& infix_power(b) is Some
    &&& simple_operand(ts, pos + 4) is Some
    &&& ends_expression(peek_kind(ts, pos + 5))
}

proof fn lemma_simple_operand(ts: Seq<TokenView>, pos: nat)
    requires
        simple_operand(ts, pos) is Some,
    ensures
        parse_operand(ts, pos) == done(simple_operand(ts, pos).unwrap(), pos + 1),
        pos < ts.len(),
{
}

/// Precedence. `x a y b z` parses as a tree whose top node is the operator
/// of lower precedence: `a` where `b` binds more tightly, so that `b` takes
/// `y` and `z` first; and `b` otherwise, with `x a y` as its left side.
pub proof fn lemma_precedence(ts: Seq<TokenView>, pos: nat, a: TokenKind, b: TokenKind)
    requires
        two_operator_chain(ts, pos, a, b),
    ensures
        ({
            let x = simple_operand(ts, pos).unwrap();
            let y = simple_operand(ts, pos + 2).unwrap();
            let z = simple_operand(ts, pos + 4).unwrap();
            let tree = if infix_power(b).unwrap().left > infix_power(a).unwrap().left {
                infix(a, x, infix(b, y, z))
            } else {
                infix(b, infix(a, x, y), z)
            };
            parse_expr(ts, pos, 0) == done(tree, pos + 5)
        }),
{
    let x = simple_operand(ts, pos).unwrap();
    let y = simple_operand(ts, pos + 2).unwrap();
    let z = simple_operand(ts, pos + 4).unwrap();
    let pa = infix_power(a).unwrap();
    let pb = infix_power(b).unwrap();
    lemma_simple_operand(ts, pos);
    lemma_simple_operand(ts, pos + 2);
    lemma_simple_operand(ts, pos + 4);
    // The right side of `b`, whoever asks for it, is `z`.
    assert(parse_expr(ts, pos + 4, pb.right) == done(z, pos + 5));
    if pb.left > pa.left {
        let inner = infix(b, y, z);
        assert(parse_operators(ts, pos + 5, pa.right, inner) == done(inner, pos + 5));
        let tree = infix(a, x, inner);
        assert(parse_operators(ts, pos + 5, 0, tree) == done(tree, pos + 5));
    } else {
        assert(parse_expr(ts, pos + 2, pa.right) == done(y, pos + 3));
        let tree = infix(b, infix(a, x, y), z);
        assert(parse_operators(ts, pos + 5, 0, tree) == done(tree, pos + 5));
        assert(parse_operators(ts, pos + 3, 0, infix(a, x, y)) == done(tree, pos + 5));
    }
}

/// Left-associativity. Every infix operator of the table associates to the
/// left: `x op y op z` parses as `(x op y) op z`, and so does a chain of
/// two operators of one precedence level.
pub proof fn lemma_left_associative(ts: Seq<TokenView>, pos: nat, a: TokenKind, b: TokenKind)
    requires
        two_operator_chain(ts, pos, a, b),
        infix_power(a).unwrap().left == infix_power(b).unwrap().left,
    ensures
        parse_expr(ts, pos, 0) == done(
            infix(
                b,
                infix(a, simple_operand(ts, pos).unwrap(), simple_operand(ts, pos + 2).unwrap()),
                simple_operand(ts, pos + 4).unwrap(),
            ),
            pos + 5,
        ),
{
    lemma_precedence(ts, pos, a, b);
}

/// A block keeps its shape. Where the tokens behind an opening brace are
/// one statement and the closing brace, the block parses to a block that
/// holds this one statement: in particular a block around a single
/// expression statement is a block of that expression statement, not the
/// statement itself.
pub proof fn lemma_block_of_one_statement(ts: Seq<TokenView>, pos: nat)
    requires
        peek_kind(ts, pos) == TokenKind::OpenBrace,
        parse_statement(ts, pos + 1) matches Ok(inner) && peek_kind(ts, inner.next)
            == TokenKind::ClosedBrace,
    ensures
        parse_statement(ts, pos) == done(
            StmtView::Block { body: seq![parse_statement(ts, pos + 1)->Ok_0.value] },
            parse_statement(ts, pos + 1)->Ok_0.next + 1,
        ),
{
    lemma_statement_advances(ts, pos + 1);
    assert(parse_statement(ts, pos) == parse_block(ts, pos + 1));
}

/// Whether the tokens from `pos` on write the expression `e` in full
/// parentheses: every operand of an operator stands in parentheses of its
/// own, and the arguments of a call are separated by commas. Gives the
/// position behind what is written.
pub open spec fn written(ts: Seq<TokenView>, pos: nat, e: ExprView) -> Option<nat>
    decreases e, 0nat,
{
    match e {
        ExprView::Literal(lit) => if simple_operand(ts, pos) == Some(e) {
            Some(pos + 1)
        } else {
            None
        },
        ExprView::Ident(name) => if simple_operand(ts, pos) == Some(e) {
            Some(pos + 1)
        } else {
            None
        },
        ExprView::Call { name, args } => if peek_kind(ts, pos) == TokenKind::Identifier
            && ts[pos as int].text == name && peek_kind(ts, pos + 1) == TokenKind::OpenParen {
            match written_args(ts, pos + 2, args, 0) {
                Some(end) => if peek_kind(ts, end) == TokenKind::ClosedParen {
                    Some(end + 1)
                } else {
                    None
                },
                None => None,
            }
        } else {
            None
        },
        ExprView::Prefix { op, expr } => if prefix_power(op) is Some && peek_kind(ts, pos) == op {
            written_operand(ts, pos + 1, *expr)
        } else {
            None
        },
        ExprView::Infix { op, left, right } => match written_operand(ts, pos, *left) {
            Some(at_op) => if infix_power(op) is Some && peek_kind(ts, at_op) == op {
                written_operand(ts, at_op + 1, *right)
            } else {
                None
            },
            None => None,
        },
        ExprView::Postfix { op, expr } => match written_operand(ts, pos, *expr) {
            Some(at_op) => if postfix_power(op) is Some && peek_kind(ts, at_op) == op {
                Some(at_op + 1)
            } else {
                None
            },
            None => None,
        },
    }
}

/// Whether the tokens from `pos` on write `e` between parentheses.
pub open spec fn written_operand(ts: Seq<TokenView>, pos: nat, e: ExprView) -> Option<nat>
    decreases e, 1nat,
{
    if peek_kind(ts, pos) == TokenKind::OpenParen {
        match written(ts, pos + 1, e) {
            Some(end) => if peek_kind(ts, end) == TokenKind::ClosedParen {
                Some(end + 1)
            } else {
                None
            },
            None => None,
        }
    } else {
        None
    }
}

/// Whether the tokens from `pos` on write the arguments from number `from`
/// on, with a comma between each two.
pub open spec fn written_args(ts: Seq<TokenView>, pos: nat, args: Seq<ExprView>, from: nat) -> Option<
    nat,
>
    decreases args, args.len() - from,
{
    if from >= args.len() {
        Some(pos)
    } else {
        match written(ts, pos, args[from as int]) {
            Some(end) => if from + 1 == args.len() {
                Some(end)
            } else if peek_kind(ts, end) == TokenKind::Comma {
                written_args(ts, end + 1, args, from + 1)
            } else {
                None
            },
            None => None,
        }
    }
}

/// What is written starts with a token that can start an expression and
/// ends behind its start, within the tokens.
proof fn lemma_written_start(ts: Seq<TokenView>, pos: nat, e: ExprView)
    ensures
        written(ts, pos, e) matches Some(end) ==> pos < end <= ts.len() && peek_kind(ts, pos)
            != TokenKind::ClosedParen,
        written_operand(ts, pos, e) matches Some(end) ==> pos < end <= ts.len(),
    decreases e, 1nat,
{
    lemma_written_range(ts, pos, e);
    if peek_kind(ts, pos) == TokenKind::OpenParen {
        lemma_written_range(ts, pos + 1, e);
    }
}

/// What is written ends behind its start, within the tokens.
proof fn lemma_written_range(ts: Seq<TokenView>, pos: nat, e: ExprView)
    ensures
        written(ts, pos, e) matches Some(end) ==> pos < end <= ts.len(),
    decreases e, 0nat,
{
    match e {
        ExprView::Call { name, args } => {
            if peek_kind(ts, pos + 1) == TokenKind::OpenParen {
                lemma_written_args_range(ts, pos + 2, args, 0);
            }
        },
        ExprView::Prefix { op, expr } => {
            lemma_written_start(ts, pos + 1, *expr);
        },
        ExprView::Infix { op, left, right } => {
            lemma_written_start(ts, pos, *left);
            if let Some(at_op) = written_operand(ts, pos, *left) {
                lemma_written_start(ts, at_op + 1, *right);
            }
        },
        ExprView::Postfix { op, expr } => {
            lemma_written_start(ts, pos, *expr);
        },
        _ => {},
    }
}

/// Written arguments end within the tokens.
proof fn lemma_written_args_range(ts: Seq<TokenView>, pos: nat, args: Seq<ExprView>, from: nat)
    requires
        pos <= ts.len(),
    ensures
        written_args(ts, pos, args, from) matches Some(end) ==> pos <= end <= ts.len(),
    decreases args, args.len() - from,
{
    if from < args.len() {
        lemma_written_range(ts, pos, args[from as int]);
        if let Some(end) = written(ts, pos, args[from as int]) {
            if from + 1 != args.len() && peek_kind(ts, end) == TokenKind::Comma {
                lemma_written_args_range(ts, end + 1, args, from + 1);
            }
        }
    }
}

/// An operand in parentheses parses to what is written between them.
proof fn lemma_parse_written_operand(ts: Seq<TokenView>, pos: nat, e: ExprView)
    requires
        written_operand(ts, pos, e) is Some,
    ensures
        parse_operand(ts, pos) == done(e, written_operand(ts, pos, e).unwrap()),
    decreases e, 1nat,
{
    lemma_parse_written(ts, pos + 1, e);
}

/// An operand in parentheses that the expression ends behind is the whole
/// expression, whatever binding power is asked for.
proof fn lemma_parse_closed_operand(ts: Seq<TokenView>, pos: nat, e: ExprView, min_bp: nat)
    requires
        written_operand(ts, pos, e) matches Some(end) && ends_expression(peek_kind(ts, end)),
    ensures
        parse_expr(ts, pos, min_bp) == done(e, written_operand(ts, pos, e).unwrap()),
    decreases e, 2nat,
{
    lemma_parse_written_operand(ts, pos, e);
    lemma_written_start(ts, pos, e);
}

/// Round trip. An expression written in full parentheses parses to
/// itself, and the parser stops right behind what is written.
pub proof fn lemma_parse_written(ts: Seq<TokenView>, pos: nat, e: ExprView)
    requires
        written(ts, pos, e) matches Some(end) && ends_expression(peek_kind(ts, end)),
    ensures
        parse_expr(ts, pos, 0) == done(e, written(ts, pos, e).unwrap()),
    decreases e, 0nat,
{
    let end = written(ts, pos, e).unwrap();
    lemma_written_range(ts, pos, e);
    match e {
        ExprView::Literal(lit) => {
            lemma_simple_operand(ts, pos);
        },
        ExprView::Ident(name) => {
            lemma_simple_operand(ts, pos);
        },
        ExprView::Call { name, args } => {
            let close = written_args(ts, pos + 2, args, 0).unwrap();
            lemma_parse_written_args(ts, pos + 2, args, 0, Seq::empty());
            assert(Seq::<ExprView>::empty() + args.subrange(0, args.len() as int) =~= args);
            assert(parse_operand(ts, pos) == done(e, close + 1));
        },
        ExprView::Prefix { op, expr } => {
            lemma_parse_closed_operand(ts, pos + 1, *expr, prefix_power(op).unwrap());
            assert(parse_operand(ts, pos) == done(e, end));
        },
        ExprView::Infix { op, left, right } => {
            let at_op = written_operand(ts, pos, *left).unwrap();
            lemma_parse_written_operand(ts, pos, *left);
            lemma_written_start(ts, pos, *left);
            lemma_parse_closed_operand(ts, at_op + 1, *right, infix_power(op).unwrap().right);
            lemma_written_start(ts, at_op + 1, *right);
            assert(parse_operators(ts, end, 0, e) == done(e, end));
            assert(parse_operators(ts, at_op, 0, *left) == done(e, end));
        },
        ExprView::Postfix { op, expr } => {
            let at_op = written_operand(ts, pos, *expr).unwrap();
            lemma_parse_written_operand(ts, pos, *expr);
            lemma_written_start(ts, pos, *expr);
            assert(parse_operators(ts, end, 0, e) == done(e, end));
            assert(parse_operators(ts, at_op, 0, *expr) == done(e, end));
        },
    }
}

/// Written arguments parse to the arguments, in order.
proof fn lemma_parse_written_args(
    ts: Seq<TokenView>,
    pos: nat,
    args: Seq<ExprView>,
    from: nat,
    acc: Seq<ExprView>,
)
    requires
        from <= args.len(),
        written_args(ts, pos, args, from) matches Some(end) && peek_kind(ts, end)
            == TokenKind::ClosedParen,
    ensures
        parse_arguments(ts, pos, acc) == done(
            acc + args.subrange(from as int, args.len() as int),
            written_args(ts, pos, args, from).unwrap(),
        ),
    decreases args, args.len() - from,
{
    if from < args.len() {
        let arg = args[from as int];
        let end = written(ts, pos, arg).unwrap();
        lemma_written_start(ts, pos, arg);
        lemma_parse_written(ts, pos, arg);
        if from + 1 == args.len() {
            assert(acc.push(arg) =~= acc + args.subrange(from as int, args.len() as int));
            assert(parse_arguments(ts, end, acc.push(arg)) == done(acc.push(arg), end));
        } else {
            lemma_written_start(ts, end + 1, args[from as int + 1]);
            lemma_parse_written_args(ts, end + 1, args, from + 1, acc.push(arg));
            assert(acc.push(arg) + args.subrange(from as int + 1, args.len() as int) =~= acc
                + args.subrange(from as int, args.len() as int));
        }
    } else {
        assert(acc + args.subrange(from as int, args.len() as int) =~= acc);
    }
}

/// A number written in decimal reads back as itself.
pub proof fn lemma_decimal_round_trip(n: nat)
    ensures
        decimal_text(n).len() >= 1,
        digits_value(decimal_text(n)) == Some(n),
        n <= usize::MAX ==> integer_value(decimal_text(n)) == Some(n as usize),
    decreases n,
{
    let text = decimal_text(n);
    if n < 10 {
        assert(text.drop_last() =~= Seq::<char>::empty());
        assert(digits_value(text.drop_last()) == Some(0nat));
    } else {
        lemma_decimal_round_trip(n / 10);
        assert(text.drop_last() =~= decimal_text(n / 10));
    }
    assert(digit_value(digit_char(n % 10)) == Some(n % 10));
}

} // verus!
