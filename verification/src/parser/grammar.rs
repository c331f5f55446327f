//! The grammar of the language as functions on token sequences.
//!
//! Each function reads one construct from a position in the token sequence
//! and gives either the tree it read with the position behind it, or the
//! first error. The executable parser is specified against these functions.

use super::ast::{DeclView, ExprView, FieldView, LitView, StmtView, TypeView};
use crate::lexer::token::{TokenKind, TokenView};
use crate::lexer::utf8::utf8_len;
use vstd::prelude::*;

verus! {

/// Why parsing stopped.
#[derive(Debug, Copy, Clone, PartialEq, Eq, Structural)]
pub enum ParseErrorKind {
    /// The input ended inside a construct.
    UnexpectedEof,
    /// A given token was required and another one stood there.
    Expected { expected: TokenKind, found: TokenKind },
    /// No expression starts with this token.
    UnknownExpressionStart { found: TokenKind },
    /// An expression went on with a token that is neither an operator nor
    /// one of the tokens that end an expression.
    UnknownOperator { found: TokenKind },
    /// No declaration starts with this token.
    UnknownDeclarationStart { found: TokenKind },
    /// A function header was not followed by a block.
    ExpectedBlock { found: TokenKind },
    /// `else` was followed neither by a block nor by `if`.
    ExpectedBlockOrIf { found: TokenKind },
    /// An integer literal that is not plain decimal or does not fit.
    InvalidInteger,
    /// A boolean literal that is neither `true` nor `false`.
    InvalidBoolean,
    /// A string literal without its two quotes.
    InvalidString,
}

/// An error and the line and column it is reported at.
pub struct ParseErrorView {
    pub kind: ParseErrorKind,
    pub line: nat,
    pub col: nat,
}

/// What was read, and the position of the first token behind it.
pub struct Node<T> {
    pub value: T,
    pub next: nat,
}

/// What reading a construct gives: the construct and the position behind
/// it, or the first error.
pub type Parsed<T> = Result<Node<T>, ParseErrorView>;

/// The result of reading `value` up to, not including, position `next`.
pub open spec fn done<T>(value: T, next: nat) -> Parsed<T> {
    Ok(Node { value, next })
}

/// Left and right binding power of an infix operator.
pub struct BindingPower {
    pub left: nat,
    pub right: nat,
}

/// The kind of the token at `pos`; past the last token, `Eof`.
pub open spec fn peek_kind(ts: Seq<TokenView>, pos: nat) -> TokenKind {
    if pos < ts.len() {
        ts[pos as int].kind
    } else {
        TokenKind::Eof
    }
}

/// An error of kind `kind` at position `pos`: reported where the token at
/// `pos` starts or, past the last token, where the last token ends (line 1,
/// column 1 where there is no token at all).
pub open spec fn error_at(ts: Seq<TokenView>, pos: nat, kind: ParseErrorKind) -> ParseErrorView {
    if pos < ts.len() {
        ParseErrorView { kind, line: ts[pos as int].line, col: ts[pos as int].col }
    } else if ts.len() == 0 {
        ParseErrorView { kind, line: 1, col: 1 }
    } else {
        let last = ts[ts.len() - 1];
        ParseErrorView { kind, line: last.line, col: last.col + utf8_len(last.text) }
    }
}

/// Requires a token of kind `expected` at `pos` and steps over it.
pub open spec fn expect(ts: Seq<TokenView>, pos: nat, expected: TokenKind) -> Result<
    nat,
    ParseErrorView,
> {
    if pos >= ts.len() {
        Err(error_at(ts, pos, ParseErrorKind::UnexpectedEof))
    } else if ts[pos as int].kind != expected {
        Err(error_at(ts, pos, ParseErrorKind::Expected { expected, found: ts[pos as int].kind }))
    } else {
        Ok(pos + 1)
    }
}

/// Requires an identifier at `pos` and gives its text.
pub open spec fn expect_identifier(ts: Seq<TokenView>, pos: nat) -> Parsed<Seq<char>> {
    match expect(ts, pos, TokenKind::Identifier) {
        Ok(next) => Ok(Node { value: ts[pos as int].text, next }),
        Err(e) => Err(e),
    }
}

/// The position behind an optional comma at `pos`.
pub open spec fn skip_comma(ts: Seq<TokenView>, pos: nat) -> nat {
    if peek_kind(ts, pos) == TokenKind::Comma {
        pos + 1
    } else {
        pos
    }
}

/// The right binding power of a prefix operator.
pub open spec fn prefix_power(op: TokenKind) -> Option<nat> {
    match op {
        TokenKind::Minus | TokenKind::Bang => Some(51),
        _ => None,
    }
}

/// The binding powers of an infix operator. The right power of each level
/// is one above its left power, which makes every level left-associative.
pub open spec fn infix_power(op: TokenKind) -> Option<BindingPower> {
    match op {
        TokenKind::Pipe => Some(BindingPower { left: 1, right: 2 }),
        TokenKind::And => Some(BindingPower { left: 3, right: 4 }),
        TokenKind::Equal | TokenKind::UnEqual => Some(BindingPower { left: 5, right: 6 }),
        TokenKind::LessThan
        | TokenKind::GreaterThan
        | TokenKind::LessEqual
        | TokenKind::GreaterEqual => Some(BindingPower { left: 7, right: 8 }),
        TokenKind::Caret => Some(BindingPower { left: 9, right: 10 }),
        TokenKind::Plus | TokenKind::Minus => Some(BindingPower { left: 11, right: 12 }),
        TokenKind::Asterisk | TokenKind::Slash | TokenKind::Percent => Some(
            BindingPower { left: 13, right: 14 },
        ),
        _ => None,
    }
}

/// The left binding power of a postfix operator.
pub open spec fn postfix_power(op: TokenKind) -> Option<nat> {
    match op {
        TokenKind::Bang => Some(101),
        _ => None,
    }
}

/// The tokens at which an expression ends without complaint.
pub open spec fn ends_expression(kind: TokenKind) -> bool {
    match kind {
        TokenKind::Eof
        | TokenKind::ClosedParen
        | TokenKind::ClosedBrace
        | TokenKind::OpenBrace
        | TokenKind::Comma
        | TokenKind::SemiColon => true,
        _ => false,
    }
}

/// The value of a decimal digit: `'0'` is code point 48, `'9'` is 57.
pub open spec fn digit_value(c: char) -> Option<nat> {
    if 48 <= c as u32 <= 57 {
        Some((c as u32 - 48) as nat)
    } else {
        None
    }
}

/// The number that a sequence of decimal digits writes; nothing where a
/// character is no digit. The empty sequence writes 0.
pub open spec fn digits_value(s: Seq<char>) -> Option<nat>
    decreases s.len(),
{
    if s.len() == 0 {
        Some(0)
    } else {
        match (digits_value(s.drop_last()), digit_value(s.last())) {
            (Some(high), Some(low)) => Some(high * 10 + low),
            _ => None,
        }
    }
}

/// The value of an integer literal: its text is one or more decimal
/// digits and the number fits the machine word.
pub open spec fn integer_value(text: Seq<char>) -> Option<usize> {
    if text.len() == 0 {
        None
    } else {
        match digits_value(text) {
            Some(v) => if v <= usize::MAX {
                Some(v as usize)
            } else {
                None
            },
            None => None,
        }
    }
}

/// The value of a boolean literal.
pub open spec fn boolean_value(text: Seq<char>) -> Option<bool> {
    if text == seq!['t', 'r', 'u', 'e'] {
        Some(true)
    } else if text == seq!['f', 'a', 'l', 's', 'e'] {
        Some(false)
    } else {
        None
    }
}

/// The value of a string literal: its text without the first and the last
/// character, which are the quotes.
pub open spec fn string_value(text: Seq<char>) -> Option<Seq<char>> {
    if text.len() >= 2 {
        Some(text.subrange(1, text.len() - 1))
    } else {
        None
    }
}

/// The literal that a token of kind `kind` with text `text` writes.
pub open spec fn literal_value(
    kind: TokenKind,
    text: Seq<char>,
) -> Result<LitView, ParseErrorKind> {
    match kind {
        TokenKind::Integer => match integer_value(text) {
            Some(v) => Ok(LitView::Integer(v)),
            None => Err(ParseErrorKind::InvalidInteger),
        },
        TokenKind::Boolean => match boolean_value(text) {
            Some(b) => Ok(LitView::Boolean(b)),
            None => Err(ParseErrorKind::InvalidBoolean),
        },
        _ => match string_value(text) {
            Some(s) => Ok(LitView::String(s)),
            None => Err(ParseErrorKind::InvalidString),
        },
    }
}

/// The literal that the token at `pos` writes.
pub open spec fn parse_literal(ts: Seq<TokenView>, pos: nat) -> Result<LitView, ParseErrorView>
    recommends
        pos < ts.len(),
{
    match literal_value(ts[pos as int].kind, ts[pos as int].text) {
        Ok(lit) => Ok(lit),
        Err(kind) => Err(error_at(ts, pos, kind)),
    }
}

/// An expression from `pos` whose operators all bind at least as tightly
/// as `min_bp`: an operand, then the operators and operands that follow it.
pub open spec fn parse_expr(ts: Seq<TokenView>, pos: nat, min_bp: nat) -> Parsed<ExprView>
    decreases ts.len() - pos, 2nat,
{
    match parse_operand(ts, pos) {
        // The test makes the definition well-founded; it never fails
        // (`lemma_expr_equation`).
        Ok(lhs) => if pos < lhs.next <= ts.len() {
            parse_operators(ts, lhs.next, min_bp, lhs.value)
        } else {
            Ok(lhs)
        },
        Err(e) => Err(e),
    }
}

/// The operand that an expression starts with: a literal, an identifier, a
/// call, a parenthesised expression (which leaves no node of its own), or a
/// prefix operator with its operand.
pub open spec fn parse_operand(ts: Seq<TokenView>, pos: nat) -> Parsed<ExprView>
    decreases ts.len() - pos, 1nat,
{
    let kind = peek_kind(ts, pos);
    match kind {
        TokenKind::Integer | TokenKind::Boolean | TokenKind::String => match parse_literal(
            ts,
            pos,
        ) {
            Ok(lit) => Ok(Node { value: ExprView::Literal(lit), next: pos + 1 }),
            Err(e) => Err(e),
        },
        TokenKind::Identifier => {
            let name = ts[pos as int].text;
            if peek_kind(ts, pos + 1) != TokenKind::OpenParen {
                Ok(Node { value: ExprView::Ident(name), next: pos + 1 })
            } else {
                match parse_arguments(ts, pos + 2, Seq::empty()) {
                    Ok(args) => match expect(ts, args.next, TokenKind::ClosedParen) {
                        Ok(next) => done(ExprView::Call { name, args: args.value }, next),
                        Err(e) => Err(e),
                    },
                    Err(e) => Err(e),
                }
            }
        },
        TokenKind::OpenParen => match parse_expr(ts, pos + 1, 0) {
            Ok(inner) => match expect(ts, inner.next, TokenKind::ClosedParen) {
                Ok(next) => Ok(Node { value: inner.value, next }),
                Err(e) => Err(e),
            },
            Err(e) => Err(e),
        },
        TokenKind::Minus | TokenKind::Bang => match parse_expr(
            ts,
            pos + 1,
            prefix_power(kind).unwrap(),
        ) {
            Ok(operand) => Ok(
                Node {
                    value: ExprView::Prefix { op: kind, expr: Box::new(operand.value) },
                    next: operand.next,
                },
            ),
            Err(e) => Err(e),
        },
        _ => Err(error_at(ts, pos, ParseErrorKind::UnknownExpressionStart { found: kind })),
    }
}

/// The arguments of a call from `pos` up to, not including, the closing
/// parenthesis, added to `acc`. A comma may follow each argument.
pub open spec fn parse_arguments(
    ts: Seq<TokenView>,
    pos: nat,
    acc: Seq<ExprView>,
) -> Parsed<Seq<ExprView>>
    decreases ts.len() - pos, 3nat,
{
    if peek_kind(ts, pos) == TokenKind::ClosedParen {
        Ok(Node { value: acc, next: pos })
    } else {
        match parse_expr(ts, pos, 0) {
            // The test makes the definition well-founded; it never fails
            // (`lemma_arguments_equation`).
            Ok(arg) => if pos < arg.next <= ts.len() {
                parse_arguments(ts, skip_comma(ts, arg.next), acc.push(arg.value))
            } else {
                Ok(Node { value: acc, next: pos })
            },
            Err(e) => Err(e),
        }
    }
}

/// What follows the operand `lhs`, from `pos`: while the next operator
/// binds at least as tightly as `min_bp`, a postfix operator wraps `lhs`,
/// and an infix operator takes as its right side an expression of at
/// least its right binding power. An operator that binds less tightly, or
/// a token that ends an expression, ends it; any other token is an error.
pub open spec fn parse_operators(
    ts: Seq<TokenView>,
    pos: nat,
    min_bp: nat,
    lhs: ExprView,
) -> Parsed<ExprView>
    decreases ts.len() - pos, 0nat,
{
    let op = peek_kind(ts, pos);
    if ends_expression(op) {
        Ok(Node { value: lhs, next: pos })
    } else {
        match postfix_power(op) {
            Some(left) => if left < min_bp {
                Ok(Node { value: lhs, next: pos })
            } else {
                parse_operators(
                    ts,
                    pos + 1,
                    min_bp,
                    ExprView::Postfix { op, expr: Box::new(lhs) },
                )
            },
            None => match infix_power(op) {
                Some(power) => if power.left < min_bp {
                    Ok(Node { value: lhs, next: pos })
                } else {
                    match parse_expr(ts, pos + 1, power.right) {
                        // The test makes the definition well-founded;
                        // it never fails (`lemma_infix_equation`).
                        Ok(rhs) => if pos < rhs.next <= ts.len() {
                            parse_operators(
                                ts,
                                rhs.next,
                                min_bp,
                                ExprView::Infix {
                                    op,
                                    left: Box::new(lhs),
                                    right: Box::new(rhs.value),
                                },
                            )
                        } else {
                            Ok(Node { value: lhs, next: pos })
                        },
                        Err(e) => Err(e),
                    }
                },
                None => Err(error_at(ts, pos, ParseErrorKind::UnknownOperator { found: op })),
            },
        }
    }
}

/// An operand takes at least one token and stays within the tokens.
pub proof fn lemma_operand_advances(ts: Seq<TokenView>, pos: nat)
    ensures
        parse_operand(ts, pos) matches Ok(n) ==> pos < n.next <= ts.len(),
    decreases ts.len() - pos, 1nat,
{
    let kind = peek_kind(ts, pos);
    match kind {
        TokenKind::Identifier => {
            if peek_kind(ts, pos + 1) == TokenKind::OpenParen {
                lemma_arguments_advance(ts, pos + 2, Seq::empty());
            }
        },
        TokenKind::OpenParen => {
            lemma_expr_advances(ts, pos + 1, 0);
        },
        TokenKind::Minus | TokenKind::Bang => {
            lemma_expr_advances(ts, pos + 1, prefix_power(kind).unwrap());
        },
        _ => {},
    }
}

/// An expression takes at least one token and stays within the tokens.
pub proof fn lemma_expr_advances(ts: Seq<TokenView>, pos: nat, min_bp: nat)
    ensures
        parse_expr(ts, pos, min_bp) matches Ok(n) ==> pos < n.next <= ts.len(),
    decreases ts.len() - pos, 2nat,
{
    lemma_operand_advances(ts, pos);
    if let Ok(lhs) = parse_operand(ts, pos) {
        lemma_operators_advance(ts, lhs.next, min_bp, lhs.value);
    }
}

/// The arguments of a call never move backwards.
pub proof fn lemma_arguments_advance(ts: Seq<TokenView>, pos: nat, acc: Seq<ExprView>)
    requires
        pos <= ts.len(),
    ensures
        parse_arguments(ts, pos, acc) matches Ok(n) ==> pos <= n.next <= ts.len() && peek_kind(
            ts,
            n.next,
        ) == TokenKind::ClosedParen,
    decreases ts.len() - pos, 3nat,
{
    if peek_kind(ts, pos) != TokenKind::ClosedParen {
        lemma_expr_advances(ts, pos, 0);
        if let Ok(arg) = parse_expr(ts, pos, 0) {
            lemma_arguments_advance(ts, skip_comma(ts, arg.next), acc.push(arg.value));
        }
    }
}

/// The operators behind an operand never move backwards.
pub proof fn lemma_operators_advance(ts: Seq<TokenView>, pos: nat, min_bp: nat, lhs: ExprView)
    requires
        pos <= ts.len(),
    ensures
        parse_operators(ts, pos, min_bp, lhs) matches Ok(n) ==> pos <= n.next <= ts.len(),
    decreases ts.len() - pos, 0nat,
{
    let op = peek_kind(ts, pos);
    if !ends_expression(op) {
        match postfix_power(op) {
            Some(left) => {
                if left >= min_bp {
                    lemma_operators_advance(
                        ts,
                        pos + 1,
                        min_bp,
                        ExprView::Postfix { op, expr: Box::new(lhs) },
                    );
                }
            },
            None => {
                if let Some(power) = infix_power(op) {
                    if power.left >= min_bp {
                        lemma_expr_advances(ts, pos + 1, power.right);
                        if let Ok(rhs) = parse_expr(ts, pos + 1, power.right) {
                            lemma_operators_advance(
                                ts,
                                rhs.next,
                                min_bp,
                                ExprView::Infix {
                                    op,
                                    left: Box::new(lhs),
                                    right: Box::new(rhs.value),
                                },
                            );
                        }
                    }
                }
            },
        }
    }
}

/// An expression is its operand and the operators behind it: the test in
/// the definition never fails.
pub proof fn lemma_expr_equation(ts: Seq<TokenView>, pos: nat, min_bp: nat)
    ensures
        parse_expr(ts, pos, min_bp) == match parse_operand(ts, pos) {
            Ok(lhs) => parse_operators(ts, lhs.next, min_bp, lhs.value),
            Err(e) => Err(e),
        },
{
    lemma_operand_advances(ts, pos);
}

/// The arguments of a call are one argument, an optional comma, and the
/// arguments behind them: the test in the definition never fails.
pub proof fn lemma_arguments_equation(ts: Seq<TokenView>, pos: nat, acc: Seq<ExprView>)
    ensures
        parse_arguments(ts, pos, acc) == if peek_kind(ts, pos) == TokenKind::ClosedParen {
            done(acc, pos)
        } else {
            match parse_expr(ts, pos, 0) {
                Ok(arg) => parse_arguments(ts, skip_comma(ts, arg.next), acc.push(arg.value)),
                Err(e) => Err(e),
            }
        },
{
    lemma_expr_advances(ts, pos, 0);
}

/// An infix operator that binds tightly enough takes its right side and
/// goes on from behind it: the test in the definition never fails.
pub proof fn lemma_infix_equation(ts: Seq<TokenView>, pos: nat, min_bp: nat, lhs: ExprView)
    requires
        !ends_expression(peek_kind(ts, pos)),
        postfix_power(peek_kind(ts, pos)) is None,
        infix_power(peek_kind(ts, pos)) matches Some(power) && power.left >= min_bp,
    ensures
        parse_operators(ts, pos, min_bp, lhs) == match parse_expr(
            ts,
            pos + 1,
            infix_power(peek_kind(ts, pos)).unwrap().right,
        ) {
            Ok(rhs) => parse_operators(
                ts,
                rhs.next,
                min_bp,
                ExprView::Infix {
                    op: peek_kind(ts, pos),
                    left: Box::new(lhs),
                    right: Box::new(rhs.value),
                },
            ),
            Err(e) => Err(e),
        },
{
    lemma_expr_advances(ts, pos + 1, infix_power(peek_kind(ts, pos)).unwrap().right);
}

/// A type from `pos`: a name, and between angle brackets its generic
/// arguments, if any.
pub open spec fn parse_type(ts: Seq<TokenView>, pos: nat) -> Parsed<TypeView>
    decreases ts.len() - pos, 1nat,
{
    match expect_identifier(ts, pos) {
        Ok(name) => if peek_kind(ts, name.next) == TokenKind::LessThan {
            match parse_generics(ts, name.next + 1, Seq::empty()) {
                Ok(generics) => match expect(ts, generics.next, TokenKind::GreaterThan) {
                    Ok(next) => done(
                        TypeView { name: name.value, generics: generics.value },
                        next,
                    ),
                    Err(e) => Err(e),
                },
                Err(e) => Err(e),
            }
        } else {
            done(TypeView { name: name.value, generics: Seq::empty() }, name.next)
        },
        Err(e) => Err(e),
    }
}

/// The generic arguments of a type from `pos` up to, not including, the
/// closing angle bracket, added to `acc`. A comma may follow each.
pub open spec fn parse_generics(
    ts: Seq<TokenView>,
    pos: nat,
    acc: Seq<TypeView>,
) -> Parsed<Seq<TypeView>>
    decreases ts.len() - pos, 2nat,
{
    if peek_kind(ts, pos) == TokenKind::GreaterThan {
        Ok(Node { value: acc, next: pos })
    } else {
        match parse_type(ts, pos) {
            // The test makes the definition well-founded; it never fails
            // (`lemma_generics_equation`).
            Ok(t) => if pos < t.next <= ts.len() {
                parse_generics(ts, skip_comma(ts, t.next), acc.push(t.value))
            } else {
                Ok(Node { value: acc, next: pos })
            },
            Err(e) => Err(e),
        }
    }
}

/// A type takes at least one token and stays within the tokens.
pub proof fn lemma_type_advances(ts: Seq<TokenView>, pos: nat)
    ensures
        parse_type(ts, pos) matches Ok(n) ==> pos < n.next <= ts.len(),
    decreases ts.len() - pos, 1nat,
{
    if let Ok(name) = expect_identifier(ts, pos) {
        if peek_kind(ts, name.next) == TokenKind::LessThan {
            lemma_generics_advance(ts, name.next + 1, Seq::empty());
        }
    }
}

/// The generic arguments of a type never move backwards.
pub proof fn lemma_generics_advance(ts: Seq<TokenView>, pos: nat, acc: Seq<TypeView>)
    requires
        pos <= ts.len(),
    ensures
        parse_generics(ts, pos, acc) matches Ok(n) ==> pos <= n.next <= ts.len(),
    decreases ts.len() - pos, 2nat,
{
    if peek_kind(ts, pos) != TokenKind::GreaterThan {
        lemma_type_advances(ts, pos);
        if let Ok(t) = parse_type(ts, pos) {
            lemma_generics_advance(ts, skip_comma(ts, t.next), acc.push(t.value));
        }
    }
}

/// The generic arguments of a type are one type, an optional comma, and
/// the types behind them: the test in the definition never fails.
pub proof fn lemma_generics_equation(ts: Seq<TokenView>, pos: nat, acc: Seq<TypeView>)
    ensures
        parse_generics(ts, pos, acc) == if peek_kind(ts, pos) == TokenKind::GreaterThan {
            done(acc, pos)
        } else {
            match parse_type(ts, pos) {
                Ok(t) => parse_generics(ts, skip_comma(ts, t.next), acc.push(t.value)),
                Err(e) => Err(e),
            }
        },
{
    lemma_type_advances(ts, pos);
}

/// The type annotation of a `let`, if `pos` is at a colon.
pub open spec fn parse_annotation(ts: Seq<TokenView>, pos: nat) -> Parsed<Option<TypeView>> {
    if peek_kind(ts, pos) == TokenKind::Colon {
        match parse_type(ts, pos + 1) {
            Ok(t) => Ok(Node { value: Some(t.value), next: t.next }),
            Err(e) => Err(e),
        }
    } else {
        Ok(Node { value: None, next: pos })
    }
}

/// An expression from `pos` and the semicolon behind it.
pub open spec fn parse_expr_semi(ts: Seq<TokenView>, pos: nat) -> Parsed<ExprView> {
    match parse_expr(ts, pos, 0) {
        Ok(e) => match expect(ts, e.next, TokenKind::SemiColon) {
            Ok(next) => Ok(Node { value: e.value, next }),
            Err(err) => Err(err),
        },
        Err(err) => Err(err),
    }
}

/// `let NAME [: TYPE] = EXPR ;` with `pos` behind the `let`.
pub open spec fn parse_let(ts: Seq<TokenView>, pos: nat) -> Parsed<StmtView> {
    match expect_identifier(ts, pos) {
        Ok(name) => match parse_annotation(ts, name.next) {
            Ok(typ) => match expect(ts, typ.next, TokenKind::Assign) {
                Ok(at_value) => match parse_expr_semi(ts, at_value) {
                    Ok(value) => Ok(
                        Node {
                            value: StmtView::Let {
                                name: name.value,
                                typ: typ.value,
                                value: value.value,
                            },
                            next: value.next,
                        },
                    ),
                    Err(e) => Err(e),
                },
                Err(e) => Err(e),
            },
            Err(e) => Err(e),
        },
        Err(e) => Err(e),
    }
}

/// A statement that starts with the identifier at `pos`: an assignment
/// `NAME = EXPR ;` or a call `NAME ( ARGS ) ;`.
pub open spec fn parse_assign_or_call(ts: Seq<TokenView>, pos: nat) -> Parsed<StmtView>
    recommends
        pos < ts.len(),
{
    let name = ts[pos as int].text;
    if peek_kind(ts, pos + 1) == TokenKind::Assign {
        match parse_expr_semi(ts, pos + 2) {
            Ok(value) => Ok(
                Node {
                    value: StmtView::Assign { name, op: None, value: value.value },
                    next: value.next,
                },
            ),
            Err(e) => Err(e),
        }
    } else {
        match expect(ts, pos + 1, TokenKind::OpenParen) {
            Ok(at_args) => match parse_arguments(ts, at_args, Seq::empty()) {
                Ok(args) => match expect(ts, args.next, TokenKind::ClosedParen) {
                    Ok(at_semi) => match expect(ts, at_semi, TokenKind::SemiColon) {
                        Ok(next) => Ok(
                            Node {
                                value: StmtView::Expr {
                                    value: ExprView::Call { name, args: args.value },
                                },
                                next,
                            },
                        ),
                        Err(e) => Err(e),
                    },
                    Err(e) => Err(e),
                },
                Err(e) => Err(e),
            },
            Err(e) => Err(e),
        }
    }
}

/// `return ;` or `return EXPR ;` with `pos` behind the `return`.
pub open spec fn parse_return(ts: Seq<TokenView>, pos: nat) -> Parsed<StmtView> {
    if peek_kind(ts, pos) == TokenKind::SemiColon {
        Ok(Node { value: StmtView::Return { value: None }, next: pos + 1 })
    } else {
        match parse_expr_semi(ts, pos) {
            Ok(value) => Ok(
                Node { value: StmtView::Return { value: Some(value.value) }, next: value.next },
            ),
            Err(e) => Err(e),
        }
    }
}

/// An expression statement `EXPR ;` from `pos`.
pub open spec fn parse_expr_statement(ts: Seq<TokenView>, pos: nat) -> Parsed<StmtView> {
    match parse_expr_semi(ts, pos) {
        Ok(value) => Ok(Node { value: StmtView::Expr { value: value.value }, next: value.next }),
        Err(e) => Err(e),
    }
}

/// A statement from `pos`, chosen by its first token.
pub open spec fn parse_statement(ts: Seq<TokenView>, pos: nat) -> Parsed<StmtView>
    decreases ts.len() - pos, 1nat,
{
    match peek_kind(ts, pos) {
        TokenKind::Let => parse_let(ts, pos + 1),
        TokenKind::Identifier => parse_assign_or_call(ts, pos),
        TokenKind::Return => parse_return(ts, pos + 1),
        TokenKind::If => parse_if(ts, pos + 1),
        TokenKind::OpenBrace => parse_block(ts, pos + 1),
        _ => parse_expr_statement(ts, pos),
    }
}

/// `if EXPR STMT [else STMT]` with `pos` behind the `if`. What follows
/// `else` must start with `if` or with an opening brace.
pub open spec fn parse_if(ts: Seq<TokenView>, pos: nat) -> Parsed<StmtView>
    decreases ts.len() - pos, 2nat,
{
    match parse_expr(ts, pos, 0) {
        Ok(cond) => {
            proof {
                lemma_expr_advances(ts, pos, 0);
            }
            match parse_statement(ts, cond.next) {
                // The test on `body.next` makes the definition
                // well-founded; it never fails (`lemma_if_equation`).
                Ok(body) => if peek_kind(ts, body.next) == TokenKind::Else && pos < body.next
                    <= ts.len() {
                    match parse_else(ts, body.next + 1) {
                        Ok(alt) => Ok(
                            Node {
                                value: StmtView::If {
                                    expr: cond.value,
                                    body: Box::new(body.value),
                                    elze: Some(Box::new(alt.value)),
                                },
                                next: alt.next,
                            },
                        ),
                        Err(e) => Err(e),
                    }
                } else {
                    Ok(
                        Node {
                            value: StmtView::If {
                                expr: cond.value,
                                body: Box::new(body.value),
                                elze: None,
                            },
                            next: body.next,
                        },
                    )
                },
                Err(e) => Err(e),
            }
        },
        Err(e) => Err(e),
    }
}

/// The statement behind an `else`: another `if` or a block.
pub open spec fn parse_else(ts: Seq<TokenView>, pos: nat) -> Parsed<StmtView>
    decreases ts.len() - pos, 2nat,
{
    let found = peek_kind(ts, pos);
    if found != TokenKind::If && found != TokenKind::OpenBrace {
        Err(error_at(ts, pos, ParseErrorKind::ExpectedBlockOrIf { found }))
    } else {
        parse_statement(ts, pos)
    }
}

/// A block `{ STMT* }` with `pos` behind the opening brace.
pub open spec fn parse_block(ts: Seq<TokenView>, pos: nat) -> Parsed<StmtView>
    decreases ts.len() - pos, 3nat,
{
    match parse_block_items(ts, pos, Seq::empty()) {
        Ok(items) => match expect(ts, items.next, TokenKind::ClosedBrace) {
            Ok(next) => Ok(Node { value: StmtView::Block { body: items.value }, next }),
            Err(e) => Err(e),
        },
        Err(e) => Err(e),
    }
}

/// The statements of a block from `pos` up to, not including, the closing
/// brace, added to `acc`.
pub open spec fn parse_block_items(
    ts: Seq<TokenView>,
    pos: nat,
    acc: Seq<StmtView>,
) -> Parsed<Seq<StmtView>>
    decreases ts.len() - pos, 2nat,
{
    if peek_kind(ts, pos) == TokenKind::ClosedBrace {
        Ok(Node { value: acc, next: pos })
    } else {
        match parse_statement(ts, pos) {
            // The test makes the definition well-founded; it never fails
            // (`lemma_block_items_equation`).
            Ok(stmt) => if pos < stmt.next <= ts.len() {
                parse_block_items(ts, stmt.next, acc.push(stmt.value))
            } else {
                Ok(Node { value: acc, next: pos })
            },
            Err(e) => Err(e),
        }
    }
}

/// A `let` takes at least one token.
pub proof fn lemma_let_advances(ts: Seq<TokenView>, pos: nat)
    ensures
        parse_let(ts, pos) matches Ok(n) ==> pos < n.next <= ts.len(),
{
    if let Ok(name) = expect_identifier(ts, pos) {
        if peek_kind(ts, name.next) == TokenKind::Colon {
            lemma_type_advances(ts, name.next + 1);
        }
        if let Ok(typ) = parse_annotation(ts, name.next) {
            if let Ok(at_value) = expect(ts, typ.next, TokenKind::Assign) {
                lemma_expr_advances(ts, at_value, 0);
            }
        }
    }
}

/// An assignment or call statement takes at least one token.
pub proof fn lemma_assign_or_call_advances(ts: Seq<TokenView>, pos: nat)
    requires
        pos < ts.len(),
    ensures
        parse_assign_or_call(ts, pos) matches Ok(n) ==> pos < n.next <= ts.len(),
{
    if peek_kind(ts, pos + 1) == TokenKind::Assign {
        lemma_expr_advances(ts, pos + 2, 0);
    } else if let Ok(at_args) = expect(ts, pos + 1, TokenKind::OpenParen) {
        lemma_arguments_advance(ts, at_args, Seq::empty());
    }
}

/// A `return` never moves backwards.
pub proof fn lemma_return_advances(ts: Seq<TokenView>, pos: nat)
    ensures
        parse_return(ts, pos) matches Ok(n) ==> pos < n.next <= ts.len(),
{
    lemma_expr_advances(ts, pos, 0);
}

/// A statement takes at least one token and stays within the tokens.
pub proof fn lemma_statement_advances(ts: Seq<TokenView>, pos: nat)
    ensures
        parse_statement(ts, pos) matches Ok(n) ==> pos < n.next <= ts.len(),
    decreases ts.len() - pos, 1nat,
{
    match peek_kind(ts, pos) {
        TokenKind::Let => {
            lemma_let_advances(ts, pos + 1);
        },
        TokenKind::Identifier => {
            lemma_assign_or_call_advances(ts, pos);
        },
        TokenKind::Return => {
            lemma_return_advances(ts, pos + 1);
        },
        TokenKind::If => {
            lemma_if_advances(ts, pos + 1);
        },
        TokenKind::OpenBrace => {
            lemma_block_items_advance(ts, pos + 1, Seq::empty());
        },
        _ => {
            lemma_expr_advances(ts, pos, 0);
        },
    }
}

/// An `if` takes at least one token behind the `if`.
pub proof fn lemma_if_advances(ts: Seq<TokenView>, pos: nat)
    ensures
        parse_if(ts, pos) matches Ok(n) ==> pos < n.next <= ts.len(),
    decreases ts.len() - pos, 2nat,
{
    lemma_expr_advances(ts, pos, 0);
    if let Ok(cond) = parse_expr(ts, pos, 0) {
        lemma_statement_advances(ts, cond.next);
        if let Ok(body) = parse_statement(ts, cond.next) {
            if peek_kind(ts, body.next) == TokenKind::Else {
                lemma_statement_advances(ts, body.next + 1);
            }
        }
    }
}

/// The statements of a block never move backwards.
pub proof fn lemma_block_items_advance(ts: Seq<TokenView>, pos: nat, acc: Seq<StmtView>)
    requires
        pos <= ts.len(),
    ensures
        parse_block_items(ts, pos, acc) matches Ok(n) ==> pos <= n.next <= ts.len(),
    decreases ts.len() - pos, 2nat,
{
    if peek_kind(ts, pos) != TokenKind::ClosedBrace {
        lemma_statement_advances(ts, pos);
        if let Ok(stmt) = parse_statement(ts, pos) {
            lemma_block_items_advance(ts, stmt.next, acc.push(stmt.value));
        }
    }
}

/// The statements of a block are one statement and the statements behind
/// it: the test in the definition never fails.
pub proof fn lemma_block_items_equation(ts: Seq<TokenView>, pos: nat, acc: Seq<StmtView>)
    ensures
        parse_block_items(ts, pos, acc) == if peek_kind(ts, pos) == TokenKind::ClosedBrace {
            done(acc, pos)
        } else {
            match parse_statement(ts, pos) {
                Ok(stmt) => parse_block_items(ts, stmt.next, acc.push(stmt.value)),
                Err(e) => Err(e),
            }
        },
{
    lemma_statement_advances(ts, pos);
}

/// An `if` whose body is followed by `else` has an alternative: the test
/// in the definition never fails.
pub proof fn lemma_if_equation(ts: Seq<TokenView>, pos: nat)
    ensures
        parse_if(ts, pos) == match parse_expr(ts, pos, 0) {
            Ok(cond) => match parse_statement(ts, cond.next) {
                Ok(body) => if peek_kind(ts, body.next) == TokenKind::Else {
                    match parse_else(ts, body.next + 1) {
                        Ok(alt) => done(
                            StmtView::If {
                                expr: cond.value,
                                body: Box::new(body.value),
                                elze: Some(Box::new(alt.value)),
                            },
                            alt.next,
                        ),
                        Err(e) => Err(e),
                    }
                } else {
                    done(
                        StmtView::If {
                            expr: cond.value,
                            body: Box::new(body.value),
                            elze: None,
                        },
                        body.next,
                    )
                },
                Err(e) => Err(e),
            },
            Err(e) => Err(e),
        },
{
    lemma_expr_advances(ts, pos, 0);
    if let Ok(cond) = parse_expr(ts, pos, 0) {
        lemma_statement_advances(ts, cond.next);
    }
}

/// The parameters of a function or the members of a struct, each
/// `NAME : TYPE`, from `pos` up to, not including, the token `close`,
/// added to `acc`. A comma may follow each.
pub open spec fn parse_fields(
    ts: Seq<TokenView>,
    pos: nat,
    close: TokenKind,
    acc: Seq<FieldView>,
) -> Parsed<Seq<FieldView>>
    decreases ts.len() - pos,
{
    if peek_kind(ts, pos) == close {
        Ok(Node { value: acc, next: pos })
    } else {
        match expect_identifier(ts, pos) {
            Ok(name) => match expect(ts, name.next, TokenKind::Colon) {
                Ok(at_type) => match parse_type(ts, at_type) {
                    Ok(typ) => {
                        proof {
                            lemma_type_advances(ts, at_type);
                        }
                        parse_fields(
                            ts,
                            skip_comma(ts, typ.next),
                            close,
                            acc.push(FieldView { name: name.value, typ: typ.value }),
                        )
                    },
                    Err(e) => Err(e),
                },
                Err(e) => Err(e),
            },
            Err(e) => Err(e),
        }
    }
}

/// The return type of a function, if `pos` is not yet at the body.
pub open spec fn parse_return_type(ts: Seq<TokenView>, pos: nat) -> Parsed<Option<TypeView>> {
    if peek_kind(ts, pos) != TokenKind::OpenBrace {
        match parse_type(ts, pos) {
            Ok(t) => Ok(Node { value: Some(t.value), next: t.next }),
            Err(e) => Err(e),
        }
    } else {
        Ok(Node { value: None, next: pos })
    }
}

/// The body of a function: a block.
pub open spec fn parse_body(ts: Seq<TokenView>, pos: nat) -> Parsed<StmtView> {
    if peek_kind(ts, pos) != TokenKind::OpenBrace {
        Err(error_at(ts, pos, ParseErrorKind::ExpectedBlock { found: peek_kind(ts, pos) }))
    } else {
        parse_statement(ts, pos)
    }
}

/// `fn NAME ( PARAMS ) [TYPE] BLOCK` with `pos` behind the `fn`.
pub open spec fn parse_function(ts: Seq<TokenView>, pos: nat) -> Parsed<DeclView> {
    match expect_identifier(ts, pos) {
        Ok(name) => match expect(ts, name.next, TokenKind::OpenParen) {
            Ok(at_params) => match parse_fields(
                ts,
                at_params,
                TokenKind::ClosedParen,
                Seq::empty(),
            ) {
                Ok(params) => match expect(ts, params.next, TokenKind::ClosedParen) {
                    Ok(at_type) => match parse_return_type(ts, at_type) {
                        Ok(rtyp) => match parse_body(ts, rtyp.next) {
                            Ok(body) => Ok(
                                Node {
                                    value: DeclView::Function {
                                        name: name.value,
                                        params: params.value,
                                        body: body.value,
                                        rtyp: rtyp.value,
                                    },
                                    next: body.next,
                                },
                            ),
                            Err(e) => Err(e),
                        },
                        Err(e) => Err(e),
                    },
                    Err(e) => Err(e),
                },
                Err(e) => Err(e),
            },
            Err(e) => Err(e),
        },
        Err(e) => Err(e),
    }
}

/// `struct TYPE { MEMBERS }` with `pos` behind the `struct`.
pub open spec fn parse_struct(ts: Seq<TokenView>, pos: nat) -> Parsed<DeclView> {
    match parse_type(ts, pos) {
        Ok(name) => match expect(ts, name.next, TokenKind::OpenBrace) {
            Ok(at_members) => match parse_fields(
                ts,
                at_members,
                TokenKind::ClosedBrace,
                Seq::empty(),
            ) {
                Ok(members) => match expect(ts, members.next, TokenKind::ClosedBrace) {
                    Ok(next) => Ok(
                        Node {
                            value: DeclView::Struct { name: name.value, members: members.value },
                            next,
                        },
                    ),
                    Err(e) => Err(e),
                },
                Err(e) => Err(e),
            },
            Err(e) => Err(e),
        },
        Err(e) => Err(e),
    }
}

/// A declaration from `pos`: a function or a struct.
pub open spec fn parse_decl(ts: Seq<TokenView>, pos: nat) -> Parsed<DeclView> {
    match peek_kind(ts, pos) {
        TokenKind::Function => parse_function(ts, pos + 1),
        TokenKind::Struct => parse_struct(ts, pos + 1),
        other => Err(error_at(ts, pos, ParseErrorKind::UnknownDeclarationStart { found: other })),
    }
}

/// The parameters or members never move backwards, and end at `close`.
pub proof fn lemma_fields_advance(
    ts: Seq<TokenView>,
    pos: nat,
    close: TokenKind,
    acc: Seq<FieldView>,
)
    requires
        pos <= ts.len(),
    ensures
        parse_fields(ts, pos, close, acc) matches Ok(n) ==> pos <= n.next <= ts.len(),
    decreases ts.len() - pos,
{
    if peek_kind(ts, pos) != close {
        if let Ok(name) = expect_identifier(ts, pos) {
            if let Ok(at_type) = expect(ts, name.next, TokenKind::Colon) {
                lemma_type_advances(ts, at_type);
                if let Ok(typ) = parse_type(ts, at_type) {
                    lemma_fields_advance(
                        ts,
                        skip_comma(ts, typ.next),
                        close,
                        acc.push(FieldView { name: name.value, typ: typ.value }),
                    );
                }
            }
        }
    }
}

/// A declaration takes at least one token and stays within the tokens.
pub proof fn lemma_decl_advances(ts: Seq<TokenView>, pos: nat)
    ensures
        parse_decl(ts, pos) matches Ok(n) ==> pos < n.next <= ts.len(),
{
    match peek_kind(ts, pos) {
        TokenKind::Function => {
            if let Ok(name) = expect_identifier(ts, pos + 1) {
                if let Ok(at_params) = expect(ts, name.next, TokenKind::OpenParen) {
                    lemma_fields_advance(ts, at_params, TokenKind::ClosedParen, Seq::empty());
                    if let Ok(params) = parse_fields(
                        ts,
                        at_params,
                        TokenKind::ClosedParen,
                        Seq::empty(),
                    ) {
                        if let Ok(at_type) = expect(ts, params.next, TokenKind::ClosedParen) {
                            lemma_type_advances(ts, at_type);
                            if let Ok(rtyp) = parse_return_type(ts, at_type) {
                                lemma_statement_advances(ts, rtyp.next);
                            }
                        }
                    }
                }
            }
        },
        TokenKind::Struct => {
            lemma_type_advances(ts, pos + 1);
            if let Ok(name) = parse_type(ts, pos + 1) {
                if let Ok(at_members) = expect(ts, name.next, TokenKind::OpenBrace) {
                    lemma_fields_advance(ts, at_members, TokenKind::ClosedBrace, Seq::empty());
                }
            }
        },
        _ => {},
    }
}

/// The declarations from `pos` to the end of the tokens, added to `acc`.
pub open spec fn parse_decls(ts: Seq<TokenView>, pos: nat, acc: Seq<DeclView>) -> Result<
    Seq<DeclView>,
    ParseErrorView,
>
    decreases ts.len() - pos,
{
    if peek_kind(ts, pos) == TokenKind::Eof {
        Ok(acc)
    } else {
        match parse_decl(ts, pos) {
            Ok(decl) => {
                proof {
                    lemma_decl_advances(ts, pos);
                }
                parse_decls(ts, decl.next, acc.push(decl.value))
            },
            Err(e) => Err(e),
        }
    }
}

/// The declarations that a token sequence writes, or the first error.
pub open spec fn parse_program(ts: Seq<TokenView>) -> Result<Seq<DeclView>, ParseErrorView> {
    parse_decls(ts, 0, Seq::empty())
}

} // verus!
