//! Expressions, parsed by precedence climbing.

use super::ast::{exprs_view, lemma_call_view, Expr, ExprView, Lit};
use super::grammar::{
    boolean_value, digits_value, ends_expression, infix_power, integer_value, lemma_expr_advances,
    lemma_operand_advances, literal_value, parse_arguments, parse_expr, parse_operand,
    parse_operators, postfix_power, prefix_power, string_value, ParseErrorKind,
};
use super::{same_text, ParseError, Parser};
use crate::lexer::rules::split_first;
use crate::lexer::token::TokenKind;
use vstd::prelude::*;
use vstd::string::*;

verus! {

impl TokenKind {
    /// The right binding power of a prefix operator.
    pub fn prefix_binding_power(&self) -> (power: ((), u8))
        requires
            prefix_power(*self) is Some,
        ensures
            power.1 == prefix_power(*self).unwrap(),
    {
        ((), 51)
    }

    /// The left and right binding powers of an infix operator.
    pub fn infix_binding_power(&self) -> (power: Option<(u8, u8)>)
        ensures
            match infix_power(*self) {
                Some(p) => power matches Some(q) && q.0 == p.left && q.1 == p.right,
                None => power is None,
            },
    {
        let result: (u8, u8) = match self {
            TokenKind::Pipe => (1, 2),
            TokenKind::And => (3, 4),
            TokenKind::Equal | TokenKind::UnEqual => (5, 6),
            TokenKind::LessThan
            | TokenKind::GreaterThan
            | TokenKind::LessEqual
            | TokenKind::GreaterEqual => (7, 8),
            TokenKind::Caret => (9, 10),
            TokenKind::Plus | TokenKind::Minus => (11, 12),
            TokenKind::Asterisk | TokenKind::Slash | TokenKind::Percent => (13, 14),
            _ => {
                return None;
            },
        };
        Some(result)
    }

    /// The left binding power of a postfix operator.
    pub fn postfix_binding_power(&self) -> (power: Option<(u8, ())>)
        ensures
            match postfix_power(*self) {
                Some(left) => power matches Some(q) && q.0 == left,
                None => power is None,
            },
    {
        let result: (u8, ()) = match self {
            TokenKind::Bang => (101, ()),
            _ => {
                return None;
            },
        };
        Some(result)
    }

    /// Whether an expression ends in front of a token of this kind.
    pub fn ends_expression(&self) -> (yes: bool)
        ensures
            yes == ends_expression(*self),
    {
        match self {
            TokenKind::Eof
            | TokenKind::ClosedParen
            | TokenKind::ClosedBrace
            | TokenKind::OpenBrace
            | TokenKind::Comma
            | TokenKind::SemiColon => true,
            _ => false,
        }
    }
}

/// The digits before position `k` of a number are no more than the number.
proof fn lemma_digits_prefix(s: Seq<char>, k: int)
    requires
        0 <= k <= s.len(),
    ensures
        digits_value(s) matches Some(v) ==> digits_value(s.subrange(0, k)) matches Some(u) && u
            <= v,
    decreases s.len() - k,
{
    if k == s.len() {
        assert(s.subrange(0, k) =~= s);
    } else {
        lemma_digits_prefix(s.drop_last(), k);
        assert(s.drop_last().subrange(0, k) =~= s.subrange(0, k));
    }
}

/// Reads an integer literal: decimal digits whose value fits.
pub fn parse_integer(text: &str) -> (value: Option<usize>)
    ensures
        value == integer_value(text@),
{
    let mut rest = text;
    let mut acc: usize = 0;
    let ghost mut done: int = 0;
    loop
        invariant
            0 <= done <= text@.len(),
            rest@ == text@.subrange(done, text@.len() as int),
            digits_value(text@.subrange(0, done)) == Some(acc as nat),
        decreases text@.len() - done,
    {
        match split_first(rest) {
            None => {
                proof {
                    assert(text@.subrange(0, done) =~= text@);
                }
                if text.is_empty() {
                    return None;
                }
                return Some(acc);
            },
            Some((c, tail)) => {
                let ghost prefix = text@.subrange(0, done + 1);
                proof {
                    assert(prefix.drop_last() =~= text@.subrange(0, done));
                    lemma_digits_prefix(text@, done + 1);
                }
                let code: u32 = c as u32;
                if code < 48 || code > 57 {
                    return None;
                }
                let digit: usize = (code - 48) as usize;
                let shifted = acc.checked_mul(10)?;
                acc = shifted.checked_add(digit)?;
                proof {
                    done = done + 1;
                }
                rest = tail;
            },
        }
    }
}

/// Reads a boolean literal.
pub fn parse_boolean(text: &str) -> (value: Option<bool>)
    ensures
        value == boolean_value(text@),
{
    proof {
        reveal_strlit("true");
        reveal_strlit("false");
        assert("true"@ =~= seq!['t', 'r', 'u', 'e']);
        assert("false"@ =~= seq!['f', 'a', 'l', 's', 'e']);
    }
    if same_text(text, "true") {
        Some(true)
    } else if same_text(text, "false") {
        Some(false)
    } else {
        None
    }
}

/// Reads a string literal: takes the quotes off.
pub fn parse_string(text: &str) -> (value: Option<String>)
    ensures
        match string_value(text@) {
            Some(s) => value matches Some(v) && v@ == s,
            None => value is None,
        },
{
    let n = text.unicode_len();
    if n >= 2 {
        Some(String::from_str(text.substring_char(1, n - 1)))
    } else {
        None
    }
}

/// Reads the literal that a token of kind `kind` with text `text` writes.
pub fn parse_literal(kind: TokenKind, text: &str) -> (lit: Result<Lit, ParseErrorKind>)
    ensures
        match literal_value(kind, text@) {
            Ok(v) => lit matches Ok(l) && l@ == v,
            Err(e) => lit == Err::<Lit, _>(e),
        },
{
    match kind {
        TokenKind::Integer => match parse_integer(text) {
            Some(v) => Ok(Lit::Integer(v)),
            None => Err(ParseErrorKind::InvalidInteger),
        },
        TokenKind::Boolean => match parse_boolean(text) {
            Some(b) => Ok(Lit::Boolean(b)),
            None => Err(ParseErrorKind::InvalidBoolean),
        },
        _ => match parse_string(text) {
            Some(s) => Ok(Lit::String(s)),
            None => Err(ParseErrorKind::InvalidString),
        },
    }
}

impl<'a> Parser<'a> {
    /// Parses an expression.
    #[inline]
    pub fn expression(&mut self) -> (r: Result<Expr, ParseError<'a>>)
        requires
            old(self).wf(),
        ensures
            final(self).wf(),
            final(self).tokens() == old(self).tokens(),
            final(self).file() == old(self).file(),
            match parse_expr(old(self).tokens(), old(self).pos(), 0) {
                Ok(node) => r matches Ok(e) && e@ == node.value && final(self).pos() == node.next,
                Err(err) => r matches Err(e) && e@ == err && e.loc.file == old(self).file(),
            },
    {
        self.parse_expression(0)
    }

    /// Parses an expression whose operators all bind at least as tightly as
    /// `binding_power`.
    pub fn parse_expression(&mut self, binding_power: u8) -> (r: Result<Expr, ParseError<'a>>)
        requires
            old(self).wf(),
        ensures
            final(self).wf(),
            final(self).tokens() == old(self).tokens(),
            final(self).file() == old(self).file(),
            match parse_expr(old(self).tokens(), old(self).pos(), binding_power as nat) {
                Ok(node) => r matches Ok(e) && e@ == node.value && final(self).pos() == node.next,
                Err(err) => r matches Err(e) && e@ == err && e.loc.file == old(self).file(),
            },
        decreases old(self).tokens().len() - old(self).pos(), 2nat,
    {
        let ghost ts = self.tokens();
        let ghost start = self.pos();
        let ghost min_bp = binding_power as nat;
        proof {
            self.lemma_in_range();
            lemma_operand_advances(ts, start);
        }
        let mut lhs = self.parse_operand()?;
        loop
            invariant
                self.wf(),
                self.tokens() == ts,
                self.file() == old(self).file(),
                old(self).tokens() == ts,
                old(self).pos() == start,
                min_bp == binding_power as nat,
                start < self.pos() <= ts.len(),
                parse_operators(ts, self.pos(), min_bp, lhs@) == parse_expr(ts, start, min_bp),
            decreases ts.len() - self.pos(),
        {
            let op = self.peek();
            if op.ends_expression() {
                return Ok(lhs);
            }
            let ghost at_op = self.pos();
            match op.postfix_binding_power() {
                Some((left, _)) => {
                    if left < binding_power {
                        return Ok(lhs);
                    }
                    self.advance();
                    lhs = Expr::Postfix { op, expr: Box::new(lhs) };
                },
                None => match op.infix_binding_power() {
                    Some((left, right)) => {
                        if left < binding_power {
                            return Ok(lhs);
                        }
                        self.advance();
                        proof {
                            lemma_expr_advances(ts, at_op + 1, right as nat);
                        }
                        let rhs = self.parse_expression(right)?;
                        lhs = Expr::Infix { op, left: Box::new(lhs), right: Box::new(rhs) };
                    },
                    None => {
                        return Err(self.error(ParseErrorKind::UnknownOperator { found: op }));
                    },
                },
            }
        }
    }

    /// Parses the operand that an expression starts with.
    pub fn parse_operand(&mut self) -> (r: Result<Expr, ParseError<'a>>)
        requires
            old(self).wf(),
        ensures
            final(self).wf(),
            final(self).tokens() == old(self).tokens(),
            final(self).file() == old(self).file(),
            match parse_operand(old(self).tokens(), old(self).pos()) {
                Ok(node) => r matches Ok(e) && e@ == node.value && final(self).pos() == node.next,
                Err(err) => r matches Err(e) && e@ == err && e.loc.file == old(self).file(),
            },
        decreases old(self).tokens().len() - old(self).pos(), 1nat,
    {
        proof {
            self.lemma_in_range();
        }
        let kind = self.peek();
        match kind {
            TokenKind::Integer | TokenKind::Boolean | TokenKind::String => {
                let tok = self.current();
                match parse_literal(tok.kind, self.text(tok)) {
                    Ok(lit) => {
                        self.advance();
                        Ok(Expr::Literal(lit))
                    },
                    Err(kind) => Err(self.error(kind)),
                }
            },
            TokenKind::Identifier => {
                let tok = self.current();
                let name = String::from_str(self.text(tok));
                self.advance();
                if !self.at(TokenKind::OpenParen) {
                    Ok(Expr::Ident(name))
                } else {
                    self.advance();
                    let args = self.parse_arguments()?;
                    self.consume(TokenKind::ClosedParen)?;
                    proof {
                        lemma_call_view(name, args);
                    }
                    Ok(Expr::Call { name, args })
                }
            },
            TokenKind::OpenParen => {
                self.advance();
                let expr = self.parse_expression(0)?;
                self.consume(TokenKind::ClosedParen)?;
                Ok(expr)
            },
            TokenKind::Minus | TokenKind::Bang => {
                self.advance();
                let ((), right_binding_power) = kind.prefix_binding_power();
                let expr = self.parse_expression(right_binding_power)?;
                Ok(Expr::Prefix { op: kind, expr: Box::new(expr) })
            },
            _ => Err(self.error(ParseErrorKind::UnknownExpressionStart { found: kind })),
        }
    }

    /// Parses the arguments of a call, up to the closing parenthesis, which
    /// stays.
    pub fn parse_arguments(&mut self) -> (r: Result<Vec<Box<Expr>>, ParseError<'a>>)
        requires
            old(self).wf(),
        ensures
            final(self).wf(),
            final(self).tokens() == old(self).tokens(),
            final(self).file() == old(self).file(),
            match parse_arguments(old(self).tokens(), old(self).pos(), Seq::empty()) {
                Ok(node) => {
                    &&& r matches Ok(args)
                    &&& exprs_view(args@) == node.value
                    &&& final(self).pos() == node.next
                },
                Err(err) => r matches Err(e) && e@ == err && e.loc.file == old(self).file(),
            },
        decreases old(self).tokens().len() - old(self).pos(), 3nat,
    {
        let ghost ts = self.tokens();
        let ghost start = self.pos();
        let mut args: Vec<Box<Expr>> = Vec::new();
        proof {
            self.lemma_in_range();
            assert(exprs_view(args@) =~= Seq::<ExprView>::empty());
        }
        loop
            invariant
                self.wf(),
                self.tokens() == ts,
                self.file() == old(self).file(),
                old(self).tokens() == ts,
                old(self).pos() == start,
                start <= self.pos() <= ts.len(),
                parse_arguments(ts, self.pos(), exprs_view(args@)) == parse_arguments(
                    ts,
                    start,
                    Seq::empty(),
                ),
            decreases ts.len() - self.pos(),
        {
            if self.at(TokenKind::ClosedParen) {
                return Ok(args);
            }
            let ghost at_arg = self.pos();
            let ghost before = exprs_view(args@);
            proof {
                lemma_expr_advances(ts, at_arg, 0);
            }
            let arg = self.parse_expression(0)?;
            args.push(Box::new(arg));
            proof {
                assert(exprs_view(args@) =~= before.push(arg@));
            }
            if self.at(TokenKind::Comma) {
                self.advance();
            }
        }
    }
}

} // verus!
