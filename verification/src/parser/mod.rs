//! The parser: tokens to syntax tree.

pub mod ast;
pub mod expressions;
pub mod grammar;
pub mod hierarchy;
pub mod laws;
pub mod print;

use crate::lexer::rules::split_first;
use crate::lexer::token::{kind_name, Token, TokenKind, TokenView};
use crate::lexer::utf8::{byte_len, utf8_len};
use crate::lexer::{location_text, start_cursor, token_stream, tokenize, tokens_view, Location};
use grammar::{error_at, expect, peek_kind, ParseErrorKind, ParseErrorView};
use vstd::prelude::*;
use vstd::string::*;

verus! {

/// A syntax error: what went wrong, and where.
#[derive(Debug, Copy, Clone)]
pub struct ParseError<'a> {
    pub kind: ParseErrorKind,
    pub loc: Location<'a>,
}

impl<'a> View for ParseError<'a> {
    type V = ParseErrorView;

    open spec fn view(&self) -> ParseErrorView {
        ParseErrorView { kind: self.kind, line: self.loc.line as nat, col: self.loc.col as nat }
    }
}

/// What an error of kind `kind` says.
pub open spec fn kind_message(kind: ParseErrorKind) -> Seq<char> {
    match kind {
        ParseErrorKind::UnexpectedEof => "unexpected end of file"@,
        ParseErrorKind::Expected { expected, found } => "expected "@ + kind_name(expected)
            + " but got "@ + kind_name(found),
        ParseErrorKind::UnknownExpressionStart { found } => "unknown start of expression: "@
            + kind_name(found),
        ParseErrorKind::UnknownOperator { found } => "unknown operator: "@ + kind_name(found),
        ParseErrorKind::UnknownDeclarationStart { found } => "unknown start of declaration: "@
            + kind_name(found),
        ParseErrorKind::ExpectedBlock { found } => {
            "expected a block after function header but got "@ + kind_name(found)
        },
        ParseErrorKind::ExpectedBlockOrIf { found } => {
            "expected a block or an `if` after `else` but got "@ + kind_name(found)
        },
        ParseErrorKind::InvalidInteger => "invalid integer literal"@,
        ParseErrorKind::InvalidBoolean => "invalid bool literal"@,
        ParseErrorKind::InvalidString => "invalid string literal"@,
    }
}

impl ParseErrorKind {
    /// What an error of this kind says.
    pub fn message(&self) -> (text: String)
        ensures
            text@ == kind_message(*self),
    {
        match self {
            ParseErrorKind::UnexpectedEof => String::from_str("unexpected end of file"),
            ParseErrorKind::Expected { expected, found } => {
                let mut text = String::from_str("expected ");
                text.append(expected.name());
                text.append(" but got ");
                text.append(found.name());
                text
            },
            ParseErrorKind::UnknownExpressionStart { found } => {
                let mut text = String::from_str("unknown start of expression: ");
                text.append(found.name());
                text
            },
            ParseErrorKind::UnknownOperator { found } => {
                let mut text = String::from_str("unknown operator: ");
                text.append(found.name());
                text
            },
            ParseErrorKind::UnknownDeclarationStart { found } => {
                let mut text = String::from_str("unknown start of declaration: ");
                text.append(found.name());
                text
            },
            ParseErrorKind::ExpectedBlock { found } => {
                let mut text = String::from_str("expected a block after function header but got ");
                text.append(found.name());
                text
            },
            ParseErrorKind::ExpectedBlockOrIf { found } => {
                let mut text = String::from_str(
                    "expected a block or an `if` after `else` but got ",
                );
                text.append(found.name());
                text
            },
            ParseErrorKind::InvalidInteger => String::from_str("invalid integer literal"),
            ParseErrorKind::InvalidBoolean => String::from_str("invalid bool literal"),
            ParseErrorKind::InvalidString => String::from_str("invalid string literal"),
        }
    }
}

impl<'a> ParseError<'a> {
    /// The diagnostic of this error: `file:line:col: message`.
    pub fn to_text(&self) -> (text: String)
        ensures
            text@ == location_text(self.loc.file@, self.loc.line as nat, self.loc.col as nat)
                + seq![':', ' '] + kind_message(self.kind),
    {
        proof {
            reveal_strlit(": ");
        }
        let mut text = self.loc.to_text();
        text.append(": ");
        text.append(self.kind.message().as_str());
        text
    }
}

/// A parser over the tokens of one source text.
pub struct Parser<'a> {
    tokens: Vec<Token<'a>>,
    pos: usize,
    file: &'a str,
}

impl<'a> Parser<'a> {
    /// The tokens of the source text.
    pub closed spec fn tokens(&self) -> Seq<TokenView> {
        tokens_view(self.tokens@)
    }

    /// The position of the next token to read.
    pub closed spec fn pos(&self) -> nat {
        self.pos as nat
    }

    /// The name of the file being parsed.
    pub closed spec fn file(&self) -> &'a str {
        self.file
    }

    /// The parser stands within its tokens, and the end of each token can
    /// be told in columns.
    pub closed spec fn wf(&self) -> bool {
        &&& self.pos <= self.tokens.len()
        &&& forall|i: int|
            0 <= i < self.tokens.len() ==> (#[trigger] self.tokens[i]).loc.file == self.file
                && self.tokens[i].loc.col + utf8_len(self.tokens[i].text@) <= usize::MAX
    }

    /// A parser never stands past the end of its tokens.
    pub proof fn lemma_in_range(&self)
        requires
            self.wf(),
        ensures
            self.pos() <= self.tokens().len(),
    {
    }

    /// A parser at the first token of `input`.
    pub fn new(file: &'a str, input: &'a str) -> (parser: Self)
        requires
            utf8_len(input@) < usize::MAX,
        ensures
            parser.wf(),
            parser.file() == file,
            parser.tokens() == token_stream(start_cursor(input@)),
            parser.pos() == 0,
    {
        Self { tokens: tokenize(file, input), pos: 0, file }
    }

    /// The text of a token.
    #[inline]
    pub fn text(&self, token: Token<'a>) -> (text: &'a str)
        ensures
            text == token.text,
    {
        token.text
    }

    /// The kind of the next token; `Eof` behind the last one.
    #[inline]
    pub fn peek(&self) -> (kind: TokenKind)
        requires
            self.wf(),
        ensures
            kind == peek_kind(self.tokens(), self.pos()),
    {
        if self.pos < self.tokens.len() {
            self.tokens[self.pos].kind
        } else {
            TokenKind::Eof
        }
    }

    /// Whether the next token is of kind `kind`.
    #[inline]
    pub fn at(&self, kind: TokenKind) -> (yes: bool)
        requires
            self.wf(),
        ensures
            yes == (peek_kind(self.tokens(), self.pos()) == kind),
    {
        self.peek() == kind
    }

    /// Takes the next token, if there is one.
    #[inline]
    pub fn next(&mut self) -> (tok: Option<Token<'a>>)
        requires
            old(self).wf(),
        ensures
            final(self).wf(),
            final(self).tokens() == old(self).tokens(),
            final(self).file() == old(self).file(),
            match tok {
                Some(t) => {
                    &&& old(self).pos() < old(self).tokens().len()
                    &&& t@ == old(self).tokens()[old(self).pos() as int]
                    &&& final(self).pos() == old(self).pos() + 1
                },
                None => {
                    &&& old(self).pos() >= old(self).tokens().len()
                    &&& final(self).pos() == old(self).pos()
                },
            },
    {
        if self.pos < self.tokens.len() {
            let tok = self.tokens[self.pos];
            self.pos = self.pos + 1;
            Some(tok)
        } else {
            None
        }
    }

    /// Whether all tokens have been read.
    #[inline]
    pub fn at_end(&self) -> (yes: bool)
        requires
            self.wf(),
        ensures
            yes == (self.pos() >= self.tokens().len()),
    {
        self.pos >= self.tokens.len()
    }

    /// The next token, which stays where it is.
    #[inline]
    pub fn current(&self) -> (tok: Token<'a>)
        requires
            self.wf(),
            self.pos() < self.tokens().len(),
        ensures
            tok@ == self.tokens()[self.pos() as int],
    {
        self.tokens[self.pos]
    }

    /// Steps over the next token.
    #[inline]
    pub fn advance(&mut self)
        requires
            old(self).wf(),
            old(self).pos() < old(self).tokens().len(),
        ensures
            final(self).wf(),
            final(self).tokens() == old(self).tokens(),
            final(self).file() == old(self).file(),
            final(self).pos() == old(self).pos() + 1,
    {
        self.pos = self.pos + 1;
    }

    /// An error of kind `kind` at the next token or, behind the last token,
    /// at the end of the last token.
    pub fn error(&self, kind: ParseErrorKind) -> (e: ParseError<'a>)
        requires
            self.wf(),
        ensures
            e@ == error_at(self.tokens(), self.pos(), kind),
            e.loc.file == self.file(),
    {
        if self.pos < self.tokens.len() {
            ParseError { kind, loc: self.tokens[self.pos].loc }
        } else if self.tokens.len() == 0 {
            ParseError { kind, loc: Location { file: self.file, line: 1, col: 1 } }
        } else {
            let last = self.tokens[self.tokens.len() - 1];
            ParseError {
                kind,
                loc: Location {
                    file: self.file,
                    line: last.loc.line,
                    col: last.loc.col + byte_len(last.text),
                },
            }
        }
    }

    /// Takes the next token, which must be of kind `expected`.
    pub fn consume(&mut self, expected: TokenKind) -> (r: Result<(), ParseError<'a>>)
        requires
            old(self).wf(),
        ensures
            final(self).wf(),
            final(self).tokens() == old(self).tokens(),
            final(self).file() == old(self).file(),
            match expect(old(self).tokens(), old(self).pos(), expected) {
                Ok(next) => r is Ok && final(self).pos() == next,
                Err(e) => r matches Err(err) && err@ == e && err.loc.file == old(self).file(),
            },
    {
        if self.pos >= self.tokens.len() {
            Err(self.error(ParseErrorKind::UnexpectedEof))
        } else {
            let found = self.tokens[self.pos].kind;
            if found != expected {
                Err(self.error(ParseErrorKind::Expected { expected, found }))
            } else {
                self.pos = self.pos + 1;
                Ok(())
            }
        }
    }
}

/// Whether two texts are the same.
pub fn same_text(a: &str, b: &str) -> (same: bool)
    ensures
        same == (a@ == b@),
{
    let mut left = a;
    let mut right = b;
    let ghost mut done: int = 0;
    loop
        invariant
            0 <= done <= a@.len(),
            done <= b@.len(),
            a@.subrange(0, done) == b@.subrange(0, done),
            left@ == a@.subrange(done, a@.len() as int),
            right@ == b@.subrange(done, b@.len() as int),
        decreases a@.len() - done,
    {
        match split_first(left) {
            None => {
                match split_first(right) {
                    None => {
                        proof {
                            assert(a@.subrange(0, done) =~= a@);
                            assert(b@.subrange(0, done) =~= b@);
                        }
                        return true;
                    },
                    Some(_) => {
                        return false;
                    },
                }
            },
            Some((c, left_tail)) => {
                match split_first(right) {
                    None => {
                        return false;
                    },
                    Some((d, right_tail)) => {
                        if c != d {
                            return false;
                        }
                        proof {
                            assert(a@.subrange(0, done + 1) =~= a@.subrange(0, done).push(c));
                            assert(b@.subrange(0, done + 1) =~= b@.subrange(0, done).push(d));
                            done = done + 1;
                        }
                        left = left_tail;
                        right = right_tail;
                    },
                }
            },
        }
    }
}

} // verus!
