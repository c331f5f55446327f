//! Tokens and their kinds.

use super::Location;
use vstd::prelude::*;

verus! {

/// The closed set of token kinds.
#[derive(Debug, Hash, Copy, Clone, PartialEq, Eq, Structural)]
pub enum TokenKind {
    // Literals
    Identifier,
    String,
    Integer,
    Boolean,
    // Arithmetic
    Plus,
    Minus,
    Asterisk,
    Slash,
    Percent,
    And,
    Pipe,
    Caret,
    Bang,
    Tilde,
    Assign,
    // Comparison
    Equal,
    UnEqual,
    LessThan,
    GreaterThan,
    LessEqual,
    GreaterEqual,
    // Punctuation
    Dot,
    Comma,
    Colon,
    SemiColon,
    OpenParen,
    ClosedParen,
    OpenBrace,
    ClosedBrace,
    // Keywords
    Struct,
    Function,
    Let,
    If,
    Else,
    For,
    Loop,
    Break,
    Continue,
    Return,
    // Extension keywords
    Inline,
    // End of input; never the kind of a token, only what a parser sees
    // when it looks past the last one.
    Eof,
}

/// The name of a token kind, as it is written in this enumeration.
pub open spec fn kind_name(kind: TokenKind) -> Seq<char> {
    match kind {
        TokenKind::Identifier => "Identifier"@,
        TokenKind::String => "String"@,
        TokenKind::Integer => "Integer"@,
        TokenKind::Boolean => "Boolean"@,
        TokenKind::Plus => "Plus"@,
        TokenKind::Minus => "Minus"@,
        TokenKind::Asterisk => "Asterisk"@,
        TokenKind::Slash => "Slash"@,
        TokenKind::Percent => "Percent"@,
        TokenKind::And => "And"@,
        TokenKind::Pipe => "Pipe"@,
        TokenKind::Caret => "Caret"@,
        TokenKind::Bang => "Bang"@,
        TokenKind::Tilde => "Tilde"@,
        TokenKind::Assign => "Assign"@,
        TokenKind::Equal => "Equal"@,
        TokenKind::UnEqual => "UnEqual"@,
        TokenKind::LessThan => "LessThan"@,
        TokenKind::GreaterThan => "GreaterThan"@,
        TokenKind::LessEqual => "LessEqual"@,
        TokenKind::GreaterEqual => "GreaterEqual"@,
        TokenKind::Dot => "Dot"@,
        TokenKind::Comma => "Comma"@,
        TokenKind::Colon => "Colon"@,
        TokenKind::SemiColon => "SemiColon"@,
        TokenKind::OpenParen => "OpenParen"@,
        TokenKind::ClosedParen => "ClosedParen"@,
        TokenKind::OpenBrace => "OpenBrace"@,
        TokenKind::ClosedBrace => "ClosedBrace"@,
        TokenKind::Struct => "Struct"@,
        TokenKind::Function => "Function"@,
        TokenKind::Let => "Let"@,
        TokenKind::If => "If"@,
        TokenKind::Else => "Else"@,
        TokenKind::For => "For"@,
        TokenKind::Loop => "Loop"@,
        TokenKind::Break => "Break"@,
        TokenKind::Continue => "Continue"@,
        TokenKind::Return => "Return"@,
        TokenKind::Inline => "Inline"@,
        TokenKind::Eof => "Eof"@,
    }
}

impl TokenKind {
    /// The name of this kind.
    pub fn name(&self) -> (name: &'static str)
        ensures
            name@ == kind_name(*self),
    {
        match self {
            TokenKind::Identifier => "Identifier",
            TokenKind::String => "String",
            TokenKind::Integer => "Integer",
            TokenKind::Boolean => "Boolean",
            TokenKind::Plus => "Plus",
            TokenKind::Minus => "Minus",
            TokenKind::Asterisk => "Asterisk",
            TokenKind::Slash => "Slash",
            TokenKind::Percent => "Percent",
            TokenKind::And => "And",
            TokenKind::Pipe => "Pipe",
            TokenKind::Caret => "Caret",
            TokenKind::Bang => "Bang",
            TokenKind::Tilde => "Tilde",
            TokenKind::Assign => "Assign",
            TokenKind::Equal => "Equal",
            TokenKind::UnEqual => "UnEqual",
            TokenKind::LessThan => "LessThan",
            TokenKind::GreaterThan => "GreaterThan",
            TokenKind::LessEqual => "LessEqual",
            TokenKind::GreaterEqual => "GreaterEqual",
            TokenKind::Dot => "Dot",
            TokenKind::Comma => "Comma",
            TokenKind::Colon => "Colon",
            TokenKind::SemiColon => "SemiColon",
            TokenKind::OpenParen => "OpenParen",
            TokenKind::ClosedParen => "ClosedParen",
            TokenKind::OpenBrace => "OpenBrace",
            TokenKind::ClosedBrace => "ClosedBrace",
            TokenKind::Struct => "Struct",
            TokenKind::Function => "Function",
            TokenKind::Let => "Let",
            TokenKind::If => "If",
            TokenKind::Else => "Else",
            TokenKind::For => "For",
            TokenKind::Loop => "Loop",
            TokenKind::Break => "Break",
            TokenKind::Continue => "Continue",
            TokenKind::Return => "Return",
            TokenKind::Inline => "Inline",
            TokenKind::Eof => "Eof",
        }
    }
}

/// A token: its kind, the exact slice of the source it spans, and where
/// that slice starts.
#[derive(Debug, Copy, Clone)]
pub struct Token<'a> {
    pub kind: TokenKind,
    pub text: &'a str,
    pub loc: Location<'a>,
}

/// What a token is to the parser: kind, text as characters, and the line
/// and column of its first character.
pub struct TokenView {
    pub kind: TokenKind,
    pub text: Seq<char>,
    pub line: nat,
    pub col: nat,
}

impl<'a> View for Token<'a> {
    type V = TokenView;

    open spec fn view(&self) -> TokenView {
        TokenView {
            kind: self.kind,
            text: self.text@,
            line: self.loc.line as nat,
            col: self.loc.col as nat,
        }
    }
}

impl<'a> Token<'a> {
    pub fn new(kind: TokenKind, text: &'a str, loc: Location<'a>) -> (tok: Self)
        ensures
            tok.kind == kind,
            tok.text == text,
            tok.loc == loc,
    {
        Self { kind, text, loc }
    }
}

} // verus!
