//! The rule table of the lexer, and how a single rule is tried against
//! the input.

use super::token::TokenKind;
use super::utf8::{
    byte_len, byte_skip, byte_take, char_width, lemma_encode_concat, lemma_prefix, on_boundary,
    split_prefix, utf8_len,
};
use regex::Regex;
use vstd::prelude::*;
use vstd::string::*;

verus! {

/// How a rule recognises its token at the start of the input.
#[derive(Debug, Copy, Clone)]
pub enum Matcher {
    /// One given character.
    One(char),
    /// Two given characters in a row.
    Two(char, char),
    /// A given word.
    Word(&'static str),
    /// A regular expression, anchored at the start.
    Pattern(&'static str),
}

/// A lexer rule: the kind of token it yields and how it matches.
#[derive(Debug, Copy, Clone)]
pub struct Rule {
    pub kind: TokenKind,
    pub matcher: Matcher,
}

/// A matcher as the contracts see it: literal text to find at the start of
/// the input, or the source of a regular expression.
pub enum MatcherView {
    Literal(Seq<char>),
    Pattern(Seq<char>),
}

pub struct RuleView {
    pub kind: TokenKind,
    pub matcher: MatcherView,
}

impl View for Matcher {
    type V = MatcherView;

    open spec fn view(&self) -> MatcherView {
        match *self {
            Matcher::One(c) => MatcherView::Literal(seq![c]),
            Matcher::Two(a, b) => MatcherView::Literal(seq![a, b]),
            Matcher::Word(w) => MatcherView::Literal(w@),
            Matcher::Pattern(p) => MatcherView::Pattern(p@),
        }
    }
}

impl View for Rule {
    type V = RuleView;

    open spec fn view(&self) -> RuleView {
        RuleView { kind: self.kind, matcher: self.matcher@ }
    }
}

/// Whether `s` begins with `w`.
pub open spec fn starts_with(s: Seq<char>, w: Seq<char>) -> bool {
    w.len() <= s.len() && s.subrange(0, w.len() as int) == w
}

/// The byte offset at which the leftmost match of the regular expression
/// `pattern` in `haystack` ends, if there is a match.
pub uninterp spec fn regex_match_end(pattern: Seq<char>, haystack: Seq<char>) -> Option<usize>;

/// What a matcher reports on input `s`: the length in bytes of what it
/// found there, before any check on that length.
pub open spec fn raw_match(m: MatcherView, s: Seq<char>) -> Option<nat> {
    match m {
        MatcherView::Literal(w) => if starts_with(s, w) {
            Some(utf8_len(w))
        } else {
            None
        },
        MatcherView::Pattern(p) => len_of(regex_match_end(p, s)),
    }
}

/// The length in bytes of the match of `m` on `s`. A match counts only if
/// it spans at least one byte and ends between two characters, so that a
/// token is never empty and never cuts a character in half.
pub open spec fn rule_match(m: MatcherView, s: Seq<char>) -> Option<nat> {
    match raw_match(m, s) {
        Some(n) => if n >= 1 && on_boundary(s, n as int) {
            Some(n)
        } else {
            None
        },
        None => None,
    }
}

/// A length in bytes as a natural number.
pub open spec fn len_of(r: Option<usize>) -> Option<nat> {
    match r {
        Some(n) => Some(n as nat),
        None => None,
    }
}

/// A literal that the input starts with ends on a boundary of the input.
pub proof fn lemma_literal_boundary(s: Seq<char>, w: Seq<char>)
    requires
        starts_with(s, w),
    ensures
        on_boundary(s, utf8_len(w) as int),
        byte_take(s, utf8_len(w) as int) == w,
        byte_skip(s, utf8_len(w) as int) == s.subrange(w.len() as int, s.len() as int),
{
    let rest = s.subrange(w.len() as int, s.len() as int);
    assert(s =~= w + rest);
    lemma_prefix(w, rest);
}

/// Takes the first character off `input`.
pub fn split_first<'a>(input: &'a str) -> (r: Option<(char, &'a str)>)
    ensures
        r is None <==> input@.len() == 0,
        r matches Some((c, rest)) ==> {
            &&& c == input@[0]
            &&& rest@ == input@.drop_first()
            &&& utf8_len(input@) == utf8_len(seq![c]) + utf8_len(rest@)
        },
{
    if input.is_empty() {
        None
    } else {
        let c = input.get_char(0);
        let w = char_width(c);
        proof {
            assert(input@ =~= seq![c] + input@.drop_first());
            lemma_prefix(seq![c], input@.drop_first());
        }
        let (_, rest) = split_prefix(input, w);
        Some((c, rest))
    }
}

/// Matches the single character `c` at the start of `input`.
pub fn match_one(input: &str, c: char) -> (r: Option<usize>)
    ensures
        len_of(r) == raw_match(MatcherView::Literal(seq![c]), input@),
{
    match split_first(input) {
        Some((first, _)) => {
            if first == c {
                assert(input@.subrange(0, 1) =~= seq![c]);
                Some(char_width(c))
            } else {
                None
            }
        },
        None => None,
    }
}

/// Matches the characters `a` and `b`, in this order, at the start of
/// `input`.
pub fn match_two(input: &str, a: char, b: char) -> (r: Option<usize>)
    ensures
        len_of(r) == raw_match(MatcherView::Literal(seq![a, b]), input@),
{
    let ghost w = seq![a, b];
    proof {
        assert(w =~= seq![a] + seq![b]);
        lemma_encode_concat(seq![a], seq![b]);
    }
    match split_first(input) {
        Some((first, rest)) => {
            match split_first(rest) {
                Some((second, _)) => {
                    if first == a && second == b {
                        assert(input@.subrange(0, 2) =~= w);
                        Some(char_width(a) + char_width(b))
                    } else {
                        None
                    }
                },
                None => None,
            }
        },
        None => None,
    }
}

/// Matches `word` at the start of `input`.
pub fn match_word(input: &str, word: &str) -> (r: Option<usize>)
    ensures
        len_of(r) == raw_match(MatcherView::Literal(word@), input@),
{
    let mut rest = input;
    let mut left = word;
    let ghost mut done: int = 0;
    loop
        invariant
            0 <= done <= word@.len(),
            done <= input@.len(),
            input@.subrange(0, done) == word@.subrange(0, done),
            rest@ == input@.subrange(done, input@.len() as int),
            left@ == word@.subrange(done, word@.len() as int),
        decreases word@.len() - done,
    {
        match split_first(left) {
            None => {
                assert(input@.subrange(0, word@.len() as int) =~= word@);
                return Some(byte_len(word));
            },
            Some((c, left_tail)) => {
                match split_first(rest) {
                    None => {
                        return None;
                    },
                    Some((d, rest_tail)) => {
                        if c != d {
                            return None;
                        }
                        proof {
                            done = done + 1;
                        }
                        rest = rest_tail;
                        left = left_tail;
                    },
                }
            },
        }
    }
}

/// Searches `input` for the regular expression `pattern`: compiles it with
/// `regex::Regex::new`, runs `Regex::find`, and hands back `Match::end` of
/// the match found. The contract names that result and adds what the
/// crate documents of every match: its end is a byte offset into the
/// haystack that falls between two characters. A pattern that does not
/// compile matches nothing.
#[verifier::external_body]
fn match_regex(input: &str, pattern: &str) -> (end: Option<usize>)
    ensures
        end == regex_match_end(pattern@, input@),
        end matches Some(n) ==> on_boundary(input@, n as int),
{
    match Regex::new(pattern) {
        Ok(re) => match re.find(input) {
            Some(found) => Some(found.end()),
            None => None,
        },
        Err(_) => None,
    }
}

/// Identifiers: a letter or underscore, then letters, digits, underscores.
pub const IDENTIFIER_PATTERN: &'static str = "^[A-Za-z_][A-Za-z_0-9]*";

/// String literals: double-quoted, with `\"` and `\\` as escapes; the
/// quotes belong to the match.
pub const STRING_PATTERN: &'static str = r#"^"(\\"|\\\\|[^\\"])*""#;

/// Integer literals: octal, binary and hexadecimal with their prefixes,
/// or plain decimal digits.
pub const INTEGER_PATTERN: &'static str = "^(0o[0-7]+|0b[01]+|0x[0-9A-Fa-f]+|[0-9]+)";

/// The rules of the language, in the order in which they are defined. Of
/// two rules that match the same length, the one defined later wins: the
/// identifier rule comes first, so that a keyword or a boolean literal is
/// never taken for an identifier of the same spelling.
pub open spec fn rule_table() -> Seq<RuleView> {
    seq![
        RuleView {
            kind: TokenKind::Identifier,
            matcher: MatcherView::Pattern(IDENTIFIER_PATTERN@),
        },
        RuleView { kind: TokenKind::String, matcher: MatcherView::Pattern(STRING_PATTERN@) },
        RuleView { kind: TokenKind::Integer, matcher: MatcherView::Pattern(INTEGER_PATTERN@) },
        RuleView { kind: TokenKind::Plus, matcher: MatcherView::Literal(seq!['+']) },
        RuleView { kind: TokenKind::Minus, matcher: MatcherView::Literal(seq!['-']) },
        RuleView { kind: TokenKind::Asterisk, matcher: MatcherView::Literal(seq!['*']) },
        RuleView { kind: TokenKind::Slash, matcher: MatcherView::Literal(seq!['/']) },
        RuleView { kind: TokenKind::Percent, matcher: MatcherView::Literal(seq!['%']) },
        RuleView { kind: TokenKind::And, matcher: MatcherView::Literal(seq!['&']) },
        RuleView { kind: TokenKind::Pipe, matcher: MatcherView::Literal(seq!['|']) },
        RuleView { kind: TokenKind::Caret, matcher: MatcherView::Literal(seq!['^']) },
        RuleView { kind: TokenKind::Bang, matcher: MatcherView::Literal(seq!['!']) },
        RuleView { kind: TokenKind::Tilde, matcher: MatcherView::Literal(seq!['~']) },
        RuleView { kind: TokenKind::Assign, matcher: MatcherView::Literal(seq!['=']) },
        RuleView { kind: TokenKind::Dot, matcher: MatcherView::Literal(seq!['.']) },
        RuleView { kind: TokenKind::Comma, matcher: MatcherView::Literal(seq![',']) },
        RuleView { kind: TokenKind::Colon, matcher: MatcherView::Literal(seq![':']) },
        RuleView { kind: TokenKind::SemiColon, matcher: MatcherView::Literal(seq![';']) },
        RuleView { kind: TokenKind::OpenParen, matcher: MatcherView::Literal(seq!['(']) },
        RuleView { kind: TokenKind::ClosedParen, matcher: MatcherView::Literal(seq![')']) },
        RuleView { kind: TokenKind::OpenBrace, matcher: MatcherView::Literal(seq!['{']) },
        RuleView { kind: TokenKind::ClosedBrace, matcher: MatcherView::Literal(seq!['}']) },
        RuleView { kind: TokenKind::LessThan, matcher: MatcherView::Literal(seq!['<']) },
        RuleView { kind: TokenKind::GreaterThan, matcher: MatcherView::Literal(seq!['>']) },
        RuleView { kind: TokenKind::Equal, matcher: MatcherView::Literal(seq!['=', '=']) },
        RuleView { kind: TokenKind::UnEqual, matcher: MatcherView::Literal(seq!['!', '=']) },
        RuleView { kind: TokenKind::LessEqual, matcher: MatcherView::Literal(seq!['<', '=']) },
        RuleView { kind: TokenKind::GreaterEqual, matcher: MatcherView::Literal(seq!['>', '=']) },
        RuleView { kind: TokenKind::Struct, matcher: MatcherView::Literal("struct"@) },
        RuleView { kind: TokenKind::Function, matcher: MatcherView::Literal("fn"@) },
        RuleView { kind: TokenKind::Let, matcher: MatcherView::Literal("let"@) },
        RuleView { kind: TokenKind::If, matcher: MatcherView::Literal("if"@) },
        RuleView { kind: TokenKind::Else, matcher: MatcherView::Literal("else"@) },
        RuleView { kind: TokenKind::For, matcher: MatcherView::Literal("for"@) },
        RuleView { kind: TokenKind::Loop, matcher: MatcherView::Literal("loop"@) },
        RuleView { kind: TokenKind::Break, matcher: MatcherView::Literal("break"@) },
        RuleView { kind: TokenKind::Continue, matcher: MatcherView::Literal("continue"@) },
        RuleView { kind: TokenKind::Return, matcher: MatcherView::Literal("return"@) },
        RuleView { kind: TokenKind::Inline, matcher: MatcherView::Literal("inline"@) },
        RuleView { kind: TokenKind::Boolean, matcher: MatcherView::Literal("true"@) },
        RuleView { kind: TokenKind::Boolean, matcher: MatcherView::Literal("false"@) },
    ]
}

/// The views of a list of rules.
pub open spec fn rules_view(rules: Seq<Rule>) -> Seq<RuleView> {
    Seq::new(rules.len(), |i: int| rules[i]@)
}

/// Builds the rule table.
pub fn get_rules() -> (rules: Vec<Rule>)
    ensures
        rules_view(rules@) == rule_table(),
{
    let mut rules: Vec<Rule> = Vec::new();
    rules.push(Rule { kind: TokenKind::Identifier, matcher: Matcher::Pattern(IDENTIFIER_PATTERN) });
    rules.push(Rule { kind: TokenKind::String, matcher: Matcher::Pattern(STRING_PATTERN) });
    rules.push(Rule { kind: TokenKind::Integer, matcher: Matcher::Pattern(INTEGER_PATTERN) });
    rules.push(Rule { kind: TokenKind::Plus, matcher: Matcher::One('+') });
    rules.push(Rule { kind: TokenKind::Minus, matcher: Matcher::One('-') });
    rules.push(Rule { kind: TokenKind::Asterisk, matcher: Matcher::One('*') });
    rules.push(Rule { kind: TokenKind::Slash, matcher: Matcher::One('/') });
    rules.push(Rule { kind: TokenKind::Percent, matcher: Matcher::One('%') });
    rules.push(Rule { kind: TokenKind::And, matcher: Matcher::One('&') });
    rules.push(Rule { kind: TokenKind::Pipe, matcher: Matcher::One('|') });
    rules.push(Rule { kind: TokenKind::Caret, matcher: Matcher::One('^') });
    rules.push(Rule { kind: TokenKind::Bang, matcher: Matcher::One('!') });
    rules.push(Rule { kind: TokenKind::Tilde, matcher: Matcher::One('~') });
    rules.push(Rule { kind: TokenKind::Assign, matcher: Matcher::One('=') });
    rules.push(Rule { kind: TokenKind::Dot, matcher: Matcher::One('.') });
    rules.push(Rule { kind: TokenKind::Comma, matcher: Matcher::One(',') });
    rules.push(Rule { kind: TokenKind::Colon, matcher: Matcher::One(':') });
    rules.push(Rule { kind: TokenKind::SemiColon, matcher: Matcher::One(';') });
    rules.push(Rule { kind: TokenKind::OpenParen, matcher: Matcher::One('(') });
    rules.push(Rule { kind: TokenKind::ClosedParen, matcher: Matcher::One(')') });
    rules.push(Rule { kind: TokenKind::OpenBrace, matcher: Matcher::One('{') });
    rules.push(Rule { kind: TokenKind::ClosedBrace, matcher: Matcher::One('}') });
    rules.push(Rule { kind: TokenKind::LessThan, matcher: Matcher::One('<') });
    rules.push(Rule { kind: TokenKind::GreaterThan, matcher: Matcher::One('>') });
    rules.push(Rule { kind: TokenKind::Equal, matcher: Matcher::Two('=', '=') });
    rules.push(Rule { kind: TokenKind::UnEqual, matcher: Matcher::Two('!', '=') });
    rules.push(Rule { kind: TokenKind::LessEqual, matcher: Matcher::Two('<', '=') });
    rules.push(Rule { kind: TokenKind::GreaterEqual, matcher: Matcher::Two('>', '=') });
    rules.push(Rule { kind: TokenKind::Struct, matcher: Matcher::Word("struct") });
    rules.push(Rule { kind: TokenKind::Function, matcher: Matcher::Word("fn") });
    rules.push(Rule { kind: TokenKind::Let, matcher: Matcher::Word("let") });
    rules.push(Rule { kind: TokenKind::If, matcher: Matcher::Word("if") });
    rules.push(Rule { kind: TokenKind::Else, matcher: Matcher::Word("else") });
    rules.push(Rule { kind: TokenKind::For, matcher: Matcher::Word("for") });
    rules.push(Rule { kind: TokenKind::Loop, matcher: Matcher::Word("loop") });
    rules.push(Rule { kind: TokenKind::Break, matcher: Matcher::Word("break") });
    rules.push(Rule { kind: TokenKind::Continue, matcher: Matcher::Word("continue") });
    rules.push(Rule { kind: TokenKind::Return, matcher: Matcher::Word("return") });
    rules.push(Rule { kind: TokenKind::Inline, matcher: Matcher::Word("inline") });
    rules.push(Rule { kind: TokenKind::Boolean, matcher: Matcher::Word("true") });
    rules.push(Rule { kind: TokenKind::Boolean, matcher: Matcher::Word("false") });
    rules
}

impl Rule {
    /// Tries this rule at the start of `input` and gives the length in
    /// bytes of its match.
    pub fn matches(&self, input: &str) -> (r: Option<usize>)
        ensures
            len_of(r) == rule_match(self.matcher@, input@),
    {
        let raw = match self.matcher {
            Matcher::One(c) => match_one(input, c),
            Matcher::Two(a, b) => match_two(input, a, b),
            Matcher::Word(w) => match_word(input, w),
            Matcher::Pattern(p) => match_regex(input, p),
        };
        proof {
            if let MatcherView::Literal(w) = self.matcher@ {
                if starts_with(input@, w) {
                    lemma_literal_boundary(input@, w);
                }
            }
        }
        match raw {
            Some(n) => if n >= 1 {
                Some(n)
            } else {
                None
            },
            None => None,
        }
    }
}

} // verus!
