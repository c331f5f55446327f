//! The lexer: longest-match tokenisation of UTF-8 source text.

pub mod rules;
pub mod token;
pub mod utf8;

use crate::format::{decimal_text, push_decimal};
use rules::{
    get_rules, lemma_literal_boundary, len_of, rule_match, rule_table, rules_view, split_first,
    starts_with, MatcherView, Rule, RuleView,
};
use token::{Token, TokenKind, TokenView};
use utf8::{
    byte_skip, byte_take, lemma_cut_progress, lemma_split, on_boundary, split_prefix, utf8_len,
};
use vstd::prelude::*;
use vstd::string::*;

verus! {

/// A place in a source file; lines and columns count from 1.
#[derive(Debug, Copy, Clone)]
pub struct Location<'a> {
    pub file: &'a str,
    pub line: usize,
    pub col: usize,
}

/// A location as text: `file:line:col`.
pub open spec fn location_text(file: Seq<char>, line: nat, col: nat) -> Seq<char> {
    file + seq![':'] + decimal_text(line) + seq![':'] + decimal_text(col)
}

impl<'a> Location<'a> {
    /// This location as `file:line:col`.
    pub fn to_text(&self) -> (text: String)
        ensures
            text@ == location_text(self.file@, self.line as nat, self.col as nat),
    {
        proof {
            reveal_strlit(":");
        }
        let mut text = String::from_str(self.file);
        text.append(":");
        push_decimal(&mut text, self.line);
        text.append(":");
        push_decimal(&mut text, self.col);
        text
    }
}

/// Whether `c` has the Unicode property White_Space.
pub uninterp spec fn is_whitespace(c: char) -> bool;

/// `char::is_whitespace` decides the Unicode property White_Space; the
/// contract gives that answer a name.
pub assume_specification[ char::is_whitespace ](c: char) -> (b: bool)
    ensures
        b == is_whitespace(c),
;

/// Where a lexer stands: the input not yet read, and the line and column
/// of its first character.
pub struct Cursor {
    pub rest: Seq<char>,
    pub line: nat,
    pub col: nat,
}

/// One step of the lexer: the token read and where the lexer stands after
/// it.
pub struct Step {
    pub token: TokenView,
    pub after: Cursor,
}

/// What one rule found at the start of the input: the length in bytes of
/// its match, if it matched, and the kind of token it stands for.
#[derive(Debug, Copy, Clone)]
pub struct Candidate {
    pub len: Option<usize>,
    pub kind: TokenKind,
}

pub struct CandidateView {
    pub len: Option<nat>,
    pub kind: TokenKind,
}

impl View for Candidate {
    type V = CandidateView;

    open spec fn view(&self) -> CandidateView {
        CandidateView { len: len_of(self.len), kind: self.kind }
    }
}

/// The views of a list of candidates.
pub open spec fn candidates_view(found: Seq<Candidate>) -> Seq<CandidateView> {
    Seq::new(found.len(), |i: int| found[i]@)
}

/// The best of the first `upto` candidates: the longest match, and of
/// equally long ones the last.
pub open spec fn best_of(found: Seq<CandidateView>, upto: int) -> Option<(nat, TokenKind)>
    decreases upto,
{
    if upto <= 0 {
        None
    } else {
        let earlier = best_of(found, upto - 1);
        match found[upto - 1].len {
            Some(n) => if earlier is None || n >= earlier.unwrap().0 {
                Some((n, found[upto - 1].kind))
            } else {
                earlier
            },
            None => earlier,
        }
    }
}

/// What each rule finds on input `s`, in the order of the rules.
pub open spec fn candidates(rules: Seq<RuleView>, s: Seq<char>) -> Seq<CandidateView> {
    Seq::new(
        rules.len(),
        |i: int| CandidateView { len: rule_match(rules[i].matcher, s), kind: rules[i].kind },
    )
}

/// The match that the lexer takes on input `s`: its length in bytes and the
/// kind of the rule that made it.
pub open spec fn longest_match(rules: Seq<RuleView>, s: Seq<char>) -> Option<(nat, TokenKind)> {
    best_of(candidates(rules, s), rules.len() as int)
}

/// Candidate `i` wins among the first `upto` with a match of `n` bytes:
/// none of them matches more, and none behind it matches as much.
pub open spec fn is_winner(found: Seq<CandidateView>, upto: int, i: int, n: nat) -> bool {
    &&& 0 <= i < upto
    &&& found[i].len == Some(n)
    &&& forall|j: int|
        0 <= j < upto ==> match (#[trigger] found[j]).len {
            Some(m) => m < n || (m == n && j <= i),
            None => true,
        }
}

proof fn lemma_best_of(found: Seq<CandidateView>, upto: int)
    requires
        0 <= upto <= found.len(),
    ensures
        best_of(found, upto) matches Some(best) ==> exists|i: int|
            #[trigger] is_winner(found, upto, i, best.0) && found[i].kind == best.1,
        best_of(found, upto) is None ==> forall|j: int|
            0 <= j < upto ==> (#[trigger] found[j]).len is None,
    decreases upto,
{
    if upto > 0 {
        lemma_best_of(found, upto - 1);
        let earlier = best_of(found, upto - 1);
        let last = found[upto - 1].len;
        let best = best_of(found, upto).unwrap();
        if last is Some && (earlier is None || last.unwrap() >= earlier.unwrap().0) {
            // The last candidate takes over: it matches as much as any
            // before it.
            assert(is_winner(found, upto, upto - 1, best.0) && found[upto - 1].kind == best.1);
        } else if earlier is Some {
            // The winner so far stays: the last candidate matches less.
            let i = choose|i: int|
                #[trigger] is_winner(found, upto - 1, i, best.0) && found[i].kind == best.1;
            assert(is_winner(found, upto, i, best.0) && found[i].kind == best.1);
        }
    }
}

/// Longest match. The choice among what the rules found is the match of
/// one of them; none matches more bytes; and of those that match as many,
/// it is the one defined last. There is no choice exactly when no rule
/// matches.
pub proof fn lemma_longest_match(found: Seq<CandidateView>)
    ensures
        best_of(found, found.len() as int) matches Some(best) ==> exists|i: int|
            #[trigger] is_winner(found, found.len() as int, i, best.0) && found[i].kind == best.1,
        best_of(found, found.len() as int) is None ==> forall|j: int|
            0 <= j < found.len() ==> (#[trigger] found[j]).len is None,
{
    lemma_best_of(found, found.len() as int);
}

/// What the lexer takes is never empty and ends between two characters.
pub proof fn lemma_longest_match_cut(rules: Seq<RuleView>, s: Seq<char>)
    ensures
        longest_match(rules, s) matches Some((n, _)) ==> n >= 1 && on_boundary(s, n as int),
{
    let found = candidates(rules, s);
    lemma_longest_match(found);
    if let Some((n, kind)) = longest_match(rules, s) {
        let i = choose|i: int|
            #[trigger] is_winner(found, found.len() as int, i, n) && found[i].kind == kind;
    }
}

/// A literal rule is never passed over. Where the input starts with the
/// text of a literal rule, the lexer takes a match, and one of at least
/// the length of that text: `>=` is not read as `>`, nor `==` as `=`.
pub proof fn lemma_literal_is_matched(rules: Seq<RuleView>, i: int, w: Seq<char>, s: Seq<char>)
    requires
        0 <= i < rules.len(),
        rules[i].matcher == MatcherView::Literal(w),
        w.len() > 0,
        starts_with(s, w),
    ensures
        longest_match(rules, s) matches Some(best) && best.0 >= utf8_len(w),
{
    let found = candidates(rules, s);
    lemma_literal_boundary(s, w);
    assert(utf8_len(w) >= 1) by {
        vstd::utf8::encode_utf8_first_scalar(w);
    }
    assert(found[i].len == Some(utf8_len(w)));
    lemma_longest_match(found);
    if let Some(best) = longest_match(rules, s) {
        let k = choose|k: int|
            #[trigger] is_winner(found, found.len() as int, k, best.0) && found[k].kind == best.1;
        assert(is_winner(found, found.len() as int, k, best.0));
    }
}

/// Tries every rule at the start of `input`.
pub fn try_rules(rules: &Vec<Rule>, input: &str) -> (found: Vec<Candidate>)
    ensures
        found.len() == rules.len(),
        candidates_view(found@) == candidates(rules_view(rules@), input@),
{
    let ghost table = rules_view(rules@);
    let mut found: Vec<Candidate> = Vec::new();
    let mut i: usize = 0;
    while i < rules.len()
        invariant
            i <= rules.len(),
            found.len() == i,
            table == rules_view(rules@),
            forall|j: int|
                0 <= j < i ==> (#[trigger] found[j])@ == candidates(table, input@)[j],
        decreases rules.len() - i,
    {
        let len = rules[i].matches(input);
        found.push(Candidate { len, kind: rules[i].kind });
        i = i + 1;
    }
    found
}

/// Chooses among what the rules found: the longest match, and of equally
/// long ones the last.
pub fn choose_longest(found: &Vec<Candidate>) -> (r: Option<(usize, TokenKind)>)
    ensures
        match best_of(candidates_view(found@), found.len() as int) {
            Some((n, kind)) => r == Some((n as usize, kind)) && n <= usize::MAX,
            None => r is None,
        },
{
    let ghost views = candidates_view(found@);
    let mut best: Option<(usize, TokenKind)> = None;
    let mut i: usize = 0;
    while i < found.len()
        invariant
            i <= found.len(),
            views == candidates_view(found@),
            match best_of(views, i as int) {
                Some((n, kind)) => best == Some((n as usize, kind)) && n <= usize::MAX,
                None => best is None,
            },
        decreases found.len() - i,
    {
        if let Some(n) = found[i].len {
            let better = match best {
                Some((m, _)) => n >= m,
                None => true,
            };
            if better {
                best = Some((n, found[i].kind));
            }
        }
        i = i + 1;
    }
    best
}

/// Finds the longest match of `rules` at the start of `input`.
pub fn find_longest_match(rules: &Vec<Rule>, input: &str) -> (r: Option<(usize, TokenKind)>)
    ensures
        match longest_match(rules_view(rules@), input@) {
            Some((n, kind)) => r == Some((n as usize, kind)) && n <= usize::MAX,
            None => r is None,
        },
{
    let found = try_rules(rules, input);
    choose_longest(&found)
}

/// The cursor after the whitespace in front of it: a line feed starts a new
/// line at column 1, any other whitespace character moves one column on.
pub open spec fn skip_whitespace(c: Cursor) -> Cursor
    decreases c.rest.len(),
{
    if c.rest.len() > 0 && is_whitespace(c.rest[0]) {
        if c.rest[0] == '\n' {
            skip_whitespace(Cursor { rest: c.rest.drop_first(), line: c.line + 1, col: 1 })
        } else {
            skip_whitespace(Cursor { rest: c.rest.drop_first(), line: c.line, col: c.col + 1 })
        }
    } else {
        c
    }
}

/// The next token from cursor `c`, if there is one: whitespace is skipped,
/// the longest match is cut off the input, and the column moves on by the
/// length of the match in bytes.
pub open spec fn next_step(c: Cursor) -> Option<Step> {
    let start = skip_whitespace(c);
    match longest_match(rule_table(), start.rest) {
        Some((n, kind)) => Some(
            Step {
                token: TokenView {
                    kind,
                    text: byte_take(start.rest, n as int),
                    line: start.line,
                    col: start.col,
                },
                after: Cursor {
                    rest: byte_skip(start.rest, n as int),
                    line: start.line,
                    col: start.col + n,
                },
            },
        ),
        None => None,
    }
}

/// Skipping whitespace drops a prefix of the input and stops in front of
/// a character that is no whitespace, or at the end.
pub proof fn lemma_skip_whitespace(c: Cursor)
    ensures
        ({
            let d = skip_whitespace(c);
            let k = c.rest.len() - d.rest.len();
            &&& 0 <= k <= c.rest.len()
            &&& d.rest == c.rest.subrange(k, c.rest.len() as int)
            &&& d.rest.len() > 0 ==> !is_whitespace(d.rest[0])
        }),
    decreases c.rest.len(),
{
    if c.rest.len() > 0 && is_whitespace(c.rest[0]) {
        let next = if c.rest[0] == '\n' {
            Cursor { rest: c.rest.drop_first(), line: c.line + 1, col: 1 }
        } else {
            Cursor { rest: c.rest.drop_first(), line: c.line, col: c.col + 1 }
        };
        lemma_skip_whitespace(next);
        let d = skip_whitespace(c);
        let k = c.rest.len() - d.rest.len();
    }
}

/// Every token takes at least one character of the input.
pub proof fn lemma_step_progress(c: Cursor)
    ensures
        next_step(c) matches Some(step) ==> step.after.rest.len() < c.rest.len()
            && step.token.text.len() >= 1,
{
    let start = skip_whitespace(c);
    lemma_skip_whitespace(c);
    lemma_longest_match_cut(rule_table(), start.rest);
    if let Some((n, _)) = longest_match(rule_table(), start.rest) {
        lemma_cut_progress(start.rest, n as int);
    }
}

/// The tokens that the lexer yields from cursor `c` until it stops.
pub open spec fn token_stream(c: Cursor) -> Seq<TokenView>
    decreases c.rest.len(),
{
    match next_step(c) {
        Some(step) => {
            proof {
                lemma_step_progress(c);
            }
            seq![step.token] + token_stream(step.after)
        },
        None => Seq::empty(),
    }
}

/// The cursor at the start of `input`.
pub open spec fn start_cursor(input: Seq<char>) -> Cursor {
    Cursor { rest: input, line: 1, col: 1 }
}

/// The views of a list of tokens.
pub open spec fn tokens_view(tokens: Seq<Token>) -> Seq<TokenView> {
    Seq::new(tokens.len(), |i: int| tokens[i]@)
}

/// A lexer over one source text. It owns the rule table and hands out
/// tokens whose text borrows from the source.
pub struct Lexer<'a> {
    input: &'a str,
    loc: Location<'a>,
    rules: Vec<Rule>,
}

impl<'a> Lexer<'a> {
    /// Where the lexer stands.
    pub closed spec fn cursor(&self) -> Cursor {
        Cursor { rest: self.input@, line: self.loc.line as nat, col: self.loc.col as nat }
    }

    /// The name of the file being read.
    pub closed spec fn file(&self) -> &'a str {
        self.loc.file
    }

    /// The lexer holds the rule table of the language, and its line and
    /// column can still count every byte left.
    pub closed spec fn wf(&self) -> bool {
        &&& rules_view(self.rules@) == rule_table()
        &&& self.loc.line >= 1
        &&& self.loc.col >= 1
        &&& self.loc.line + utf8_len(self.input@) <= usize::MAX
        &&& self.loc.col + utf8_len(self.input@) <= usize::MAX
    }

    /// A lexer at the start of `input`, at line 1 and column 1.
    pub fn new(file: &'a str, input: &'a str) -> (lexer: Self)
        requires
            utf8_len(input@) < usize::MAX,
        ensures
            lexer.wf(),
            lexer.cursor() == start_cursor(input@),
            lexer.file() == file,
    {
        Self { input, rules: get_rules(), loc: Location { file, line: 1, col: 1 } }
    }

    /// Moves past the whitespace in front of the lexer.
    fn skip_whitespace(&mut self)
        requires
            old(self).wf(),
        ensures
            final(self).wf(),
            final(self).file() == old(self).file(),
            final(self).cursor() == skip_whitespace(old(self).cursor()),
    {
        loop
            invariant
                self.wf(),
                self.file() == old(self).file(),
                skip_whitespace(self.cursor()) == skip_whitespace(old(self).cursor()),
            decreases self.input@.len(),
        {
            match split_first(self.input) {
                None => {
                    return ;
                },
                Some((c, rest)) => {
                    if !c.is_whitespace() {
                        return ;
                    }
                    proof {
                        assert(utf8_len(seq![c]) >= 1) by {
                            vstd::utf8::encode_utf8_first_scalar(seq![c]);
                        }
                    }
                    if c == '\n' {
                        self.loc.line = self.loc.line + 1;
                        self.loc.col = 1;
                    } else {
                        self.loc.col = self.loc.col + 1;
                    }
                    self.input = rest;
                },
            }
        }
    }

    /// Reads the next token. Whitespace in front of it is skipped; the
    /// token is the longest match of any rule, and of equally long matches
    /// that of the rule defined last. Where no rule matches, at the end of
    /// the input or at a character that starts no token, there is no token
    /// and the lexer stays behind the whitespace.
    pub fn next_token(&mut self) -> (tok: Option<Token<'a>>)
        requires
            old(self).wf(),
        ensures
            final(self).wf(),
            final(self).file() == old(self).file(),
            match next_step(old(self).cursor()) {
                Some(step) => {
                    &&& tok matches Some(t)
                    &&& t@ == step.token
                    &&& t.loc.file == old(self).file()
                    &&& t.loc.col + utf8_len(t.text@) <= usize::MAX
                    &&& final(self).cursor() == step.after
                },
                None => tok is None && final(self).cursor() == skip_whitespace(
                    old(self).cursor(),
                ),
            },
    {
        self.skip_whitespace();
        let found = find_longest_match(&self.rules, self.input);
        match found {
            None => None,
            Some((n, kind)) => {
                proof {
                    lemma_longest_match_cut(rule_table(), self.input@);
                    lemma_split(self.input@, n as int);
                }
                let (text, rest) = split_prefix(self.input, n);
                let tok = Token::new(kind, text, self.loc);
                self.loc.col = self.loc.col + n;
                self.input = rest;
                Some(tok)
            },
        }
    }
}

/// Reads all tokens of `input`, up to the end or to the first character
/// that starts no token.
pub fn tokenize<'a>(file: &'a str, input: &'a str) -> (tokens: Vec<Token<'a>>)
    requires
        utf8_len(input@) < usize::MAX,
    ensures
        tokens_view(tokens@) == token_stream(start_cursor(input@)),
        forall|i: int|
            0 <= i < tokens.len() ==> (#[trigger] tokens[i]).loc.file == file && tokens[i].loc.col
                + utf8_len(tokens[i].text@) <= usize::MAX,
{
    let mut lexer = Lexer::new(file, input);
    let mut tokens: Vec<Token<'a>> = Vec::new();
    loop
        invariant
            lexer.wf(),
            lexer.file() == file,
            tokens_view(tokens@) + token_stream(lexer.cursor()) == token_stream(
                start_cursor(input@),
            ),
            forall|i: int|
                0 <= i < tokens.len() ==> (#[trigger] tokens[i]).loc.file == file
                    && tokens[i].loc.col + utf8_len(tokens[i].text@) <= usize::MAX,
        decreases lexer.cursor().rest.len(),
    {
        proof {
            lemma_step_progress(lexer.cursor());
        }
        match lexer.next_token() {
            None => {
                return tokens;
            },
            Some(tok) => {
                tokens.push(tok);
            },
        }
    }
}

/// The whitespace that the lexer skips at cursor `c`.
pub open spec fn whitespace_skipped(c: Cursor) -> Seq<char> {
    c.rest.subrange(0, c.rest.len() - skip_whitespace(c).rest.len())
}

/// What the lexer reads from cursor `c` on: the whitespace it skips and
/// the text of each token, in the order read.
pub open spec fn text_read(c: Cursor) -> Seq<char>
    decreases c.rest.len(),
{
    match next_step(c) {
        Some(step) => {
            proof {
                lemma_step_progress(c);
            }
            whitespace_skipped(c) + step.token.text + text_read(step.after)
        },
        None => whitespace_skipped(c),
    }
}

/// What the lexer leaves unread from cursor `c` on: empty where it reaches
/// the end of the input, else the input from the first character that
/// starts no token.
pub open spec fn text_left(c: Cursor) -> Seq<char>
    decreases c.rest.len(),
{
    match next_step(c) {
        Some(step) => {
            proof {
                lemma_step_progress(c);
            }
            text_left(step.after)
        },
        None => skip_whitespace(c).rest,
    }
}

/// One token and the whitespace before it, put back together, are the
/// start of the input.
pub proof fn lemma_step_round_trip(c: Cursor)
    ensures
        next_step(c) matches Some(step) ==> whitespace_skipped(c) + step.token.text
            + step.after.rest == c.rest,
        next_step(c) is None ==> whitespace_skipped(c) + skip_whitespace(c).rest == c.rest,
{
    let start = skip_whitespace(c);
    lemma_skip_whitespace(c);
    if let Some((n, _)) = longest_match(rule_table(), start.rest) {
        lemma_longest_match_cut(rule_table(), start.rest);
        lemma_split(start.rest, n as int);
        let step = next_step(c).unwrap();
        assert(whitespace_skipped(c) + step.token.text + step.after.rest =~= whitespace_skipped(c)
            + (step.token.text + step.after.rest));
    }
}

/// Round trip. The text of every token, interleaved with the whitespace
/// skipped, followed by what the lexer left unread, is the input; so
/// where the lexer reaches the end, the tokens and the whitespace alone
/// give the input back.
pub proof fn lemma_round_trip(c: Cursor)
    ensures
        text_read(c) + text_left(c) == c.rest,
        text_left(c).len() == 0 ==> text_read(c) == c.rest,
    decreases c.rest.len(),
{
    lemma_step_round_trip(c);
    if let Some(step) = next_step(c) {
        lemma_step_progress(c);
        lemma_round_trip(step.after);
    }
}

} // verus!
