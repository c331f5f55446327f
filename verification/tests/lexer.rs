use lyth::lexer::rules::{get_rules, match_one, match_two, match_word, Matcher, Rule};
use lyth::lexer::token::{Token, TokenKind};
use lyth::lexer::utf8::{byte_len, char_width, split_prefix};
use lyth::lexer::{
    choose_longest, find_longest_match, tokenize, try_rules, Candidate, Lexer, Location,
};

fn kinds(input: &str) -> Vec<TokenKind> {
    tokenize("test.ly", input).iter().map(|t| t.kind).collect()
}

fn texts(input: &str) -> Vec<String> {
    tokenize("test.ly", input).iter().map(|t| t.text.to_string()).collect()
}

#[test]
fn token_new_keeps_its_parts() {
    let loc = Location { file: "a.ly", line: 3, col: 7 };
    let tok = Token::new(TokenKind::Identifier, "abc", loc);
    assert_eq!(tok.kind, TokenKind::Identifier);
    assert_eq!(tok.text, "abc");
    assert_eq!(tok.loc.file, "a.ly");
    assert_eq!(tok.loc.line, 3);
    assert_eq!(tok.loc.col, 7);
}

#[test]
fn empty_input_has_no_token() {
    let mut lexer = Lexer::new("test.ly", "");
    assert!(lexer.next_token().is_none());
    assert!(lexer.next_token().is_none());
}

#[test]
fn whitespace_only_has_no_token() {
    assert!(tokenize("test.ly", " \t\n  \r\n").is_empty());
}

#[test]
fn single_character_operators() {
    assert_eq!(
        kinds("+ - * / % & | ^ ! ~ = . , : ; ( ) { } < >"),
        vec![
            TokenKind::Plus,
            TokenKind::Minus,
            TokenKind::Asterisk,
            TokenKind::Slash,
            TokenKind::Percent,
            TokenKind::And,
            TokenKind::Pipe,
            TokenKind::Caret,
            TokenKind::Bang,
            TokenKind::Tilde,
            TokenKind::Assign,
            TokenKind::Dot,
            TokenKind::Comma,
            TokenKind::Colon,
            TokenKind::SemiColon,
            TokenKind::OpenParen,
            TokenKind::ClosedParen,
            TokenKind::OpenBrace,
            TokenKind::ClosedBrace,
            TokenKind::LessThan,
            TokenKind::GreaterThan,
        ]
    );
}

#[test]
fn two_character_operators_beat_their_first_character() {
    assert_eq!(
        kinds("== != <= >="),
        vec![TokenKind::Equal, TokenKind::UnEqual, TokenKind::LessEqual, TokenKind::GreaterEqual]
    );
    assert_eq!(kinds(">="), vec![TokenKind::GreaterEqual]);
    assert_eq!(kinds("> ="), vec![TokenKind::GreaterThan, TokenKind::Assign]);
    assert_eq!(kinds("==="), vec![TokenKind::Equal, TokenKind::Assign]);
}

#[test]
fn keywords() {
    assert_eq!(
        kinds("struct fn let if else for loop break continue return inline"),
        vec![
            TokenKind::Struct,
            TokenKind::Function,
            TokenKind::Let,
            TokenKind::If,
            TokenKind::Else,
            TokenKind::For,
            TokenKind::Loop,
            TokenKind::Break,
            TokenKind::Continue,
            TokenKind::Return,
            TokenKind::Inline,
        ]
    );
}

#[test]
fn keyword_beats_identifier_of_the_same_spelling() {
    assert_eq!(kinds("return "), vec![TokenKind::Return]);
    assert_eq!(kinds("return;"), vec![TokenKind::Return, TokenKind::SemiColon]);
    assert_eq!(kinds("return"), vec![TokenKind::Return]);
}

#[test]
fn longer_identifier_beats_keyword() {
    assert_eq!(kinds("returns"), vec![TokenKind::Identifier]);
    assert_eq!(texts("returns"), vec!["returns"]);
    assert_eq!(kinds("returnX"), vec![TokenKind::Identifier]);
    assert_eq!(kinds("iffy"), vec![TokenKind::Identifier]);
    assert_eq!(kinds("fn_"), vec![TokenKind::Identifier]);
    assert_eq!(kinds("lets"), vec![TokenKind::Identifier]);
}

#[test]
fn boolean_literals() {
    assert_eq!(kinds("true false"), vec![TokenKind::Boolean, TokenKind::Boolean]);
    assert_eq!(kinds("truely"), vec![TokenKind::Identifier]);
    assert_eq!(kinds("falsehood"), vec![TokenKind::Identifier]);
}

#[test]
fn identifiers() {
    assert_eq!(kinds("a _b c_1 A9z"), vec![TokenKind::Identifier; 4]);
    assert_eq!(texts("a _b c_1 A9z"), vec!["a", "_b", "c_1", "A9z"]);
}

#[test]
fn identifier_stops_at_a_digit_that_is_not_ascii() {
    // U+0663 is a decimal digit, but not one of `0` to `9`.
    let toks = tokenize("test.ly", "ab\u{0663}");
    assert_eq!(toks.len(), 1);
    assert_eq!(toks[0].text, "ab");
}

#[test]
fn integer_literals() {
    assert_eq!(kinds("0 42 0o17 0b101 0x1F"), vec![TokenKind::Integer; 5]);
    assert_eq!(texts("0 42 0o17 0b101 0x1F"), vec!["0", "42", "0o17", "0b101", "0x1F"]);
}

#[test]
fn integer_prefix_without_digits_is_a_zero_and_an_identifier() {
    assert_eq!(kinds("0x"), vec![TokenKind::Integer, TokenKind::Identifier]);
    assert_eq!(texts("0x"), vec!["0", "x"]);
    assert_eq!(texts("0o8"), vec!["0", "o8"]);
    assert_eq!(texts("0b2"), vec!["0", "b2"]);
}

#[test]
fn digits_then_letters_are_two_tokens() {
    assert_eq!(kinds("12ab"), vec![TokenKind::Integer, TokenKind::Identifier]);
}

#[test]
fn string_literals_keep_their_quotes() {
    let toks = tokenize("test.ly", r#""hi" "a\"b" "c\\" """#);
    let got: Vec<&str> = toks.iter().map(|t| t.text).collect();
    assert_eq!(got, vec![r#""hi""#, r#""a\"b""#, r#""c\\""#, r#""""#]);
    assert!(toks.iter().all(|t| t.kind == TokenKind::String));
}

#[test]
fn string_literal_may_hold_other_scripts() {
    let toks = tokenize("test.ly", "\"h\u{e9}llo\" x");
    assert_eq!(toks.len(), 2);
    assert_eq!(toks[0].text, "\"h\u{e9}llo\"");
    // The column moves on by the length of the match in bytes.
    assert_eq!(toks[0].loc.col, 1);
    assert_eq!(toks[1].loc.col, 1 + 8 + 1);
}

#[test]
fn unterminated_string_ends_the_stream() {
    assert_eq!(kinds("a \"bc"), vec![TokenKind::Identifier]);
}

#[test]
fn unknown_character_ends_the_stream() {
    assert_eq!(kinds("a # b"), vec![TokenKind::Identifier]);
    assert_eq!(kinds("@"), vec![]);
    let mut lexer = Lexer::new("test.ly", "x $ y");
    assert!(lexer.next_token().is_some());
    assert!(lexer.next_token().is_none());
    assert!(lexer.next_token().is_none());
}

#[test]
fn locations_count_lines_and_columns_from_one() {
    let toks = tokenize("test.ly", "fn main\n  return 42;\n\n x");
    let locs: Vec<(usize, usize)> = toks.iter().map(|t| (t.loc.line, t.loc.col)).collect();
    assert_eq!(locs, vec![(1, 1), (1, 4), (2, 3), (2, 10), (2, 12), (4, 2)]);
    assert!(toks.iter().all(|t| t.loc.file == "test.ly"));
}

#[test]
fn whitespace_of_several_bytes_is_one_column() {
    // U+00A0 and U+3000 are whitespace and take two and three bytes.
    let toks = tokenize("test.ly", "a\u{a0}b\u{3000}c");
    let cols: Vec<usize> = toks.iter().map(|t| t.loc.col).collect();
    assert_eq!(cols, vec![1, 3, 5]);
    assert_eq!(toks[1].text, "b");
    assert_eq!(toks[2].text, "c");
}

#[test]
fn tab_moves_one_column() {
    let toks = tokenize("test.ly", "\tx");
    assert_eq!((toks[0].loc.line, toks[0].loc.col), (1, 2));
}

#[test]
fn round_trip_reproduces_the_input() {
    let input = "fn abs(x: i64) i64 {\n\tif x <= 0 { return -x; }\n  return \"s\\\"t\";\n}\n";
    let mut lexer = Lexer::new("test.ly", input);
    let mut rebuilt = String::new();
    let mut offset = 0;
    while let Some(tok) = lexer.next_token() {
        let start = input[offset..].find(tok.text).unwrap() + offset;
        assert!(input[offset..start].chars().all(|c| c.is_whitespace()));
        rebuilt.push_str(&input[offset..start]);
        rebuilt.push_str(tok.text);
        offset = start + tok.text.len();
    }
    assert!(input[offset..].chars().all(|c| c.is_whitespace()));
    rebuilt.push_str(&input[offset..]);
    assert_eq!(rebuilt, input);
}

#[test]
fn lexer_is_lazy_and_steps_one_token_at_a_time() {
    let mut lexer = Lexer::new("test.ly", "let a = 1;");
    let mut seen = Vec::new();
    while let Some(tok) = lexer.next_token() {
        seen.push((tok.kind, tok.text));
    }
    assert_eq!(
        seen,
        vec![
            (TokenKind::Let, "let"),
            (TokenKind::Identifier, "a"),
            (TokenKind::Assign, "="),
            (TokenKind::Integer, "1"),
            (TokenKind::SemiColon, ";"),
        ]
    );
}

#[test]
fn match_one_reports_the_width_of_the_character() {
    assert_eq!(match_one("+1", '+'), Some(1));
    assert_eq!(match_one("-1", '+'), None);
    assert_eq!(match_one("", '+'), None);
    assert_eq!(match_one("\u{e9}t\u{e9}", '\u{e9}'), Some(2));
}

#[test]
fn match_two_needs_both_characters() {
    assert_eq!(match_two("==", '=', '='), Some(2));
    assert_eq!(match_two("=", '=', '='), None);
    assert_eq!(match_two("=!", '=', '='), None);
    assert_eq!(match_two("!=", '=', '='), None);
    assert_eq!(match_two("", '=', '='), None);
}

#[test]
fn match_word_is_a_prefix_test() {
    assert_eq!(match_word("return x", "return"), Some(6));
    assert_eq!(match_word("returns", "return"), Some(6));
    assert_eq!(match_word("retur", "return"), None);
    assert_eq!(match_word("retvrn", "return"), None);
    assert_eq!(match_word("anything", ""), Some(0));
}

#[test]
fn rule_with_a_pattern_calls_the_regular_expression() {
    let ident = Rule { kind: TokenKind::Identifier, matcher: Matcher::Pattern("^[a-z]+") };
    assert_eq!(ident.matches("abc1"), Some(3));
    assert_eq!(ident.matches("1abc"), None);
    // A pattern that cannot be compiled matches nothing.
    let broken = Rule { kind: TokenKind::Identifier, matcher: Matcher::Pattern("^(") };
    assert_eq!(broken.matches("((("), None);
}

#[test]
fn empty_match_is_no_match() {
    let empty = Rule { kind: TokenKind::Identifier, matcher: Matcher::Pattern("^a*") };
    assert_eq!(empty.matches("bbb"), None);
    assert_eq!(empty.matches("aab"), Some(2));
    let word = Rule { kind: TokenKind::Identifier, matcher: Matcher::Word("") };
    assert_eq!(word.matches("x"), None);
}

#[test]
fn of_equally_long_matches_the_later_rule_wins() {
    let rules = vec![
        Rule { kind: TokenKind::Identifier, matcher: Matcher::Word("ab") },
        Rule { kind: TokenKind::Let, matcher: Matcher::Word("ab") },
        Rule { kind: TokenKind::If, matcher: Matcher::One('a') },
    ];
    assert_eq!(find_longest_match(&rules, "abc"), Some((2, TokenKind::Let)));
    assert_eq!(find_longest_match(&rules, "ac"), Some((1, TokenKind::If)));
    assert_eq!(find_longest_match(&rules, "c"), None);
    assert_eq!(find_longest_match(&Vec::new(), "c"), None);
}

#[test]
fn choice_among_candidates() {
    let c = |len, kind| Candidate { len, kind };
    assert_eq!(choose_longest(&vec![]), None);
    assert_eq!(choose_longest(&vec![c(None, TokenKind::Plus), c(None, TokenKind::Minus)]), None);
    assert_eq!(
        choose_longest(&vec![
            c(Some(6), TokenKind::Identifier),
            c(None, TokenKind::Plus),
            c(Some(6), TokenKind::Return),
            c(Some(2), TokenKind::If),
        ]),
        Some((6, TokenKind::Return))
    );
    assert_eq!(
        choose_longest(&vec![
            c(Some(1), TokenKind::GreaterThan),
            c(Some(2), TokenKind::GreaterEqual)
        ]),
        Some((2, TokenKind::GreaterEqual))
    );
    assert_eq!(
        choose_longest(&vec![
            c(Some(2), TokenKind::GreaterEqual),
            c(Some(1), TokenKind::GreaterThan)
        ]),
        Some((2, TokenKind::GreaterEqual))
    );
    assert_eq!(
        choose_longest(&vec![c(Some(7), TokenKind::Identifier), c(Some(6), TokenKind::Return)]),
        Some((7, TokenKind::Identifier))
    );
}

#[test]
fn every_rule_is_tried() {
    let rules = vec![
        Rule { kind: TokenKind::Identifier, matcher: Matcher::Pattern("^[a-z]+") },
        Rule { kind: TokenKind::Return, matcher: Matcher::Word("return") },
        Rule { kind: TokenKind::Plus, matcher: Matcher::One('+') },
        Rule { kind: TokenKind::Equal, matcher: Matcher::Two('=', '=') },
    ];
    let found = try_rules(&rules, "returns + 1");
    let got: Vec<(Option<usize>, TokenKind)> = found.iter().map(|c| (c.len, c.kind)).collect();
    assert_eq!(
        got,
        vec![
            (Some(7), TokenKind::Identifier),
            (Some(6), TokenKind::Return),
            (None, TokenKind::Plus),
            (None, TokenKind::Equal),
        ]
    );
    assert!(try_rules(&Vec::new(), "x").is_empty());
}

#[test]
fn rule_table_has_every_kind_but_eof() {
    let rules = get_rules();
    assert_eq!(rules.len(), 41);
    assert_eq!(rules[0].kind, TokenKind::Identifier);
    assert!(rules.iter().all(|r| r.kind != TokenKind::Eof));
}

#[test]
fn widths_and_lengths_in_bytes() {
    assert_eq!(char_width('a'), 1);
    assert_eq!(char_width('\u{e9}'), 2);
    assert_eq!(char_width('\u{20ac}'), 3);
    assert_eq!(char_width('\u{1f600}'), 4);
    assert_eq!(byte_len("h\u{e9}"), 3);
    assert_eq!(split_prefix("h\u{e9}llo", 3), ("h\u{e9}", "llo"));
}
