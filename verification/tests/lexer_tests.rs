use trlang::lexer::tokenizer::{
    leading_match, lexes, match_pattern, tokenize, try_tokenize, Tokenizer,
};
use trlang::lexer::{Token, TokenType};

fn tokens(source: &str) -> Option<Vec<Token>> {
    let mut tokenizer = Tokenizer::new(source);
    let mut out = Vec::new();
    loop {
        match tokenizer.try_next() {
            None => return None,
            Some(None) => return Some(out),
            Some(Some(token)) => out.push(token),
        }
    }
}

fn kinds(source: &str) -> Vec<TokenType> {
    tokens(source)
        .expect("not made of tokens")
        .into_iter()
        .map(|token| token.kind)
        .collect()
}

fn texts(source: &str) -> Vec<String> {
    tokens(source)
        .expect("not made of tokens")
        .into_iter()
        .map(|token| token.value)
        .collect()
}

fn token(kind: TokenType, value: &str, line: usize, column: usize, end_column: usize) -> Token {
    Token {
        kind,
        value: value.to_string(),
        line,
        column,
        end_column,
    }
}

#[test]
fn empty_source_is_one_end_token() {
    assert_eq!(tokens(""), Some(vec![token(TokenType::EOF, "EOF", 0, 0, 0)]));
}

#[test]
fn end_token_comes_once() {
    let mut tokenizer = Tokenizer::new("1");
    assert_eq!(
        tokenizer.try_next(),
        Some(Some(token(TokenType::Integer, "1", 0, 0, 1)))
    );
    assert_eq!(
        tokenizer.try_next(),
        Some(Some(token(TokenType::EOF, "EOF", 0, 1, 1)))
    );
    assert_eq!(tokenizer.try_next(), Some(None));
    assert_eq!(tokenizer.try_next(), Some(None));
}

#[test]
fn next_hands_out_tokens_where_has_next_allows() {
    let mut tokenizer = Tokenizer::new("a +");
    assert!(tokenizer.has_next());
    assert_eq!(
        tokenizer.next(),
        Some(token(TokenType::Identifier, "a", 0, 0, 1))
    );
    assert!(tokenizer.has_next());
    assert_eq!(tokenizer.next(), Some(token(TokenType::Plus, "+", 0, 2, 3)));
    assert!(tokenizer.has_next());
    assert_eq!(tokenizer.next(), Some(token(TokenType::EOF, "EOF", 0, 3, 3)));
    assert!(tokenizer.has_next());
    assert_eq!(tokenizer.next(), None);
}

#[test]
fn declaration_tokens_with_places() {
    assert_eq!(
        tokens("let x: int = 1;"),
        Some(vec![
            token(TokenType::Let, "let", 0, 0, 3),
            token(TokenType::Identifier, "x", 0, 4, 5),
            token(TokenType::Colon, ":", 0, 5, 6),
            token(TokenType::IntType, "int", 0, 7, 10),
            token(TokenType::Equal, "=", 0, 11, 12),
            token(TokenType::Integer, "1", 0, 13, 14),
            token(TokenType::SemiColon, ";", 0, 14, 15),
            token(TokenType::EOF, "EOF", 0, 15, 15),
        ])
    );
}

#[test]
fn every_symbol_and_keyword() {
    assert_eq!(
        kinds("= + - * / ( ) ; { } , : let const func return print int float string bool"),
        vec![
            TokenType::Equal,
            TokenType::Plus,
            TokenType::Minus,
            TokenType::Star,
            TokenType::Slash,
            TokenType::OpenParen,
            TokenType::CloseParen,
            TokenType::SemiColon,
            TokenType::OpenBrace,
            TokenType::CloseBrace,
            TokenType::Comma,
            TokenType::Colon,
            TokenType::Let,
            TokenType::Const,
            TokenType::Func,
            TokenType::Return,
            TokenType::Print,
            TokenType::IntType,
            TokenType::FloatType,
            TokenType::StringType,
            TokenType::BoolType,
            TokenType::EOF,
        ]
    );
}

#[test]
fn decimal_comes_before_integer() {
    assert_eq!(
        tokens("1.5 12 3."),
        Some(vec![
            token(TokenType::Float, "1.5", 0, 0, 3),
            token(TokenType::Integer, "12", 0, 4, 6),
            token(TokenType::Float, "3.", 0, 7, 9),
            token(TokenType::EOF, "EOF", 0, 9, 9),
        ])
    );
}

#[test]
fn string_tokens_lose_their_quotes() {
    assert_eq!(
        tokens("'hello, ' \"world!\" ''"),
        Some(vec![
            token(TokenType::String, "hello, ", 0, 0, 9),
            token(TokenType::String, "world!", 0, 10, 18),
            token(TokenType::String, "", 0, 19, 21),
            token(TokenType::EOF, "EOF", 0, 21, 21),
        ])
    );
}

#[test]
fn strings_have_no_escapes() {
    assert_eq!(texts("'a\\n' \"it's\""), vec!["a\\n", "it's", "EOF"]);
}

#[test]
fn comments_and_white_space_are_dropped() {
    assert_eq!(
        tokens("1 // one\n  2 // two"),
        Some(vec![
            token(TokenType::Integer, "1", 0, 0, 1),
            token(TokenType::Integer, "2", 1, 2, 3),
            token(TokenType::EOF, "EOF", 1, 10, 10),
        ])
    );
}

#[test]
fn comment_comes_before_division() {
    assert_eq!(
        kinds("4 / 2 // half"),
        vec![
            TokenType::Integer,
            TokenType::Slash,
            TokenType::Integer,
            TokenType::EOF
        ]
    );
}

#[test]
fn line_feed_starts_a_new_line() {
    assert_eq!(
        tokens("a\n\n\tb c"),
        Some(vec![
            token(TokenType::Identifier, "a", 0, 0, 1),
            token(TokenType::Identifier, "b", 2, 1, 2),
            token(TokenType::Identifier, "c", 2, 3, 4),
            token(TokenType::EOF, "EOF", 2, 4, 4),
        ])
    );
}

#[test]
fn columns_count_characters() {
    assert_eq!(
        tokens("'äö' x"),
        Some(vec![
            token(TokenType::String, "äö", 0, 0, 4),
            token(TokenType::Identifier, "x", 0, 5, 6),
            token(TokenType::EOF, "EOF", 0, 6, 6),
        ])
    );
}

#[test]
fn keyword_takes_the_start_of_a_longer_word() {
    assert_eq!(
        tokens("letter"),
        Some(vec![
            token(TokenType::Let, "let", 0, 0, 3),
            token(TokenType::Identifier, "ter", 0, 3, 6),
            token(TokenType::EOF, "EOF", 0, 6, 6),
        ])
    );
}

#[test]
fn words_true_and_false_are_literals() {
    assert_eq!(
        tokens("true false truth"),
        Some(vec![
            token(TokenType::Bool, "true", 0, 0, 4),
            token(TokenType::Bool, "false", 0, 5, 10),
            token(TokenType::Identifier, "truth", 0, 11, 16),
            token(TokenType::EOF, "EOF", 0, 16, 16),
        ])
    );
}

#[test]
fn names_may_hold_digits_and_underscores() {
    assert_eq!(texts("_a1 param1 B_2"), vec!["_a1", "param1", "B_2", "EOF"]);
}

#[test]
fn unknown_character_stops_the_tokenizer() {
    let mut tokenizer = Tokenizer::new("1 @ 2");
    assert_eq!(
        tokenizer.try_next(),
        Some(Some(token(TokenType::Integer, "1", 0, 0, 1)))
    );
    assert!(!tokenizer.has_next());
    assert_eq!(tokenizer.try_next(), None);
    assert_eq!(tokenizer.try_next(), None);
}

#[test]
fn unclosed_string_is_not_made_of_tokens() {
    assert_eq!(tokens("'abc"), None);
    assert!(!lexes("'abc"));
}

#[test]
fn lexes_tells_tokens_from_other_text() {
    assert!(lexes(""));
    assert!(lexes("func f(a, b) { return a + b; }"));
    assert!(lexes("1 +* ) ) let"));
    assert!(!lexes("a ? b"));
    assert!(!lexes("#"));
}

#[test]
fn pattern_matches_at_the_start_alone() {
    assert_eq!(match_pattern("^\\d+", "12ab"), (2, Some("12".to_string())));
    assert_eq!(match_pattern("^\\d+", "ab12"), (0, None));
    assert_eq!(match_pattern("b", "ab"), (0, None));
    assert_eq!(match_pattern("b", "ba"), (1, Some("b".to_string())));
    assert_eq!(match_pattern("^let", "letter"), (3, Some("let".to_string())));
}

#[test]
fn pattern_that_matches_nothing_or_the_empty_text() {
    assert_eq!(match_pattern("^a", ""), (0, None));
    assert_eq!(match_pattern("^a*", "bbb"), (0, None));
    assert_eq!(match_pattern("^a*", "aab"), (2, Some("aa".to_string())));
}

#[test]
fn pattern_that_is_no_expression() {
    assert_eq!(match_pattern("(", "("), (0, None));
    assert_eq!(match_pattern("^[a", "a"), (0, None));
}

#[test]
fn raw_group_gives_the_token_text() {
    assert_eq!(
        match_pattern("^'(?P<raw>[^']*)'", "'hi' there"),
        (4, Some("hi".to_string()))
    );
    assert_eq!(
        match_pattern("^a(?P<raw>b)?c", "ac"),
        (2, Some("ac".to_string()))
    );
    assert_eq!(
        match_pattern("^a(?P<other>b)c", "abc"),
        (3, Some("abc".to_string()))
    );
}

#[test]
fn pattern_lengths_count_characters() {
    assert_eq!(match_pattern("^ä+", "ääb"), (2, Some("ää".to_string())));
    assert_eq!(match_pattern("^\\d+", "٣4x"), (2, Some("٣4".to_string())));
    assert_eq!(
        match_pattern("^\\s+", "\u{a0}\tx"),
        (2, Some("\u{a0}\t".to_string()))
    );
}

#[test]
fn only_a_leading_match_counts() {
    let found = |start: usize, text: &str, raw: Option<&str>| {
        Some((start, text.to_string(), raw.map(|raw| raw.to_string())))
    };
    assert_eq!(leading_match(None, "abc"), (0, None));
    assert_eq!(
        leading_match(found(0, "ab", None), "abc"),
        (2, Some("ab".to_string()))
    );
    assert_eq!(
        leading_match(found(0, "'b'", Some("b")), "'b'c"),
        (3, Some("b".to_string()))
    );
    assert_eq!(
        leading_match(found(0, "''", Some("")), "''"),
        (2, Some("".to_string()))
    );
    assert_eq!(leading_match(found(1, "bc", None), "abc"), (0, None));
    assert_eq!(leading_match(found(1, "b", Some("b")), "abc"), (0, None));
    assert_eq!(leading_match(found(0, "", None), "abc"), (0, None));
    assert_eq!(leading_match(found(0, "äö", None), "äöü"), (2, Some("äö".to_string())));
}

#[test]
fn tokenizer_tells_its_place() {
    let mut tokenizer = Tokenizer::new("ab\n cd ?");
    assert_eq!(
        (tokenizer.position(), tokenizer.line(), tokenizer.column()),
        (0, 0, 0)
    );
    assert!(tokenizer.try_next().is_some());
    assert_eq!(
        (tokenizer.position(), tokenizer.line(), tokenizer.column()),
        (2, 0, 2)
    );
    assert!(tokenizer.try_next().is_some());
    assert_eq!(
        (tokenizer.position(), tokenizer.line(), tokenizer.column()),
        (6, 1, 3)
    );
    assert_eq!(tokenizer.try_next(), None);
    assert_eq!(
        (tokenizer.position(), tokenizer.line(), tokenizer.column()),
        (6, 1, 3)
    );
}

#[test]
fn string_may_run_over_lines() {
    assert_eq!(
        tokens("'a\nb' c"),
        Some(vec![
            token(TokenType::String, "a\nb", 0, 0, 5),
            token(TokenType::Identifier, "c", 1, 3, 4),
            token(TokenType::EOF, "EOF", 1, 4, 4),
        ])
    );
}

#[test]
fn no_token_is_white_space_or_comment() {
    let all = tokens("// a\n let x : int = 1 ; // b\n\n /* */ 'c' //").expect("not made of tokens");
    assert!(all
        .iter()
        .all(|token| token.kind != TokenType::Skipped && token.kind != TokenType::Comment));
    assert_eq!(all.last().map(|token| token.kind), Some(TokenType::EOF));
    assert_eq!(
        all.iter()
            .filter(|token| token.kind == TokenType::EOF)
            .count(),
        1
    );
}

#[test]
fn tokenize_gives_what_the_tokenizer_hands_out() {
    let sources = [
        "",
        "1",
        "let x: int = 1;",
        "func f(a, b) {\n  return a + b * 2.5; // sum\n}\nprint f('x', \"y\");",
        "a\n\n\tb c",
        "letter true false 3. 'ä\nö'",
    ];
    for source in sources {
        let expected = tokens(source).expect("not made of tokens");
        assert_eq!(try_tokenize(source), Some(expected.clone()));
        assert_eq!(tokenize(source), expected);
    }
}

#[test]
fn try_tokenize_refuses_other_text() {
    assert_eq!(try_tokenize("1 @ 2"), None);
    assert_eq!(try_tokenize("\"open"), None);
    assert_eq!(try_tokenize("a & b"), None);
}
