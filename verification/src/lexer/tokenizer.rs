//! The lexer. At each place in the source an ordered list of rules is
//! tried, and the first rule whose pattern matches a non-empty prefix of what
//! is left decides the token. Patterns are regular expressions; matching them
//! is done by the `regex` crate.

use vstd::prelude::*;
use vstd::string::StringSliceAdditionalSpecFns;
use vstd::utf8::{
    char_is_scalar, encode_scalar, encode_utf8, encode_utf8_decode_utf8,
    encode_utf8_first_scalar, encode_utf8_valid_utf8, is_char_boundary, pop_first_scalar,
};
use crate::lexer::{Token, TokenType, TokenView, eof_token_view, tokens_view};

verus! {

/// A compiled regular expression of the `regex` crate.
#[verifier::external_type_specification]
#[verifier::external_body]
pub struct ExRegex(regex::Regex);

/// What searching `haystack` for the regular expression `pattern` gives:
/// for the leftmost match, the byte offset at which it starts, the text it
/// covers, and the text that the capture group called `group` covers in it,
/// if the pattern has such a group and it took part in the match. `None`
/// where nothing matches or `pattern` is no regular expression.
pub uninterp spec fn leftmost_match(
    pattern: Seq<char>,
    haystack: Seq<char>,
    group: Seq<char>,
) -> Option<(usize, Seq<char>, Option<Seq<char>>)>;

/// The view of an optional text.
pub open spec fn text_view(text: Option<String>) -> Option<Seq<char>> {
    match text {
        Some(text) => Some(text@),
        None => None,
    }
}

/// The view of a match as a search returns it.
pub open spec fn match_view(found: Option<(usize, String, Option<String>)>) -> Option<
    (usize, Seq<char>, Option<Seq<char>>),
> {
    match found {
        Some((start, text, group)) => Some((start, text@, text_view(group))),
        None => None,
    }
}

/// Whether a match that starts at offset 0 is a prefix of the input.
pub open spec fn starts_input(found: Option<(usize, String, Option<String>)>, input: &str) -> bool {
    match found {
        Some((start, text, _)) => start == 0 ==> text@.len() <= input@.len() && input@.subrange(
            0,
            text@.len() as int,
        ) == text@,
        None => true,
    }
}

/// Compiles a pattern with `regex::Regex::new`. `None` where `new`
/// refuses the pattern. Nothing is claimed of the expression here: what a
/// search with it finds is claimed where the search is made.
#[verifier::external_body]
fn compile(pattern: &str) -> (expression: Option<regex::Regex>) {
    regex::Regex::new(pattern).ok()
}

/// Searches `input` with `Regex::captures` and returns, beside what was
/// found, the pattern that `Regex::as_str` reports for the expression. The
/// match is the one that a search for that pattern gives: the start offset and
/// the text of the whole match, and the text of the group with the given
/// name, as `Captures::get_match` and `Captures::name` hand them out. A match
/// that starts at offset 0 is a prefix of the input, since the matched text
/// is the input between the match's two offsets. Every expression that comes
/// here was made by [`compile`], that is with the crate's default options,
/// under which the pattern and the input decide what is found.
#[verifier::external_body]
fn search_with(expression: &regex::Regex, input: &str, group: &str) -> (found: (
    String,
    Option<(usize, String, Option<String>)>,
))
    ensures
        match_view(found.1) == leftmost_match(found.0@, input@, group@),
        starts_input(found.1, input),
{
    let found = expression.captures(input).map(
        |found| {
            let whole = found.get_match();
            let part = found.name(group).map(|m| m.as_str().to_string());
            (whole.start(), whole.as_str().to_string(), part)
        },
    );
    (expression.as_str().to_string(), found)
}

/// Compiles `pattern` with `regex::Regex::new` and searches `input` with
/// `Regex::captures`: the start offset and the text of the whole match, and
/// the text of the group with the given name. `None` where nothing matches or
/// `new` refuses the pattern. A match that starts at offset 0 is a prefix of
/// the input.
#[verifier::external_body]
fn search(pattern: &str, input: &str, group: &str) -> (found: Option<
    (usize, String, Option<String>),
>)
    ensures
        match_view(found) == leftmost_match(pattern@, input@, group@),
        starts_input(found, input),
{
    regex::Regex::new(pattern).ok().and_then(|expression| expression.captures(input)).map(
        |found| {
            let whole = found.get_match();
            let part = found.name(group).map(|m| m.as_str().to_string());
            (whole.start(), whole.as_str().to_string(), part)
        },
    )
}

/// The name of the capture group that holds a token's text where the
/// pattern has more around it, as the quotes of a string.
pub open spec fn raw_group() -> Seq<char> {
    "raw"@
}

/// What a match means for the lexer: a match counts only where it starts
/// at offset 0 and covers a non-empty prefix of what is left. What counts
/// gives the text matched and the text that the token carries, which is what
/// the capture group covered where it took part, else all that was matched.
pub open spec fn leading(found: Option<(usize, Seq<char>, Option<Seq<char>>)>, rest: Seq<char>) -> Option<
    (Seq<char>, Seq<char>),
> {
    match found {
        Some((start, text, group)) => if start == 0 && 0 < text.len() <= rest.len()
            && rest.subrange(0, text.len() as int) == text {
            Some(
                (
                    text,
                    match group {
                        Some(part) => part,
                        None => text,
                    },
                ),
            )
        } else {
            None
        },
        None => None,
    }
}

/// The non-empty prefix of `rest` that the pattern matches, if it matches
/// one.
pub open spec fn prefix_match(pattern: Seq<char>, rest: Seq<char>) -> Option<Seq<char>> {
    match leading(leftmost_match(pattern, rest, raw_group()), rest) {
        Some((matched, _)) => Some(matched),
        None => None,
    }
}

/// The text of the token that the pattern reads at the start of `rest`:
/// what the group `raw` covers where the pattern has such a group, else all
/// that the pattern matched.
pub open spec fn token_text(pattern: Seq<char>, rest: Seq<char>) -> Seq<char> {
    match leading(leftmost_match(pattern, rest, raw_group()), rest) {
        Some((_, text)) => text,
        None => Seq::empty(),
    }
}

/// The length and the token text of what counts of a match, or zero and
/// nothing.
pub open spec fn measured(found: Option<(Seq<char>, Seq<char>)>) -> (nat, Option<Seq<char>>) {
    match found {
        Some((matched, text)) => (matched.len(), Some(text)),
        None => (0, None),
    }
}

/// What matching one pattern at the start of `rest` gives: the number of
/// characters matched and the token's text, or zero and nothing.
pub open spec fn string_match(pattern: Seq<char>, rest: Seq<char>) -> (nat, Option<Seq<char>>) {
    measured(leading(leftmost_match(pattern, rest, raw_group()), rest))
}

/// Takes what counts of a match for the lexer: the number of characters
/// matched and the token's text, or zero and nothing where the match does not
/// start the input or is empty.
pub fn leading_match(found: Option<(usize, String, Option<String>)>, input: &str) -> (counted: (
    usize,
    Option<String>,
))
    requires
        starts_input(found, input),
    ensures
        (counted.0 as nat, text_view(counted.1)) == measured(leading(match_view(found), input@)),
{
    match found {
        None => (0, None),
        Some((start, text, raw)) => {
            if start != 0 {
                return (0, None);
            }
            let length = text.as_str().unicode_len();
            if length == 0 {
                return (0, None);
            }
            match raw {
                Some(raw) => (length, Some(raw)),
                None => (length, Some(text)),
            }
        },
    }
}

/// Matches a pattern at the start of `input`: the number of characters
/// matched and the token's text, or zero and nothing. The pattern is compiled
/// for this one search.
pub fn match_pattern(pattern: &str, input: &str) -> (found: (usize, Option<String>))
    ensures
        (found.0 as nat, text_view(found.1)) == string_match(pattern@, input@),
{
    leading_match(search(pattern, input, "raw"), input)
}

/// One lexical rule: the kind of token and the pattern that recognises it.
/// The pattern is compiled once, when the rule is made.
struct Rule {
    kind: TokenType,
    pattern: String,
    /// The pattern, compiled.
    expression: Option<regex::Regex>,
}

/// The mathematical value of a [`Rule`].
pub struct RuleView {
    pub kind: TokenType,
    pub pattern: Seq<char>,
}

impl View for Rule {
    type V = RuleView;

    closed spec fn view(&self) -> RuleView {
        RuleView { kind: self.kind, pattern: self.pattern@ }
    }
}

/// The views of a list of rules, in order.
spec fn rules_view(rules: Seq<Rule>) -> Seq<RuleView> {
    Seq::new(rules.len(), |i: int| rules[i]@)
}

/// The rules in the order in which they are tried. The order decides
/// between rules that match at the same place: a decimal number before an
/// integer, a comment before the division sign, keywords and the words
/// `true` and `false` before names.
pub open spec fn rule_table() -> Seq<RuleView> {
    seq![
        RuleView { kind: TokenType::Float, pattern: "^\\d+\\.(\\d+)?"@ },
        RuleView { kind: TokenType::Integer, pattern: "^\\d+"@ },
        RuleView { kind: TokenType::String, pattern: "^'(?P<raw>[^']*)'"@ },
        RuleView { kind: TokenType::String, pattern: "^\"(?P<raw>[^\"]*)\""@ },
        RuleView { kind: TokenType::Comment, pattern: "^//[^\\n]*"@ },
        RuleView { kind: TokenType::Equal, pattern: "^="@ },
        RuleView { kind: TokenType::Plus, pattern: "^\\+"@ },
        RuleView { kind: TokenType::Minus, pattern: "^-"@ },
        RuleView { kind: TokenType::Star, pattern: "^\\*"@ },
        RuleView { kind: TokenType::Slash, pattern: "^/"@ },
        RuleView { kind: TokenType::OpenParen, pattern: "^\\("@ },
        RuleView { kind: TokenType::CloseParen, pattern: "^\\)"@ },
        RuleView { kind: TokenType::SemiColon, pattern: "^;"@ },
        RuleView { kind: TokenType::OpenBrace, pattern: "^\\{"@ },
        RuleView { kind: TokenType::CloseBrace, pattern: "^\\}"@ },
        RuleView { kind: TokenType::Comma, pattern: "^,"@ },
        RuleView { kind: TokenType::Colon, pattern: "^:"@ },
        RuleView { kind: TokenType::Let, pattern: "^let"@ },
        RuleView { kind: TokenType::Const, pattern: "^const"@ },
        RuleView { kind: TokenType::Func, pattern: "^func"@ },
        RuleView { kind: TokenType::Return, pattern: "^return"@ },
        RuleView { kind: TokenType::Print, pattern: "^print"@ },
        RuleView { kind: TokenType::IntType, pattern: "^int"@ },
        RuleView { kind: TokenType::FloatType, pattern: "^float"@ },
        RuleView { kind: TokenType::StringType, pattern: "^string"@ },
        RuleView { kind: TokenType::BoolType, pattern: "^bool"@ },
        RuleView { kind: TokenType::Bool, pattern: "^(true|false)"@ },
        RuleView { kind: TokenType::Identifier, pattern: "^[a-zA-Z_][a-zA-Z0-9_]*"@ },
        RuleView { kind: TokenType::Skipped, pattern: "^\\s+"@ },
    ]
}

/// Makes a rule.
fn rule(kind: TokenType, pattern: &str) -> (rule: Rule)
    ensures
        rule@ == (RuleView { kind, pattern: pattern@ }),
{
    Rule { kind, pattern: pattern.to_owned(), expression: compile(pattern) }
}

/// Builds the rule table.
fn token_rules() -> (rules: Vec<Rule>)
    ensures
        rules_view(rules@) == rule_table(),
{
    let mut rules: Vec<Rule> = Vec::new();
    rules.push(rule(TokenType::Float, "^\\d+\\.(\\d+)?"));
    rules.push(rule(TokenType::Integer, "^\\d+"));
    rules.push(rule(TokenType::String, "^'(?P<raw>[^']*)'"));
    rules.push(rule(TokenType::String, "^\"(?P<raw>[^\"]*)\""));
    rules.push(rule(TokenType::Comment, "^//[^\\n]*"));
    rules.push(rule(TokenType::Equal, "^="));
    rules.push(rule(TokenType::Plus, "^\\+"));
    rules.push(rule(TokenType::Minus, "^-"));
    rules.push(rule(TokenType::Star, "^\\*"));
    rules.push(rule(TokenType::Slash, "^/"));
    rules.push(rule(TokenType::OpenParen, "^\\("));
    rules.push(rule(TokenType::CloseParen, "^\\)"));
    rules.push(rule(TokenType::SemiColon, "^;"));
    rules.push(rule(TokenType::OpenBrace, "^\\{"));
    rules.push(rule(TokenType::CloseBrace, "^\\}"));
    rules.push(rule(TokenType::Comma, "^,"));
    rules.push(rule(TokenType::Colon, "^:"));
    rules.push(rule(TokenType::Let, "^let"));
    rules.push(rule(TokenType::Const, "^const"));
    rules.push(rule(TokenType::Func, "^func"));
    rules.push(rule(TokenType::Return, "^return"));
    rules.push(rule(TokenType::Print, "^print"));
    rules.push(rule(TokenType::IntType, "^int"));
    rules.push(rule(TokenType::FloatType, "^float"));
    rules.push(rule(TokenType::StringType, "^string"));
    rules.push(rule(TokenType::BoolType, "^bool"));
    rules.push(rule(TokenType::Bool, "^(true|false)"));
    rules.push(rule(TokenType::Identifier, "^[a-zA-Z_][a-zA-Z0-9_]*"));
    rules.push(rule(TokenType::Skipped, "^\\s+"));
    assert(rules_view(rules@) =~= rule_table());
    rules
}

/// The place of the first rule, from the `from`-th on, that matches at the
/// start of `rest`.
pub open spec fn first_rule(rules: Seq<RuleView>, rest: Seq<char>, from: nat) -> Option<nat>
    decreases rules.len() - from,
{
    if from >= rules.len() {
        None
    } else if prefix_match(rules[from as int].pattern, rest) is Some {
        Some(from)
    } else {
        first_rule(rules, rest, from + 1)
    }
}

/// A place in the source: how many characters lie before it, and its line
/// and column, both counted from zero.
pub struct Cursor {
    pub position: nat,
    pub line: nat,
    pub column: nat,
}

/// The cursor behind one character: a line feed starts a new line, any
/// other character moves one column on.
pub open spec fn stepped(cursor: Cursor, c: char) -> Cursor {
    if c == '\n' {
        Cursor { position: cursor.position + 1, line: cursor.line + 1, column: 0 }
    } else {
        Cursor { position: cursor.position + 1, line: cursor.line, column: cursor.column + 1 }
    }
}

/// The cursor behind a text that starts at `cursor`.
pub open spec fn moved(cursor: Cursor, text: Seq<char>) -> Cursor
    decreases text.len(),
{
    if text.len() == 0 {
        cursor
    } else {
        stepped(moved(cursor, text.drop_last()), text.last())
    }
}

/// Moving over a text moves on by its length, and neither the line nor the
/// column can get ahead of the position.
pub proof fn lemma_moved(cursor: Cursor, text: Seq<char>)
    ensures
        moved(cursor, text).position == cursor.position + text.len(),
        cursor.line <= cursor.position && cursor.column <= cursor.position ==> moved(
            cursor,
            text,
        ).line <= moved(cursor, text).position && moved(cursor, text).column <= moved(
            cursor,
            text,
        ).position,
    decreases text.len(),
{
    if text.len() > 0 {
        lemma_moved(cursor, text.drop_last());
    }
}

/// Whether tokens of this kind are dropped by the lexer.
pub open spec fn is_dropped(kind: TokenType) -> bool {
    kind == TokenType::Skipped || kind == TokenType::Comment
}

/// The next token at or behind `cursor` and the cursor behind it. At the
/// end of the source this is the end-of-input token. White space and
/// comments are passed over. `None` where no rule matches what is left.
pub open spec fn next_token(source: Seq<char>, cursor: Cursor) -> Option<(TokenView, Cursor)>
    decreases source.len() - cursor.position,
{
    if cursor.position >= source.len() {
        Some((eof_token_view(cursor.line, cursor.column), cursor))
    } else {
        let rest = source.subrange(cursor.position as int, source.len() as int);
        match first_rule(rule_table(), rest, 0) {
            None => None,
            Some(place) => {
                let rule = rule_table()[place as int];
                let matched = prefix_match(rule.pattern, rest)->Some_0;
                let after = moved(cursor, matched);
                if prefix_match(rule.pattern, rest) is None {
                    None
                } else if is_dropped(rule.kind) {
                    proof {
                        lemma_moved(cursor, matched);
                    }
                    next_token(source, after)
                } else {
                    Some(
                        (
                            TokenView {
                                kind: rule.kind,
                                value: token_text(rule.pattern, rest),
                                line: cursor.line,
                                column: cursor.column,
                                end_column: cursor.column + matched.len(),
                            },
                            after,
                        ),
                    )
                }
            },
        }
    }
}

/// The start of every source.
pub open spec fn start() -> Cursor {
    Cursor { position: 0, line: 0, column: 0 }
}

/// The next token is found behind the cursor and within the source, and
/// the cursor moves unless the source has ended.
pub proof fn lemma_next_token(source: Seq<char>, cursor: Cursor)
    requires
        cursor.position <= source.len(),
    ensures
        next_token(source, cursor) matches Some((token, after)) ==> {
            &&& cursor.position <= after.position <= source.len()
            &&& cursor.position < source.len() ==> cursor.position < after.position
            &&& cursor.position >= source.len() ==> token.kind == TokenType::EOF
        },
    decreases source.len() - cursor.position,
{
    if cursor.position < source.len() {
        let rest = source.subrange(cursor.position as int, source.len() as int);
        match first_rule(rule_table(), rest, 0) {
            None => {},
            Some(place) => {
                let rule = rule_table()[place as int];
                if prefix_match(rule.pattern, rest) is Some {
                    let matched = prefix_match(rule.pattern, rest)->Some_0;
                    lemma_moved(cursor, matched);
                    if is_dropped(rule.kind) {
                        lemma_next_token(source, moved(cursor, matched));
                    }
                }
            },
        }
    }
}

/// The tokens of the source from `cursor` on, up to and with the first
/// end-of-input token. `None` where some place in the source matches no
/// rule.
pub open spec fn tokens_from(source: Seq<char>, cursor: Cursor) -> Option<Seq<TokenView>>
    decreases source.len() - cursor.position,
{
    if cursor.position > source.len() {
        None
    } else {
        match next_token(source, cursor) {
            None => None,
            Some((token, after)) => if token.kind == TokenType::EOF {
                Some(seq![token])
            } else {
                proof {
                    lemma_next_token(source, cursor);
                }
                match tokens_from(source, after) {
                    None => None,
                    Some(rest) => Some(seq![token] + rest),
                }
            },
        }
    }
}

/// White space and comments are never handed out as tokens.
pub proof fn lemma_next_token_kind(source: Seq<char>, cursor: Cursor)
    ensures
        next_token(source, cursor) matches Some((token, _)) ==> !is_dropped(token.kind),
    decreases source.len() - cursor.position,
{
    if cursor.position < source.len() {
        let rest = source.subrange(cursor.position as int, source.len() as int);
        match first_rule(rule_table(), rest, 0) {
            None => {},
            Some(place) => {
                let rule = rule_table()[place as int];
                if prefix_match(rule.pattern, rest) is Some && is_dropped(rule.kind) {
                    let matched = prefix_match(rule.pattern, rest)->Some_0;
                    lemma_moved(cursor, matched);
                    lemma_next_token_kind(source, moved(cursor, matched));
                }
            },
        }
    }
}

/// The tokens of a source are never white space or comments, and the
/// end-of-input token is the last of them and no other.
pub proof fn lemma_tokens_from(source: Seq<char>, cursor: Cursor)
    ensures
        tokens_from(source, cursor) matches Some(tokens) ==> {
            &&& tokens.len() >= 1
            &&& tokens.last().kind == TokenType::EOF
            &&& forall|i: int|
                0 <= i < tokens.len() - 1 ==> (#[trigger] tokens[i]).kind != TokenType::EOF
            &&& forall|i: int| 0 <= i < tokens.len() ==> !is_dropped((#[trigger] tokens[i]).kind)
        },
    decreases source.len() - cursor.position,
{
    if cursor.position <= source.len() {
        lemma_next_token_kind(source, cursor);
        match next_token(source, cursor) {
            None => {},
            Some((token, after)) => {
                if token.kind != TokenType::EOF {
                    lemma_next_token(source, cursor);
                    lemma_tokens_from(source, after);
                    match tokens_from(source, after) {
                        None => {},
                        Some(rest) => {
                            let tokens = seq![token] + rest;
                            assert forall|i: int| 0 <= i < tokens.len() - 1 implies (
                            #[trigger] tokens[i]).kind != TokenType::EOF by {
                                if i > 0 {
                                    assert(tokens[i] == rest[i - 1]);
                                }
                            }
                            assert forall|i: int| 0 <= i < tokens.len() implies !is_dropped(
                                (#[trigger] tokens[i]).kind,
                            ) by {
                                if i > 0 {
                                    assert(tokens[i] == rest[i - 1]);
                                }
                            }
                            assert(tokens.last() == rest.last());
                        },
                    }
                }
            },
        }
    }
}

/// The tokens of a source text, the end-of-input token last. `None` where
/// the text is not made of tokens.
pub open spec fn token_stream(source: Seq<char>) -> Option<Seq<TokenView>> {
    tokens_from(source, start())
}

/// What a tokenizer is at: its source, its place in it, and whether it has
/// handed out the end-of-input token.
pub struct LexerState {
    pub source: Seq<char>,
    pub cursor: Cursor,
    pub finished: bool,
}

/// Whether the tokenizer can hand out what comes next: it has finished, or
/// a token is found at its place.
pub open spec fn can_continue(state: LexerState) -> bool {
    state.finished || next_token(state.source, state.cursor) is Some
}

/// What the tokenizer hands out next: nothing once it has finished, else
/// the next token.
pub open spec fn next_item(state: LexerState) -> Option<TokenView> {
    if state.finished {
        None
    } else {
        Some(next_token(state.source, state.cursor)->Some_0.0)
    }
}

/// The tokenizer after it has handed out the next item. The end-of-input
/// token finishes it.
pub open spec fn after_next(state: LexerState) -> LexerState {
    if state.finished {
        state
    } else {
        let found = next_token(state.source, state.cursor)->Some_0;
        LexerState {
            source: state.source,
            cursor: found.1,
            finished: found.0.kind == TokenType::EOF,
        }
    }
}

/// The cursor with the given position, line and column.
pub open spec fn cursor_at(position: usize, line: usize, column: usize) -> Cursor {
    Cursor { position: position as nat, line: line as nat, column: column as nat }
}

/// Tells whether tokens of this kind are dropped.
fn dropped(kind: TokenType) -> (drop: bool)
    ensures
        drop == is_dropped(kind),
{
    kind == TokenType::Skipped || kind == TokenType::Comment
}

/// The number of bytes that a character takes.
fn width(c: char) -> (bytes: usize)
    ensures
        bytes == encode_scalar(c as u32).len(),
{
    let scalar: u32 = c as u32;
    if scalar <= 0x7F {
        1
    } else if scalar <= 0x7FF {
        2
    } else if scalar <= 0xFFFF {
        proof {
            char_is_scalar(c);
        }
        3
    } else {
        4
    }
}

/// Moves a cursor over a text.
fn advance(from: usize, from_line: usize, from_column: usize, text: &str) -> (after: (
    usize,
    usize,
    usize,
))
    requires
        from + text@.len() <= usize::MAX,
        from_line <= from,
        from_column <= from,
    ensures
        cursor_at(after.0, after.1, after.2) == moved(
            cursor_at(from, from_line, from_column),
            text@,
        ),
{
    let ghost origin = cursor_at(from, from_line, from_column);
    let count = text.unicode_len();
    let mut rest = text;
    let mut position = from;
    let mut line = from_line;
    let mut column = from_column;
    let mut i: usize = 0;
    assert(rest@ =~= text@.subrange(0, count as int));
    while i < count
        invariant
            i <= count,
            count == text@.len(),
            origin.position + count <= usize::MAX,
            position == origin.position + i,
            line <= position,
            column <= position,
            rest@ == text@.subrange(i as int, count as int),
            cursor_at(position, line, column) == moved(origin, text@.subrange(0, i as int)),
        decreases count - i,
    {
        let c = rest.get_char(0);
        proof {
            let longer = text@.subrange(0, i + 1);
            assert(longer.drop_last() =~= text@.subrange(0, i as int));
            assert(longer.last() == c);
            let first = rest@.subrange(0, 1);
            assert(first.drop_first() =~= Seq::empty());
            assert(encode_utf8(first) =~= encode_scalar(c as u32)) by {
                reveal_with_fuel(encode_utf8, 2);
            }
        }
        rest = tail_at(rest, width(c), Ghost(1));
        assert(rest@ =~= text@.subrange(i + 1, count as int));
        position += 1;
        if c == '\n' {
            line += 1;
            column = 0;
        } else {
            column += 1;
        }
        i += 1;
    }
    assert(text@.subrange(0, count as int) =~= text@);
    (position, line, column)
}

/// The bytes of two texts, one behind the other, are the bytes of the first
/// and then those of the second, and the second starts at a character
/// boundary.
proof fn lemma_bytes_of_joined(first: Seq<char>, second: Seq<char>)
    ensures
        encode_utf8(first + second) == encode_utf8(first) + encode_utf8(second),
        is_char_boundary(encode_utf8(first + second), encode_utf8(first).len() as int),
    decreases first.len(),
{
    let joined = first + second;
    encode_utf8_valid_utf8(joined);
    if first.len() == 0 {
        assert(joined =~= second);
        assert(encode_utf8(first) + encode_utf8(second) =~= encode_utf8(second));
    } else {
        assert(joined.drop_first() =~= first.drop_first() + second);
        lemma_bytes_of_joined(first.drop_first(), second);
        let head = encode_scalar(first[0] as u32);
        assert(joined[0] == first[0]);
        assert(encode_utf8(joined) =~= encode_utf8(first) + encode_utf8(second));
        encode_utf8_first_scalar(joined);
        assert(pop_first_scalar(encode_utf8(joined)) =~= encode_utf8(joined.drop_first()));
        assert(encode_utf8(first).len() == head.len() + encode_utf8(first.drop_first()).len());
    }
}

/// The number of bytes that the first `count` characters of a text take.
pub open spec fn bytes_before(text: Seq<char>, count: nat) -> nat {
    encode_utf8(text.subrange(0, count as int)).len()
}

/// The text behind its first `count` characters, which take `bytes` bytes.
fn tail_at<'a>(text: &'a str, bytes: usize, Ghost(count): Ghost<nat>) -> (left: &'a str)
    requires
        count <= text@.len(),
        bytes == bytes_before(text@, count),
    ensures
        left@ == text@.subrange(count as int, text@.len() as int),
{
    let ghost head = text@.subrange(0, count as int);
    let ghost tail = text@.subrange(count as int, text@.len() as int);
    proof {
        assert(text@ =~= head + tail);
        lemma_bytes_of_joined(head, tail);
        assert(text.spec_bytes() == encode_utf8(head) + encode_utf8(tail));
    }
    let (_, left) = text.split_at(bytes);
    proof {
        assert(left.spec_bytes() =~= encode_utf8(tail));
        encode_utf8_decode_utf8(left@);
        encode_utf8_decode_utf8(tail);
    }
    left
}

/// The text behind a part that starts it.
fn behind<'a>(rest: &'a str, covered: &str) -> (left: &'a str)
    requires
        covered@.len() <= rest@.len(),
        covered@ == rest@.subrange(0, covered@.len() as int),
    ensures
        left@ == rest@.subrange(covered@.len() as int, rest@.len() as int),
{
    tail_at(rest, covered.as_bytes().len(), Ghost(covered@.len()))
}

/// The number of bytes of a text that lie before a tail of it.
fn bytes_ahead(text: &str, left: &str, Ghost(count): Ghost<nat>) -> (bytes: usize)
    requires
        count <= text@.len(),
        left@ == text@.subrange(count as int, text@.len() as int),
    ensures
        bytes == bytes_before(text@, count),
{
    let ghost head = text@.subrange(0, count as int);
    proof {
        assert(text@ =~= head + left@);
        lemma_bytes_of_joined(head, left@);
        assert(text.spec_bytes() == encode_utf8(head) + encode_utf8(left@));
    }
    text.as_bytes().len() - left.as_bytes().len()
}

/// Cuts source text into tokens.
pub struct Tokenizer {
    position: usize,
    /// The number of bytes of the source before `position`.
    offset: usize,
    source: String,
    length: usize,
    line: usize,
    column: usize,
    finished: bool,
    rules: Vec<Rule>,
}

impl View for Tokenizer {
    type V = LexerState;

    closed spec fn view(&self) -> LexerState {
        LexerState {
            source: self.source@,
            cursor: Cursor {
                position: self.position as nat,
                line: self.line as nat,
                column: self.column as nat,
            },
            finished: self.finished,
        }
    }
}

impl Tokenizer {
    /// What holds of every tokenizer: it stands within its source, and it
    /// has the rule table.
    pub closed spec fn well_formed(self) -> bool {
        &&& self.length == self.source@.len()
        &&& self.position <= self.length
        &&& self.offset == bytes_before(self.source@, self.position as nat)
        &&& self.line <= self.position
        &&& self.column <= self.position
        &&& rules_view(self.rules@) == rule_table()
    }

    /// A tokenizer at the start of the source.
    pub fn new(source: &str) -> (tokenizer: Tokenizer)
        ensures
            tokenizer.well_formed(),
            tokenizer@ == (LexerState { source: source@, cursor: start(), finished: false }),
    {
        assert(source@.subrange(0, 0) =~= Seq::empty());
        Tokenizer {
            position: 0,
            offset: 0,
            source: source.to_owned(),
            length: source.unicode_len(),
            line: 0,
            column: 0,
            finished: false,
            rules: token_rules(),
        }
    }

    /// How many characters of the source lie before the tokenizer's place.
    pub fn position(&self) -> (position: usize)
        ensures
            position == self@.cursor.position,
    {
        self.position
    }

    /// The line of the tokenizer's place, counted from zero.
    pub fn line(&self) -> (line: usize)
        ensures
            line == self@.cursor.line,
    {
        self.line
    }

    /// The column of the tokenizer's place, counted from zero.
    pub fn column(&self) -> (column: usize)
        ensures
            column == self@.cursor.column,
    {
        self.column
    }

    /// Matches one rule at the start of `input`: the number of characters
    /// matched and the token's text, or zero and nothing. The rule's compiled
    /// expression does the search; should there be none, or should it report
    /// another pattern than the rule's, the pattern is compiled for this
    /// search.
    fn match_string(rule: &Rule, input: &str) -> (found: (usize, Option<String>))
        ensures
            (found.0 as nat, text_view(found.1)) == string_match(rule@.pattern, input@),
    {
        match &rule.expression {
            Some(expression) => {
                let (pattern, found) = search_with(expression, input, "raw");
                if pattern == rule.pattern {
                    leading_match(found, input)
                } else {
                    match_pattern(rule.pattern.as_str(), input)
                }
            },
            None => match_pattern(rule.pattern.as_str(), input),
        }
    }

    /// Finds the first rule that matches at the start of `rest`: its place,
    /// the number of characters matched and the token's text.
    fn first_match(&self, rest: &str) -> (found: Option<(usize, usize, String)>)
        requires
            self.well_formed(),
        ensures
            match first_rule(rule_table(), rest@, 0) {
                None => found is None,
                Some(place) => found matches Some(m) && m.0 == place && place < rule_table().len()
                    && self.rules@[m.0 as int]@ == rule_table()[place as int] && (
                    m.1 as nat,
                    Some(m.2@),
                ) == string_match(rule_table()[place as int].pattern, rest@),
            },
    {
        let mut i: usize = 0;
        while i < self.rules.len()
            invariant
                i <= self.rules.len(),
                self.rules@.len() == rule_table().len(),
                rules_view(self.rules@) == rule_table(),
                first_rule(rule_table(), rest@, 0) == first_rule(rule_table(), rest@, i as nat),
            decreases self.rules.len() - i,
        {
            assert(rules_view(self.rules@)[i as int] == self.rules@[i as int]@);
            let (length, value) = Tokenizer::match_string(&self.rules[i], rest);
            match value {
                Some(text) => {
                    return Some((i, length, text));
                },
                None => {},
            }
            i += 1;
        }
        None
    }

    /// What is left of the source at the tokenizer's place.
    fn rest(&self) -> (rest: &str)
        requires
            self.well_formed(),
        ensures
            rest@ == self@.source.subrange(self.position as int, self.length as int),
    {
        tail_at(self.source.as_str(), self.offset, Ghost(self.position as nat))
    }

    /// Finds the next token in `rest`, which is the source from the given
    /// place on: the token, what is left of `rest` behind it, and the place
    /// there.
    fn scan_rest<'a>(&self, rest: &'a str, from: usize, from_line: usize, from_column: usize) -> (found:
        Option<(Token, &'a str, usize, usize, usize)>)
        requires
            self.well_formed(),
            from <= self.length,
            from_line <= from,
            from_column <= from,
            rest@ == self@.source.subrange(from as int, self.length as int),
        ensures
            match next_token(self@.source, cursor_at(from, from_line, from_column)) {
                None => found is None,
                Some((token, after)) => found matches Some(f) && f.0@ == token && cursor_at(
                    f.2,
                    f.3,
                    f.4,
                ) == after && f.2 <= self.length && f.3 <= f.2 && f.4 <= f.2 && f.1@
                    == self@.source.subrange(f.2 as int, self.length as int),
            },
    {
        let ghost origin = cursor_at(from, from_line, from_column);
        let mut position = from;
        let mut line = from_line;
        let mut column = from_column;
        let mut rest = rest;
        while position < self.length
            invariant
                self.well_formed(),
                origin == cursor_at(from, from_line, from_column),
                rest@ == self@.source.subrange(position as int, self.length as int),
                position <= self.length,
                line <= position,
                column <= position,
                next_token(self@.source, origin) == next_token(
                    self@.source,
                    cursor_at(position, line, column),
                ),
            decreases self.length - position,
        {
            let ghost cursor = cursor_at(position, line, column);
            match self.first_match(rest) {
                None => {
                    return None;
                },
                Some((place, count, value)) => {
                    let kind = self.rules[place].kind;
                    let ghost pattern = rule_table()[place as int].pattern;
                    let ghost matched = prefix_match(pattern, rest@)->Some_0;
                    let covered = rest.substring_char(0, count);
                    let (next_position, next_line, next_column) = advance(
                        position,
                        line,
                        column,
                        covered,
                    );
                    proof {
                        lemma_moved(cursor, matched);
                    }
                    rest = behind(rest, covered);
                    assert(rest@ =~= self@.source.subrange(
                        next_position as int,
                        self.length as int,
                    ));
                    if dropped(kind) {
                        position = next_position;
                        line = next_line;
                        column = next_column;
                    } else {
                        let token = Token {
                            kind,
                            value,
                            line,
                            column,
                            end_column: column + count,
                        };
                        return Some((token, rest, next_position, next_line, next_column));
                    }
                },
            }
        }
        Some((Token::eof(line, column), rest, position, line, column))
    }

    /// Tells whether [`Tokenizer::next`] can be called: whether the
    /// tokenizer has finished or a token is found at its place.
    pub fn has_next(&self) -> (can: bool)
        requires
            self.well_formed(),
        ensures
            can == can_continue(self@),
    {
        self.finished || self.scan_rest(
            self.rest(),
            self.position,
            self.line,
            self.column,
        ).is_some()
    }

    /// Hands out the next token and moves behind it. The end-of-input
    /// token comes once, at the end of the source; after it nothing comes.
    pub fn next(&mut self) -> (token: Option<Token>)
        requires
            old(self).well_formed(),
            can_continue(old(self)@),
        ensures
            final(self).well_formed(),
            final(self)@ == after_next(old(self)@),
            match token {
                Some(token) => next_item(old(self)@) == Some(token@),
                None => next_item(old(self)@) is None,
            },
    {
        if self.finished {
            return None;
        }
        let (token, left, position, line, column) = self.scan_rest(
            self.rest(),
            self.position,
            self.line,
            self.column,
        ).unwrap();
        let offset = bytes_ahead(self.source.as_str(), left, Ghost(position as nat));
        self.offset = offset;
        self.position = position;
        self.line = line;
        self.column = column;
        self.finished = token.kind == TokenType::EOF;
        Some(token)
    }

    /// Hands out the next token where there is one to hand out. Where no
    /// rule matches at the tokenizer's place the result is `None` and the
    /// tokenizer stays as it is.
    pub fn try_next(&mut self) -> (token: Option<Option<Token>>)
        requires
            old(self).well_formed(),
        ensures
            final(self).well_formed(),
            can_continue(old(self)@) ==> token is Some && final(self)@ == after_next(old(self)@)
                && match token->Some_0 {
                Some(token) => next_item(old(self)@) == Some(token@),
                None => next_item(old(self)@) is None,
            },
            !can_continue(old(self)@) ==> token is None && final(self)@ == old(self)@,
    {
        if self.has_next() {
            Some(self.next())
        } else {
            None
        }
    }
}

/// Tells whether a source text is made of tokens.
pub fn lexes(source: &str) -> (made: bool)
    ensures
        made == (token_stream(source@) is Some),
{
    let tokenizer = Tokenizer::new(source);
    let mut rest = source;
    let mut position: usize = 0;
    let mut line: usize = 0;
    let mut column: usize = 0;
    assert(rest@ =~= source@.subrange(0, source@.len() as int));
    loop
        invariant
            tokenizer.well_formed(),
            tokenizer@.source == source@,
            position <= tokenizer.length,
            line <= position,
            column <= position,
            rest@ == source@.subrange(position as int, tokenizer.length as int),
            (token_stream(source@) is Some) == (tokens_from(
                source@,
                cursor_at(position, line, column),
            ) is Some),
        decreases source@.len() - position,
    {
        proof {
            lemma_next_token(source@, cursor_at(position, line, column));
        }
        match tokenizer.scan_rest(rest, position, line, column) {
            None => {
                return false;
            },
            Some((token, left, next_position, next_line, next_column)) => {
                if token.kind == TokenType::EOF {
                    return true;
                }
                rest = left;
                position = next_position;
                line = next_line;
                column = next_column;
            },
        }
    }
}

/// Cuts a source text into its tokens, the end-of-input token last. The
/// text must be made of tokens.
pub fn tokenize(source: &str) -> (tokens: Vec<Token>)
    requires
        token_stream(source@) is Some,
    ensures
        Some(tokens_view(tokens@)) == token_stream(source@),
{
    let tokenizer = Tokenizer::new(source);
    let mut tokens: Vec<Token> = Vec::new();
    let mut rest = source;
    let mut position: usize = 0;
    let mut line: usize = 0;
    let mut column: usize = 0;
    assert(rest@ =~= source@.subrange(0, source@.len() as int));
    assert(tokens_view(tokens@) + token_stream(source@)->Some_0 =~= token_stream(source@)->Some_0);
    loop
        invariant
            tokenizer.well_formed(),
            tokenizer@.source == source@,
            position <= tokenizer.length,
            line <= position,
            column <= position,
            rest@ == source@.subrange(position as int, tokenizer.length as int),
            token_stream(source@) is Some,
            tokens_from(source@, cursor_at(position, line, column)) is Some,
            token_stream(source@) == Some(
                tokens_view(tokens@) + tokens_from(
                    source@,
                    cursor_at(position, line, column),
                )->Some_0,
            ),
        decreases source@.len() - position,
    {
        proof {
            lemma_next_token(source@, cursor_at(position, line, column));
        }
        let ghost read = tokens_view(tokens@);
        let ghost coming = tokens_from(source@, cursor_at(position, line, column))->Some_0;
        let (token, left, next_position, next_line, next_column) = tokenizer.scan_rest(
            rest,
            position,
            line,
            column,
        ).unwrap();
        let last = token.kind == TokenType::EOF;
        tokens.push(token);
        proof {
            assert(tokens_view(tokens@) =~= read.push(token@));
            if last {
                assert(coming == seq![token@]);
                assert(read + coming =~= tokens_view(tokens@));
            } else {
                let more = tokens_from(
                    source@,
                    cursor_at(next_position, next_line, next_column),
                )->Some_0;
                assert(coming == seq![token@] + more);
                assert(read + coming =~= tokens_view(tokens@) + more);
            }
        }
        if last {
            return tokens;
        }
        rest = left;
        position = next_position;
        line = next_line;
        column = next_column;
    }
}

/// Cuts a source text into its tokens, or gives `None` where the text is
/// not made of tokens.
pub fn try_tokenize(source: &str) -> (tokens: Option<Vec<Token>>)
    ensures
        text_tokens(tokens) == token_stream(source@),
{
    if lexes(source) {
        Some(tokenize(source))
    } else {
        None
    }
}

/// The views of optional tokens.
pub open spec fn text_tokens(tokens: Option<Vec<Token>>) -> Option<Seq<TokenView>> {
    match tokens {
        Some(tokens) => Some(tokens_view(tokens@)),
        None => None,
    }
}

} // verus!
