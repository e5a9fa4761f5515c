//! The token model: the closed set of lexical categories and the token record.

use vstd::prelude::*;

pub mod tokenizer;

verus! {

/// The lexical category of a token.
#[derive(Debug, Clone, Copy, PartialEq, Eq, Structural)]
pub enum TokenType {
    // Literals
    Integer,
    Float,
    String,
    Bool,
    // Symbols
    Equal,
    Plus,
    Minus,
    Star,
    Slash,
    OpenParen,
    CloseParen,
    SemiColon,
    OpenBrace,
    CloseBrace,
    Comma,
    Colon,
    // Keywords
    Let,
    Const,
    Func,
    Return,
    Print,
    IntType,
    FloatType,
    StringType,
    BoolType,
    // Special tokens
    Comment,
    Identifier,
    Skipped,
    EOF,
}

/// One token: its category, its text, and where it stood in the source.
/// Lines and columns count characters from zero; `end_column` is `column`
/// plus the number of characters that the token covers in the source.
#[derive(Debug, Clone, PartialEq)]
pub struct Token {
    pub kind: TokenType,
    pub value: String,
    pub line: usize,
    pub column: usize,
    pub end_column: usize,
}

/// The mathematical value of a [`Token`].
pub struct TokenView {
    pub kind: TokenType,
    pub value: Seq<char>,
    pub line: nat,
    pub column: nat,
    pub end_column: nat,
}

impl View for Token {
    type V = TokenView;

    open spec fn view(&self) -> TokenView {
        TokenView {
            kind: self.kind,
            value: self.value@,
            line: self.line as nat,
            column: self.column as nat,
            end_column: self.end_column as nat,
        }
    }
}

/// The views of a list of tokens, in order.
pub open spec fn tokens_view(tokens: Seq<Token>) -> Seq<TokenView> {
    Seq::new(tokens.len(), |i: int| tokens[i]@)
}

/// The text that every end-of-input token carries.
pub open spec fn eof_text() -> Seq<char> {
    "EOF"@
}

/// The end-of-input token at the given place.
pub open spec fn eof_token_view(line: nat, column: nat) -> TokenView {
    TokenView { kind: TokenType::EOF, value: eof_text(), line, column, end_column: column }
}

impl Token {
    /// Builds the end-of-input token for the given place.
    pub fn eof(line: usize, column: usize) -> (token: Token)
        ensures
            token@ == eof_token_view(line as nat, column as nat),
    {
        Token { kind: TokenType::EOF, value: "EOF".to_string(), line, column, end_column: column }
    }

    /// A copy of this token.
    pub fn duplicate(&self) -> (token: Token)
        ensures
            token@ == self@,
    {
        Token {
            kind: self.kind,
            value: self.value.clone(),
            line: self.line,
            column: self.column,
            end_column: self.end_column,
        }
    }
}

} // verus!
