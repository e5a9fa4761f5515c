//! The recursive-descent parser. It holds the tokens that are left and
//! reads them one at a time, looking no further ahead than the next token.

use vstd::prelude::*;
use crate::ast::atom::Atom;
use crate::ast::expr::{Expr, ExprView, exprs_view};
use crate::ast::program::Program;
use crate::ast::stmt::{Stmt, StmtView, names_view, stmts_view, well_formed_stmts};
use crate::lexer::tokenizer::{lexes, token_stream, tokenize};
use crate::lexer::{Token, TokenType, TokenView, tokens_view};
use crate::literal::{parse_decimal, parse_integer};
use crate::parser::grammar::{
    additive, arguments, assignment, block, block_items, call, closed_expression, expect, expression, func_declaration, kind_at, more_arguments, more_factors,
    more_parameters, more_terms, multiplicative, parameters, peek_view, primary, print_stmt,
    program, program_items, rest_after, return_stmt, statement, var_declaration,
};

pub mod grammar;

verus! {

/// Whether an optional expression is what the grammar reads, the tokens
/// left are those behind it, and at least one token was read.
pub open spec fn reads_expr(
    before: Seq<TokenView>,
    expected: Option<(ExprView, Seq<TokenView>)>,
    result: Option<Expr>,
    after: Seq<TokenView>,
) -> bool {
    match expected {
        Some((value, rest)) => result is Some && result->Some_0@ == value && after == rest
            && rest.len() < before.len(),
        None => result is None,
    }
}

/// Whether an optional statement is what the grammar reads, the tokens
/// left are those behind it, and at least one token was read. What is read
/// is well formed.
pub open spec fn reads_stmt(
    before: Seq<TokenView>,
    expected: Option<(StmtView, Seq<TokenView>)>,
    result: Option<Stmt>,
    after: Seq<TokenView>,
) -> bool {
    match expected {
        Some((value, rest)) => result is Some && result->Some_0@ == value && after == rest
            && rest.len() < before.len() && value.well_formed(),
        None => result is None,
    }
}

/// Turns a list around.
fn reversed(tokens: Vec<Token>) -> (turned: Vec<Token>)
    ensures
        turned@.len() == tokens@.len(),
        forall|i: int|
            0 <= i < tokens@.len() ==> (#[trigger] turned@[i])@ == tokens@[tokens@.len() - 1 - i]@,
{
    let mut tokens = tokens;
    let ghost all = tokens@;
    let mut turned: Vec<Token> = Vec::new();
    while tokens.len() > 0
        invariant
            tokens@.len() + turned@.len() == all.len(),
            tokens@ == all.subrange(0, tokens@.len() as int),
            forall|i: int|
                0 <= i < turned@.len() ==> (#[trigger] turned@[i])@ == all[all.len() - 1 - i]@,
        decreases tokens.len(),
    {
        let token = tokens.pop().unwrap();
        assert(tokens@ =~= all.subrange(0, tokens@.len() as int));
        turned.push(token);
    }
    turned
}

/// The parser: the tokens that are left to read.
pub struct Parser {
    tokens: Vec<Token>,
}

impl View for Parser {
    type V = Seq<TokenView>;

    /// The tokens that are left, the next one first.
    closed spec fn view(&self) -> Seq<TokenView> {
        Seq::new(self.tokens@.len(), |i: int| self.tokens@[self.tokens@.len() - 1 - i]@)
    }
}

impl Parser {
    /// A parser for the tokens of a source text. The text must be made of
    /// tokens.
    pub fn new(source: &str) -> (parser: Parser)
        requires
            token_stream(source@) is Some,
        ensures
            Some(parser@) == token_stream(source@),
    {
        Parser::from_tokens(tokenize(source))
    }

    /// A parser for the given tokens, the first of which is read first.
    pub fn from_tokens(tokens: Vec<Token>) -> (parser: Parser)
        ensures
            parser@ == tokens_view(tokens@),
    {
        let parser = Parser { tokens: reversed(tokens) };
        assert(parser@ =~= tokens_view(tokens@));
        parser
    }

    /// A parser for the tokens of a source text, or `None` where the text
    /// is not made of tokens.
    pub fn try_new(source: &str) -> (parser: Option<Parser>)
        ensures
            match parser {
                Some(parser) => Some(parser@) == token_stream(source@),
                None => token_stream(source@) is None,
            },
    {
        if lexes(source) {
            Some(Parser::new(source))
        } else {
            None
        }
    }

    /// The kind of the next token.
    fn kind(&self) -> (kind: TokenType)
        ensures
            kind == kind_at(self@),
    {
        if self.tokens.len() == 0 {
            TokenType::EOF
        } else {
            self.tokens[self.tokens.len() - 1].kind
        }
    }

    /// The next token, which stays unread. Where no token is left it is
    /// an end-of-input token.
    pub fn peek(&self) -> (token: Token)
        ensures
            token@ == peek_view(self@),
    {
        if self.tokens.len() == 0 {
            Token::eof(0, 0)
        } else {
            self.tokens[self.tokens.len() - 1].duplicate()
        }
    }

    /// Reads the next token, which must be of the given kind.
    pub fn eat(&mut self, token_type: TokenType) -> (token: Token)
        requires
            kind_at(old(self)@) == token_type,
        ensures
            Some((token@, final(self)@)) == expect(old(self)@, token_type),
    {
        self.advance()
    }

    /// Reads the next token. Where no token is left it is an end-of-input
    /// token.
    pub fn advance(&mut self) -> (token: Token)
        ensures
            token@ == peek_view(old(self)@),
            final(self)@ == rest_after(old(self)@),
    {
        match self.tokens.pop() {
            None => {
                assert(self@ =~= old(self)@);
                Token::eof(0, 0)
            },
            Some(token) => {
                assert(self@ =~= old(self)@.drop_first());
                token
            },
        }
    }

    /// Reads the next token if it is of the given kind.
    fn take(&mut self, token_type: TokenType) -> (token: Option<Token>)
        ensures
            match expect(old(self)@, token_type) {
                Some((read, rest)) => token is Some && token->Some_0@ == read && final(self)@
                    == rest,
                None => token is None && final(self)@ == old(self)@,
            },
    {
        if self.kind() == token_type {
            Some(self.advance())
        } else {
            None
        }
    }

    /// Reads a whole program. The tokens must write one.
    pub fn parse(&mut self) -> (parsed: Program)
        requires
            program(old(self)@) is Some,
        ensures
            Some(parsed@) == program(old(self)@),
            well_formed_stmts(parsed@),
            final(self)@ == program_items(Seq::empty(), old(self)@)->Some_0.1,
    {
        Program { statements: self.parse_items().unwrap() }
    }

    /// Tells whether the tokens that are left write a program.
    pub fn parses(&self) -> (written: bool)
        ensures
            written == (program(self@) is Some),
    {
        let mut copies: Vec<Token> = Vec::new();
        let mut i: usize = 0;
        while i < self.tokens.len()
            invariant
                i <= self.tokens.len(),
                copies@.len() == i,
                forall|k: int| 0 <= k < i ==> (#[trigger] copies@[k])@ == self.tokens@[k]@,
            decreases self.tokens.len() - i,
        {
            copies.push(self.tokens[i].duplicate());
            i += 1;
        }
        let mut probe = Parser { tokens: copies };
        assert(probe@ =~= self@);
        probe.parse_items().is_some()
    }

    /// Reads a whole program where the tokens write one; else the result
    /// is `None` and the parser stays as it is.
    pub fn try_parse(&mut self) -> (parsed: Option<Program>)
        ensures
            match parsed {
                Some(parsed) => Some(parsed@) == program(old(self)@)
                    && well_formed_stmts(parsed@) && final(self)@
                    == program_items(Seq::empty(), old(self)@)->Some_0.1,
                None => program(old(self)@) is None && final(self)@ == old(self)@,
            },
    {
        if self.parses() {
            Some(self.parse())
        } else {
            None
        }
    }

    /// Reads the statements of a program, up to the end of the input.
    fn parse_items(&mut self) -> (items: Option<Vec<Stmt>>)
        ensures
            match program_items(Seq::empty(), old(self)@) {
                Some((read, rest)) => items is Some && stmts_view(items->Some_0@) == read
                    && final(self)@ == rest && well_formed_stmts(read),
                None => items is None,
            },
    {
        let mut statements: Vec<Stmt> = Vec::new();
        let mut kind = self.kind();
        assert(stmts_view(statements@) =~= Seq::empty());
        while kind != TokenType::EOF
            invariant
                kind == kind_at(self@),
                program_items(Seq::empty(), old(self)@) == program_items(
                    stmts_view(statements@),
                    self@,
                ),
                well_formed_stmts(stmts_view(statements@)),
            decreases self@.len(),
        {
            if kind == TokenType::Comment {
                self.eat(TokenType::Comment);
            } else {
                let ghost read = stmts_view(statements@);
                match self.parse_statement() {
                    Some(stmt) => {
                        statements.push(stmt);
                        assert(stmts_view(statements@) =~= read.push(stmt@));
                    },
                    None => {
                        return None;
                    },
                }
            }
            kind = self.kind();
        }
        Some(statements)
    }

    /// statement ::= varDecl | funcDecl | return | block | print | expression
    fn parse_statement(&mut self) -> (stmt: Option<Stmt>)
        ensures
            reads_stmt(old(self)@, statement(old(self)@), stmt, final(self)@),
        decreases old(self)@.len(), 8nat,
    {
        match self.kind() {
            TokenType::Let => self.parse_var_declaration(),
            TokenType::Const => self.parse_var_declaration(),
            TokenType::Func => self.parse_func_declaration(),
            TokenType::Return => self.parse_return_stmt(),
            TokenType::OpenBrace => self.parse_block_stmt(),
            TokenType::Print => self.parse_print_stmt(),
            _ => match self.parse_expression() {
                Some(expr) => Some(Stmt::Expression(expr)),
                None => None,
            },
        }
    }

    /// expression ::= assignment
    fn parse_expression(&mut self) -> (expr: Option<Expr>)
        ensures
            reads_expr(old(self)@, expression(old(self)@), expr, final(self)@),
        decreases old(self)@.len(), 5nat,
    {
        self.parse_assignment_expr()
    }

    /// Reads an expression and the semicolon behind it.
    fn parse_closed_expression(&mut self) -> (expr: Option<Expr>)
        ensures
            reads_expr(old(self)@, closed_expression(old(self)@), expr, final(self)@),
        decreases old(self)@.len(), 6nat,
    {
        let expr = match self.parse_expression() {
            Some(expr) => expr,
            None => {
                return None;
            },
        };
        match self.take(TokenType::SemiColon) {
            Some(_) => Some(expr),
            None => None,
        }
    }

    /// print ::= print expression ;
    fn parse_print_stmt(&mut self) -> (stmt: Option<Stmt>)
        ensures
            reads_stmt(old(self)@, print_stmt(old(self)@), stmt, final(self)@),
        decreases old(self)@.len(), 7nat,
    {
        if self.take(TokenType::Print).is_none() {
            return None;
        }
        match self.parse_closed_expression() {
            Some(expr) => Some(Stmt::Print(expr)),
            None => None,
        }
    }

    /// block ::= { statement* }
    fn parse_block_stmt(&mut self) -> (stmt: Option<Stmt>)
        ensures
            reads_stmt(old(self)@, block(old(self)@), stmt, final(self)@),
            stmt matches Some(read) ==> read@ is Block,
        decreases old(self)@.len(), 7nat,
    {
        if self.take(TokenType::OpenBrace).is_none() {
            return None;
        }
        let ghost inside = self@;
        let mut statements: Vec<Stmt> = Vec::new();
        let mut kind = self.kind();
        assert(stmts_view(statements@) =~= Seq::empty());
        while kind != TokenType::CloseBrace
            invariant
                kind == kind_at(self@),
                self@.len() <= inside.len(),
                inside.len() < old(self)@.len(),
                kind_at(old(self)@) == TokenType::OpenBrace,
                inside == rest_after(old(self)@),
                block_items(Seq::empty(), inside) == block_items(stmts_view(statements@), self@),
                well_formed_stmts(stmts_view(statements@)),
            decreases self@.len(),
        {
            let ghost read = stmts_view(statements@);
            match self.parse_statement() {
                Some(stmt) => {
                    statements.push(stmt);
                    assert(stmts_view(statements@) =~= read.push(stmt@));
                },
                None => {
                    return None;
                },
            }
            kind = self.kind();
        }
        self.eat(TokenType::CloseBrace);
        proof {
            Stmt::lemma_block_view(statements);
        }
        Some(Stmt::Block(statements))
    }

    /// return ::= return expression ;
    fn parse_return_stmt(&mut self) -> (stmt: Option<Stmt>)
        ensures
            reads_stmt(old(self)@, return_stmt(old(self)@), stmt, final(self)@),
        decreases old(self)@.len(), 7nat,
    {
        if self.take(TokenType::Return).is_none() {
            return None;
        }
        match self.parse_closed_expression() {
            Some(expr) => Some(Stmt::Return(expr)),
            None => None,
        }
    }

    /// Reads the parameter names of a function declaration, up to the
    /// closing parenthesis.
    fn parse_parameters(&mut self) -> (names: Option<Vec<String>>)
        ensures
            match parameters(old(self)@) {
                Some((read, rest)) => names is Some && names_view(names->Some_0@) == read
                    && final(self)@ == rest && rest.len() <= old(self)@.len(),
                None => names is None,
            },
    {
        let mut names: Vec<String> = Vec::new();
        if self.kind() == TokenType::CloseParen {
            assert(names_view(names@) =~= Seq::empty());
            return Some(names);
        }
        match self.take(TokenType::Identifier) {
            Some(token) => {
                names.push(token.value);
                assert(names_view(names@) =~= seq![token@.value]);
            },
            None => {
                return None;
            },
        }
        let ghost first = names_view(names@);
        let ghost behind = self@;
        let mut kind = self.kind();
        while kind == TokenType::Comma
            invariant
                kind == kind_at(self@),
                self@.len() <= behind.len(),
                parameters(old(self)@) == more_parameters(first, behind),
                more_parameters(first, behind) == more_parameters(names_view(names@), self@),
            decreases self@.len(),
        {
            self.eat(TokenType::Comma);
            let ghost read = names_view(names@);
            match self.take(TokenType::Identifier) {
                Some(token) => {
                    names.push(token.value);
                    assert(names_view(names@) =~= read.push(token@.value));
                },
                None => {
                    return None;
                },
            }
            kind = self.kind();
        }
        Some(names)
    }

    /// funcDecl ::= func Identifier ( (Identifier (, Identifier)*)? ) block
    fn parse_func_declaration(&mut self) -> (stmt: Option<Stmt>)
        ensures
            reads_stmt(old(self)@, func_declaration(old(self)@), stmt, final(self)@),
        decreases old(self)@.len(), 7nat,
    {
        if self.take(TokenType::Func).is_none() {
            return None;
        }
        let identifier = match self.take(TokenType::Identifier) {
            Some(token) => token.value,
            None => {
                return None;
            },
        };
        if self.take(TokenType::OpenParen).is_none() {
            return None;
        }
        let parameters = match self.parse_parameters() {
            Some(names) => names,
            None => {
                return None;
            },
        };
        if self.take(TokenType::CloseParen).is_none() {
            return None;
        }
        match self.parse_block_stmt() {
            Some(body) => Some(Stmt::FuncDeclaration(identifier, parameters, Box::new(body))),
            None => None,
        }
    }

    /// varDecl ::= (let | const) Identifier : type = expression ;
    fn parse_var_declaration(&mut self) -> (stmt: Option<Stmt>)
        ensures
            reads_stmt(old(self)@, var_declaration(old(self)@), stmt, final(self)@),
        decreases old(self)@.len(), 7nat,
    {
        let var_type = self.kind();
        let is_const = match var_type {
            TokenType::Let => false,
            TokenType::Const => true,
            _ => {
                return None;
            },
        };
        self.eat(var_type);
        let identifier = match self.take(TokenType::Identifier) {
            Some(token) => token,
            None => {
                return None;
            },
        };
        if self.take(TokenType::Colon).is_none() {
            return None;
        }
        let typing = match self.advance().kind {
            TokenType::IntType => TokenType::Integer,
            TokenType::FloatType => TokenType::Float,
            TokenType::StringType => TokenType::String,
            TokenType::BoolType => TokenType::Bool,
            _ => {
                return None;
            },
        };
        if self.take(TokenType::Equal).is_none() {
            return None;
        }
        match self.parse_closed_expression() {
            Some(expr) => Some(Stmt::VarDeclaration(identifier.value, typing, is_const, expr)),
            None => None,
        }
    }

    /// assignment ::= additive (= assignment ;)?
    fn parse_assignment_expr(&mut self) -> (expr: Option<Expr>)
        ensures
            reads_expr(old(self)@, assignment(old(self)@), expr, final(self)@),
        decreases old(self)@.len(), 4nat,
    {
        let left = match self.parse_additive_expr() {
            Some(expr) => expr,
            None => {
                return None;
            },
        };
        if self.kind() == TokenType::Equal {
            let op = self.advance();
            let right = match self.parse_assignment_expr() {
                Some(expr) => expr,
                None => {
                    return None;
                },
            };
            if self.take(TokenType::SemiColon).is_none() {
                return None;
            }
            return Some(Expr::Assignment(Box::new(left), op.kind, Box::new(right)));
        }
        Some(left)
    }

    /// additive ::= multiplicative ((+ | -) multiplicative)*
    fn parse_additive_expr(&mut self) -> (expr: Option<Expr>)
        ensures
            reads_expr(old(self)@, additive(old(self)@), expr, final(self)@),
        decreases old(self)@.len(), 3nat,
    {
        let mut expr = match self.parse_multiplicative_expr() {
            Some(expr) => expr,
            None => {
                return None;
            },
        };
        let ghost first = expr@;
        let ghost behind = self@;
        let mut kind = self.kind();
        while kind == TokenType::Plus || kind == TokenType::Minus
            invariant
                kind == kind_at(self@),
                self@.len() <= behind.len(),
                behind.len() < old(self)@.len(),
                additive(old(self)@) == more_terms(first, behind),
                more_terms(first, behind) == more_terms(expr@, self@),
            decreases self@.len(),
        {
            let op = self.advance();
            let right = match self.parse_multiplicative_expr() {
                Some(expr) => expr,
                None => {
                    return None;
                },
            };
            expr = Expr::Binary(Box::new(expr), op.kind, Box::new(right));
            kind = self.kind();
        }
        Some(expr)
    }

    /// multiplicative ::= call ((* | /) call)*
    fn parse_multiplicative_expr(&mut self) -> (expr: Option<Expr>)
        ensures
            reads_expr(old(self)@, multiplicative(old(self)@), expr, final(self)@),
        decreases old(self)@.len(), 2nat,
    {
        let mut expr = match self.parse_func_call_expr() {
            Some(expr) => expr,
            None => {
                return None;
            },
        };
        let ghost first = expr@;
        let ghost behind = self@;
        let mut kind = self.kind();
        while kind == TokenType::Star || kind == TokenType::Slash
            invariant
                kind == kind_at(self@),
                self@.len() <= behind.len(),
                behind.len() < old(self)@.len(),
                multiplicative(old(self)@) == more_factors(first, behind),
                more_factors(first, behind) == more_factors(expr@, self@),
            decreases self@.len(),
        {
            let op = self.advance();
            let right = match self.parse_func_call_expr() {
                Some(expr) => expr,
                None => {
                    return None;
                },
            };
            expr = Expr::Binary(Box::new(expr), op.kind, Box::new(right));
            kind = self.kind();
        }
        Some(expr)
    }

    /// Reads the arguments of a call, up to the closing parenthesis.
    fn parse_arguments(&mut self) -> (args: Option<Vec<Expr>>)
        ensures
            match arguments(old(self)@) {
                Some((read, rest)) => args is Some && exprs_view(args->Some_0@) == read
                    && final(self)@ == rest && rest.len() <= old(self)@.len(),
                None => args is None,
            },
        decreases old(self)@.len(), 9nat,
    {
        let mut args: Vec<Expr> = Vec::new();
        if self.kind() == TokenType::CloseParen {
            assert(exprs_view(args@) =~= Seq::empty());
            return Some(args);
        }
        match self.parse_expression() {
            Some(expr) => {
                args.push(expr);
                assert(exprs_view(args@) =~= seq![expr@]);
            },
            None => {
                return None;
            },
        }
        let ghost first = exprs_view(args@);
        let ghost behind = self@;
        let mut kind = self.kind();
        while kind == TokenType::Comma
            invariant
                kind == kind_at(self@),
                self@.len() <= behind.len(),
                behind.len() < old(self)@.len(),
                arguments(old(self)@) == more_arguments(first, behind),
                more_arguments(first, behind) == more_arguments(exprs_view(args@), self@),
            decreases self@.len(),
        {
            self.eat(TokenType::Comma);
            let ghost read = exprs_view(args@);
            match self.parse_expression() {
                Some(expr) => {
                    args.push(expr);
                    assert(exprs_view(args@) =~= read.push(expr@));
                },
                None => {
                    return None;
                },
            }
            kind = self.kind();
        }
        Some(args)
    }

    /// call ::= primary | Identifier ( (expression (, expression)*)? )
    fn parse_func_call_expr(&mut self) -> (expr: Option<Expr>)
        ensures
            reads_expr(old(self)@, call(old(self)@), expr, final(self)@),
        decreases old(self)@.len(), 1nat,
    {
        let primary = match self.parse_primary_expr() {
            Some(expr) => expr,
            None => {
                return None;
            },
        };
        match primary {
            Expr::Identifier(name) => {
                if self.kind() != TokenType::OpenParen {
                    return Some(Expr::Identifier(name));
                }
                self.eat(TokenType::OpenParen);
                let args = match self.parse_arguments() {
                    Some(args) => args,
                    None => {
                        return None;
                    },
                };
                if self.take(TokenType::CloseParen).is_none() {
                    return None;
                }
                proof {
                    Expr::lemma_call_view(name, args);
                }
                Some(Expr::CallExpr(name, args))
            },
            other => Some(other),
        }
    }

    /// primary ::= Integer | Float | String | Bool | ( expression ) | Identifier
    fn parse_primary_expr(&mut self) -> (expr: Option<Expr>)
        ensures
            reads_expr(old(self)@, primary(old(self)@), expr, final(self)@),
        decreases old(self)@.len(), 0nat,
    {
        match self.kind() {
            TokenType::Integer => {
                let token = self.eat(TokenType::Integer);
                match parse_integer(token.value.as_str()) {
                    Some(value) => Some(Expr::Literal(Atom::Integer(value))),
                    None => None,
                }
            },
            TokenType::Float => {
                let token = self.eat(TokenType::Float);
                match parse_decimal(token.value.as_str()) {
                    Some(bits) => Some(Expr::Literal(Atom::Float(bits))),
                    None => None,
                }
            },
            TokenType::String => {
                let token = self.eat(TokenType::String);
                Some(Expr::Literal(Atom::String(token.value)))
            },
            TokenType::Bool => {
                let token = self.eat(TokenType::Bool);
                Some(Expr::Literal(Atom::Bool(token.value == "true".to_owned())))
            },
            TokenType::OpenParen => {
                self.eat(TokenType::OpenParen);
                let expr = match self.parse_expression() {
                    Some(expr) => expr,
                    None => {
                        return None;
                    },
                };
                match self.take(TokenType::CloseParen) {
                    Some(_) => Some(expr),
                    None => None,
                }
            },
            TokenType::Identifier => {
                let token = self.eat(TokenType::Identifier);
                Some(Expr::Identifier(token.value))
            },
            _ => None,
        }
    }
}

} // verus!
