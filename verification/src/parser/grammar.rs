//! The grammar, as functions from the tokens that are left to the syntax
//! that is read and the tokens behind it. `None` stands for tokens that are
//! no such syntax.
//!
//! ```text
//! statement      ::= varDecl | funcDecl | return | block | print | expression
//! varDecl        ::= (let | const) Identifier : type = expression ;
//! funcDecl       ::= func Identifier ( (Identifier (, Identifier)*)? ) block
//! block          ::= { statement* }
//! return         ::= return expression ;
//! print          ::= print expression ;
//! expression     ::= additive (= expression ;)?
//! additive       ::= multiplicative ((+ | -) multiplicative)*
//! multiplicative ::= call ((* | /) call)*
//! call           ::= primary | Identifier ( (expression (, expression)*)? )
//! primary        ::= Integer | Float | String | Bool | ( expression ) | Identifier
//! ```

use vstd::prelude::*;
use crate::ast::atom::AtomView;
use crate::ast::expr::ExprView;
use crate::ast::stmt::StmtView;
use crate::lexer::{TokenType, TokenView, eof_token_view};
use crate::literal::{decimal_value, integer_value};

verus! {

/// The token that is read next: the first one, or an end-of-input token
/// where none is left.
pub open spec fn peek_view(tokens: Seq<TokenView>) -> TokenView {
    if tokens.len() > 0 {
        tokens[0]
    } else {
        eof_token_view(0, 0)
    }
}

/// The kind of the token that is read next.
pub open spec fn kind_at(tokens: Seq<TokenView>) -> TokenType {
    peek_view(tokens).kind
}

/// The tokens behind the one that is read next.
pub open spec fn rest_after(tokens: Seq<TokenView>) -> Seq<TokenView> {
    if tokens.len() > 0 {
        tokens.drop_first()
    } else {
        tokens
    }
}

/// Reads one token of the given kind.
pub open spec fn expect(tokens: Seq<TokenView>, kind: TokenType) -> Option<
    (TokenView, Seq<TokenView>),
> {
    if kind_at(tokens) == kind {
        Some((peek_view(tokens), rest_after(tokens)))
    } else {
        None
    }
}

/// The text `true`.
pub open spec fn true_literal() -> Seq<char> {
    "true"@
}

/// The type that a type keyword declares.
pub open spec fn declared_type(keyword: TokenType) -> Option<TokenType> {
    match keyword {
        TokenType::IntType => Some(TokenType::Integer),
        TokenType::FloatType => Some(TokenType::Float),
        TokenType::StringType => Some(TokenType::String),
        TokenType::BoolType => Some(TokenType::Bool),
        _ => None,
    }
}

/// primary ::= Integer | Float | String | Bool | ( expression ) | Identifier
pub open spec fn primary(tokens: Seq<TokenView>) -> Option<(ExprView, Seq<TokenView>)>
    decreases tokens.len(), 0nat,
{
    let token = peek_view(tokens);
    let rest = rest_after(tokens);
    match token.kind {
        TokenType::Integer => match integer_value(token.value) {
            Some(value) => Some((ExprView::Literal(AtomView::Integer(value)), rest)),
            None => None,
        },
        TokenType::Float => match decimal_value(token.value) {
            Some(bits) => Some((ExprView::Literal(AtomView::Float(bits)), rest)),
            None => None,
        },
        TokenType::String => Some((ExprView::Literal(AtomView::String(token.value)), rest)),
        TokenType::Bool => Some(
            (ExprView::Literal(AtomView::Bool(token.value == true_literal())), rest),
        ),
        TokenType::OpenParen => match expression(rest) {
            Some((inner, behind)) => match expect(behind, TokenType::CloseParen) {
                Some((_, after)) => Some((inner, after)),
                None => None,
            },
            None => None,
        },
        TokenType::Identifier => Some((ExprView::Identifier(token.value), rest)),
        _ => None,
    }
}

/// call ::= primary | Identifier ( (expression (, expression)*)? )
pub open spec fn call(tokens: Seq<TokenView>) -> Option<(ExprView, Seq<TokenView>)>
    decreases tokens.len(), 1nat,
{
    match primary(tokens) {
        Some((ExprView::Identifier(name), behind)) => if kind_at(behind) == TokenType::OpenParen
            && behind.len() < tokens.len() {
            match arguments(rest_after(behind)) {
                Some((args, closing)) => match expect(closing, TokenType::CloseParen) {
                    Some((_, after)) => Some((ExprView::CallExpr(name, args), after)),
                    None => None,
                },
                None => None,
            }
        } else {
            Some((ExprView::Identifier(name), behind))
        },
        other => other,
    }
}

/// The arguments of a call, up to the closing parenthesis: nothing, or
/// expressions with a comma between each two.
pub open spec fn arguments(tokens: Seq<TokenView>) -> Option<(Seq<ExprView>, Seq<TokenView>)>
    decreases tokens.len(), 9nat,
{
    if kind_at(tokens) == TokenType::CloseParen {
        Some((Seq::empty(), tokens))
    } else {
        match expression(tokens) {
            Some((first, behind)) => if behind.len() < tokens.len() {
                more_arguments(seq![first], behind)
            } else {
                None
            },
            None => None,
        }
    }
}

/// The arguments that follow those in `read`: each a comma and an
/// expression.
pub open spec fn more_arguments(read: Seq<ExprView>, tokens: Seq<TokenView>) -> Option<
    (Seq<ExprView>, Seq<TokenView>),
>
    decreases tokens.len(), 9nat,
{
    if kind_at(tokens) == TokenType::Comma {
        match expression(rest_after(tokens)) {
            Some((next, behind)) => if behind.len() < tokens.len() {
                more_arguments(read.push(next), behind)
            } else {
                None
            },
            None => None,
        }
    } else {
        Some((read, tokens))
    }
}

/// multiplicative ::= call ((* | /) call)*
pub open spec fn multiplicative(tokens: Seq<TokenView>) -> Option<(ExprView, Seq<TokenView>)>
    decreases tokens.len(), 2nat,
{
    match call(tokens) {
        Some((left, behind)) => if behind.len() < tokens.len() {
            more_factors(left, behind)
        } else {
            None
        },
        None => None,
    }
}

/// The factors that follow `left`, each behind `*` or `/`, joined to it
/// from the left.
pub open spec fn more_factors(left: ExprView, tokens: Seq<TokenView>) -> Option<
    (ExprView, Seq<TokenView>),
>
    decreases tokens.len(), 9nat,
{
    let op = kind_at(tokens);
    if op == TokenType::Star || op == TokenType::Slash {
        match call(rest_after(tokens)) {
            Some((right, behind)) => if behind.len() < tokens.len() {
                more_factors(ExprView::Binary(Box::new(left), op, Box::new(right)), behind)
            } else {
                None
            },
            None => None,
        }
    } else {
        Some((left, tokens))
    }
}

/// additive ::= multiplicative ((+ | -) multiplicative)*
pub open spec fn additive(tokens: Seq<TokenView>) -> Option<(ExprView, Seq<TokenView>)>
    decreases tokens.len(), 3nat,
{
    match multiplicative(tokens) {
        Some((left, behind)) => if behind.len() < tokens.len() {
            more_terms(left, behind)
        } else {
            None
        },
        None => None,
    }
}

/// The terms that follow `left`, each behind `+` or `-`, joined to it from
/// the left.
pub open spec fn more_terms(left: ExprView, tokens: Seq<TokenView>) -> Option<
    (ExprView, Seq<TokenView>),
>
    decreases tokens.len(), 9nat,
{
    let op = kind_at(tokens);
    if op == TokenType::Plus || op == TokenType::Minus {
        match multiplicative(rest_after(tokens)) {
            Some((right, behind)) => if behind.len() < tokens.len() {
                more_terms(ExprView::Binary(Box::new(left), op, Box::new(right)), behind)
            } else {
                None
            },
            None => None,
        }
    } else {
        Some((left, tokens))
    }
}

/// assignment ::= additive (= assignment ;)?
///
/// An assignment takes the semicolon behind it; an expression that is no
/// assignment takes none.
pub open spec fn assignment(tokens: Seq<TokenView>) -> Option<(ExprView, Seq<TokenView>)>
    decreases tokens.len(), 4nat,
{
    match additive(tokens) {
        Some((target, behind)) => if kind_at(behind) == TokenType::Equal && behind.len()
            < tokens.len() {
            match assignment(rest_after(behind)) {
                Some((value, closing)) => match expect(closing, TokenType::SemiColon) {
                    Some((_, after)) => Some(
                        (
                            ExprView::Assignment(
                                Box::new(target),
                                TokenType::Equal,
                                Box::new(value),
                            ),
                            after,
                        ),
                    ),
                    None => None,
                },
                None => None,
            }
        } else {
            Some((target, behind))
        },
        None => None,
    }
}

/// expression ::= assignment
pub open spec fn expression(tokens: Seq<TokenView>) -> Option<(ExprView, Seq<TokenView>)>
    decreases tokens.len(), 5nat,
{
    assignment(tokens)
}

/// An expression and the semicolon behind it.
pub open spec fn closed_expression(tokens: Seq<TokenView>) -> Option<(ExprView, Seq<TokenView>)>
    decreases tokens.len(), 6nat,
{
    match expression(tokens) {
        Some((value, closing)) => match expect(closing, TokenType::SemiColon) {
            Some((_, after)) => Some((value, after)),
            None => None,
        },
        None => None,
    }
}

/// print ::= print expression ;
pub open spec fn print_stmt(tokens: Seq<TokenView>) -> Option<(StmtView, Seq<TokenView>)>
    decreases tokens.len(), 7nat,
{
    match expect(tokens, TokenType::Print) {
        Some((_, behind)) => match closed_expression(behind) {
            Some((value, after)) => Some((StmtView::Print(value), after)),
            None => None,
        },
        None => None,
    }
}

/// return ::= return expression ;
pub open spec fn return_stmt(tokens: Seq<TokenView>) -> Option<(StmtView, Seq<TokenView>)>
    decreases tokens.len(), 7nat,
{
    match expect(tokens, TokenType::Return) {
        Some((_, behind)) => match closed_expression(behind) {
            Some((value, after)) => Some((StmtView::Return(value), after)),
            None => None,
        },
        None => None,
    }
}

/// block ::= { statement* }
pub open spec fn block(tokens: Seq<TokenView>) -> Option<(StmtView, Seq<TokenView>)>
    decreases tokens.len(), 7nat,
{
    match expect(tokens, TokenType::OpenBrace) {
        Some((_, behind)) => match block_items(Seq::empty(), behind) {
            Some((items, closing)) => match expect(closing, TokenType::CloseBrace) {
                Some((_, after)) => Some((StmtView::Block(items), after)),
                None => None,
            },
            None => None,
        },
        None => None,
    }
}

/// The statements of a block that follow those in `read`, up to the
/// closing brace.
pub open spec fn block_items(read: Seq<StmtView>, tokens: Seq<TokenView>) -> Option<
    (Seq<StmtView>, Seq<TokenView>),
>
    decreases tokens.len(), 9nat,
{
    if kind_at(tokens) == TokenType::CloseBrace {
        Some((read, tokens))
    } else {
        match statement(tokens) {
            Some((item, behind)) => if behind.len() < tokens.len() {
                block_items(read.push(item), behind)
            } else {
                None
            },
            None => None,
        }
    }
}

/// The parameter names of a function declaration, up to the closing
/// parenthesis: nothing, or names with a comma between each two.
pub open spec fn parameters(tokens: Seq<TokenView>) -> Option<(Seq<Seq<char>>, Seq<TokenView>)> {
    if kind_at(tokens) == TokenType::CloseParen {
        Some((Seq::empty(), tokens))
    } else {
        match expect(tokens, TokenType::Identifier) {
            Some((first, behind)) => more_parameters(seq![first.value], behind),
            None => None,
        }
    }
}

/// The parameter names that follow those in `read`: each a comma and a
/// name.
pub open spec fn more_parameters(read: Seq<Seq<char>>, tokens: Seq<TokenView>) -> Option<
    (Seq<Seq<char>>, Seq<TokenView>),
>
    decreases tokens.len(),
{
    if kind_at(tokens) == TokenType::Comma {
        match expect(rest_after(tokens), TokenType::Identifier) {
            Some((next, behind)) => more_parameters(read.push(next.value), behind),
            None => None,
        }
    } else {
        Some((read, tokens))
    }
}

/// funcDecl ::= func Identifier ( (Identifier (, Identifier)*)? ) block
pub open spec fn func_declaration(tokens: Seq<TokenView>) -> Option<(StmtView, Seq<TokenView>)>
    decreases tokens.len(), 7nat,
{
    match expect(tokens, TokenType::Func) {
        Some((_, named)) => match expect(named, TokenType::Identifier) {
            Some((name, opening)) => match expect(opening, TokenType::OpenParen) {
                Some((_, listed)) => match parameters(listed) {
                    Some((names, closing)) => match expect(closing, TokenType::CloseParen) {
                        Some((_, behind)) => if behind.len() < tokens.len() {
                            match block(behind) {
                                Some((body, after)) => Some(
                                    (
                                        StmtView::FuncDeclaration(
                                            name.value,
                                            names,
                                            Box::new(body),
                                        ),
                                        after,
                                    ),
                                ),
                                None => None,
                            }
                        } else {
                            None
                        },
                        None => None,
                    },
                    None => None,
                },
                None => None,
            },
            None => None,
        },
        None => None,
    }
}

/// varDecl ::= (let | const) Identifier : type = expression ;
pub open spec fn var_declaration(tokens: Seq<TokenView>) -> Option<(StmtView, Seq<TokenView>)>
    decreases tokens.len(), 7nat,
{
    let keyword = kind_at(tokens);
    if keyword != TokenType::Let && keyword != TokenType::Const {
        None
    } else {
        match expect(rest_after(tokens), TokenType::Identifier) {
            Some((name, typed)) => match expect(typed, TokenType::Colon) {
                Some((_, typing)) => match declared_type(kind_at(typing)) {
                    Some(declared) => match expect(rest_after(typing), TokenType::Equal) {
                        Some((_, behind)) => if behind.len() < tokens.len() {
                            match closed_expression(behind) {
                                Some((value, after)) => Some(
                                    (
                                        StmtView::VarDeclaration(
                                            name.value,
                                            declared,
                                            keyword == TokenType::Const,
                                            value,
                                        ),
                                        after,
                                    ),
                                ),
                                None => None,
                            }
                        } else {
                            None
                        },
                        None => None,
                    },
                    None => None,
                },
                None => None,
            },
            None => None,
        }
    }
}

/// statement ::= varDecl | funcDecl | return | block | print | expression
pub open spec fn statement(tokens: Seq<TokenView>) -> Option<(StmtView, Seq<TokenView>)>
    decreases tokens.len(), 8nat,
{
    match kind_at(tokens) {
        TokenType::Let => var_declaration(tokens),
        TokenType::Const => var_declaration(tokens),
        TokenType::Func => func_declaration(tokens),
        TokenType::Return => return_stmt(tokens),
        TokenType::OpenBrace => block(tokens),
        TokenType::Print => print_stmt(tokens),
        _ => match expression(tokens) {
            Some((value, after)) => Some((StmtView::Expression(value), after)),
            None => None,
        },
    }
}

/// The statements of a program that follow those in `read`, up to the end
/// of the input. Comment tokens between statements are passed over.
pub open spec fn program_items(read: Seq<StmtView>, tokens: Seq<TokenView>) -> Option<
    (Seq<StmtView>, Seq<TokenView>),
>
    decreases tokens.len(),
{
    let kind = kind_at(tokens);
    if kind == TokenType::EOF {
        Some((read, tokens))
    } else if kind == TokenType::Comment {
        program_items(read, rest_after(tokens))
    } else {
        match statement(tokens) {
            Some((item, behind)) => if behind.len() < tokens.len() {
                program_items(read.push(item), behind)
            } else {
                None
            },
            None => None,
        }
    }
}

/// The program that the tokens write, if they write one.
pub open spec fn program(tokens: Seq<TokenView>) -> Option<Seq<StmtView>> {
    match program_items(Seq::empty(), tokens) {
        Some((items, _)) => Some(items),
        None => None,
    }
}

/// Whether what was read left fewer tokens than there were.
pub open spec fn shrinks<T>(tokens: Seq<TokenView>, read: Option<(T, Seq<TokenView>)>) -> bool {
    match read {
        Some((_, rest)) => rest.len() < tokens.len(),
        None => true,
    }
}

/// Whether what was read left no more tokens than there were.
pub open spec fn keeps<T>(tokens: Seq<TokenView>, read: Option<(T, Seq<TokenView>)>) -> bool {
    match read {
        Some((_, rest)) => rest.len() <= tokens.len(),
        None => true,
    }
}

/// A primary expression takes at least one token. The same holds of
/// every expression and statement below, so the comparisons of lengths in the
/// grammar's functions never turn a reading down: they only show that the
/// functions end.
pub proof fn lemma_primary(tokens: Seq<TokenView>)
    ensures
        shrinks(tokens, primary(tokens)),
    decreases tokens.len(), 0nat,
{
    if kind_at(tokens) == TokenType::OpenParen {
        lemma_expression(rest_after(tokens));
    }
}

/// A call or primary expression takes at least one token.
pub proof fn lemma_call(tokens: Seq<TokenView>)
    ensures
        shrinks(tokens, call(tokens)),
    decreases tokens.len(), 1nat,
{
    lemma_primary(tokens);
    match primary(tokens) {
        Some((ExprView::Identifier(name), behind)) => {
            if kind_at(behind) == TokenType::OpenParen {
                lemma_arguments(rest_after(behind));
            }
        },
        _ => {},
    }
}

/// The arguments of a call take no tokens back.
pub proof fn lemma_arguments(tokens: Seq<TokenView>)
    ensures
        keeps(tokens, arguments(tokens)),
    decreases tokens.len(), 9nat,
{
    if kind_at(tokens) != TokenType::CloseParen {
        lemma_expression(tokens);
        match expression(tokens) {
            Some((first, behind)) => {
                lemma_more_arguments(seq![first], behind);
            },
            None => {},
        }
    }
}

/// Further arguments take no tokens back.
pub proof fn lemma_more_arguments(read: Seq<ExprView>, tokens: Seq<TokenView>)
    ensures
        keeps(tokens, more_arguments(read, tokens)),
    decreases tokens.len(), 9nat,
{
    if kind_at(tokens) == TokenType::Comma {
        lemma_expression(rest_after(tokens));
        match expression(rest_after(tokens)) {
            Some((next, behind)) => {
                lemma_more_arguments(read.push(next), behind);
            },
            None => {},
        }
    }
}

/// A product takes at least one token.
pub proof fn lemma_multiplicative(tokens: Seq<TokenView>)
    ensures
        shrinks(tokens, multiplicative(tokens)),
    decreases tokens.len(), 2nat,
{
    lemma_call(tokens);
    match call(tokens) {
        Some((left, behind)) => {
            lemma_more_factors(left, behind);
        },
        None => {},
    }
}

/// Further factors take no tokens back.
pub proof fn lemma_more_factors(left: ExprView, tokens: Seq<TokenView>)
    ensures
        keeps(tokens, more_factors(left, tokens)),
    decreases tokens.len(), 9nat,
{
    let op = kind_at(tokens);
    if op == TokenType::Star || op == TokenType::Slash {
        lemma_call(rest_after(tokens));
        match call(rest_after(tokens)) {
            Some((right, behind)) => {
                lemma_more_factors(
                    ExprView::Binary(Box::new(left), op, Box::new(right)),
                    behind,
                );
            },
            None => {},
        }
    }
}

/// A sum takes at least one token.
pub proof fn lemma_additive(tokens: Seq<TokenView>)
    ensures
        shrinks(tokens, additive(tokens)),
    decreases tokens.len(), 3nat,
{
    lemma_multiplicative(tokens);
    match multiplicative(tokens) {
        Some((left, behind)) => {
            lemma_more_terms(left, behind);
        },
        None => {},
    }
}

/// Further terms take no tokens back.
pub proof fn lemma_more_terms(left: ExprView, tokens: Seq<TokenView>)
    ensures
        keeps(tokens, more_terms(left, tokens)),
    decreases tokens.len(), 9nat,
{
    let op = kind_at(tokens);
    if op == TokenType::Plus || op == TokenType::Minus {
        lemma_multiplicative(rest_after(tokens));
        match multiplicative(rest_after(tokens)) {
            Some((right, behind)) => {
                lemma_more_terms(ExprView::Binary(Box::new(left), op, Box::new(right)), behind);
            },
            None => {},
        }
    }
}

/// An assignment takes at least one token.
pub proof fn lemma_assignment(tokens: Seq<TokenView>)
    ensures
        shrinks(tokens, assignment(tokens)),
    decreases tokens.len(), 4nat,
{
    lemma_additive(tokens);
    match additive(tokens) {
        Some((_, behind)) => {
            if kind_at(behind) == TokenType::Equal {
                lemma_assignment(rest_after(behind));
            }
        },
        None => {},
    }
}

/// An expression takes at least one token, with or without the semicolon
/// behind it.
pub proof fn lemma_expression(tokens: Seq<TokenView>)
    ensures
        shrinks(tokens, expression(tokens)),
        shrinks(tokens, closed_expression(tokens)),
    decreases tokens.len(), 5nat,
{
    lemma_assignment(tokens);
}

/// Parameter names take no tokens back.
pub proof fn lemma_more_parameters(read: Seq<Seq<char>>, tokens: Seq<TokenView>)
    ensures
        keeps(tokens, more_parameters(read, tokens)),
    decreases tokens.len(),
{
    if kind_at(tokens) == TokenType::Comma {
        match expect(rest_after(tokens), TokenType::Identifier) {
            Some((next, behind)) => {
                lemma_more_parameters(read.push(next.value), behind);
            },
            None => {},
        }
    }
}

/// The parameters of a declaration take no tokens back.
pub proof fn lemma_parameters(tokens: Seq<TokenView>)
    ensures
        keeps(tokens, parameters(tokens)),
{
    if kind_at(tokens) != TokenType::CloseParen {
        match expect(tokens, TokenType::Identifier) {
            Some((first, behind)) => {
                lemma_more_parameters(seq![first.value], behind);
            },
            None => {},
        }
    }
}

/// A block takes at least one token.
pub proof fn lemma_block(tokens: Seq<TokenView>)
    ensures
        shrinks(tokens, block(tokens)),
    decreases tokens.len(), 7nat,
{
    if kind_at(tokens) == TokenType::OpenBrace {
        lemma_block_items(Seq::empty(), rest_after(tokens));
    }
}

/// The statements of a block take no tokens back.
pub proof fn lemma_block_items(read: Seq<StmtView>, tokens: Seq<TokenView>)
    ensures
        keeps(tokens, block_items(read, tokens)),
    decreases tokens.len(), 9nat,
{
    if kind_at(tokens) != TokenType::CloseBrace {
        lemma_statement(tokens);
        match statement(tokens) {
            Some((item, behind)) => {
                lemma_block_items(read.push(item), behind);
            },
            None => {},
        }
    }
}

/// A function declaration takes at least one token.
pub proof fn lemma_func_declaration(tokens: Seq<TokenView>)
    ensures
        shrinks(tokens, func_declaration(tokens)),
    decreases tokens.len(), 7nat,
{
    match expect(tokens, TokenType::Func) {
        Some((_, named)) => match expect(named, TokenType::Identifier) {
            Some((_, opening)) => match expect(opening, TokenType::OpenParen) {
                Some((_, listed)) => {
                    lemma_parameters(listed);
                    match parameters(listed) {
                        Some((_, closing)) => match expect(closing, TokenType::CloseParen) {
                            Some((_, behind)) => {
                                lemma_block(behind);
                            },
                            None => {},
                        },
                        None => {},
                    }
                },
                None => {},
            },
            None => {},
        },
        None => {},
    }
}

/// A variable declaration takes at least one token.
pub proof fn lemma_var_declaration(tokens: Seq<TokenView>)
    ensures
        shrinks(tokens, var_declaration(tokens)),
    decreases tokens.len(), 7nat,
{
    match expect(rest_after(tokens), TokenType::Identifier) {
        Some((_, typed)) => match expect(typed, TokenType::Colon) {
            Some((_, typing)) => match expect(rest_after(typing), TokenType::Equal) {
                Some((_, behind)) => {
                    if behind.len() < tokens.len() {
                        lemma_expression(behind);
                    }
                },
                None => {},
            },
            None => {},
        },
        None => {},
    }
}

/// A statement takes at least one token.
pub proof fn lemma_statement(tokens: Seq<TokenView>)
    ensures
        shrinks(tokens, statement(tokens)),
    decreases tokens.len(), 8nat,
{
    match kind_at(tokens) {
        TokenType::Let => lemma_var_declaration(tokens),
        TokenType::Const => lemma_var_declaration(tokens),
        TokenType::Func => lemma_func_declaration(tokens),
        TokenType::Return => lemma_expression(rest_after(tokens)),
        TokenType::OpenBrace => lemma_block(tokens),
        TokenType::Print => lemma_expression(rest_after(tokens)),
        _ => lemma_expression(tokens),
    }
}

} // verus!
