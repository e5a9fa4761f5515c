use trlang::ast::atom::Atom;
use trlang::ast::expr::Expr;
use trlang::ast::stmt::Stmt;
use trlang::lexer::{Token, TokenType};
use trlang::parser::Parser;

#[test]
fn test_let_var_declaration() {
    let mut parser = Parser::try_new("let x: int = 1;").expect("not made of tokens");
    let ast = parser.try_parse().expect("not a program");

    assert_eq!(
        ast.statements[0],
        Stmt::VarDeclaration(
            "x".to_string(),
            TokenType::Integer,
            false,
            Expr::Literal(Atom::Integer(1))
        )
    );
}

#[test]
fn test_const_var_declaration() {
    let mut parser = Parser::try_new("const x: float = 1.1;").expect("not made of tokens");
    let ast = parser.try_parse().expect("not a program");

    assert_eq!(
        ast.statements[0],
        Stmt::VarDeclaration(
            "x".to_string(),
            TokenType::Float,
            true,
            Expr::Literal(Atom::Float(1.1f64.to_bits()))
        )
    );
}

fn parse(source: &str) -> Option<Vec<Stmt>> {
    let mut parser = Parser::try_new(source)?;
    parser.try_parse().map(|program| program.statements)
}

fn expression(source: &str) -> Expr {
    let mut statements = parse(source).expect("not a program");
    assert_eq!(statements.len(), 1);
    match statements.remove(0) {
        Stmt::Expression(expr) => expr,
        other => panic!("expected an expression, got {:?}", other),
    }
}

fn whole(value: i64) -> Expr {
    Expr::Literal(Atom::Integer(value))
}

fn name(text: &str) -> Expr {
    Expr::Identifier(text.to_string())
}

fn binary(left: Expr, op: TokenType, right: Expr) -> Expr {
    Expr::Binary(Box::new(left), op, Box::new(right))
}

#[test]
fn empty_program() {
    assert_eq!(parse(""), Some(vec![]));
    assert_eq!(parse("  // nothing\n"), Some(vec![]));
}

#[test]
fn parse_with_requirements_met() {
    let mut parser = Parser::new("1 + 2");
    assert!(parser.parses());
    let program = parser.parse();
    assert_eq!(
        program.statements,
        vec![Stmt::Expression(binary(whole(1), TokenType::Plus, whole(2)))]
    );
}

#[test]
fn literals() {
    assert_eq!(expression("12"), whole(12));
    assert_eq!(
        expression("2.5"),
        Expr::Literal(Atom::Float(2.5f64.to_bits()))
    );
    assert_eq!(
        expression("2."),
        Expr::Literal(Atom::Float(2.0f64.to_bits()))
    );
    assert_eq!(
        expression("'text'"),
        Expr::Literal(Atom::String("text".to_string()))
    );
    assert_eq!(expression("true"), Expr::Literal(Atom::Bool(true)));
    assert_eq!(expression("false"), Expr::Literal(Atom::Bool(false)));
    assert_eq!(expression("x"), name("x"));
}

#[test]
fn multiplication_binds_tighter_than_addition() {
    assert_eq!(
        expression("1 + 2 * 3"),
        binary(
            whole(1),
            TokenType::Plus,
            binary(whole(2), TokenType::Star, whole(3))
        )
    );
    assert_eq!(
        expression("1 * 2 - 3 / 4"),
        binary(
            binary(whole(1), TokenType::Star, whole(2)),
            TokenType::Minus,
            binary(whole(3), TokenType::Slash, whole(4))
        )
    );
}

#[test]
fn operators_group_from_the_left() {
    assert_eq!(
        expression("1 - 2 - 3"),
        binary(
            binary(whole(1), TokenType::Minus, whole(2)),
            TokenType::Minus,
            whole(3)
        )
    );
    assert_eq!(
        expression("8 / 4 / 2"),
        binary(
            binary(whole(8), TokenType::Slash, whole(4)),
            TokenType::Slash,
            whole(2)
        )
    );
}

#[test]
fn parentheses_group() {
    assert_eq!(
        expression("(1 + 2) * 3"),
        binary(
            binary(whole(1), TokenType::Plus, whole(2)),
            TokenType::Star,
            whole(3)
        )
    );
    assert_eq!(expression("((x))"), name("x"));
}

#[test]
fn assignment_takes_its_semicolon() {
    assert_eq!(
        expression("x = 1 + 2;"),
        Expr::Assignment(
            Box::new(name("x")),
            TokenType::Equal,
            Box::new(binary(whole(1), TokenType::Plus, whole(2)))
        )
    );
    assert_eq!(parse("x = 1"), None);
}

#[test]
fn assignment_groups_from_the_right() {
    assert_eq!(
        expression("x = y = 1;;"),
        Expr::Assignment(
            Box::new(name("x")),
            TokenType::Equal,
            Box::new(Expr::Assignment(
                Box::new(name("y")),
                TokenType::Equal,
                Box::new(whole(1))
            ))
        )
    );
    assert_eq!(parse("x = y = 1;"), None);
}

#[test]
fn expression_statements_take_no_semicolon() {
    assert_eq!(
        parse("1 2"),
        Some(vec![Stmt::Expression(whole(1)), Stmt::Expression(whole(2))])
    );
    assert_eq!(parse("1;"), None);
}

#[test]
fn calls() {
    assert_eq!(expression("f()"), Expr::CallExpr("f".to_string(), vec![]));
    assert_eq!(
        expression("f(1)"),
        Expr::CallExpr("f".to_string(), vec![whole(1)])
    );
    assert_eq!(
        expression("f(1, x + 2, g(3))"),
        Expr::CallExpr(
            "f".to_string(),
            vec![
                whole(1),
                binary(name("x"), TokenType::Plus, whole(2)),
                Expr::CallExpr("g".to_string(), vec![whole(3)])
            ]
        )
    );
    assert_eq!(
        expression("f(1) * 2"),
        binary(
            Expr::CallExpr("f".to_string(), vec![whole(1)]),
            TokenType::Star,
            whole(2)
        )
    );
}

#[test]
fn call_arguments_need_commas_between_them() {
    assert_eq!(parse("f(1 2)"), None);
    assert_eq!(parse("f(1,)"), None);
    assert_eq!(parse("f(,1)"), None);
    assert_eq!(parse("f(1"), None);
}

#[test]
fn only_a_name_can_be_called() {
    assert_eq!(
        parse("1(2)"),
        Some(vec![Stmt::Expression(whole(1)), Stmt::Expression(whole(2))])
    );
    assert_eq!(
        expression("(f)(2)"),
        Expr::CallExpr("f".to_string(), vec![whole(2)])
    );
    assert_eq!(
        parse("'f'(2)"),
        Some(vec![
            Stmt::Expression(Expr::Literal(Atom::String("f".to_string()))),
            Stmt::Expression(whole(2))
        ])
    );
}

#[test]
fn every_declared_type() {
    let declared = |source: &str| match parse(source).expect("not a program").remove(0) {
        Stmt::VarDeclaration(_, typing, _, _) => typing,
        other => panic!("expected a declaration, got {:?}", other),
    };
    assert_eq!(declared("let a: int = 1;"), TokenType::Integer);
    assert_eq!(declared("let a: float = 1;"), TokenType::Float);
    assert_eq!(declared("let a: string = 1;"), TokenType::String);
    assert_eq!(declared("let a: bool = 1;"), TokenType::Bool);
}

#[test]
fn malformed_declarations() {
    assert_eq!(parse("let x = 1;"), None);
    assert_eq!(parse("let x: int = 1"), None);
    assert_eq!(parse("let x: y = 1;"), None);
    assert_eq!(parse("let : int = 1;"), None);
    assert_eq!(parse("let x: int 1;"), None);
    assert_eq!(parse("const x: int = ;"), None);
    assert_eq!(parse("let let: int = 1;"), None);
}

#[test]
fn function_declarations() {
    assert_eq!(
        parse("func f() {}"),
        Some(vec![Stmt::FuncDeclaration(
            "f".to_string(),
            vec![],
            Box::new(Stmt::Block(vec![]))
        )])
    );
    assert_eq!(
        parse("func add(a, b) { return a + b; }"),
        Some(vec![Stmt::FuncDeclaration(
            "add".to_string(),
            vec!["a".to_string(), "b".to_string()],
            Box::new(Stmt::Block(vec![Stmt::Return(binary(
                name("a"),
                TokenType::Plus,
                name("b")
            ))]))
        )])
    );
}

#[test]
fn parameters_need_commas_between_them() {
    assert_eq!(parse("func f(a b) {}"), None);
    assert_eq!(parse("func f(a,) {}"), None);
    assert_eq!(parse("func f(,a) {}"), None);
    assert_eq!(parse("func f(1) {}"), None);
}

#[test]
fn malformed_function_declarations() {
    assert_eq!(parse("func () {}"), None);
    assert_eq!(parse("func f {}"), None);
    assert_eq!(parse("func f()"), None);
    assert_eq!(parse("func f() return 1;"), None);
    assert_eq!(parse("func f() {"), None);
}

#[test]
fn blocks_nest() {
    assert_eq!(
        parse("{ { 1 } print 2; }"),
        Some(vec![Stmt::Block(vec![
            Stmt::Block(vec![Stmt::Expression(whole(1))]),
            Stmt::Print(whole(2))
        ])])
    );
    assert_eq!(parse("{ 1"), None);
    assert_eq!(parse("}"), None);
}

#[test]
fn return_and_print_need_their_semicolon() {
    assert_eq!(parse("return 1;"), Some(vec![Stmt::Return(whole(1))]));
    assert_eq!(parse("print x;"), Some(vec![Stmt::Print(name("x"))]));
    assert_eq!(parse("return 1"), None);
    assert_eq!(parse("print x"), None);
    assert_eq!(parse("return ;"), None);
}

#[test]
fn integer_literal_must_fit() {
    assert_eq!(expression("9223372036854775807"), whole(i64::MAX));
    assert_eq!(parse("9223372036854775808"), None);
}

#[test]
fn stray_tokens_are_no_program() {
    assert_eq!(parse(")"), None);
    assert_eq!(parse("1 +"), None);
    assert_eq!(parse("* 2"), None);
    assert_eq!(parse("(1"), None);
    assert_eq!(parse(","), None);
}

#[test]
fn text_that_is_not_made_of_tokens() {
    assert!(Parser::try_new("let x: int = 1 ? 2;").is_none());
    assert!(Parser::try_new("1 + 1").is_some());
}

#[test]
fn failed_parse_leaves_the_parser_alone() {
    let mut parser = Parser::try_new("1 + )").expect("not made of tokens");
    assert!(!parser.parses());
    assert!(parser.try_parse().is_none());
    assert_eq!(parser.peek().kind, TokenType::Integer);
    assert_eq!(parser.peek().value, "1");
}

#[test]
fn peek_advance_and_eat() {
    let mut parser = Parser::try_new("a + 1").expect("not made of tokens");
    assert_eq!(parser.peek().kind, TokenType::Identifier);
    assert_eq!(parser.peek().value, "a");
    let first = parser.advance();
    assert_eq!(first.kind, TokenType::Identifier);
    assert_eq!(first.column, 0);
    let plus = parser.eat(TokenType::Plus);
    assert_eq!(plus.value, "+");
    assert_eq!(plus.column, 2);
    assert_eq!(parser.eat(TokenType::Integer).value, "1");
    assert_eq!(parser.peek().kind, TokenType::EOF);
    assert_eq!(parser.advance().kind, TokenType::EOF);
    assert_eq!(parser.peek().kind, TokenType::EOF);
    assert_eq!(parser.peek().value, "EOF");
    assert_eq!(parser.advance().kind, TokenType::EOF);
}

fn made(kind: TokenType, value: &str) -> Token {
    Token {
        kind,
        value: value.to_string(),
        line: 0,
        column: 0,
        end_column: 0,
    }
}

#[test]
fn parser_for_given_tokens() {
    let mut parser = Parser::from_tokens(vec![
        made(TokenType::Identifier, "a"),
        made(TokenType::Star, "*"),
        made(TokenType::Integer, "2"),
        made(TokenType::EOF, "EOF"),
    ]);
    assert_eq!(parser.peek().value, "a");
    assert_eq!(
        parser.try_parse().map(|program| program.statements),
        Some(vec![Stmt::Expression(binary(
            name("a"),
            TokenType::Star,
            whole(2)
        ))])
    );
    assert_eq!(parser.peek().kind, TokenType::EOF);
}

#[test]
fn parser_without_an_end_token() {
    let mut parser = Parser::from_tokens(vec![made(TokenType::Integer, "7")]);
    assert_eq!(
        parser.try_parse().map(|program| program.statements),
        Some(vec![Stmt::Expression(whole(7))])
    );
    assert_eq!(parser.peek().kind, TokenType::EOF);
    let mut empty = Parser::from_tokens(vec![]);
    assert_eq!(
        empty.try_parse().map(|program| program.statements),
        Some(vec![])
    );
}

#[test]
fn parsing_stops_at_the_end_token() {
    let mut parser = Parser::from_tokens(vec![
        made(TokenType::Integer, "1"),
        made(TokenType::EOF, "EOF"),
        made(TokenType::CloseParen, ")"),
    ]);
    assert_eq!(
        parser.try_parse().map(|program| program.statements),
        Some(vec![Stmt::Expression(whole(1))])
    );
    assert_eq!(parser.advance().kind, TokenType::EOF);
    assert_eq!(parser.advance().kind, TokenType::CloseParen);
}

#[test]
fn comment_tokens_between_statements_are_passed_over() {
    let mut parser = Parser::from_tokens(vec![
        made(TokenType::Comment, "// a"),
        made(TokenType::Integer, "1"),
        made(TokenType::Comment, "// b"),
        made(TokenType::Comment, "// c"),
        made(TokenType::Integer, "2"),
        made(TokenType::EOF, "EOF"),
    ]);
    assert_eq!(
        parser.try_parse().map(|program| program.statements),
        Some(vec![
            Stmt::Expression(whole(1)),
            Stmt::Expression(whole(2))
        ])
    );
    let mut inside = Parser::from_tokens(vec![
        made(TokenType::OpenBrace, "{"),
        made(TokenType::Comment, "// a"),
        made(TokenType::CloseBrace, "}"),
    ]);
    assert!(inside.try_parse().is_none());
}

#[test]
fn literal_tokens_must_write_numbers() {
    let wrong = |kind: TokenType, value: &str| {
        Parser::from_tokens(vec![made(kind, value)])
            .try_parse()
            .is_none()
    };
    assert!(wrong(TokenType::Integer, "12a"));
    assert!(wrong(TokenType::Integer, ""));
    assert!(wrong(TokenType::Float, "12"));
    assert!(wrong(TokenType::Float, "1e3"));
    assert!(!wrong(TokenType::Float, "12.5"));
    assert!(!wrong(TokenType::Bool, "yes"));
}
