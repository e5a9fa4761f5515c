use trlang::parser::Parser;
use trlang::runtime::environment::Environment;
use trlang::runtime::interpreter::Interpreter;
use trlang::runtime::values::{RuntimeError, RuntimeVal};

fn evaluate(source: &str) -> Result<RuntimeVal, RuntimeError> {
    let mut parser = Parser::try_new(source).expect("not made of tokens");
    let program = parser.try_parse().expect("not a program");

    let mut env = Environment::new(None);
    let mut runtime = Interpreter::new();

    runtime.evaluate_program(&program, &mut env)
}

#[test]
fn additive_expr() {
    let result = evaluate("1 + 1").expect("Failed to evaluate");
    assert_eq!(result, RuntimeVal::Int(2));
}

#[test]
fn substractive_expr() {
    let result = evaluate("1 - 2").expect("Failed to evaluate");
    assert_eq!(result, RuntimeVal::Int(-1));
}

#[test]
fn multiplicative_expr() {
    let result = evaluate("2 * 2").expect("Failed to evaluate");
    assert_eq!(result, RuntimeVal::Int(4));
}

#[test]
fn division_expr() {
    let result = evaluate("2 / 2").expect("Failed to evaluate");
    assert_eq!(result, RuntimeVal::Int(1));
}

#[test]
fn division_by_zero_expr() {
    let result = evaluate("2 / 0");
    assert!(result.is_err());
    assert_eq!(result.unwrap_err(), RuntimeError::DivisionByZero);
}

#[test]
fn operation_with_variables() {
    let result = evaluate(
        "
        let t: int = 1 + 1;
        t * 2
        ",
    )
    .expect("Failed to evaluate");
    assert_eq!(result, RuntimeVal::Int(4));
}

#[test]
fn var_declaration_invalid_type() {
    let result = evaluate("let t: int = 1 + 1.1;");
    assert!(result.is_err());
    assert_eq!(
        result.err().expect("Failed to get error"),
        RuntimeError::InvalidType
    );
}

#[test]
fn block() {
    let result = evaluate(
        "
        {
            let t: int = 1 + 1;
            t * 2

            return t;
        }
        ",
    )
    .expect("Failed to evaluate");
    assert_eq!(
        result,
        RuntimeVal::Block(Box::new(RuntimeVal::Return(Box::new(RuntimeVal::Int(2)))))
    );
}

#[test]
fn func_call_int() {
    let result = evaluate(
        "
        func test(param1) {
            return param1 * 2;
        }

        test(2)
        ",
    )
    .expect("Failed to evaluate");
    assert_eq!(result, RuntimeVal::Int(4));
}

#[test]
fn func_call_string() {
    let result = evaluate(
        "
        func test(param1) {
            return param1 + 'world!';
        }

        test('hello, ')
        ",
    )
    .expect("Failed to evaluate");
    assert_eq!(result, RuntimeVal::String("hello, world!".to_string()));
}

fn run(source: &str) -> (Result<RuntimeVal, RuntimeError>, Environment, Vec<RuntimeVal>) {
    let mut parser = Parser::try_new(source).expect("not made of tokens");
    let program = parser.try_parse().expect("not a program");
    let mut env = Environment::new(None);
    let mut runtime = Interpreter::new();
    let result = runtime.evaluate_program(&program, &mut env);
    (result, env, runtime.printed)
}

fn decimal(value: f64) -> RuntimeVal {
    RuntimeVal::Float(value.to_bits())
}

fn text(value: &str) -> RuntimeVal {
    RuntimeVal::String(value.to_string())
}

#[test]
fn empty_program_is_undefined() {
    assert_eq!(evaluate(""), Ok(RuntimeVal::Undefined));
}

#[test]
fn literal_values() {
    assert_eq!(evaluate("12"), Ok(RuntimeVal::Int(12)));
    assert_eq!(evaluate("1.5"), Ok(decimal(1.5)));
    assert_eq!(evaluate("'s'"), Ok(text("s")));
    assert_eq!(evaluate("true"), Ok(RuntimeVal::Bool(true)));
    assert_eq!(evaluate("false"), Ok(RuntimeVal::Bool(false)));
}

#[test]
fn integer_division_truncates() {
    assert_eq!(evaluate("7 / 2"), Ok(RuntimeVal::Int(3)));
    assert_eq!(evaluate("(0 - 7) / 2"), Ok(RuntimeVal::Int(-3)));
    assert_eq!(evaluate("7 / (0 - 2)"), Ok(RuntimeVal::Int(-3)));
    assert_eq!(evaluate("0 / 5"), Ok(RuntimeVal::Int(0)));
}

#[test]
fn integer_overflow_wraps() {
    assert_eq!(
        evaluate("9223372036854775807 + 1"),
        Ok(RuntimeVal::Int(i64::MIN))
    );
}

#[test]
fn precedence_in_evaluation() {
    assert_eq!(evaluate("1 + 2 * 3"), Ok(RuntimeVal::Int(7)));
    assert_eq!(evaluate("(1 + 2) * 3"), Ok(RuntimeVal::Int(9)));
    assert_eq!(evaluate("10 - 4 - 3"), Ok(RuntimeVal::Int(3)));
}

#[test]
fn decimal_arithmetic() {
    assert_eq!(evaluate("0.1 + 0.2"), Ok(decimal(0.1 + 0.2)));
    assert_eq!(evaluate("1 + 1.5"), Ok(decimal(2.5)));
    assert_eq!(evaluate("1.5 * 2"), Ok(decimal(3.0)));
    assert_eq!(evaluate("5.5 - 2"), Ok(decimal(3.5)));
    assert_eq!(evaluate("1 / 4."), Ok(decimal(0.25)));
    assert_eq!(evaluate("1. / 3."), Ok(decimal(1.0 / 3.0)));
}

#[test]
fn integer_by_decimal_zero_is_division_by_zero() {
    assert_eq!(evaluate("1 / 0.0"), Err(RuntimeError::DivisionByZero));
    assert_eq!(evaluate("0 / 0."), Err(RuntimeError::DivisionByZero));
}

#[test]
fn decimal_by_zero_is_infinite_or_nan() {
    assert_eq!(evaluate("1.0 / 0.0"), Ok(decimal(f64::INFINITY)));
    assert_eq!(evaluate("1.0 / 0"), Ok(decimal(f64::INFINITY)));
    assert_eq!(evaluate("(0. - 1.) / 0."), Ok(decimal(f64::NEG_INFINITY)));
    match evaluate("0.0 / 0.0") {
        Ok(RuntimeVal::Float(bits)) => assert!(f64::from_bits(bits).is_nan()),
        other => panic!("expected a NaN, got {:?}", other),
    }
}

#[test]
fn string_concatenation() {
    assert_eq!(evaluate("'a' + 'b'"), Ok(text("ab")));
    assert_eq!(evaluate("('a' + 'b') + 'c'"), Ok(text("abc")));
    assert_eq!(evaluate("'a' + ('b' + 'c')"), Ok(text("abc")));
    assert_eq!(evaluate("'' + \"x\""), Ok(text("x")));
}

#[test]
fn operands_of_wrong_type() {
    assert_eq!(evaluate("'a' - 'b'"), Err(RuntimeError::InvalidOperandType));
    assert_eq!(evaluate("1 + 'a'"), Err(RuntimeError::InvalidOperandType));
    assert_eq!(evaluate("'a' * 2"), Err(RuntimeError::InvalidOperandType));
    assert_eq!(evaluate("true + 1"), Err(RuntimeError::InvalidOperandType));
    assert_eq!(evaluate("1.5 + false"), Err(RuntimeError::InvalidOperandType));
}

#[test]
fn left_operand_is_evaluated_first() {
    assert_eq!(
        evaluate("a + b"),
        Err(RuntimeError::UndefinedVariable("a".to_string()))
    );
    assert_eq!(
        evaluate("1 + b + c"),
        Err(RuntimeError::UndefinedVariable("b".to_string()))
    );
    assert_eq!(
        evaluate("f() + b"),
        Err(RuntimeError::UndefinedFunction("f".to_string()))
    );
}

#[test]
fn declaration_yields_undefined() {
    let (result, env, _) = run("let x: int = 3;");
    assert_eq!(result, Ok(RuntimeVal::Undefined));
    assert_eq!(env.get_var("x"), Ok(RuntimeVal::Int(3)));
}

#[test]
fn declared_types_are_checked() {
    assert_eq!(evaluate("let a: int = 1;"), Ok(RuntimeVal::Undefined));
    assert_eq!(evaluate("let a: float = 1.;"), Ok(RuntimeVal::Undefined));
    assert_eq!(evaluate("let a: string = 's';"), Ok(RuntimeVal::Undefined));
    assert_eq!(evaluate("let a: bool = true;"), Ok(RuntimeVal::Undefined));
    assert_eq!(evaluate("let a: float = 1;"), Err(RuntimeError::InvalidType));
    assert_eq!(evaluate("let a: string = 1;"), Err(RuntimeError::InvalidType));
    assert_eq!(evaluate("let a: bool = 1;"), Err(RuntimeError::InvalidType));
    assert_eq!(evaluate("let a: int = 's';"), Err(RuntimeError::InvalidType));
    assert_eq!(evaluate("let a: int = false;"), Err(RuntimeError::InvalidType));
    assert_eq!(evaluate("const a: int = 1.5;"), Err(RuntimeError::InvalidType));
}

#[test]
fn value_that_is_no_scalar_matches_no_declared_type() {
    let (result, env, _) = run("func f() { } let x: int = f();");
    assert_eq!(result, Err(RuntimeError::InvalidType));
    assert_eq!(
        env.get_var("x"),
        Err(RuntimeError::UndefinedVariable("x".to_string()))
    );
    assert_eq!(
        evaluate("func f() { } let x: string = f();"),
        Err(RuntimeError::InvalidType)
    );
    assert_eq!(
        evaluate("func f() { } let x: bool = f();"),
        Err(RuntimeError::InvalidType)
    );
    assert_eq!(
        evaluate("func f() { } const x: float = f();"),
        Err(RuntimeError::InvalidType)
    );
}

#[test]
fn mismatched_declaration_leaves_the_name_unbound() {
    let (result, env, _) = run("let a: int = 1.5;");
    assert_eq!(result, Err(RuntimeError::InvalidType));
    assert_eq!(
        env.get_var("a"),
        Err(RuntimeError::UndefinedVariable("a".to_string()))
    );
    let (result, env, _) = run("let a: float = 1.5; a");
    assert_eq!(result, Ok(decimal(1.5)));
    assert_eq!(env.get_var("a"), Ok(decimal(1.5)));
}

#[test]
fn assignment_changes_a_variable() {
    assert_eq!(
        evaluate("let x: int = 1; x = 5; x"),
        Ok(RuntimeVal::Int(5))
    );
    assert_eq!(evaluate("let x: int = 1; x = 5;"), Ok(RuntimeVal::Undefined));
}

#[test]
fn assignment_does_not_check_the_declared_type() {
    assert_eq!(evaluate("let x: int = 1; x = 's'; x"), Ok(text("s")));
}

#[test]
fn assignment_to_undeclared_name() {
    assert_eq!(
        evaluate("x = 1;"),
        Err(RuntimeError::UndefinedVariable("x".to_string()))
    );
}

#[test]
fn assignment_target_must_be_a_name() {
    assert_eq!(evaluate("1 = 2;"), Err(RuntimeError::InvalidOperandType));
    assert_eq!(evaluate("a + b = c;"), Err(RuntimeError::InvalidOperandType));
}

#[test]
fn constant_reassignment() {
    assert_eq!(
        evaluate("const x: int = 1; x = 2;"),
        Err(RuntimeError::ConstantReassignment("x".to_string()))
    );
    let (result, env, _) = run("const x: int = 1; x = 2;");
    assert!(result.is_err());
    assert_eq!(env.get_var("x"), Ok(RuntimeVal::Int(1)));
}

#[test]
fn variable_redeclaration() {
    assert_eq!(
        evaluate("let x: int = 1; let x: int = 2;"),
        Err(RuntimeError::VarRedeclaration("x".to_string()))
    );
    assert_eq!(
        evaluate("{ let x: int = 1; const x: string = 's'; }"),
        Err(RuntimeError::VarRedeclaration("x".to_string()))
    );
}

#[test]
fn shadowing_in_a_nested_block() {
    let (result, env, _) = run("let x: int = 1; { let x: int = 2; return x; }");
    assert_eq!(
        result,
        Ok(RuntimeVal::Block(Box::new(RuntimeVal::Return(Box::new(
            RuntimeVal::Int(2)
        )))))
    );
    assert_eq!(env.get_var("x"), Ok(RuntimeVal::Int(1)));
}

#[test]
fn block_reads_enclosing_variables() {
    assert_eq!(
        evaluate("let x: int = 4; { return x * 2; }"),
        Ok(RuntimeVal::Block(Box::new(RuntimeVal::Return(Box::new(
            RuntimeVal::Int(8)
        )))))
    );
}

#[test]
fn block_cannot_assign_enclosing_variables() {
    let (result, env, _) = run("let x: int = 1; { x = 2; }");
    assert_eq!(
        result,
        Err(RuntimeError::UndefinedVariable("x".to_string()))
    );
    assert_eq!(env.get_var("x"), Ok(RuntimeVal::Int(1)));
}

#[test]
fn block_without_return_is_undefined() {
    assert_eq!(
        evaluate("{ 1 2 }"),
        Ok(RuntimeVal::Block(Box::new(RuntimeVal::Undefined)))
    );
    assert_eq!(
        evaluate("{ }"),
        Ok(RuntimeVal::Block(Box::new(RuntimeVal::Undefined)))
    );
}

#[test]
fn block_stops_at_the_first_return() {
    let (result, _, printed) = run("{ print 1; return 2; print 3; return 4; }");
    assert_eq!(
        result,
        Ok(RuntimeVal::Block(Box::new(RuntimeVal::Return(Box::new(
            RuntimeVal::Int(2)
        )))))
    );
    assert_eq!(printed, vec![RuntimeVal::Int(1)]);
}

#[test]
fn names_of_a_block_end_with_it() {
    assert_eq!(
        evaluate("{ let x: int = 1; } x"),
        Err(RuntimeError::UndefinedVariable("x".to_string()))
    );
    assert_eq!(
        evaluate("{ func f() { } } f()"),
        Err(RuntimeError::UndefinedFunction("f".to_string()))
    );
}

#[test]
fn return_at_top_level_is_wrapped() {
    assert_eq!(
        evaluate("return 1 + 1;"),
        Ok(RuntimeVal::Return(Box::new(RuntimeVal::Int(2))))
    );
    assert_eq!(evaluate("return 1; 5"), Ok(RuntimeVal::Int(5)));
}

#[test]
fn print_keeps_values_in_order() {
    let (result, _, printed) = run("print 1 + 1; print 'two'; print 1.5;");
    assert_eq!(result, Ok(RuntimeVal::Undefined));
    assert_eq!(
        printed,
        vec![RuntimeVal::Int(2), text("two"), decimal(1.5)]
    );
}

#[test]
fn print_inside_a_function() {
    let (result, _, printed) = run("func f(a) { print a; return a; } print 0; f(7)");
    assert_eq!(result, Ok(RuntimeVal::Int(7)));
    assert_eq!(printed, vec![RuntimeVal::Int(0), RuntimeVal::Int(7)]);
}

#[test]
fn printed_values_stay_after_an_error() {
    let (result, _, printed) = run("print 1; print x; print 2;");
    assert_eq!(
        result,
        Err(RuntimeError::UndefinedVariable("x".to_string()))
    );
    assert_eq!(printed, vec![RuntimeVal::Int(1)]);
}

#[test]
fn function_declaration_yields_the_function() {
    let (result, env, _) = run("func f(a) { return a; }");
    let function = result.expect("Failed to evaluate");
    assert!(matches!(function, RuntimeVal::Func(_, _, _)));
    assert_eq!(env.get_func("f"), Ok(function));
}

#[test]
fn function_without_return_is_undefined() {
    assert_eq!(evaluate("func f() { 1 } f()"), Ok(RuntimeVal::Undefined));
    assert_eq!(evaluate("func f() { } f()"), Ok(RuntimeVal::Undefined));
}

#[test]
fn function_with_several_parameters() {
    assert_eq!(
        evaluate("func f(a, b, c) { return a - b * c; } f(10, 2, 3)"),
        Ok(RuntimeVal::Int(4))
    );
}

#[test]
fn call_of_unknown_function() {
    assert_eq!(
        evaluate("f()"),
        Err(RuntimeError::UndefinedFunction("f".to_string()))
    );
}

#[test]
fn call_with_wrong_argument_count() {
    assert_eq!(
        evaluate("func f(a) { return a; } f(1, 2)"),
        Err(RuntimeError::InvalidFuncCallParametersCount(
            "f".to_string()
        ))
    );
    assert_eq!(
        evaluate("func f(a) { return a; } f()"),
        Err(RuntimeError::InvalidFuncCallParametersCount(
            "f".to_string()
        ))
    );
    assert_eq!(
        evaluate("func f() { } f(x)"),
        Err(RuntimeError::InvalidFuncCallParametersCount(
            "f".to_string()
        ))
    );
}

#[test]
fn function_body_cannot_read_callers_variables() {
    assert_eq!(
        evaluate("let y: int = 1; func f() { return y; } f()"),
        Err(RuntimeError::UndefinedVariable("y".to_string()))
    );
    assert_eq!(
        evaluate("{ let y: int = 1; func f() { return y; } f() }"),
        Err(RuntimeError::UndefinedVariable("y".to_string()))
    );
}

#[test]
fn function_body_sees_true_and_false() {
    assert_eq!(
        evaluate("func f() { let t: bool = true; return t; } f()"),
        Ok(RuntimeVal::Bool(true))
    );
}

#[test]
fn arguments_are_evaluated_in_the_caller() {
    assert_eq!(
        evaluate("let x: int = 2; func test(p) { return p * 2; } test(x)"),
        Ok(RuntimeVal::Int(4))
    );
    assert_eq!(
        evaluate("let x: int = 2; func f(a, b) { return a - b; } f(x * 5, x + 1)"),
        Ok(RuntimeVal::Int(7))
    );
    assert_eq!(
        evaluate("{ let x: string = 'in'; func f(a) { return a + '!'; } return f(x + 'side'); }"),
        Ok(RuntimeVal::Block(Box::new(RuntimeVal::Return(Box::new(
            text("inside!")
        )))))
    );
}

#[test]
fn arguments_do_not_see_the_parameters() {
    assert_eq!(
        evaluate("func f(a, b) { return b; } f(2, a * 3)"),
        Err(RuntimeError::UndefinedVariable("a".to_string()))
    );
    assert_eq!(
        evaluate("let a: int = 10; func f(a, b) { return a + b; } f(2, a * 3)"),
        Ok(RuntimeVal::Int(32))
    );
}

#[test]
fn arguments_are_evaluated_from_left_to_right() {
    assert_eq!(
        evaluate("func f(a, b) { return a; } f(x, y)"),
        Err(RuntimeError::UndefinedVariable("x".to_string()))
    );
    assert_eq!(
        evaluate("func f(a, b) { return a; } f(1, g())"),
        Err(RuntimeError::UndefinedFunction("g".to_string()))
    );
    let (result, env, _) = run("let x: int = 1; func f(a, b) { return b; } f(x = 5;, x)");
    assert_eq!(result, Ok(RuntimeVal::Int(5)));
    assert_eq!(env.get_var("x"), Ok(RuntimeVal::Int(5)));
}

#[test]
fn calls_may_be_arguments_of_calls() {
    assert_eq!(
        evaluate("func twice(a) { return a * 2; } func inc(a) { return a + 1; } twice(inc(twice(3)))"),
        Ok(RuntimeVal::Int(14))
    );
}

#[test]
fn failing_argument_keeps_the_body_from_running() {
    let (result, _, printed) = run("func f(a) { print 1; return a; } f(missing)");
    assert_eq!(
        result,
        Err(RuntimeError::UndefinedVariable("missing".to_string()))
    );
    assert_eq!(printed, vec![]);
}

#[test]
fn parameters_must_differ() {
    assert_eq!(
        evaluate("func f(a, a) { return a; } f(1, 2)"),
        Err(RuntimeError::VarRedeclaration("a".to_string()))
    );
}

#[test]
fn arguments_are_all_evaluated_before_any_parameter_is_bound() {
    assert_eq!(
        evaluate("func f(a, a) { return a; } f(1, x)"),
        Err(RuntimeError::UndefinedVariable("x".to_string()))
    );
    let (result, env, _) = run("let x: int = 1; func f(a, a) { return a; } f(1, x = 2;)");
    assert_eq!(
        result,
        Err(RuntimeError::VarRedeclaration("a".to_string()))
    );
    assert_eq!(env.get_var("x"), Ok(RuntimeVal::Int(2)));
}

#[test]
fn function_cannot_call_itself_or_its_neighbours() {
    assert_eq!(
        evaluate("func f() { return f(); } f()"),
        Err(RuntimeError::UndefinedFunction("f".to_string()))
    );
    assert_eq!(
        evaluate("func g() { return 1; } func f() { return g(); } f()"),
        Err(RuntimeError::UndefinedFunction("g".to_string()))
    );
}

#[test]
fn function_calls_what_its_body_declares() {
    assert_eq!(
        evaluate(
            "func f(a) {
                func twice(b) { return b * 2; }
                func inner(c) {
                    func deep(d) { return d + 1; }
                    return deep(c) * 10;
                }
                return twice(a) + inner(a);
            }
            f(3)"
        ),
        Ok(RuntimeVal::Int(46))
    );
}

#[test]
fn function_may_shadow_a_parameter_in_its_block() {
    assert_eq!(
        evaluate("func f(a) { let a: int = 5; return a; } f(1)"),
        Ok(RuntimeVal::Int(5))
    );
}

#[test]
fn function_may_be_named_like_a_variable() {
    assert_eq!(
        evaluate("let f: int = 1; func f() { return 2; } f() + f"),
        Ok(RuntimeVal::Int(3))
    );
}

#[test]
fn function_redeclaration() {
    let (result, env, _) = run("func f() { return 1; } func f(a) { return 2; }");
    assert_eq!(
        result,
        Err(RuntimeError::FuncRedeclaration("f".to_string()))
    );
    let mut env = env;
    let mut runtime = Interpreter::new();
    let call = Parser::try_new("f()")
        .and_then(|mut parser| parser.try_parse())
        .expect("not a program");
    assert_eq!(
        runtime.evaluate_program(&call, &mut env),
        Ok(RuntimeVal::Int(1))
    );
}

#[test]
fn function_may_be_declared_again_in_a_nested_block() {
    assert_eq!(
        evaluate("func f() { return 1; } { func f() { return 2; } return f(); }"),
        Ok(RuntimeVal::Block(Box::new(RuntimeVal::Return(Box::new(
            RuntimeVal::Int(2)
        )))))
    );
}

#[test]
fn first_error_ends_the_run_and_keeps_what_was_declared() {
    let (result, env, _) = run("let a: int = 1; let b: int = c; let d: int = 4;");
    assert_eq!(
        result,
        Err(RuntimeError::UndefinedVariable("c".to_string()))
    );
    assert_eq!(env.get_var("a"), Ok(RuntimeVal::Int(1)));
    assert_eq!(
        env.get_var("b"),
        Err(RuntimeError::UndefinedVariable("b".to_string()))
    );
    assert_eq!(
        env.get_var("d"),
        Err(RuntimeError::UndefinedVariable("d".to_string()))
    );
}

#[test]
fn environment_is_kept_between_programs() {
    let mut env = Environment::new(None);
    let mut runtime = Interpreter::new();
    let first = Parser::try_new("let x: int = 20; func f(a) { return a + 1; }")
        .and_then(|mut parser| parser.try_parse())
        .expect("not a program");
    assert!(runtime.evaluate_program(&first, &mut env).is_ok());
    let second = Parser::try_new("x + f(1)")
        .and_then(|mut parser| parser.try_parse())
        .expect("not a program");
    assert_eq!(
        runtime.evaluate_program(&second, &mut env),
        Ok(RuntimeVal::Int(22))
    );
}

#[test]
fn fresh_environments_give_the_same_result() {
    let source = "
        const k: float = 2.5;
        func area(r) { return r * r * 3.14159; }
        print area(2);
        { let t: string = 'a' + 'b'; print t; return k / 3; }
    ";
    let program = Parser::try_new(source)
        .and_then(|mut parser| parser.try_parse())
        .expect("not a program");
    let mut first_env = Environment::new(None);
    let mut first = Interpreter::new();
    let first_result = first.evaluate_program(&program, &mut first_env);
    let mut second_env = Environment::new(None);
    let mut second = Interpreter::new();
    let second_result = second.evaluate_program(&program, &mut second_env);
    assert_eq!(first_result, second_result);
    assert_eq!(first.printed, second.printed);
    assert_eq!(
        first_result,
        Ok(RuntimeVal::Block(Box::new(RuntimeVal::Return(Box::new(
            decimal(2.5 / 3.0)
        )))))
    );
    assert_eq!(
        first.printed,
        vec![decimal(2.0 * 2.0 * 3.14159), text("ab")]
    );
}

#[test]
fn copies_are_equal() {
    let (result, _, _) = run("func f(a, b) { { return a + 'x'; } }");
    let function = result.expect("Failed to evaluate");
    assert_eq!(function.duplicate(), function);
    assert_eq!(function.clone(), function);
}

fn statement(source: &str) -> trlang::ast::stmt::Stmt {
    let mut statements = Parser::try_new(source)
        .and_then(|mut parser| parser.try_parse())
        .expect("not a program")
        .statements;
    assert_eq!(statements.len(), 1);
    statements.remove(0)
}

fn expression(source: &str) -> trlang::ast::expr::Expr {
    match statement(source) {
        trlang::ast::stmt::Stmt::Expression(expr) => expr,
        other => panic!("expected an expression, got {:?}", other),
    }
}

#[test]
fn one_statement_at_a_time() {
    let mut env = Environment::new(None);
    let mut runtime = Interpreter::new();
    assert_eq!(
        runtime.evaluate_statement(&statement("let t: int = 1 + 1;"), &mut env),
        Ok(RuntimeVal::Undefined)
    );
    assert_eq!(
        runtime.evaluate_statement(&statement("{ t * 2 return t; }"), &mut env),
        Ok(RuntimeVal::Block(Box::new(RuntimeVal::Return(Box::new(
            RuntimeVal::Int(2)
        )))))
    );
    assert_eq!(
        runtime.evaluate_statement(&statement("return t;"), &mut env),
        Ok(RuntimeVal::Return(Box::new(RuntimeVal::Int(2))))
    );
    assert_eq!(
        runtime.evaluate_statement(&statement("print t;"), &mut env),
        Ok(RuntimeVal::Undefined)
    );
    assert_eq!(runtime.printed, vec![RuntimeVal::Int(2)]);
    assert_eq!(
        runtime.evaluate_statement(&statement("let t: int = 3;"), &mut env),
        Err(RuntimeError::VarRedeclaration("t".to_string()))
    );
    assert_eq!(
        runtime.evaluate_statement(&statement("let u: int = 'text';"), &mut env),
        Err(RuntimeError::InvalidType)
    );
    assert_eq!(
        env.get_var("u"),
        Err(RuntimeError::UndefinedVariable("u".to_string()))
    );
}

#[test]
fn one_expression_at_a_time() {
    let mut env = Environment::new(None);
    let mut runtime = Interpreter::new();
    runtime
        .evaluate_statement(&statement("func test(p) { return p * 2; }"), &mut env)
        .expect("Failed to evaluate");
    runtime
        .evaluate_statement(&statement("let x: int = 2;"), &mut env)
        .expect("Failed to evaluate");
    assert_eq!(
        runtime.evaluate_expression(&expression("test(x)"), &mut env),
        Ok(RuntimeVal::Int(4))
    );
    assert_eq!(
        runtime.evaluate_expression(&expression("test(x, x)"), &mut env),
        Err(RuntimeError::InvalidFuncCallParametersCount(
            "test".to_string()
        ))
    );
    assert_eq!(
        runtime.evaluate_expression(&expression("test()"), &mut env),
        Err(RuntimeError::InvalidFuncCallParametersCount(
            "test".to_string()
        ))
    );
    assert_eq!(
        runtime.evaluate_expression(&expression("x = 7;"), &mut env),
        Ok(RuntimeVal::Undefined)
    );
    assert_eq!(
        runtime.evaluate_expression(&expression("x / 2"), &mut env),
        Ok(RuntimeVal::Int(3))
    );
    assert_eq!(
        runtime.evaluate_expression(&expression("y"), &mut env),
        Err(RuntimeError::UndefinedVariable("y".to_string()))
    );
}

#[test]
fn wrong_argument_count_evaluates_nothing() {
    let (result, env, printed) =
        run("let x: int = 1; func f(a) { print a; return a; } f(x = 5;, 2)");
    assert_eq!(
        result,
        Err(RuntimeError::InvalidFuncCallParametersCount(
            "f".to_string()
        ))
    );
    assert_eq!(env.get_var("x"), Ok(RuntimeVal::Int(1)));
    assert_eq!(printed, vec![]);
}

#[test]
fn block_never_yields_a_bare_value() {
    assert_eq!(
        evaluate("{ 1 + 1 }"),
        Ok(RuntimeVal::Block(Box::new(RuntimeVal::Undefined)))
    );
    assert_eq!(
        evaluate("{ { return 1; } 2 }"),
        Ok(RuntimeVal::Block(Box::new(RuntimeVal::Undefined)))
    );
    assert_eq!(
        evaluate("{ 1 return 2; return 3; }"),
        Ok(RuntimeVal::Block(Box::new(RuntimeVal::Return(Box::new(
            RuntimeVal::Int(2)
        )))))
    );
    assert_eq!(
        evaluate("{ 1 return x; return 3; }"),
        Err(RuntimeError::UndefinedVariable("x".to_string()))
    );
}

#[test]
fn function_body_cannot_read_the_callers_block() {
    assert_eq!(
        evaluate("func f(a) { return a + y; } { let y: int = 1; return f(y); }"),
        Err(RuntimeError::UndefinedVariable("y".to_string()))
    );
    assert_eq!(
        evaluate("func f(a) { let y: int = 10; return a + y; } { let y: int = 1; return f(y); }"),
        Ok(RuntimeVal::Block(Box::new(RuntimeVal::Return(Box::new(
            RuntimeVal::Int(11)
        )))))
    );
}

#[test]
fn function_body_reaches_a_read_of_the_callers_name() {
    let (result, _, printed) = run(
        "let y: int = 100;
         func f(a) {
             let b: int = a * 2;
             print b;
             { let y: int = 1; print y; }
             b = b + 1;
             print b + y;
             return 0;
         }
         f(y)",
    );
    assert_eq!(
        result,
        Err(RuntimeError::UndefinedVariable("y".to_string()))
    );
    assert_eq!(
        printed,
        vec![RuntimeVal::Int(200), RuntimeVal::Int(1)]
    );
}

#[test]
fn function_body_reads_what_it_declared_itself() {
    assert_eq!(
        evaluate(
            "let y: int = 100;
             func f(a) { let y: int = a + 1; return y * 2; }
             f(y)"
        ),
        Ok(RuntimeVal::Int(202))
    );
}
