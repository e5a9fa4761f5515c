use trlang::ast::stmt::Stmt;
use trlang::runtime::environment::Environment;
use trlang::runtime::values::{RuntimeError, RuntimeVal};

fn function(name: &str) -> RuntimeVal {
    RuntimeVal::Func(name.to_string(), vec![], Stmt::Block(vec![]))
}

#[test]
fn root_binds_true_and_false() {
    let env = Environment::new(None);
    assert_eq!(env.get_var("true"), Ok(RuntimeVal::Bool(true)));
    assert_eq!(env.get_var("false"), Ok(RuntimeVal::Bool(false)));
}

#[test]
fn root_constants_cannot_be_assigned() {
    let mut env = Environment::new(None);
    assert_eq!(
        env.assign_var("true", RuntimeVal::Bool(false)),
        Err(RuntimeError::ConstantReassignment("true".to_string()))
    );
    assert_eq!(env.get_var("true"), Ok(RuntimeVal::Bool(true)));
}

#[test]
fn child_starts_empty_and_sees_its_parent() {
    let mut root = Environment::new(None);
    root.declare_var("x", RuntimeVal::Int(1), false).unwrap();
    let mut child = Environment::new(Some(root));
    assert_eq!(child.get_var("x"), Ok(RuntimeVal::Int(1)));
    assert_eq!(child.get_var("true"), Ok(RuntimeVal::Bool(true)));
    assert_eq!(
        child.declare_var("true", RuntimeVal::Int(0), false),
        Ok(())
    );
    assert_eq!(child.get_var("true"), Ok(RuntimeVal::Int(0)));
}

#[test]
fn unknown_variable() {
    let env = Environment::new(None);
    assert_eq!(
        env.get_var("x"),
        Err(RuntimeError::UndefinedVariable("x".to_string()))
    );
}

#[test]
fn unknown_function() {
    let env = Environment::new(None);
    assert_eq!(
        env.get_func("f"),
        Err(RuntimeError::UndefinedFunction("f".to_string()))
    );
}

#[test]
fn variables_and_functions_are_apart() {
    let mut env = Environment::new(None);
    env.declare_func("f", function("f")).unwrap();
    assert_eq!(
        env.get_var("f"),
        Err(RuntimeError::UndefinedVariable("f".to_string()))
    );
    assert_eq!(env.get_func("f"), Ok(function("f")));
    assert_eq!(
        env.get_func("true"),
        Err(RuntimeError::UndefinedFunction("true".to_string()))
    );
}

#[test]
fn declared_variable_is_found() {
    let mut env = Environment::new(None);
    assert_eq!(env.declare_var("x", RuntimeVal::Int(5), false), Ok(()));
    assert_eq!(env.get_var("x"), Ok(RuntimeVal::Int(5)));
}

#[test]
fn declaring_twice_in_one_frame_is_refused() {
    let mut env = Environment::new(None);
    env.declare_var("x", RuntimeVal::Int(1), false).unwrap();
    assert_eq!(
        env.declare_var("x", RuntimeVal::Int(2), true),
        Err(RuntimeError::VarRedeclaration("x".to_string()))
    );
    assert_eq!(env.get_var("x"), Ok(RuntimeVal::Int(1)));
    assert_eq!(env.assign_var("x", RuntimeVal::Int(3)), Ok(()));
}

#[test]
fn shadowing_in_a_nested_scope() {
    let mut env = Environment::new(None);
    env.declare_var("x", RuntimeVal::Int(1), true).unwrap();
    env.enter_scope();
    assert_eq!(env.declare_var("x", RuntimeVal::Int(2), false), Ok(()));
    assert_eq!(env.get_var("x"), Ok(RuntimeVal::Int(2)));
    env.leave_scope();
    assert_eq!(env.get_var("x"), Ok(RuntimeVal::Int(1)));
}

#[test]
fn assignment_replaces_the_value() {
    let mut env = Environment::new(None);
    env.declare_var("x", RuntimeVal::Int(1), false).unwrap();
    env.declare_var("y", RuntimeVal::Int(10), false).unwrap();
    assert_eq!(
        env.assign_var("x", RuntimeVal::String("s".to_string())),
        Ok(())
    );
    assert_eq!(env.get_var("x"), Ok(RuntimeVal::String("s".to_string())));
    assert_eq!(env.get_var("y"), Ok(RuntimeVal::Int(10)));
    assert_eq!(env.assign_var("y", RuntimeVal::Int(11)), Ok(()));
    assert_eq!(env.assign_var("x", RuntimeVal::Int(2)), Ok(()));
    assert_eq!(env.get_var("x"), Ok(RuntimeVal::Int(2)));
    assert_eq!(env.get_var("y"), Ok(RuntimeVal::Int(11)));
    assert_eq!(
        env.declare_var("x", RuntimeVal::Int(3), false),
        Err(RuntimeError::VarRedeclaration("x".to_string()))
    );
}

#[test]
fn assignment_to_unknown_name() {
    let mut env = Environment::new(None);
    assert_eq!(
        env.assign_var("x", RuntimeVal::Int(1)),
        Err(RuntimeError::UndefinedVariable("x".to_string()))
    );
    assert_eq!(
        env.get_var("x"),
        Err(RuntimeError::UndefinedVariable("x".to_string()))
    );
}

#[test]
fn assignment_does_not_reach_enclosing_frames() {
    let mut env = Environment::new(None);
    env.declare_var("x", RuntimeVal::Int(1), false).unwrap();
    env.enter_scope();
    assert_eq!(
        env.assign_var("x", RuntimeVal::Int(2)),
        Err(RuntimeError::UndefinedVariable("x".to_string()))
    );
    assert_eq!(env.get_var("x"), Ok(RuntimeVal::Int(1)));
    env.leave_scope();
    assert_eq!(env.get_var("x"), Ok(RuntimeVal::Int(1)));
}

#[test]
fn constant_cannot_be_assigned() {
    let mut env = Environment::new(None);
    env.declare_var("x", RuntimeVal::Int(1), true).unwrap();
    assert_eq!(
        env.assign_var("x", RuntimeVal::Int(2)),
        Err(RuntimeError::ConstantReassignment("x".to_string()))
    );
}

#[test]
fn refused_assignment_to_constant_changes_nothing() {
    let mut env = Environment::new(None);
    env.declare_var("x", RuntimeVal::Int(1), true).unwrap();
    env.declare_var("y", RuntimeVal::Int(7), false).unwrap();
    assert_eq!(
        env.assign_var("x", RuntimeVal::Int(2)),
        Err(RuntimeError::ConstantReassignment("x".to_string()))
    );
    assert_eq!(env.get_var("x"), Ok(RuntimeVal::Int(1)));
    assert_eq!(
        env.assign_var("x", RuntimeVal::Int(3)),
        Err(RuntimeError::ConstantReassignment("x".to_string()))
    );
    assert_eq!(env.get_var("x"), Ok(RuntimeVal::Int(1)));
    assert_eq!(env.get_var("y"), Ok(RuntimeVal::Int(7)));
    assert_eq!(
        env.declare_var("x", RuntimeVal::Int(4), false),
        Err(RuntimeError::VarRedeclaration("x".to_string()))
    );
}

#[test]
fn function_may_take_the_name_of_a_variable() {
    let mut env = Environment::new(None);
    env.declare_var("f", RuntimeVal::Int(1), false).unwrap();
    assert_eq!(env.declare_func("f", function("f")), Ok(()));
    assert_eq!(env.get_func("f"), Ok(function("f")));
    assert_eq!(env.get_var("f"), Ok(RuntimeVal::Int(1)));
    assert_eq!(env.declare_func("true", function("t")), Ok(()));
    assert_eq!(env.get_var("true"), Ok(RuntimeVal::Bool(true)));
}

#[test]
fn variable_may_take_the_name_of_a_function() {
    let mut env = Environment::new(None);
    env.declare_func("f", function("f")).unwrap();
    assert_eq!(env.declare_var("f", RuntimeVal::Int(1), true), Ok(()));
    assert_eq!(env.get_var("f"), Ok(RuntimeVal::Int(1)));
    assert_eq!(env.get_func("f"), Ok(function("f")));
}

#[test]
fn declaring_a_function_twice_in_one_frame_is_refused() {
    let first = RuntimeVal::Func("f".to_string(), vec![], Stmt::Block(vec![]));
    let second = RuntimeVal::Func(
        "f".to_string(),
        vec!["a".to_string()],
        Stmt::Block(vec![]),
    );
    let mut env = Environment::new(None);
    assert_eq!(env.declare_func("f", first.clone()), Ok(()));
    env.declare_func("g", function("other")).unwrap();
    assert_eq!(
        env.declare_func("f", second),
        Err(RuntimeError::FuncRedeclaration("f".to_string()))
    );
    assert_eq!(env.get_func("f"), Ok(first));
    assert_eq!(env.get_func("g"), Ok(function("other")));
    assert_eq!(
        env.declare_func("g", function("again")),
        Err(RuntimeError::FuncRedeclaration("g".to_string()))
    );
}

#[test]
fn functions_are_found_in_enclosing_frames() {
    let mut env = Environment::new(None);
    env.declare_func("f", function("f")).unwrap();
    env.enter_scope();
    assert_eq!(env.get_func("f"), Ok(function("f")));
    env.declare_func("f", function("inner")).unwrap();
    assert_eq!(env.get_func("f"), Ok(function("inner")));
    env.leave_scope();
    assert_eq!(env.get_func("f"), Ok(function("f")));
}

#[test]
fn leaving_a_scope_forgets_its_names() {
    let mut env = Environment::new(None);
    env.enter_scope();
    env.declare_var("x", RuntimeVal::Int(1), false).unwrap();
    env.leave_scope();
    assert_eq!(
        env.get_var("x"),
        Err(RuntimeError::UndefinedVariable("x".to_string()))
    );
}
