//! The tree-walking interpreter. Each function computes the outcome that
//! [`crate::runtime::semantics`] defines for its piece of syntax.

use vstd::prelude::*;
use crate::ast::atom::Atom;
use crate::ast::expr::{Expr, ExprView, exprs_view};
use crate::ast::program::Program;
use crate::ast::stmt::{
    Stmt, StmtView, duplicate_names, names_view, stmts_view, well_formed_stmts,
};
use crate::lexer::TokenType;
use crate::runtime::arithmetic::binary_operation;
use crate::runtime::depth::{
    functions_kept, lemma_declared_func_fits, lemma_fit_kept, lemma_fit_proper, scope_kept,
};
use crate::runtime::environment::{
    Environment, empty_frame, frames_well_formed, function, root_frame,
};
use crate::runtime::scopes::{lemma_expr_scope, lemma_sequence_scope, lemma_stmt_scope};
use crate::runtime::semantics::{
    Outcome, State, bound_frame, call_depth, callable, eval_args, eval_block_items, eval_expr,
    eval_expression, eval_program, eval_sequence, eval_statement, eval_stmt, frames_depth,
    frames_fit, lemma_frames_fit, lemma_function_callable, lemma_stmts_depth, literal_value,
    proper_functions, stmt_depth, stmts_depth,
};
use crate::runtime::values::{ErrorView, RuntimeError, RuntimeVal, ValueView, result_view};

verus! {

/// The values of a list of runtime values, in order.
pub open spec fn values_view(values: Seq<RuntimeVal>) -> Seq<ValueView> {
    Seq::new(values.len(), |i: int| values[i]@)
}

/// Evaluates programs. It keeps, in order, the values that `print`
/// statements were given.
pub struct Interpreter {
    pub printed: Vec<RuntimeVal>,
}

impl Interpreter {
    /// The state that evaluation starts from or ends in.
    pub open spec fn state(self, env: Environment) -> State {
        State { env: env@, printed: values_view(self.printed@) }
    }

    /// The outcome that a result stands for, together with the state.
    pub open spec fn outcome(self, result: Result<RuntimeVal, RuntimeError>, env: Environment) -> Outcome {
        Outcome { result: result_view(result), state: self.state(env) }
    }

    /// An interpreter that has printed nothing.
    pub fn new() -> (interpreter: Interpreter)
        ensures
            interpreter.printed@ == Seq::<RuntimeVal>::empty(),
    {
        Interpreter { printed: Vec::new() }
    }

    /// Evaluates the statements of a program in order, in `env`. The
    /// result is the value of the last statement, or the first error, after
    /// which nothing more is evaluated; what was declared before the error
    /// stays declared.
    pub fn evaluate_program(&mut self, program: &Program, env: &mut Environment) -> (result: Result<
        RuntimeVal,
        RuntimeError,
    >)
        requires
            well_formed_stmts(program@),
            proper_functions(old(env)@),
        ensures
            final(self).outcome(result, *final(env)) == eval_program(
                program@,
                old(self).state(*old(env)),
            ),
            scope_kept(old(env)@, final(env)@),
            proper_functions(final(env)@),
            frames_well_formed(old(env)@) ==> frames_well_formed(final(env)@),
    {
        let ghost depth = call_depth(program@, env@);
        let ghost start = self.state(*env);
        proof {
            env.lemma_nonempty();
            lemma_frames_fit(env@, depth);
            lemma_sequence_scope(depth, program@, 0, ValueView::Undefined, start);
        }
        let mut result = RuntimeVal::Undefined;
        let mut i: usize = 0;
        while i < program.statements.len()
            invariant
                i <= program.statements.len(),
                start == old(self).state(*old(env)),
                well_formed_stmts(program@),
                depth >= stmts_depth(program@, program@.len()),
                frames_fit(env@, depth),
                scope_kept(start.env, env@),
                frames_well_formed(start.env) ==> frames_well_formed(
                    eval_program(program@, start).state.env,
                ),
                eval_program(program@, start) == eval_sequence(
                    depth,
                    program@,
                    i as nat,
                    result@,
                    self.state(*env),
                ),
            decreases program.statements.len() - i,
        {
            proof {
                lemma_stmts_depth(program@, program@.len(), i as int);
                assert(program@[i as int] == program.statements@[i as int]@);
            }
            let evaluated = self.evaluate(&program.statements[i], env, Ghost(depth));
            proof {
                lemma_fit_proper(env@, depth);
            }
            match evaluated {
                Ok(value) => {
                    result = value;
                },
                Err(error) => {
                    return Err(error);
                },
            }
            i += 1;
        }
        proof {
            lemma_fit_proper(env@, depth);
        }
        Ok(result)
    }

    /// Evaluates one statement in `env`: a declaration, a block, a
    /// `return`, a `print` or an expression. The result is the statement's
    /// own value, a block's wrapped in `Block` and a `return`'s in `Return`.
    pub fn evaluate_statement(&mut self, stmt: &Stmt, env: &mut Environment) -> (result: Result<
        RuntimeVal,
        RuntimeError,
    >)
        requires
            stmt@.well_formed(),
            proper_functions(old(env)@),
        ensures
            final(self).outcome(result, *final(env)) == eval_statement(
                stmt@,
                old(self).state(*old(env)),
            ),
            scope_kept(old(env)@, final(env)@),
            proper_functions(final(env)@),
            frames_well_formed(old(env)@) ==> frames_well_formed(final(env)@),
    {
        let ghost depth = call_depth(seq![stmt@], env@);
        proof {
            env.lemma_nonempty();
            lemma_stmt_scope(depth, stmt@, self.state(*env));
            lemma_frames_fit(env@, depth);
            lemma_stmts_depth(seq![stmt@], 1, 0);
        }
        let result = self.evaluate(stmt, env, Ghost(depth));
        proof {
            lemma_fit_proper(env@, depth);
        }
        result
    }

    /// Evaluates one expression in `env`: a literal, a name, an
    /// assignment, an operation or a call.
    pub fn evaluate_expression(&mut self, expr: &Expr, env: &mut Environment) -> (result: Result<
        RuntimeVal,
        RuntimeError,
    >)
        requires
            proper_functions(old(env)@),
        ensures
            final(self).outcome(result, *final(env)) == eval_expression(
                expr@,
                old(self).state(*old(env)),
            ),
            functions_kept(old(env)@, final(env)@),
            proper_functions(final(env)@),
            frames_well_formed(old(env)@) ==> frames_well_formed(final(env)@),
    {
        let ghost depth = frames_depth(env@, env@.len());
        proof {
            env.lemma_nonempty();
            lemma_expr_scope(depth, expr@, self.state(*env));
            lemma_frames_fit(env@, depth);
        }
        let result = self.evaluate_expr(expr, env, Ghost(depth));
        proof {
            lemma_fit_kept(old(env)@, env@, depth);
            lemma_fit_proper(env@, depth);
        }
        result
    }

    /// Evaluates one statement.
    fn evaluate(&mut self, stmt: &Stmt, env: &mut Environment, Ghost(depth): Ghost<nat>) -> (result:
        Result<RuntimeVal, RuntimeError>)
        requires
            stmt@.well_formed(),
            stmt_depth(stmt@) <= depth,
            frames_fit(old(env)@, depth),
        ensures
            final(self).outcome(result, *final(env)) == eval_stmt(
                depth,
                stmt@,
                old(self).state(*old(env)),
            ),
            scope_kept(old(env)@, final(env)@),
            frames_fit(final(env)@, depth),
        decreases depth, 1nat, stmt, 1nat,
    {
        match stmt {
            Stmt::Expression(expr) => {
                let result = self.evaluate_expr(expr, env, Ghost(depth));
                proof {
                    lemma_fit_kept(old(env)@, env@, depth);
                }
                result
            },
            Stmt::VarDeclaration(name, typing, is_const, expr) => {
                self.evaluate_var_declaration_stmt(
                    name.as_str(),
                    typing,
                    is_const,
                    expr,
                    env,
                    Ghost(depth),
                )
            },
            Stmt::FuncDeclaration(name, parameters, body) => {
                self.evaluate_func_declaration_stmt(
                    name.as_str(),
                    parameters,
                    body,
                    env,
                    Ghost(depth),
                )
            },
            Stmt::Block(stmts) => {
                proof {
                    Stmt::lemma_block_view(*stmts);
                }
                self.evaluate_block_stmt(stmts, env, Ghost(depth), Ghost(*stmt))
            },
            Stmt::Print(expr) => self.evaluate_print_expr(expr, env, Ghost(depth)),
            Stmt::Return(expr) => self.evaluate_return_stmt(expr, env, Ghost(depth)),
        }
    }

    /// Evaluates a `print` statement: the value is kept as printed.
    fn evaluate_print_expr(&mut self, expr: &Expr, env: &mut Environment, Ghost(depth): Ghost<nat>) -> (result: Result<RuntimeVal, RuntimeError>)
        requires
            frames_fit(old(env)@, depth),
        ensures
            final(self).outcome(result, *final(env)) == eval_stmt(
                depth,
                StmtView::Print(expr@),
                old(self).state(*old(env)),
            ),
            scope_kept(old(env)@, final(env)@),
            frames_fit(final(env)@, depth),
        decreases depth, 0nat, expr, 2nat,
    {
        let evaluated = self.evaluate_expr(expr, env, Ghost(depth));
        proof {
            lemma_fit_kept(old(env)@, env@, depth);
        }
        match evaluated {
            Ok(value) => {
                let ghost before = values_view(self.printed@);
                self.printed.push(value);
                assert(values_view(self.printed@) =~= before.push(value@));
                Ok(RuntimeVal::Undefined)
            },
            Err(error) => Err(error),
        }
    }

    /// Evaluates a function declaration: the function value is bound in
    /// the innermost frame and is the statement's result.
    fn evaluate_func_declaration_stmt(
        &mut self,
        name: &str,
        parameters: &Vec<String>,
        body: &Stmt,
        env: &mut Environment,
        Ghost(depth): Ghost<nat>,
    ) -> (result: Result<RuntimeVal, RuntimeError>)
        requires
            body@ is Block,
            body@.well_formed(),
            stmt_depth(body@) < depth,
            frames_fit(old(env)@, depth),
        ensures
            final(self).outcome(result, *final(env)) == eval_stmt(
                depth,
                StmtView::FuncDeclaration(name@, names_view(parameters@), Box::new(body@)),
                old(self).state(*old(env)),
            ),
            scope_kept(old(env)@, final(env)@),
            frames_fit(final(env)@, depth),
    {
        proof {
            env.lemma_nonempty();
        }
        let func = RuntimeVal::Func(
            name.to_owned(),
            duplicate_names(parameters),
            body.duplicate(),
        );
        match env.declare_func(name, func.duplicate()) {
            Ok(_) => {
                proof {
                    lemma_declared_func_fits(old(env)@, name@, func@, depth);
                }
                Ok(func)
            },
            Err(error) => Err(error),
        }
    }

    /// Evaluates a `return` statement: the value is wrapped as returned.
    fn evaluate_return_stmt(&mut self, expr: &Expr, env: &mut Environment, Ghost(depth): Ghost<nat>) -> (result: Result<RuntimeVal, RuntimeError>)
        requires
            frames_fit(old(env)@, depth),
        ensures
            final(self).outcome(result, *final(env)) == eval_stmt(
                depth,
                StmtView::Return(expr@),
                old(self).state(*old(env)),
            ),
            scope_kept(old(env)@, final(env)@),
            frames_fit(final(env)@, depth),
        decreases depth, 0nat, expr, 2nat,
    {
        let evaluated = self.evaluate_expr(expr, env, Ghost(depth));
        proof {
            lemma_fit_kept(old(env)@, env@, depth);
        }
        match evaluated {
            Ok(value) => Ok(RuntimeVal::Return(Box::new(value))),
            Err(error) => Err(error),
        }
    }

    /// Evaluates a block in a scope of its own, up to the first statement
    /// that returns.
    fn evaluate_block_stmt(
        &mut self,
        stmts: &Vec<Stmt>,
        env: &mut Environment,
        Ghost(depth): Ghost<nat>,
        Ghost(node): Ghost<Stmt>,
    ) -> (result: Result<RuntimeVal, RuntimeError>)
        requires
            node == Stmt::Block(*stmts),
            well_formed_stmts(stmts_view(stmts@)),
            stmts_depth(stmts_view(stmts@), stmts@.len()) <= depth,
            frames_fit(old(env)@, depth),
        ensures
            final(self).outcome(result, *final(env)) == eval_stmt(
                depth,
                StmtView::Block(stmts_view(stmts@)),
                old(self).state(*old(env)),
            ),
            scope_kept(old(env)@, final(env)@),
            frames_fit(final(env)@, depth),
        decreases depth, 1nat, node, 0nat,
    {
        let ghost items = stmts_view(stmts@);
        let ghost outside = env@;
        proof {
            env.lemma_nonempty();
        }
        env.enter_scope();
        let ghost inside = self.state(*env);
        proof {
            assert(env@.drop_first() =~= outside);
            assert forall|i: int, j: int|
                0 <= i < env@.len() && 0 <= j < env@[i].functions.len() implies callable(
                (#[trigger] env@[i].functions[j]).value,
                depth,
            ) by {
                assert(env@[i] == outside[i - 1]);
                assert(callable(outside[i - 1].functions[j].value, depth));
            }
        }
        let mut i: usize = 0;
        while i < stmts.len()
            invariant
                i <= stmts.len(),
                node is Block,
                node->Block_0 == *stmts,
                items == stmts_view(stmts@),
                inside.env.len() >= 2,
                inside.printed == old(self).state(*old(env)).printed,
                inside.env == seq![empty_frame()] + outside,
                outside == old(env)@,
                well_formed_stmts(items),
                stmts_depth(items, items.len()) <= depth,
                frames_fit(env@, depth),
                scope_kept(inside.env, env@),
                inside.env.drop_first() == outside,
                eval_block_items(depth, items, 0, inside) == eval_block_items(
                    depth,
                    items,
                    i as nat,
                    self.state(*env),
                ),
            decreases stmts.len() - i,
        {
            proof {
                lemma_stmts_depth(items, items.len(), i as int);
                assert(items[i as int] == stmts@[i as int]@);
            }
            let evaluated = self.evaluate(&stmts[i], env, Ghost(depth));
            match evaluated {
                Err(error) => {
                    env.leave_scope();
                    return Err(error);
                },
                Ok(value) => {
                    match value {
                        RuntimeVal::Return(_) => {
                            env.leave_scope();
                            return Ok(RuntimeVal::Block(Box::new(value)));
                        },
                        _ => {},
                    }
                },
            }
            i += 1;
        }
        env.leave_scope();
        assert(RuntimeVal::Undefined@ == ValueView::Undefined);
        Ok(RuntimeVal::Block(Box::new(RuntimeVal::Undefined)))
    }

    /// Evaluates a variable declaration: the value must be of the declared
    /// type, which no function, block, returned or undefined value is, and the
    /// name must be new in the innermost frame.
    fn evaluate_var_declaration_stmt(
        &mut self,
        name: &str,
        typing: &TokenType,
        is_const: &bool,
        expr: &Expr,
        env: &mut Environment,
        Ghost(depth): Ghost<nat>,
    ) -> (result: Result<RuntimeVal, RuntimeError>)
        requires
            frames_fit(old(env)@, depth),
        ensures
            final(self).outcome(result, *final(env)) == eval_stmt(
                depth,
                StmtView::VarDeclaration(name@, *typing, *is_const, expr@),
                old(self).state(*old(env)),
            ),
            scope_kept(old(env)@, final(env)@),
            frames_fit(final(env)@, depth),
        decreases depth, 0nat, expr, 2nat,
    {
        let evaluated = self.evaluate_expr(expr, env, Ghost(depth));
        proof {
            lemma_fit_kept(old(env)@, env@, depth);
        }
        let value = match evaluated {
            Ok(value) => value,
            Err(error) => {
                return Err(error);
            },
        };
        match value {
            RuntimeVal::Int(_) => {
                if *typing != TokenType::Integer {
                    return Err(RuntimeError::InvalidType);
                }
            },
            RuntimeVal::Float(_) => {
                if *typing != TokenType::Float {
                    return Err(RuntimeError::InvalidType);
                }
            },
            RuntimeVal::String(_) => {
                if *typing != TokenType::String {
                    return Err(RuntimeError::InvalidType);
                }
            },
            RuntimeVal::Bool(_) => {
                if *typing != TokenType::Bool {
                    return Err(RuntimeError::InvalidType);
                }
            },
            _ => {
                return Err(RuntimeError::InvalidType);
            },
        }
        let ghost before = env@;
        match env.declare_var(name, value, *is_const) {
            Ok(_) => {
                proof {
                    assert(env@.drop_first() =~= before.drop_first());
                    lemma_fit_kept(before, env@, depth);
                }
                Ok(RuntimeVal::Undefined)
            },
            Err(error) => Err(error),
        }
    }

    /// Evaluates an expression.
    fn evaluate_expr(&mut self, expr: &Expr, env: &mut Environment, Ghost(depth): Ghost<nat>) -> (result: Result<RuntimeVal, RuntimeError>)
        requires
            frames_fit(old(env)@, depth),
        ensures
            final(self).outcome(result, *final(env)) == eval_expr(
                depth,
                expr@,
                old(self).state(*old(env)),
            ),
            functions_kept(old(env)@, final(env)@),
        decreases depth, 0nat, expr, 1nat,
    {
        proof {
            env.lemma_nonempty();
        }
        match expr {
            Expr::Binary(lhs, op, rhs) => self.evaluate_binary_expr(
                lhs,
                op,
                rhs,
                env,
                Ghost(depth),
                Ghost(*expr),
            ),
            Expr::CallExpr(name, params) => {
                proof {
                    Expr::lemma_call_view(*name, *params);
                }
                self.evaluate_func_call_expr(
                    name.as_str(),
                    params,
                    env,
                    Ghost(depth),
                    Ghost(*expr),
                )
            },
            Expr::Assignment(lhs, _, rhs) => self.evaluate_assignment_expr(
                lhs,
                rhs,
                env,
                Ghost(depth),
                Ghost(*expr),
            ),
            Expr::Identifier(name) => self.evaluate_identifier(name.as_str(), env, Ghost(depth)),
            Expr::Literal(val) => self.evaluate_literal(val),
        }
    }

    /// Evaluates a call: the arguments are evaluated in the caller's
    /// environment, from left to right; then their values are bound to the
    /// parameters in a fresh root environment, where the body runs.
    fn evaluate_func_call_expr(
        &mut self,
        name: &str,
        params: &Vec<Expr>,
        env: &mut Environment,
        Ghost(depth): Ghost<nat>,
        Ghost(node): Ghost<Expr>,
    ) -> (result: Result<RuntimeVal, RuntimeError>)
        requires
            node is CallExpr,
            node->CallExpr_1 == *params,
            frames_fit(old(env)@, depth),
        ensures
            final(self).outcome(result, *final(env)) == eval_expr(
                depth,
                ExprView::CallExpr(name@, exprs_view(params@)),
                old(self).state(*old(env)),
            ),
            functions_kept(old(env)@, final(env)@),
        decreases depth, 0nat, node, 0nat,
    {
        let ghost args = exprs_view(params@);
        let ghost start = self.state(*env);
        proof {
            env.lemma_nonempty();
        }
        let func = match env.get_func(name) {
            Ok(func) => func,
            Err(error) => {
                return Err(error);
            },
        };
        proof {
            lemma_function_callable(env@, name@, depth);
        }
        let ghost found = func@;
        match func {
            RuntimeVal::Func(_, func_params, body) => {
                let ghost parameters = names_view(func_params@);
                assert(found == ValueView::Func(found->Func_0, parameters, body@));
                assert(parameters.len() == func_params.len());
                assert(args.len() == params.len());
                if func_params.len() != params.len() {
                    return Err(RuntimeError::InvalidFuncCallParametersCount(name.to_owned()));
                }
                let mut values: Vec<RuntimeVal> = Vec::new();
                let mut i: usize = 0;
                assert(values_view(values@) =~= Seq::empty());
                while i < params.len()
                    invariant
                        i <= params.len(),
                        func_params.len() == params.len(),
                        start == old(self).state(*old(env)),
                        node is CallExpr,
                        node->CallExpr_1 == *params,
                        args == exprs_view(params@),
                        parameters == names_view(func_params@),
                        function(start.env, name@) == Some(found),
                        found == ValueView::Func(found->Func_0, parameters, body@),
                        values@.len() == i,
                        functions_kept(start.env, env@),
                        frames_fit(env@, depth),
                        eval_args(depth, args, 0, Seq::empty(), start) == eval_args(
                            depth,
                            args,
                            i as nat,
                            values_view(values@),
                            self.state(*env),
                        ),
                    decreases params.len() - i,
                {
                    proof {
                        assert(args[i as int] == params@[i as int]@);
                    }
                    let ghost before = env@;
                    let ghost read = values_view(values@);
                    let evaluated = self.evaluate_expr(&params[i], env, Ghost(depth));
                    proof {
                        lemma_fit_kept(before, env@, depth);
                    }
                    match evaluated {
                        Ok(value) => {
                            values.push(value);
                            assert(values_view(values@) =~= read.push(value@));
                        },
                        Err(error) => {
                            return Err(error);
                        },
                    }
                    i += 1;
                }
                let ghost given = eval_args(depth, args, 0, Seq::empty(), start);
                let mut block_env = Environment::new(None);
                let mut j: usize = 0;
                while j < func_params.len()
                    invariant
                        j <= func_params.len(),
                        func_params.len() == params.len(),
                        values@.len() == params.len(),
                        start == old(self).state(*old(env)),
                        args == exprs_view(params@),
                        parameters == names_view(func_params@),
                        function(start.env, name@) == Some(found),
                        found == ValueView::Func(found->Func_0, parameters, body@),
                        given == eval_args(depth, args, 0, Seq::empty(), start),
                        given.values == Ok::<Seq<ValueView>, ErrorView>(values_view(values@)),
                        given.state == self.state(*env),
                        functions_kept(start.env, env@),
                        block_env@.len() == 1,
                        block_env@[0].functions.len() == 0,
                        bound_frame(root_frame(), parameters, values_view(values@), 0)
                            == bound_frame(
                            block_env@[0],
                            parameters,
                            values_view(values@),
                            j as nat,
                        ),
                    decreases func_params.len() - j,
                {
                    proof {
                        assert(parameters[j as int] == func_params@[j as int]@);
                        assert(values_view(values@)[j as int] == values@[j as int]@);
                    }
                    let declared = block_env.declare_var(
                        func_params[j].as_str(),
                        values[j].duplicate(),
                        false,
                    );
                    match declared {
                        Ok(_) => {},
                        Err(error) => {
                            return Err(error);
                        },
                    }
                    j += 1;
                }
                proof {
                    assert(block_env@ =~= seq![block_env@[0]]);
                    assert(frames_fit(block_env@, (depth - 1) as nat));
                }
                let evaluated = self.evaluate(&body, &mut block_env, Ghost((depth - 1) as nat));
                match evaluated {
                    Err(error) => Err(error),
                    Ok(value) => {
                        let ghost block_result = value@;
                        match value {
                            RuntimeVal::Block(inner) => {
                                assert(block_result == ValueView::Block(Box::new(inner@)));
                                match *inner {
                                    RuntimeVal::Return(returned) => {
                                        assert(inner@ == ValueView::Return(Box::new(returned@)));
                                        Ok(*returned)
                                    },
                                    _ => {
                                        assert(!(inner@ is Return));
                                        Ok(RuntimeVal::Undefined)
                                    },
                                }
                            },
                            _ => {
                                assert(!(block_result is Block));
                                Ok(RuntimeVal::Undefined)
                            },
                        }
                    },
                }
            },
            _ => vstd::pervasive::unreached(),
        }
    }

    /// Evaluates an assignment. Only a name can be assigned to; the value
    /// goes to the innermost frame.
    fn evaluate_assignment_expr(
        &mut self,
        lhs: &Expr,
        rhs: &Expr,
        env: &mut Environment,
        Ghost(depth): Ghost<nat>,
        Ghost(node): Ghost<Expr>,
    ) -> (result: Result<RuntimeVal, RuntimeError>)
        requires
            node is Assignment,
            *node->Assignment_0 == *lhs,
            *node->Assignment_2 == *rhs,
            frames_fit(old(env)@, depth),
        ensures
            final(self).outcome(result, *final(env)) == eval_expr(
                depth,
                node@,
                old(self).state(*old(env)),
            ),
            functions_kept(old(env)@, final(env)@),
        decreases depth, 0nat, node, 0nat,
    {
        proof {
            env.lemma_nonempty();
            assert(node@ == ExprView::Assignment(
                Box::new(lhs@),
                node->Assignment_1,
                Box::new(rhs@),
            ));
        }
        match lhs {
            Expr::Identifier(name) => {
                assert(lhs@ == ExprView::Identifier(name@));
                let evaluated = self.evaluate_expr(rhs, env, Ghost(depth));
                let val = match evaluated {
                    Ok(value) => value,
                    Err(error) => {
                        return Err(error);
                    },
                };
                let ghost before = env@;
                let assigned = env.assign_var(name.as_str(), val);
                proof {
                    assert(env@.drop_first() =~= before.drop_first());
                }
                match assigned {
                    Ok(_) => Ok(RuntimeVal::Undefined),
                    Err(error) => Err(error),
                }
            },
            _ => Err(RuntimeError::InvalidOperandType),
        }
    }

    /// Evaluates a name: the value of the variable.
    fn evaluate_identifier(&self, name: &str, env: &Environment, Ghost(depth): Ghost<nat>) -> (result:
        Result<RuntimeVal, RuntimeError>)
        ensures
            self.outcome(result, *env) == eval_expr(
                depth,
                ExprView::Identifier(name@),
                self.state(*env),
            ),
    {
        env.get_var(name)
    }

    /// Evaluates both operands, the left one first, and applies the
    /// operator to their values.
    fn evaluate_binary_expr(
        &mut self,
        lhs: &Expr,
        op: &TokenType,
        rhs: &Expr,
        env: &mut Environment,
        Ghost(depth): Ghost<nat>,
        Ghost(node): Ghost<Expr>,
    ) -> (result: Result<RuntimeVal, RuntimeError>)
        requires
            node is Binary,
            *node->Binary_0 == *lhs,
            node->Binary_1 == *op,
            *node->Binary_2 == *rhs,
            frames_fit(old(env)@, depth),
        ensures
            final(self).outcome(result, *final(env)) == eval_expr(
                depth,
                node@,
                old(self).state(*old(env)),
            ),
            functions_kept(old(env)@, final(env)@),
        decreases depth, 0nat, node, 0nat,
    {
        let ghost start = env@;
        let left = match self.evaluate_expr(lhs, env, Ghost(depth)) {
            Ok(value) => value,
            Err(error) => {
                return Err(error);
            },
        };
        let ghost middle = env@;
        proof {
            lemma_fit_kept(start, middle, depth);
        }
        let right = match self.evaluate_expr(rhs, env, Ghost(depth)) {
            Ok(value) => value,
            Err(error) => {
                return Err(error);
            },
        };
        binary_operation(left, *op, right)
    }

    /// The value of a literal.
    fn evaluate_literal(&self, val: &Atom) -> (result: Result<RuntimeVal, RuntimeError>)
        ensures
            result_view(result) == Ok::<ValueView, ErrorView>(literal_value(val@)),
    {
        match val {
            Atom::Integer(num) => Ok(RuntimeVal::Int(*num)),
            Atom::Float(num) => Ok(RuntimeVal::Float(*num)),
            Atom::String(string) => Ok(RuntimeVal::String(string.clone())),
            Atom::Bool(val) => Ok(RuntimeVal::Bool(*val)),
        }
    }
}

} // verus!
