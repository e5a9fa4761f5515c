//! Why the levels of calls never run out. Evaluation is defined with a
//! bound on the nesting of calls; here it is shown that, from a state whose
//! functions fit the bound, no call reaches the bound, so that a greater bound
//! gives the same outcome.

use vstd::prelude::*;
use crate::ast::expr::ExprView;
use crate::ast::stmt::{StmtView, well_formed_stmts};
use crate::runtime::environment::{
    FrameView, declared_func, declared_var, empty_frame, function, root_frame,
};
use crate::runtime::semantics::{
    State, bound_frame, call_depth, callable, eval_args, eval_block_items, eval_expr, eval_program,
    eval_sequence, eval_stmt, frames_fit, lemma_frames_fit, lemma_function_callable,
    lemma_stmts_depth, proper_functions, stmt_depth, stmts_depth,
};
use crate::runtime::values::ValueView;

verus! {

/// Whether `after` has the frames of `before` but for its innermost one.
pub open spec fn scope_kept(before: Seq<FrameView>, after: Seq<FrameView>) -> bool {
    &&& before.len() >= 1
    &&& after.len() == before.len()
    &&& after.drop_first() == before.drop_first()
}

/// Whether `after` has the frames of `before` but for the variables and
/// constants of its innermost one.
pub open spec fn functions_kept(before: Seq<FrameView>, after: Seq<FrameView>) -> bool {
    &&& scope_kept(before, after)
    &&& after[0].functions == before[0].functions
}

/// Frames that keep their functions keep fitting.
pub proof fn lemma_fit_kept(before: Seq<FrameView>, after: Seq<FrameView>, depth: nat)
    requires
        frames_fit(before, depth),
        functions_kept(before, after),
    ensures
        frames_fit(after, depth),
{
    assert forall|i: int, j: int|
        0 <= i < after.len() && 0 <= j < after[i].functions.len() implies callable(
        (#[trigger] after[i].functions[j]).value,
        depth,
    ) by {
        if i > 0 {
            assert(after[i] == after.drop_first()[i - 1]);
            assert(before[i] == before.drop_first()[i - 1]);
        }
        assert(callable(before[i].functions[j].value, depth));
    }
}

/// Functions that can be called are proper functions.
pub proof fn lemma_fit_proper(env: Seq<FrameView>, depth: nat)
    requires
        frames_fit(env, depth),
    ensures
        proper_functions(env),
{
    assert forall|i: int, j: int|
        0 <= i < env.len() && 0 <= j < env[i].functions.len() implies match (
    #[trigger] env[i].functions[j]).value {
        ValueView::Func(_, _, body) => body is Block && body.well_formed(),
        _ => false,
    } by {
        assert(callable(env[i].functions[j].value, depth));
    }
}

/// Declaring a function that can be called keeps the frames fitting, and
/// changes the innermost frame alone.
pub proof fn lemma_declared_func_fits(
    env: Seq<FrameView>,
    name: Seq<char>,
    func: ValueView,
    depth: nat,
)
    requires
        env.len() >= 1,
        frames_fit(env, depth),
        callable(func, depth),
        declared_func(env[0], name, func) is Ok,
    ensures
        frames_fit(env.update(0, declared_func(env[0], name, func)->Ok_0), depth),
        scope_kept(env, env.update(0, declared_func(env[0], name, func)->Ok_0)),
{
    let after = env.update(0, declared_func(env[0], name, func)->Ok_0);
    assert(after.drop_first() =~= env.drop_first());
    assert forall|i: int, j: int|
        0 <= i < after.len() && 0 <= j < after[i].functions.len() implies callable(
        (#[trigger] after[i].functions[j]).value,
        depth,
    ) by {
        if i > 0 {
            assert(after[i] == env[i]);
            assert(callable(env[i].functions[j].value, depth));
        } else if j < env[0].functions.len() {
            assert(callable(env[0].functions[j].value, depth));
        }
    }
}

/// An expression comes out the same with one more level, and leaves the
/// functions and the enclosing frames as they were.
pub proof fn lemma_expr_level(depth: nat, expr: ExprView, state: State)
    requires
        state.env.len() >= 1,
        frames_fit(state.env, depth),
    ensures
        eval_expr(depth, expr, state) == eval_expr(depth + 1, expr, state),
        functions_kept(state.env, eval_expr(depth, expr, state).state.env),
    decreases depth, 0nat, expr, 0nat,
{
    match expr {
        ExprView::Literal(_) => {},
        ExprView::Identifier(_) => {},
        ExprView::Assignment(target, _, value) => {
            match *target {
                ExprView::Identifier(name) => {
                    lemma_expr_level(depth, *value, state);
                    let right = eval_expr(depth, *value, state);
                    if right.result is Ok {
                        let after = eval_expr(depth, expr, state).state.env;
                        assert(after.drop_first() =~= right.state.env.drop_first());
                    }
                },
                _ => {},
            }
        },
        ExprView::Binary(lhs, _, rhs) => {
            lemma_expr_level(depth, *lhs, state);
            let left = eval_expr(depth, *lhs, state);
            if left.result is Ok {
                lemma_fit_kept(state.env, left.state.env, depth);
                lemma_expr_level(depth, *rhs, left.state);
            }
        },
        ExprView::CallExpr(name, args) => {
            match function(state.env, name) {
                Some(ValueView::Func(_, parameters, body)) => {
                    lemma_function_callable(state.env, name, depth);
                    if parameters.len() == args.len() {
                        lemma_args_level(depth, args, 0, Seq::empty(), state);
                        let given = eval_args(depth, args, 0, Seq::empty(), state);
                        match given.values {
                            Err(_) => {},
                            Ok(values) => {
                                lemma_bound_functions(root_frame(), parameters, values, 0);
                                match bound_frame(root_frame(), parameters, values, 0) {
                                    Err(_) => {},
                                    Ok(frame) => {
                                        let fresh = State {
                                            env: seq![frame],
                                            printed: given.state.printed,
                                        };
                                        lemma_stmt_level((depth - 1) as nat, body, fresh);
                                    },
                                }
                            },
                        }
                    }
                },
                _ => {},
            }
        },
    }
}

/// The arguments of a call come out the same with one more level, and
/// leave the caller's functions and enclosing frames as they were.
pub proof fn lemma_args_level(
    depth: nat,
    args: Seq<ExprView>,
    next: nat,
    values: Seq<ValueView>,
    state: State,
)
    requires
        state.env.len() >= 1,
        frames_fit(state.env, depth),
    ensures
        eval_args(depth, args, next, values, state) == eval_args(
            depth + 1,
            args,
            next,
            values,
            state,
        ),
        functions_kept(state.env, eval_args(depth, args, next, values, state).state.env),
    decreases depth, 0nat, args, args.len() - next,
{
    if next < args.len() {
        lemma_expr_level(depth, args[next as int], state);
        let argument = eval_expr(depth, args[next as int], state);
        match argument.result {
            Err(_) => {},
            Ok(value) => {
                lemma_fit_kept(state.env, argument.state.env, depth);
                lemma_args_level(depth, args, next + 1, values.push(value), argument.state);
            },
        }
    }
}

/// Binding parameters declares no function.
pub proof fn lemma_bound_functions(
    frame: FrameView,
    parameters: Seq<Seq<char>>,
    values: Seq<ValueView>,
    next: nat,
)
    ensures
        bound_frame(frame, parameters, values, next) matches Ok(bound) ==> bound.functions
            == frame.functions,
    decreases parameters.len() - next,
{
    if next < parameters.len() && next < values.len() {
        match declared_var(frame, parameters[next as int], values[next as int], false) {
            Err(_) => {},
            Ok(declared) => {
                lemma_bound_functions(declared, parameters, values, next + 1);
            },
        }
    }
}

/// A statement comes out the same with one more level, leaves the
/// enclosing frames as they were, and leaves functions that fit.
pub proof fn lemma_stmt_level(depth: nat, stmt: StmtView, state: State)
    requires
        stmt.well_formed(),
        stmt_depth(stmt) <= depth,
        state.env.len() >= 1,
        frames_fit(state.env, depth),
    ensures
        eval_stmt(depth, stmt, state) == eval_stmt(depth + 1, stmt, state),
        scope_kept(state.env, eval_stmt(depth, stmt, state).state.env),
        frames_fit(eval_stmt(depth, stmt, state).state.env, depth),
    decreases depth, 1nat, stmt, 0nat,
{
    match stmt {
        StmtView::Expression(expr) => {
            lemma_expr_level(depth, expr, state);
            lemma_fit_kept(state.env, eval_expr(depth, expr, state).state.env, depth);
        },
        StmtView::VarDeclaration(_, _, _, expr) => {
            lemma_expr_level(depth, expr, state);
            let initial = eval_expr(depth, expr, state);
            lemma_fit_kept(state.env, initial.state.env, depth);
            let after = eval_stmt(depth, stmt, state).state.env;
            assert(after.drop_first() =~= initial.state.env.drop_first());
            if after != initial.state.env {
                lemma_fit_kept(initial.state.env, after, depth);
            }
        },
        StmtView::FuncDeclaration(name, parameters, body) => {
            let func = ValueView::Func(name, parameters, *body);
            if declared_func(state.env[0], name, func) is Ok {
                lemma_declared_func_fits(state.env, name, func, depth);
            }
        },
        StmtView::Block(stmts) => {
            let inside = State {
                env: seq![empty_frame()] + state.env,
                printed: state.printed,
            };
            assert(inside.env.drop_first() =~= state.env);
            assert forall|i: int, j: int|
                0 <= i < inside.env.len() && 0 <= j < inside.env[i].functions.len() implies callable(
                (#[trigger] inside.env[i].functions[j]).value,
                depth,
            ) by {
                assert(inside.env[i] == state.env[i - 1]);
                assert(callable(state.env[i - 1].functions[j].value, depth));
            }
            assert forall|i: int| 0 <= i < stmts.len() implies stmt_depth(#[trigger] stmts[i])
                <= depth by {
                lemma_stmts_depth(stmts, stmts.len(), i);
            }
            lemma_items_level(depth, stmts, 0, inside);
        },
        StmtView::Return(expr) => {
            lemma_expr_level(depth, expr, state);
            lemma_fit_kept(state.env, eval_expr(depth, expr, state).state.env, depth);
        },
        StmtView::Print(expr) => {
            lemma_expr_level(depth, expr, state);
            lemma_fit_kept(state.env, eval_expr(depth, expr, state).state.env, depth);
        },
    }
}

/// The statements of a block come out the same with one more level.
pub proof fn lemma_items_level(depth: nat, stmts: Seq<StmtView>, next: nat, state: State)
    requires
        well_formed_stmts(stmts),
        forall|i: int| 0 <= i < stmts.len() ==> stmt_depth(#[trigger] stmts[i]) <= depth,
        state.env.len() >= 1,
        frames_fit(state.env, depth),
    ensures
        eval_block_items(depth, stmts, next, state) == eval_block_items(
            depth + 1,
            stmts,
            next,
            state,
        ),
    decreases depth, 1nat, stmts, stmts.len() - next,
{
    if next < stmts.len() {
        lemma_stmt_level(depth, stmts[next as int], state);
        let item = eval_stmt(depth, stmts[next as int], state);
        match item.result {
            Err(_) => {},
            Ok(value) => {
                if !(value is Return) {
                    lemma_items_level(depth, stmts, next + 1, item.state);
                }
            },
        }
    }
}

/// The statements of a program come out the same with one more level.
pub proof fn lemma_sequence_level(
    depth: nat,
    stmts: Seq<StmtView>,
    next: nat,
    last: ValueView,
    state: State,
)
    requires
        well_formed_stmts(stmts),
        stmts_depth(stmts, stmts.len()) <= depth,
        state.env.len() >= 1,
        frames_fit(state.env, depth),
    ensures
        eval_sequence(depth, stmts, next, last, state) == eval_sequence(
            depth + 1,
            stmts,
            next,
            last,
            state,
        ),
    decreases stmts.len() - next,
{
    if next < stmts.len() {
        lemma_stmts_depth(stmts, stmts.len(), next as int);
        lemma_stmt_level(depth, stmts[next as int], state);
        let item = eval_stmt(depth, stmts[next as int], state);
        match item.result {
            Err(_) => {},
            Ok(value) => {
                lemma_sequence_level(depth, stmts, next + 1, value, item.state);
            },
        }
    }
}

/// The levels of calls never run out: a program evaluated with any bound
/// that is at least the depth that `eval_program` starts with comes out as
/// `eval_program` says.
pub proof fn lemma_depth_suffices(stmts: Seq<StmtView>, state: State, depth: nat)
    requires
        well_formed_stmts(stmts),
        proper_functions(state.env),
        state.env.len() >= 1,
        depth >= call_depth(stmts, state.env),
    ensures
        eval_sequence(depth, stmts, 0, ValueView::Undefined, state) == eval_program(stmts, state),
    decreases depth,
{
    if depth > call_depth(stmts, state.env) {
        let lower = (depth - 1) as nat;
        lemma_depth_suffices(stmts, state, lower);
        lemma_frames_fit(state.env, lower);
        lemma_sequence_level(lower, stmts, 0, ValueView::Undefined, state);
    }
}

} // verus!
