//! What evaluation does to the frames. An expression or a statement
//! changes the innermost frame alone; only a declaration adds a name to it;
//! and frames that hold every name once still do afterwards. From this
//! follows that a function body, which starts from its parameters, `true` and
//! `false`, cannot read a name of the caller.

use vstd::prelude::*;
use crate::ast::expr::ExprView;
use crate::ast::stmt::StmtView;
use crate::runtime::depth::{functions_kept, scope_kept};
use crate::runtime::environment::{
    BindingView, FrameView, assigned_frame, assigned_result, binds, declared_func, declared_var,
    empty_frame, false_text, frames_well_formed, function, lemma_assigned_well_formed,
    lemma_declared_func_well_formed, lemma_declared_var_well_formed, lemma_first_place,
    lemma_frames_well_formed, root_frame, true_text, variable,
};
use crate::runtime::semantics::{
    State, bound_frame, eval_args, eval_block_items, eval_expr, eval_sequence, eval_stmt,
    failed, lemma_bound_names,
};
use crate::runtime::values::{ErrorView, ValueView};

verus! {

/// Whether two lists bind the same names at the same places.
pub open spec fn same_names(before: Seq<BindingView>, after: Seq<BindingView>) -> bool {
    &&& after.len() == before.len()
    &&& forall|i: int| 0 <= i < before.len() ==> (#[trigger] after[i]).name == before[i].name
}

/// Whether `after` has the frames of `before` but for the values of the
/// variables of its innermost one.
pub open spec fn names_kept(before: Seq<FrameView>, after: Seq<FrameView>) -> bool {
    &&& functions_kept(before, after)
    &&& same_names(before[0].variables, after[0].variables)
    &&& after[0].constants == before[0].constants
}

/// Lists that bind the same names bind a given name alike.
pub proof fn lemma_same_names(before: Seq<BindingView>, after: Seq<BindingView>, name: Seq<char>)
    requires
        same_names(before, after),
    ensures
        binds(before, name) == binds(after, name),
{
    if binds(before, name) {
        let i = choose|i: int| 0 <= i < before.len() && (#[trigger] before[i]).name == name;
        assert(after[i].name == name);
    }
    if binds(after, name) {
        let i = choose|i: int| 0 <= i < after.len() && (#[trigger] after[i]).name == name;
        assert(before[i].name == name);
    }
}

/// An expression declares nothing: it leaves every frame as it was but for
/// the values of the innermost frame's variables, and frames that hold every
/// name once still do.
pub proof fn lemma_expr_scope(depth: nat, expr: ExprView, state: State)
    requires
        state.env.len() >= 1,
    ensures
        names_kept(state.env, eval_expr(depth, expr, state).state.env),
        frames_well_formed(state.env) ==> frames_well_formed(
            eval_expr(depth, expr, state).state.env,
        ),
    decreases expr, 0nat,
{
    match expr {
        ExprView::Literal(_) => {},
        ExprView::Identifier(_) => {},
        ExprView::Assignment(target, _, value) => {
            match *target {
                ExprView::Identifier(name) => {
                    lemma_expr_scope(depth, *value, state);
                    let right = eval_expr(depth, *value, state);
                    if right.result is Ok {
                        let frame = right.state.env[0];
                        let assigned = assigned_frame(frame, name, right.result->Ok_0);
                        let after = right.state.env.update(0, assigned);
                        assert(after.drop_first() =~= right.state.env.drop_first());
                        if assigned_result(frame, name) is Ok {
                            lemma_first_place(frame.variables, name);
                        }
                        if frames_well_formed(right.state.env) {
                            lemma_assigned_well_formed(frame, name, right.result->Ok_0);
                            lemma_frames_well_formed(right.state.env, assigned);
                        }
                    }
                },
                _ => {},
            }
        },
        ExprView::Binary(lhs, _, rhs) => {
            lemma_expr_scope(depth, *lhs, state);
            let left = eval_expr(depth, *lhs, state);
            if left.result is Ok {
                lemma_expr_scope(depth, *rhs, left.state);
            }
        },
        ExprView::CallExpr(name, args) => {
            match function(state.env, name) {
                Some(ValueView::Func(_, parameters, _)) => {
                    if parameters.len() == args.len() {
                        lemma_args_scope(depth, args, 0, Seq::empty(), state);
                    }
                },
                _ => {},
            }
        },
    }
}

/// The arguments of a call declare nothing in the caller's frames.
pub proof fn lemma_args_scope(
    depth: nat,
    args: Seq<ExprView>,
    next: nat,
    values: Seq<ValueView>,
    state: State,
)
    requires
        state.env.len() >= 1,
    ensures
        names_kept(state.env, eval_args(depth, args, next, values, state).state.env),
        frames_well_formed(state.env) ==> frames_well_formed(
            eval_args(depth, args, next, values, state).state.env,
        ),
    decreases args, args.len() - next,
{
    if next < args.len() {
        lemma_expr_scope(depth, args[next as int], state);
        let argument = eval_expr(depth, args[next as int], state);
        match argument.result {
            Err(_) => {},
            Ok(value) => {
                lemma_args_scope(depth, args, next + 1, values.push(value), argument.state);
            },
        }
    }
}

/// A statement changes the innermost frame alone, and frames that hold
/// every name once still do. A block leaves every frame as it was.
pub proof fn lemma_stmt_scope(depth: nat, stmt: StmtView, state: State)
    requires
        state.env.len() >= 1,
    ensures
        scope_kept(state.env, eval_stmt(depth, stmt, state).state.env),
        frames_well_formed(state.env) ==> frames_well_formed(
            eval_stmt(depth, stmt, state).state.env,
        ),
        stmt is Block ==> eval_stmt(depth, stmt, state).state.env == state.env,
{
    match stmt {
        StmtView::Expression(expr) => {
            lemma_expr_scope(depth, expr, state);
        },
        StmtView::VarDeclaration(name, typing, is_const, expr) => {
            lemma_expr_scope(depth, expr, state);
            let initial = eval_expr(depth, expr, state);
            let after = eval_stmt(depth, stmt, state).state.env;
            assert(after.drop_first() =~= initial.state.env.drop_first());
            if initial.result is Ok && after != initial.state.env {
                let frame = initial.state.env[0];
                let value = initial.result->Ok_0;
                if frames_well_formed(initial.state.env) {
                    lemma_declared_var_well_formed(frame, name, value, is_const);
                    lemma_frames_well_formed(
                        initial.state.env,
                        declared_var(frame, name, value, is_const)->Ok_0,
                    );
                }
            }
        },
        StmtView::FuncDeclaration(name, parameters, body) => {
            let func = ValueView::Func(name, parameters, *body);
            let after = eval_stmt(depth, stmt, state).state.env;
            assert(after.drop_first() =~= state.env.drop_first());
            if declared_func(state.env[0], name, func) is Ok && frames_well_formed(state.env) {
                lemma_declared_func_well_formed(state.env[0], name, func);
                lemma_frames_well_formed(
                    state.env,
                    declared_func(state.env[0], name, func)->Ok_0,
                );
            }
        },
        StmtView::Block(_) => {},
        StmtView::Return(expr) => {
            lemma_expr_scope(depth, expr, state);
        },
        StmtView::Print(expr) => {
            lemma_expr_scope(depth, expr, state);
        },
    }
}

/// The statements of a program change the innermost frame alone, and
/// frames that hold every name once still do.
pub proof fn lemma_sequence_scope(
    depth: nat,
    stmts: Seq<StmtView>,
    next: nat,
    last: ValueView,
    state: State,
)
    requires
        state.env.len() >= 1,
    ensures
        scope_kept(state.env, eval_sequence(depth, stmts, next, last, state).state.env),
        frames_well_formed(state.env) ==> frames_well_formed(
            eval_sequence(depth, stmts, next, last, state).state.env,
        ),
    decreases stmts.len() - next,
{
    if next < stmts.len() {
        lemma_stmt_scope(depth, stmts[next as int], state);
        let item = eval_stmt(depth, stmts[next as int], state);
        match item.result {
            Err(_) => {},
            Ok(value) => {
                lemma_sequence_scope(depth, stmts, next + 1, value, item.state);
            },
        }
    }
}

/// Whether the statement declares a variable of the given name.
pub open spec fn declares(stmt: StmtView, name: Seq<char>) -> bool {
    match stmt {
        StmtView::VarDeclaration(declared, _, _, _) => declared == name,
        _ => false,
    }
}

/// Only a declaration makes a name known: a name that no frame binds as a
/// variable is still unbound behind every statement that does not declare
/// it.
pub proof fn lemma_stays_unbound(depth: nat, stmt: StmtView, state: State, name: Seq<char>)
    requires
        state.env.len() >= 1,
        variable(state.env, name) is None,
        !declares(stmt, name),
    ensures
        variable(eval_stmt(depth, stmt, state).state.env, name) is None,
{
    lemma_stmt_scope(depth, stmt, state);
    let after = eval_stmt(depth, stmt, state).state.env;
    match stmt {
        StmtView::Expression(expr) => {
            lemma_expr_scope(depth, expr, state);
            lemma_same_names(state.env[0].variables, after[0].variables, name);
        },
        StmtView::VarDeclaration(declared, typing, is_const, expr) => {
            lemma_expr_scope(depth, expr, state);
            let initial = eval_expr(depth, expr, state);
            lemma_same_names(state.env[0].variables, initial.state.env[0].variables, name);
            if after != initial.state.env {
                let frame = initial.state.env[0];
                if binds(after[0].variables, name) {
                    let i = choose|i: int|
                        0 <= i < after[0].variables.len() && (#[trigger] after[0].variables[i]).name
                            == name;
                    if i < frame.variables.len() {
                        assert(frame.variables[i].name == name);
                    }
                }
            }
        },
        StmtView::FuncDeclaration(_, _, _) => {},
        StmtView::Block(_) => {},
        StmtView::Return(expr) => {
            lemma_expr_scope(depth, expr, state);
            lemma_same_names(state.env[0].variables, after[0].variables, name);
        },
        StmtView::Print(expr) => {
            lemma_expr_scope(depth, expr, state);
            lemma_same_names(state.env[0].variables, after[0].variables, name);
        },
    }
}

/// Whether evaluating the expression begins by reading the variable of the
/// given name: it is that name, or an operation whose left operand begins so,
/// or an assignment whose value begins so.
pub open spec fn reads_first(expr: ExprView, name: Seq<char>) -> bool
    decreases expr,
{
    match expr {
        ExprView::Identifier(read) => read == name,
        ExprView::Binary(lhs, _, _) => reads_first(*lhs, name),
        ExprView::Assignment(target, _, value) => *target is Identifier && reads_first(
            *value,
            name,
        ),
        _ => false,
    }
}

/// Whether evaluating the statement begins by reading the variable of the
/// given name.
pub open spec fn stmt_reads_first(stmt: StmtView, name: Seq<char>) -> bool
    decreases stmt,
{
    match stmt {
        StmtView::Expression(expr) => reads_first(expr, name),
        StmtView::VarDeclaration(_, _, _, expr) => reads_first(expr, name),
        StmtView::Return(expr) => reads_first(expr, name),
        StmtView::Print(expr) => reads_first(expr, name),
        StmtView::Block(stmts) => stmts.len() > 0 && stmt_reads_first(stmts[0], name),
        StmtView::FuncDeclaration(_, _, _) => false,
    }
}

/// An expression that begins by reading a name that no frame binds fails
/// with `UndefinedVariable`, and changes nothing.
pub proof fn lemma_reads_unbound(depth: nat, expr: ExprView, state: State, name: Seq<char>)
    requires
        reads_first(expr, name),
        variable(state.env, name) is None,
    ensures
        eval_expr(depth, expr, state) == failed(ErrorView::UndefinedVariable(name), state),
    decreases expr,
{
    match expr {
        ExprView::Binary(lhs, _, _) => {
            lemma_reads_unbound(depth, *lhs, state, name);
        },
        ExprView::Assignment(_, _, value) => {
            lemma_reads_unbound(depth, *value, state, name);
        },
        _ => {},
    }
}

/// A statement that begins by reading a name that no frame binds fails
/// with `UndefinedVariable`.
pub proof fn lemma_stmt_reads_unbound(depth: nat, stmt: StmtView, state: State, name: Seq<char>)
    requires
        stmt_reads_first(stmt, name),
        variable(state.env, name) is None,
    ensures
        eval_stmt(depth, stmt, state).result == Err::<ValueView, ErrorView>(
            ErrorView::UndefinedVariable(name),
        ),
        eval_stmt(depth, stmt, state).state.printed == state.printed,
    decreases stmt,
{
    match stmt {
        StmtView::Expression(expr) => lemma_reads_unbound(depth, expr, state, name),
        StmtView::VarDeclaration(_, _, _, expr) => lemma_reads_unbound(depth, expr, state, name),
        StmtView::Return(expr) => lemma_reads_unbound(depth, expr, state, name),
        StmtView::Print(expr) => lemma_reads_unbound(depth, expr, state, name),
        StmtView::Block(stmts) => {
            let inside = State { env: seq![empty_frame()] + state.env, printed: state.printed };
            assert(inside.env[0] == empty_frame());
            assert(inside.env.drop_first() =~= state.env);
            assert(!binds(empty_frame().variables, name));
            assert(variable(inside.env, name) is None);
            lemma_stmt_reads_unbound(depth, stmts[0], inside, name);
        },
        StmtView::FuncDeclaration(_, _, _) => {},
    }
}

/// The state in which the `until`-th statement of a block is reached from
/// the `next`-th: that behind the statements between, where each of them ends
/// without an error and without returning. `None` where one of them fails or
/// returns.
pub open spec fn state_before(
    depth: nat,
    stmts: Seq<StmtView>,
    next: nat,
    until: nat,
    state: State,
) -> Option<State>
    decreases until - next,
{
    if next >= until || next >= stmts.len() {
        Some(state)
    } else {
        let item = eval_stmt(depth, stmts[next as int], state);
        match item.result {
            Err(_) => None,
            Ok(value) => if value is Return {
                None
            } else {
                state_before(depth, stmts, next + 1, until, item.state)
            },
        }
    }
}

/// A block whose statements reach a read of a name that no frame binds,
/// without having declared it on the way, fails there with
/// `UndefinedVariable`.
pub proof fn lemma_block_reads_unbound(
    depth: nat,
    stmts: Seq<StmtView>,
    next: nat,
    until: nat,
    state: State,
    name: Seq<char>,
)
    requires
        next <= until < stmts.len(),
        state.env.len() >= 1,
        variable(state.env, name) is None,
        forall|i: int| next <= i < until ==> !declares(#[trigger] stmts[i], name),
        state_before(depth, stmts, next, until, state) is Some,
        stmt_reads_first(stmts[until as int], name),
    ensures
        eval_block_items(depth, stmts, next, state).result == Err::<ValueView, ErrorView>(
            ErrorView::UndefinedVariable(name),
        ),
        eval_block_items(depth, stmts, next, state).state.printed == state_before(
            depth,
            stmts,
            next,
            until,
            state,
        )->Some_0.printed,
    decreases until - next,
{
    if next == until {
        lemma_stmt_reads_unbound(depth, stmts[until as int], state, name);
    } else {
        let item = eval_stmt(depth, stmts[next as int], state);
        lemma_stmt_scope(depth, stmts[next as int], state);
        lemma_stays_unbound(depth, stmts[next as int], state, name);
        lemma_block_reads_unbound(depth, stmts, next + 1, until, item.state, name);
    }
}

/// A function body cannot read what the caller has declared. Where the
/// statements of the body reach a read of a name that is no parameter of the
/// function, that the body has not declared on the way, and that is neither
/// `true` nor `false`, the call fails with `UndefinedVariable`, whether or
/// not a frame of the caller binds that name: the body sees its parameters,
/// its own declarations and the two constants, and nothing else.
pub proof fn lemma_body_cannot_read_caller(
    depth: nat,
    name: Seq<char>,
    args: Seq<ExprView>,
    own: Seq<char>,
    parameters: Seq<Seq<char>>,
    stmts: Seq<StmtView>,
    until: nat,
    read: Seq<char>,
    state: State,
)
    requires
        depth > 0,
        function(state.env, name) == Some(
            ValueView::Func(own, parameters, StmtView::Block(stmts)),
        ),
        parameters.len() == args.len(),
        eval_args(depth, args, 0, Seq::empty(), state).values is Ok,
        bound_frame(
            root_frame(),
            parameters,
            eval_args(depth, args, 0, Seq::empty(), state).values->Ok_0,
            0,
        ) is Ok,
        !parameters.contains(read),
        read != true_text(),
        read != false_text(),
        until < stmts.len(),
        forall|i: int| 0 <= i < until ==> !declares(#[trigger] stmts[i], read),
        stmt_reads_first(stmts[until as int], read),
        state_before(
            (depth - 1) as nat,
            stmts,
            0,
            until,
            State {
                env: seq![
                    empty_frame(),
                    bound_frame(
                        root_frame(),
                        parameters,
                        eval_args(depth, args, 0, Seq::empty(), state).values->Ok_0,
                        0,
                    )->Ok_0,
                ],
                printed: eval_args(depth, args, 0, Seq::empty(), state).state.printed,
            },
        ) is Some,
    ensures
        eval_expr(depth, ExprView::CallExpr(name, args), state).result == Err::<
            ValueView,
            ErrorView,
        >(ErrorView::UndefinedVariable(read)),
{
    let given = eval_args(depth, args, 0, Seq::empty(), state);
    let values = given.values->Ok_0;
    let frame = bound_frame(root_frame(), parameters, values, 0)->Ok_0;
    assert(!binds(root_frame().variables, read));
    lemma_bound_names(root_frame(), parameters, values, 0, read);
    let fresh = State { env: seq![frame], printed: given.state.printed };
    let inside = State { env: seq![empty_frame()] + fresh.env, printed: fresh.printed };
    assert(inside.env =~= seq![empty_frame(), frame]);
    assert(!binds(empty_frame().variables, read));
    assert(inside.env[0] == empty_frame());
    assert(inside.env.drop_first() =~= seq![frame]);
    assert(inside.env.drop_first().drop_first() =~= Seq::<FrameView>::empty());
    reveal_with_fuel(variable, 3);
    assert(variable(inside.env, read) is None);
    lemma_block_reads_unbound((depth - 1) as nat, stmts, 0, until, inside, read);
    assert(eval_stmt((depth - 1) as nat, StmtView::Block(stmts), fresh).result == Err::<
        ValueView,
        ErrorView,
    >(ErrorView::UndefinedVariable(read)));
}

} // verus!
