//! What evaluation means: the value, the environment and the printed values
//! that a program yields, as mathematical functions of the syntax tree and of
//! the state it starts from.
//!
//! A function's body runs in a fresh environment without a parent, so it can
//! call only functions that are declared inside that body. The nesting of
//! function declarations therefore bounds the nesting of calls, and
//! evaluation always ends. The functions below take that bound as `depth`,
//! which only serves to show that they end: where the functions in scope can
//! be called within `depth` levels, see [`frames_fit`], no call runs out of
//! levels, and the interpreter, which counts no levels, computes the same.

use vstd::prelude::*;
use crate::ast::atom::AtomView;
use crate::ast::expr::ExprView;
use crate::ast::stmt::StmtView;
use crate::lexer::TokenType;
use crate::runtime::arithmetic::{binary_result, lemma_quotient_fits, truncated_quotient};
use crate::double::{double_quotient, is_zero};
use crate::runtime::environment::{
    BindingView, FrameView, assigned_frame, assigned_result, binds, declared_func, declared_var,
    empty_frame, first_place, function, is_first, lemma_first_place, root_frame, variable,
};
use crate::runtime::values::{ErrorView, ValueView};

verus! {

/// What evaluation reads and changes: the frames, innermost first, and the
/// values printed so far.
pub struct State {
    pub env: Seq<FrameView>,
    pub printed: Seq<ValueView>,
}

/// What evaluating a piece of syntax yields: its value or the error that
/// stopped it, and the state it leaves.
pub struct Outcome {
    pub result: Result<ValueView, ErrorView>,
    pub state: State,
}

/// The runtime value of a literal.
pub open spec fn literal_value(atom: AtomView) -> ValueView {
    match atom {
        AtomView::Integer(i) => ValueView::Int(i),
        AtomView::Float(bits) => ValueView::Float(bits),
        AtomView::String(s) => ValueView::String(s),
        AtomView::Bool(b) => ValueView::Bool(b),
    }
}

/// Whether a value may initialise a variable declared with the given type:
/// an integer for `int`, a double for `float`, a string for `string`, a
/// boolean for `bool`. No value is widened, and a value of any other kind
/// matches no type.
pub open spec fn type_matches(value: ValueView, typing: TokenType) -> bool {
    match value {
        ValueView::Int(_) => typing == TokenType::Integer,
        ValueView::Float(_) => typing == TokenType::Float,
        ValueView::String(_) => typing == TokenType::String,
        ValueView::Bool(_) => typing == TokenType::Bool,
        _ => false,
    }
}

/// What a call hands back for the result of the function's body: the
/// returned value where the body's block ended in a `return`, else
/// `Undefined`.
pub open spec fn returned_value(block_result: ValueView) -> ValueView {
    match block_result {
        ValueView::Block(inner) => match *inner {
            ValueView::Return(value) => *value,
            _ => ValueView::Undefined,
        },
        _ => ValueView::Undefined,
    }
}

/// The state with its innermost frame replaced.
pub open spec fn with_frame(state: State, frame: FrameView) -> State {
    State { env: state.env.update(0, frame), printed: state.printed }
}

/// An outcome that fails with `error` in `state`.
pub open spec fn failed(error: ErrorView, state: State) -> Outcome {
    Outcome { result: Err(error), state }
}

/// An outcome that yields `value` in `state`.
pub open spec fn done(value: ValueView, state: State) -> Outcome {
    Outcome { result: Ok(value), state }
}

/// Evaluates an expression. Operands are evaluated left before right. A
/// call looks the function up, compares the counts of arguments and
/// parameters, evaluates the arguments in the caller's state, then binds
/// their values to the parameters in a fresh root frame, and runs the body
/// there:
/// the body sees its parameters, `true` and `false`, and nothing of the
/// caller. With no level left in `depth` the body is not run, and a name that
/// is bound to something other than a function counts as undefined; neither
/// happens from a state whose functions fit `depth`.
pub open spec fn eval_expr(depth: nat, expr: ExprView, state: State) -> Outcome
    decreases depth, 0nat, expr, 0nat,
{
    match expr {
        ExprView::Literal(atom) => done(literal_value(atom), state),
        ExprView::Identifier(name) => match variable(state.env, name) {
            Some(value) => done(value, state),
            None => failed(ErrorView::UndefinedVariable(name), state),
        },
        ExprView::Assignment(target, _, value) => match *target {
            ExprView::Identifier(name) => {
                let right = eval_expr(depth, *value, state);
                match right.result {
                    Err(_) => right,
                    Ok(assigned) => {
                        let frame = right.state.env[0];
                        Outcome {
                            result: match assigned_result(frame, name) {
                                Ok(_) => Ok(ValueView::Undefined),
                                Err(error) => Err(error),
                            },
                            state: with_frame(right.state, assigned_frame(frame, name, assigned)),
                        }
                    },
                }
            },
            _ => failed(ErrorView::InvalidOperandType, state),
        },
        ExprView::Binary(lhs, op, rhs) => {
            let left = eval_expr(depth, *lhs, state);
            match left.result {
                Err(_) => left,
                Ok(left_value) => {
                    let right = eval_expr(depth, *rhs, left.state);
                    match right.result {
                        Err(_) => right,
                        Ok(right_value) => Outcome {
                            result: binary_result(left_value, op, right_value),
                            state: right.state,
                        },
                    }
                },
            }
        },
        ExprView::CallExpr(name, args) => match function(state.env, name) {
            None => failed(ErrorView::UndefinedFunction(name), state),
            Some(ValueView::Func(_, parameters, body)) => {
                if parameters.len() != args.len() {
                    failed(ErrorView::InvalidFuncCallParametersCount(name), state)
                } else {
                    let given = eval_args(depth, args, 0, Seq::empty(), state);
                    match given.values {
                        Err(error) => failed(error, given.state),
                        Ok(values) => match bound_frame(root_frame(), parameters, values, 0) {
                            Err(error) => failed(error, given.state),
                            Ok(frame) => {
                                let fresh = State {
                                    env: seq![frame],
                                    printed: given.state.printed,
                                };
                                let ran = if depth == 0 {
                                    done(ValueView::Undefined, fresh)
                                } else {
                                    eval_stmt((depth - 1) as nat, body, fresh)
                                };
                                Outcome {
                                    result: match ran.result {
                                        Ok(value) => Ok(returned_value(value)),
                                        Err(error) => Err(error),
                                    },
                                    state: State {
                                        env: given.state.env,
                                        printed: ran.state.printed,
                                    },
                                }
                            },
                        },
                    }
                }
            },
            Some(_) => failed(ErrorView::UndefinedFunction(name), state),
        },
    }
}

/// What evaluating the arguments of a call yields: their values in order,
/// or the error that stopped it, and the caller's state as the arguments left
/// it.
pub struct Given {
    pub values: Result<Seq<ValueView>, ErrorView>,
    pub state: State,
}

/// Evaluates the arguments of a call from the `next`-th on, from left to
/// right, each in the caller's state as the earlier ones left it, and adds
/// their values to `values`. The first error ends it.
pub open spec fn eval_args(
    depth: nat,
    args: Seq<ExprView>,
    next: nat,
    values: Seq<ValueView>,
    state: State,
) -> Given
    decreases depth, 0nat, args, args.len() - next,
{
    if next >= args.len() {
        Given { values: Ok(values), state }
    } else {
        let argument = eval_expr(depth, args[next as int], state);
        match argument.result {
            Err(error) => Given { values: Err(error), state: argument.state },
            Ok(value) => eval_args(depth, args, next + 1, values.push(value), argument.state),
        }
    }
}

/// The frame with the parameters from the `next`-th on declared, each as a
/// variable that stands for the value of the same place. Two parameters of
/// one name are a `VarRedeclaration`, as is a parameter named like something
/// the frame binds already.
pub open spec fn bound_frame(
    frame: FrameView,
    parameters: Seq<Seq<char>>,
    values: Seq<ValueView>,
    next: nat,
) -> Result<FrameView, ErrorView>
    decreases parameters.len() - next,
{
    if next >= parameters.len() || next >= values.len() {
        Ok(frame)
    } else {
        match declared_var(frame, parameters[next as int], values[next as int], false) {
            Err(error) => Err(error),
            Ok(declared) => bound_frame(declared, parameters, values, next + 1),
        }
    }
}

/// Evaluates a statement.
pub open spec fn eval_stmt(depth: nat, stmt: StmtView, state: State) -> Outcome
    decreases depth, 1nat, stmt, 0nat,
{
    match stmt {
        StmtView::Expression(expr) => eval_expr(depth, expr, state),
        StmtView::VarDeclaration(name, typing, is_const, expr) => {
            let initial = eval_expr(depth, expr, state);
            match initial.result {
                Err(_) => initial,
                Ok(value) => if !type_matches(value, typing) {
                    failed(ErrorView::InvalidType, initial.state)
                } else {
                    match declared_var(initial.state.env[0], name, value, is_const) {
                        Err(error) => failed(error, initial.state),
                        Ok(frame) => done(ValueView::Undefined, with_frame(initial.state, frame)),
                    }
                },
            }
        },
        StmtView::FuncDeclaration(name, parameters, body) => {
            let func = ValueView::Func(name, parameters, *body);
            match declared_func(state.env[0], name, func) {
                Err(error) => failed(error, state),
                Ok(frame) => done(func, with_frame(state, frame)),
            }
        },
        StmtView::Block(stmts) => {
            let inside = State { env: seq![empty_frame()] + state.env, printed: state.printed };
            let ran = eval_block_items(depth, stmts, 0, inside);
            Outcome {
                result: match ran.result {
                    Ok(value) => Ok(ValueView::Block(Box::new(value))),
                    Err(error) => Err(error),
                },
                state: State { env: state.env, printed: ran.state.printed },
            }
        },
        StmtView::Return(expr) => {
            let returned = eval_expr(depth, expr, state);
            match returned.result {
                Err(_) => returned,
                Ok(value) => done(ValueView::Return(Box::new(value)), returned.state),
            }
        },
        StmtView::Print(expr) => {
            let shown = eval_expr(depth, expr, state);
            match shown.result {
                Err(_) => shown,
                Ok(value) => done(
                    ValueView::Undefined,
                    State { env: shown.state.env, printed: shown.state.printed.push(value) },
                ),
            }
        },
    }
}

/// Evaluates the statements of a block from the `next`-th on, in the
/// block's own scope. The first statement that yields a `Return` value ends
/// the block with that value; a block that runs to its end yields
/// `Undefined`.
pub open spec fn eval_block_items(depth: nat, stmts: Seq<StmtView>, next: nat, state: State) -> Outcome
    decreases depth, 1nat, stmts, stmts.len() - next,
{
    if next >= stmts.len() {
        done(ValueView::Undefined, state)
    } else {
        let item = eval_stmt(depth, stmts[next as int], state);
        match item.result {
            Err(_) => item,
            Ok(value) => if value is Return {
                item
            } else {
                eval_block_items(depth, stmts, next + 1, item.state)
            },
        }
    }
}

/// Evaluates the top-level statements from the `next`-th on. The first
/// error ends the run; otherwise the value of the last statement is the
/// result, `last` standing for it while there is none.
pub open spec fn eval_sequence(
    depth: nat,
    stmts: Seq<StmtView>,
    next: nat,
    last: ValueView,
    state: State,
) -> Outcome
    decreases stmts.len() - next,
{
    if next >= stmts.len() {
        done(last, state)
    } else {
        let item = eval_stmt(depth, stmts[next as int], state);
        match item.result {
            Err(_) => item,
            Ok(value) => eval_sequence(depth, stmts, next + 1, value, item.state),
        }
    }
}

/// How deeply function declarations are nested in a statement.
pub open spec fn stmt_depth(stmt: StmtView) -> nat
    decreases stmt, 0nat,
{
    match stmt {
        StmtView::FuncDeclaration(_, _, body) => 1 + stmt_depth(*body),
        StmtView::Block(stmts) => stmts_depth(stmts, stmts.len()),
        _ => 0,
    }
}

/// The greatest nesting among the first `count` statements.
pub open spec fn stmts_depth(stmts: Seq<StmtView>, count: nat) -> nat
    decreases stmts, count,
{
    if count == 0 || count > stmts.len() {
        0
    } else {
        let rest = stmts_depth(stmts, (count - 1) as nat);
        let here = stmt_depth(stmts[count - 1]);
        if here > rest {
            here
        } else {
            rest
        }
    }
}

/// Whether a value is a function that can be called within `depth` levels
/// of calls: its body is a well-formed block in which function declarations
/// are nested less than `depth` deep.
pub open spec fn callable(value: ValueView, depth: nat) -> bool {
    match value {
        ValueView::Func(_, _, body) => body is Block && body.well_formed() && stmt_depth(body)
            < depth,
        _ => false,
    }
}

/// Whether every function bound in the frames can be called within `depth`
/// levels of calls.
pub open spec fn frames_fit(env: Seq<FrameView>, depth: nat) -> bool {
    forall|i: int, j: int|
        0 <= i < env.len() && 0 <= j < env[i].functions.len() ==> callable(
            (#[trigger] env[i].functions[j]).value,
            depth,
        )
}

/// Whether every function bound in the frames is a function value whose
/// body is a well-formed block.
pub open spec fn proper_functions(env: Seq<FrameView>) -> bool {
    forall|i: int, j: int|
        0 <= i < env.len() && 0 <= j < env[i].functions.len() ==> match (
        #[trigger] env[i].functions[j]).value {
            ValueView::Func(_, _, body) => body is Block && body.well_formed(),
            _ => false,
        }
}

/// The levels of calls that a function value needs: one more than the
/// nesting of declarations in its body.
pub open spec fn value_depth(value: ValueView) -> nat {
    match value {
        ValueView::Func(_, _, body) => 1 + stmt_depth(body),
        _ => 0,
    }
}

/// The greatest `value_depth` among the first `count` bindings.
pub open spec fn bindings_depth(bindings: Seq<BindingView>, count: nat) -> nat
    decreases count,
{
    if count == 0 || count > bindings.len() {
        0
    } else {
        let rest = bindings_depth(bindings, (count - 1) as nat);
        let here = value_depth(bindings[count - 1].value);
        if here > rest {
            here
        } else {
            rest
        }
    }
}

/// The greatest `value_depth` among the functions of the first `count`
/// frames.
pub open spec fn frames_depth(env: Seq<FrameView>, count: nat) -> nat
    decreases count,
{
    if count == 0 || count > env.len() {
        0
    } else {
        let rest = frames_depth(env, (count - 1) as nat);
        let here = bindings_depth(env[count - 1].functions, env[count - 1].functions.len());
        if here > rest {
            here
        } else {
            rest
        }
    }
}

/// The levels of calls that evaluating the statements in the environment
/// can reach.
pub open spec fn call_depth(stmts: Seq<StmtView>, env: Seq<FrameView>) -> nat {
    let own = stmts_depth(stmts, stmts.len());
    let bound = frames_depth(env, env.len());
    if own > bound {
        own
    } else {
        bound
    }
}

/// Evaluates one statement from the given state, with as many levels of
/// calls as it can reach.
pub open spec fn eval_statement(stmt: StmtView, state: State) -> Outcome {
    eval_stmt(call_depth(seq![stmt], state.env), stmt, state)
}

/// Evaluates one expression from the given state, with as many levels of
/// calls as it can reach.
pub open spec fn eval_expression(expr: ExprView, state: State) -> Outcome {
    eval_expr(frames_depth(state.env, state.env.len()), expr, state)
}

/// Evaluates a program: its statements in order, from the given state.
pub open spec fn eval_program(stmts: Seq<StmtView>, state: State) -> Outcome {
    eval_sequence(call_depth(stmts, state.env), stmts, 0, ValueView::Undefined, state)
}

/// No statement among the first `count` is nested deeper than their
/// greatest nesting.
pub proof fn lemma_stmts_depth(stmts: Seq<StmtView>, count: nat, i: int)
    requires
        0 <= i < count <= stmts.len(),
    ensures
        stmt_depth(stmts[i]) <= stmts_depth(stmts, count),
    decreases count,
{
    if i < count - 1 {
        lemma_stmts_depth(stmts, (count - 1) as nat, i);
    }
}

/// No binding among the first `count` needs more levels than their
/// greatest need.
pub proof fn lemma_bindings_depth(bindings: Seq<BindingView>, count: nat, j: int)
    requires
        0 <= j < count <= bindings.len(),
    ensures
        value_depth(bindings[j].value) <= bindings_depth(bindings, count),
    decreases count,
{
    if j < count - 1 {
        lemma_bindings_depth(bindings, (count - 1) as nat, j);
    }
}

/// No function among the first `count` frames needs more levels than
/// their greatest need.
pub proof fn lemma_frames_depth(env: Seq<FrameView>, count: nat, i: int, j: int)
    requires
        0 <= i < count <= env.len(),
        0 <= j < env[i].functions.len(),
    ensures
        value_depth(env[i].functions[j].value) <= frames_depth(env, count),
    decreases count,
{
    if i < count - 1 {
        lemma_frames_depth(env, (count - 1) as nat, i, j);
    } else {
        lemma_bindings_depth(env[i].functions, env[i].functions.len(), j);
    }
}

/// Proper functions can be called within as many levels as the frames
/// need, and within any more.
pub proof fn lemma_frames_fit(env: Seq<FrameView>, depth: nat)
    requires
        proper_functions(env),
        frames_depth(env, env.len()) <= depth,
    ensures
        frames_fit(env, depth),
{
    assert forall|i: int, j: int|
        0 <= i < env.len() && 0 <= j < env[i].functions.len() implies callable(
        (#[trigger] env[i].functions[j]).value,
        depth,
    ) by {
        lemma_frames_depth(env, env.len(), i, j);
    }
}

/// A function that is found in frames that fit can be called.
pub proof fn lemma_function_callable(env: Seq<FrameView>, name: Seq<char>, depth: nat)
    requires
        frames_fit(env, depth),
        function(env, name) is Some,
    ensures
        callable(function(env, name)->Some_0, depth),
    decreases env.len(),
{
    if binds(env[0].functions, name) {
        lemma_first_place(env[0].functions, name);
        let j = first_place(env[0].functions, name);
        assert(callable(env[0].functions[j].value, depth));
    } else {
        let rest = env.drop_first();
        assert forall|i: int, j: int|
            0 <= i < rest.len() && 0 <= j < rest[i].functions.len() implies callable(
            (#[trigger] rest[i].functions[j]).value,
            depth,
        ) by {
            assert(rest[i] == env[i + 1]);
            assert(callable(env[i + 1].functions[j].value, depth));
        }
        lemma_function_callable(rest, name, depth);
    }
}

/// The expression that applies `op` to two literals.
pub open spec fn literal_operation(left: AtomView, op: TokenType, right: AtomView) -> ExprView {
    ExprView::Binary(
        Box::new(ExprView::Literal(left)),
        op,
        Box::new(ExprView::Literal(right)),
    )
}

/// An operator between two literals gives what it gives for their values,
/// and leaves the state as it is.
pub proof fn lemma_literal_operation(
    depth: nat,
    left: AtomView,
    op: TokenType,
    right: AtomView,
    state: State,
)
    ensures
        eval_expr(depth, literal_operation(left, op, right), state) == (Outcome {
            result: binary_result(literal_value(left), op, literal_value(right)),
            state,
        }),
{
    assert(eval_expr(depth, ExprView::Literal(left), state) == done(literal_value(left), state));
    assert(eval_expr(depth, ExprView::Literal(right), state) == done(
        literal_value(right),
        state,
    ));
}

/// Dividing an integer by an integer gives the quotient rounded towards
/// zero, and a division by zero is refused as `DivisionByZero`; the state
/// stays as it is. The least integer divided by -1 is left out: its quotient
/// does not fit in 64 bits.
pub proof fn lemma_integer_division(depth: nat, a: i64, b: i64, state: State)
    requires
        !(a == i64::MIN && b == -1),
    ensures
        b == 0 ==> eval_expr(
            depth,
            literal_operation(AtomView::Integer(a), TokenType::Slash, AtomView::Integer(b)),
            state,
        ) == failed(ErrorView::DivisionByZero, state),
        b != 0 ==> i64::MIN <= truncated_quotient(a as int, b as int) <= i64::MAX && eval_expr(
            depth,
            literal_operation(AtomView::Integer(a), TokenType::Slash, AtomView::Integer(b)),
            state,
        ) == done(ValueView::Int(truncated_quotient(a as int, b as int) as i64), state),
{
    lemma_literal_operation(
        depth,
        AtomView::Integer(a),
        TokenType::Slash,
        AtomView::Integer(b),
        state,
    );
    if b != 0 {
        lemma_quotient_fits(a, b);
    }
}

/// Dividing by a decimal zero is refused as `DivisionByZero` where the
/// dividend is an integer, and is no error where the dividend is a decimal:
/// then the result is the double quotient, an infinity or a NaN.
pub proof fn lemma_division_by_decimal_zero(
    depth: nat,
    integer: i64,
    decimal: u64,
    zero: u64,
    state: State,
)
    requires
        is_zero(zero),
    ensures
        eval_expr(
            depth,
            literal_operation(AtomView::Integer(integer), TokenType::Slash, AtomView::Float(zero)),
            state,
        ) == failed(ErrorView::DivisionByZero, state),
        eval_expr(
            depth,
            literal_operation(AtomView::Float(decimal), TokenType::Slash, AtomView::Float(zero)),
            state,
        ) == done(ValueView::Float(double_quotient(decimal, zero)), state),
{
    lemma_literal_operation(
        depth,
        AtomView::Integer(integer),
        TokenType::Slash,
        AtomView::Float(zero),
        state,
    );
    lemma_literal_operation(
        depth,
        AtomView::Float(decimal),
        TokenType::Slash,
        AtomView::Float(zero),
        state,
    );
}

/// Joining three string literals with `+` gives the three texts one
/// behind the other, however the two joins are grouped.
pub proof fn lemma_string_joins_agree(
    depth: nat,
    a: Seq<char>,
    b: Seq<char>,
    c: Seq<char>,
    state: State,
)
    ensures
        eval_expr(
            depth,
            ExprView::Binary(
                Box::new(
                    literal_operation(AtomView::String(a), TokenType::Plus, AtomView::String(b)),
                ),
                TokenType::Plus,
                Box::new(ExprView::Literal(AtomView::String(c))),
            ),
            state,
        ) == done(ValueView::String(a + b + c), state),
        eval_expr(
            depth,
            ExprView::Binary(
                Box::new(ExprView::Literal(AtomView::String(a))),
                TokenType::Plus,
                Box::new(
                    literal_operation(AtomView::String(b), TokenType::Plus, AtomView::String(c)),
                ),
            ),
            state,
        ) == done(ValueView::String(a + b + c), state),
{
    lemma_literal_operation(
        depth,
        AtomView::String(a),
        TokenType::Plus,
        AtomView::String(b),
        state,
    );
    lemma_literal_operation(
        depth,
        AtomView::String(b),
        TokenType::Plus,
        AtomView::String(c),
        state,
    );
    assert(eval_expr(depth, ExprView::Literal(AtomView::String(a)), state) == done(
        ValueView::String(a),
        state,
    ));
    assert(eval_expr(depth, ExprView::Literal(AtomView::String(c)), state) == done(
        ValueView::String(c),
        state,
    ));
    assert(a + (b + c) =~= a + b + c);
}

/// A call hands the body nothing of the caller but the values of its
/// arguments: two states in which the name stands for the same function,
/// whose arguments have the same values and which have printed the same, give
/// the call the same result and the same printed values, whatever else their
/// variables hold.
pub proof fn lemma_call_ignores_variables(
    depth: nat,
    name: Seq<char>,
    args: Seq<ExprView>,
    first: State,
    second: State,
)
    requires
        function(first.env, name) == function(second.env, name),
        first.printed == second.printed,
        eval_args(depth, args, 0, Seq::empty(), first).values == eval_args(
            depth,
            args,
            0,
            Seq::empty(),
            second,
        ).values,
        eval_args(depth, args, 0, Seq::empty(), first).state.printed == eval_args(
            depth,
            args,
            0,
            Seq::empty(),
            second,
        ).state.printed,
    ensures
        eval_expr(depth, ExprView::CallExpr(name, args), first).result == eval_expr(
            depth,
            ExprView::CallExpr(name, args),
            second,
        ).result,
        eval_expr(depth, ExprView::CallExpr(name, args), first).state.printed == eval_expr(
            depth,
            ExprView::CallExpr(name, args),
            second,
        ).state.printed,
{
}

/// The callee's frame binds no name but those it started with and the
/// parameters.
pub proof fn lemma_bound_names(
    frame: FrameView,
    parameters: Seq<Seq<char>>,
    values: Seq<ValueView>,
    next: nat,
    name: Seq<char>,
)
    requires
        !binds(frame.variables, name),
        !parameters.contains(name),
    ensures
        bound_frame(frame, parameters, values, next) matches Ok(bound) ==> !binds(
            bound.variables,
            name,
        ),
    decreases parameters.len() - next,
{
    if next < parameters.len() && next < values.len() {
        match declared_var(frame, parameters[next as int], values[next as int], false) {
            Err(_) => {},
            Ok(declared) => {
                if binds(declared.variables, name) {
                    let i = choose|i: int|
                        0 <= i < declared.variables.len() && (
                        #[trigger] declared.variables[i]).name == name;
                    if i < frame.variables.len() {
                        assert(frame.variables[i].name == name);
                    } else {
                        assert(parameters[next as int] == name);
                    }
                }
                lemma_bound_names(declared, parameters, values, next + 1, name);
            },
        }
    }
}

/// A declaration checks the value against the declared type before it
/// binds the name. A value whose kind differs from the declared type, with no
/// widening of integers to doubles, is refused as `InvalidType` and the name
/// is not bound: the state is as the initial expression left it. A value of
/// the declared type is bound, where the innermost frame does not bind the
/// name yet, and the statement yields `Undefined`; from then on the name
/// stands for the value.
pub proof fn lemma_declared_type(
    depth: nat,
    name: Seq<char>,
    typing: TokenType,
    is_const: bool,
    expr: ExprView,
    state: State,
)
    requires
        eval_expr(depth, expr, state).result is Ok,
    ensures
        ({
            let initial = eval_expr(depth, expr, state);
            let value = initial.result->Ok_0;
            let declared = eval_stmt(
                depth,
                StmtView::VarDeclaration(name, typing, is_const, expr),
                state,
            );
            &&& type_matches(value, typing) <==> (value is Int && typing == TokenType::Integer)
                || (value is Float && typing == TokenType::Float) || (value is String && typing
                == TokenType::String) || (value is Bool && typing == TokenType::Bool)
            &&& !type_matches(value, typing) ==> declared == failed(
                ErrorView::InvalidType,
                initial.state,
            )
            &&& type_matches(value, typing) && binds(initial.state.env[0].variables, name)
                ==> declared == failed(ErrorView::VarRedeclaration(name), initial.state)
            &&& type_matches(value, typing) && !binds(initial.state.env[0].variables, name) ==> {
                &&& declared.result == Ok::<ValueView, ErrorView>(ValueView::Undefined)
                &&& declared.state.printed == initial.state.printed
                &&& initial.state.env.len() >= 1 ==> declared.state.env.drop_first()
                    == initial.state.env.drop_first() && variable(declared.state.env, name)
                    == Some(value)
            }
        }),
{
    let initial = eval_expr(depth, expr, state);
    let value = initial.result->Ok_0;
    let frame = initial.state.env[0];
    if type_matches(value, typing) && !binds(frame.variables, name) && initial.state.env.len()
        >= 1 {
        let bound = declared_var(frame, name, value, is_const)->Ok_0;
        let after = initial.state.env.update(0, bound);
        let place = frame.variables.len() as int;
        assert(bound.variables[place].name == name);
        assert forall|j: int| 0 <= j < place implies (#[trigger] bound.variables[j]).name
            != name by {
            assert(frame.variables[j].name == bound.variables[j].name);
        }
        assert(is_first(bound.variables, name, place));
        lemma_first_place(bound.variables, name);
        assert(after[0] == bound);
        assert(after.drop_first() =~= initial.state.env.drop_first());
    }
}

/// The statements of a block yield a `Return` value or `Undefined`, never
/// the value of a statement that does not return.
pub proof fn lemma_block_items_result(depth: nat, stmts: Seq<StmtView>, next: nat, state: State)
    ensures
        eval_block_items(depth, stmts, next, state).result matches Ok(value) ==> value is Return
            || value == ValueView::Undefined,
    decreases stmts.len() - next,
{
    if next < stmts.len() {
        let item = eval_stmt(depth, stmts[next as int], state);
        match item.result {
            Err(_) => {},
            Ok(value) => {
                if !(value is Return) {
                    lemma_block_items_result(depth, stmts, next + 1, item.state);
                }
            },
        }
    }
}

/// A block stops at the first statement that yields a `Return` value: what
/// that statement yields and leaves is what the statements from it on yield
/// and leave, and no later statement is evaluated. A statement that yields
/// another value is passed over, and one that fails ends the block with its
/// error.
pub proof fn lemma_block_stops_at_return(
    depth: nat,
    stmts: Seq<StmtView>,
    next: nat,
    state: State,
)
    requires
        next < stmts.len(),
    ensures
        ({
            let item = eval_stmt(depth, stmts[next as int], state);
            let rest = eval_block_items(depth, stmts, next, state);
            &&& item.result is Err ==> rest == item
            &&& item.result is Ok && item.result->Ok_0 is Return ==> rest == item
            &&& item.result is Ok && !(item.result->Ok_0 is Return) ==> rest
                == eval_block_items(depth, stmts, next + 1, item.state)
        }),
{
}

/// A block always yields a `Block` value, which wraps the `Return` value
/// of the first statement that returned, or `Undefined` where none did: never
/// a bare `Return`, never the value of another statement. It leaves the
/// frames as they were, its own scope being gone; an error inside it comes
/// out as it is.
pub proof fn lemma_block_result(depth: nat, stmts: Seq<StmtView>, state: State)
    ensures
        ({
            let inside = State { env: seq![empty_frame()] + state.env, printed: state.printed };
            let items = eval_block_items(depth, stmts, 0, inside);
            let block = eval_stmt(depth, StmtView::Block(stmts), state);
            &&& block.state.env == state.env
            &&& block.state.printed == items.state.printed
            &&& items.result matches Err(error) ==> block.result == Err::<ValueView, ErrorView>(
                error,
            )
            &&& items.result matches Ok(value) ==> block.result == Ok::<ValueView, ErrorView>(
                ValueView::Block(Box::new(value)),
            ) && (value is Return || value == ValueView::Undefined)
            &&& stmts.len() == 0 ==> block == done(
                ValueView::Block(Box::new(ValueView::Undefined)),
                state,
            )
        }),
{
    let inside = State { env: seq![empty_frame()] + state.env, printed: state.printed };
    lemma_block_items_result(depth, stmts, 0, inside);
}

/// A call with more or fewer arguments than the function has parameters
/// is refused as `InvalidFuncCallParametersCount`, and nothing is evaluated.
pub proof fn lemma_argument_count(
    depth: nat,
    name: Seq<char>,
    args: Seq<ExprView>,
    own: Seq<char>,
    parameters: Seq<Seq<char>>,
    body: StmtView,
    state: State,
)
    requires
        function(state.env, name) == Some(ValueView::Func(own, parameters, body)),
        parameters.len() != args.len(),
    ensures
        eval_expr(depth, ExprView::CallExpr(name, args), state) == failed(
            ErrorView::InvalidFuncCallParametersCount(name),
            state,
        ),
{
}

/// Evaluation has no hidden state: a program evaluated from two fresh
/// root environments yields the same result, the same environment and the
/// same printed values.
pub proof fn lemma_fresh_runs_agree(
    stmts: Seq<StmtView>,
    first: Seq<FrameView>,
    second: Seq<FrameView>,
)
    requires
        first == seq![root_frame()],
        second == seq![root_frame()],
    ensures
        eval_program(stmts, State { env: first, printed: Seq::empty() }) == eval_program(
            stmts,
            State { env: second, printed: Seq::empty() },
        ),
{
}

} // verus!
