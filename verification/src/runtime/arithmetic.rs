//! The four binary operators on runtime values.

use vstd::prelude::*;
use crate::lexer::TokenType;
use crate::double::{
    add_doubles, divide_doubles, double_difference, double_of_int, double_product,
    double_quotient, double_sum, int_to_double, is_infinite_or_nan, is_zero, is_zero_bits,
    multiply_doubles, subtract_doubles,
};
use crate::runtime::values::{ErrorView, RuntimeError, RuntimeVal, ValueView, result_view};

verus! {

/// The 64-bit two's complement integer that is congruent to `x` modulo
/// 2^64.
pub open spec fn wrap(x: int) -> i64 {
    let low = x % 0x1_0000_0000_0000_0000;
    if low > i64::MAX {
        (low - 0x1_0000_0000_0000_0000) as i64
    } else {
        low as i64
    }
}

/// The quotient of `a` by `b` rounded towards zero.
pub open spec fn truncated_quotient(a: int, b: int) -> int
    recommends
        b != 0,
{
    if a >= 0 && b > 0 {
        a / b
    } else if a < 0 && b < 0 {
        (-a) / (-b)
    } else if a < 0 {
        -((-a) / b)
    } else {
        -(a / (-b))
    }
}

/// An operator applied to two integers: the exact result wrapped to 64
/// bits, or `DivisionByZero` for a division by zero.
pub open spec fn int_result(a: i64, op: TokenType, b: i64) -> Result<ValueView, ErrorView> {
    match op {
        TokenType::Plus => Ok(ValueView::Int(wrap(a + b))),
        TokenType::Minus => Ok(ValueView::Int(wrap(a - b))),
        TokenType::Star => Ok(ValueView::Int(wrap(a * b))),
        TokenType::Slash => if b == 0 {
            Err(ErrorView::DivisionByZero)
        } else {
            Ok(ValueView::Int(wrap(truncated_quotient(a as int, b as int))))
        },
        _ => Err(ErrorView::InvalidOperandType),
    }
}

/// An operator applied to two doubles given by their bit patterns. No
/// operand makes this fail: a division by zero gives an infinity or a NaN.
pub open spec fn double_result(a: u64, op: TokenType, b: u64) -> Result<ValueView, ErrorView> {
    match op {
        TokenType::Plus => Ok(ValueView::Float(double_sum(a, b))),
        TokenType::Minus => Ok(ValueView::Float(double_difference(a, b))),
        TokenType::Star => Ok(ValueView::Float(double_product(a, b))),
        TokenType::Slash => Ok(ValueView::Float(double_quotient(a, b))),
        _ => Err(ErrorView::InvalidOperandType),
    }
}

/// What a binary operator gives for two operand values. The operands'
/// runtime types decide: two integers give an integer; an integer and a
/// double give a double, the integer being widened first, and only with the
/// integer on the left is a division by a zero an error; two strings are
/// joined by `+`; everything else is an `InvalidOperandType`.
pub open spec fn binary_result(left: ValueView, op: TokenType, right: ValueView) -> Result<
    ValueView,
    ErrorView,
> {
    match (left, right) {
        (ValueView::Int(a), ValueView::Int(b)) => int_result(a, op, b),
        (ValueView::Int(a), ValueView::Float(b)) => if op == TokenType::Slash && is_zero(b) {
            Err(ErrorView::DivisionByZero)
        } else {
            double_result(double_of_int(a), op, b)
        },
        (ValueView::Float(a), ValueView::Int(b)) => double_result(a, op, double_of_int(b)),
        (ValueView::Float(a), ValueView::Float(b)) => double_result(a, op, b),
        (ValueView::String(a), ValueView::String(b)) => if op == TokenType::Plus {
            Ok(ValueView::String(a + b))
        } else {
            Err(ErrorView::InvalidOperandType)
        },
        _ => Err(ErrorView::InvalidOperandType),
    }
}

/// An integer quotient rounded towards zero fits in 64 bits, but for the
/// least integer divided by -1.
pub proof fn lemma_quotient_fits(a: i64, b: i64)
    requires
        b != 0,
        !(a == i64::MIN && b == -1),
    ensures
        i64::MIN <= truncated_quotient(a as int, b as int) <= i64::MAX,
        wrap(truncated_quotient(a as int, b as int)) == truncated_quotient(a as int, b as int),
{
    let x = a as int;
    let d = b as int;
    assert(i64::MIN <= truncated_quotient(x, d) <= i64::MAX) by (nonlinear_arith)
        requires
            d != 0,
            !(x == i64::MIN && d == -1),
            i64::MIN <= x <= i64::MAX,
            i64::MIN <= d <= i64::MAX,
    ;
}

/// Joining strings with `+` loses nothing and does not depend on how the
/// joins are grouped: `(a + b) + c` and `a + (b + c)` are both the three
/// texts one behind the other.
pub proof fn lemma_concatenation_associative(a: Seq<char>, b: Seq<char>, c: Seq<char>)
    ensures
        binary_result(ValueView::String(a), TokenType::Plus, ValueView::String(b)) == Ok::<
            ValueView,
            ErrorView,
        >(ValueView::String(a + b)),
        (a + b).len() == a.len() + b.len(),
        binary_result(ValueView::String(a + b), TokenType::Plus, ValueView::String(c))
            == binary_result(ValueView::String(a), TokenType::Plus, ValueView::String(b + c)),
{
    assert((a + b) + c =~= a + (b + c));
}

/// Applies an operator to two integers.
pub fn int_operation(a: i64, op: TokenType, b: i64) -> (result: Result<RuntimeVal, RuntimeError>)
    ensures
        result_view(result) == int_result(a, op, b),
{
    match op {
        TokenType::Plus => Ok(RuntimeVal::Int(a.wrapping_add(b))),
        TokenType::Minus => Ok(RuntimeVal::Int(a.wrapping_sub(b))),
        TokenType::Star => Ok(RuntimeVal::Int(a.wrapping_mul(b))),
        TokenType::Slash => {
            if b == 0 {
                return Err(RuntimeError::DivisionByZero);
            }
            match a.checked_div(b) {
                Some(quotient) => Ok(RuntimeVal::Int(quotient)),
                None => {
                    assert(a == i64::MIN && b == -1) by (nonlinear_arith)
                        requires
                            b != 0,
                            i64::MIN <= a <= i64::MAX,
                            i64::MIN <= b <= i64::MAX,
                            truncated_quotient(a as int, b as int) < i64::MIN
                                || truncated_quotient(a as int, b as int) > i64::MAX,
                    ;
                    Ok(RuntimeVal::Int(i64::MIN))
                },
            }
        },
        _ => Err(RuntimeError::InvalidOperandType),
    }
}

/// What dividing a double by a zero gives: no error, but the pattern of an
/// infinity or of a NaN.
pub open spec fn divided_by_zero(result: Result<RuntimeVal, RuntimeError>) -> bool {
    match result {
        Ok(RuntimeVal::Float(bits)) => is_infinite_or_nan(bits),
        _ => false,
    }
}

/// Applies an operator to two doubles given by their bit patterns.
pub fn double_operation(a: u64, op: TokenType, b: u64) -> (result: Result<
    RuntimeVal,
    RuntimeError,
>)
    ensures
        result_view(result) == double_result(a, op, b),
        op == TokenType::Slash && is_zero(b) ==> divided_by_zero(result),
{
    match op {
        TokenType::Plus => Ok(RuntimeVal::Float(add_doubles(a, b))),
        TokenType::Minus => Ok(RuntimeVal::Float(subtract_doubles(a, b))),
        TokenType::Star => Ok(RuntimeVal::Float(multiply_doubles(a, b))),
        TokenType::Slash => Ok(RuntimeVal::Float(divide_doubles(a, b))),
        _ => Err(RuntimeError::InvalidOperandType),
    }
}

/// Applies a binary operator to two operand values.
pub fn binary_operation(left: RuntimeVal, op: TokenType, right: RuntimeVal) -> (result: Result<
    RuntimeVal,
    RuntimeError,
>)
    ensures
        result_view(result) == binary_result(left@, op, right@),
        op == TokenType::Slash && left@ is Float && right@ is Float && is_zero(right@->Float_0)
            ==> divided_by_zero(result),
{
    match left {
        RuntimeVal::Int(a) => match right {
            RuntimeVal::Int(b) => int_operation(a, op, b),
            RuntimeVal::Float(b) => {
                if op == TokenType::Slash && is_zero_bits(b) {
                    return Err(RuntimeError::DivisionByZero);
                }
                double_operation(int_to_double(a), op, b)
            },
            _ => Err(RuntimeError::InvalidOperandType),
        },
        RuntimeVal::Float(a) => match right {
            RuntimeVal::Int(b) => double_operation(a, op, int_to_double(b)),
            RuntimeVal::Float(b) => double_operation(a, op, b),
            _ => Err(RuntimeError::InvalidOperandType),
        },
        RuntimeVal::String(a) => match right {
            RuntimeVal::String(b) => match op {
                TokenType::Plus => Ok(RuntimeVal::String(a.concat(b.as_str()))),
                _ => Err(RuntimeError::InvalidOperandType),
            },
            _ => Err(RuntimeError::InvalidOperandType),
        },
        _ => Err(RuntimeError::InvalidOperandType),
    }
}

} // verus!
