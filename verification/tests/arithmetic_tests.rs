use trlang::lexer::TokenType;
use trlang::runtime::arithmetic::{binary_operation, double_operation, int_operation};
use trlang::double::is_zero_bits;
use trlang::runtime::values::{RuntimeError, RuntimeVal};

fn decimal(value: f64) -> RuntimeVal {
    RuntimeVal::Float(value.to_bits())
}

fn text(value: &str) -> RuntimeVal {
    RuntimeVal::String(value.to_string())
}

#[test]
fn integer_operations() {
    assert_eq!(int_operation(7, TokenType::Plus, 5), Ok(RuntimeVal::Int(12)));
    assert_eq!(int_operation(7, TokenType::Minus, 9), Ok(RuntimeVal::Int(-2)));
    assert_eq!(int_operation(-7, TokenType::Star, 6), Ok(RuntimeVal::Int(-42)));
    assert_eq!(int_operation(7, TokenType::Slash, 2), Ok(RuntimeVal::Int(3)));
}

#[test]
fn integer_division_rounds_towards_zero() {
    assert_eq!(int_operation(-7, TokenType::Slash, 2), Ok(RuntimeVal::Int(-3)));
    assert_eq!(int_operation(7, TokenType::Slash, -2), Ok(RuntimeVal::Int(-3)));
    assert_eq!(int_operation(-7, TokenType::Slash, -2), Ok(RuntimeVal::Int(3)));
    assert_eq!(int_operation(0, TokenType::Slash, -5), Ok(RuntimeVal::Int(0)));
    assert_eq!(
        int_operation(i64::MIN, TokenType::Slash, 1),
        Ok(RuntimeVal::Int(i64::MIN))
    );
}

#[test]
fn integer_division_by_zero() {
    assert_eq!(
        int_operation(7, TokenType::Slash, 0),
        Err(RuntimeError::DivisionByZero)
    );
    assert_eq!(
        int_operation(0, TokenType::Slash, 0),
        Err(RuntimeError::DivisionByZero)
    );
}

#[test]
fn integer_results_wrap() {
    assert_eq!(
        int_operation(i64::MAX, TokenType::Plus, 1),
        Ok(RuntimeVal::Int(i64::MIN))
    );
    assert_eq!(
        int_operation(i64::MIN, TokenType::Minus, 1),
        Ok(RuntimeVal::Int(i64::MAX))
    );
    assert_eq!(
        int_operation(i64::MAX, TokenType::Star, 2),
        Ok(RuntimeVal::Int(-2))
    );
    assert_eq!(
        int_operation(i64::MIN, TokenType::Slash, -1),
        Ok(RuntimeVal::Int(i64::MIN))
    );
}

#[test]
fn integer_operator_must_be_arithmetic() {
    assert_eq!(
        int_operation(1, TokenType::Equal, 1),
        Err(RuntimeError::InvalidOperandType)
    );
    assert_eq!(
        double_operation(0, TokenType::Comma, 0),
        Err(RuntimeError::InvalidOperandType)
    );
}

#[test]
fn double_operations() {
    let a = 0.1f64.to_bits();
    let b = 0.2f64.to_bits();
    assert_eq!(double_operation(a, TokenType::Plus, b), Ok(decimal(0.1 + 0.2)));
    assert_eq!(double_operation(a, TokenType::Minus, b), Ok(decimal(0.1 - 0.2)));
    assert_eq!(double_operation(a, TokenType::Star, b), Ok(decimal(0.1 * 0.2)));
    assert_eq!(double_operation(a, TokenType::Slash, b), Ok(decimal(0.1 / 0.2)));
}

#[test]
fn double_operations_round_as_the_machine_does() {
    let pairs = [
        (1.0f64, 3.0f64),
        (1e308, 1e308),
        (5e-324, 2.0),
        (-2.5, 1e-10),
        (123456789.123, 0.000987654321),
        (f64::MAX, -f64::MAX),
    ];
    for (x, y) in pairs {
        let (a, b) = (x.to_bits(), y.to_bits());
        assert_eq!(double_operation(a, TokenType::Plus, b), Ok(decimal(x + y)));
        assert_eq!(double_operation(a, TokenType::Minus, b), Ok(decimal(x - y)));
        assert_eq!(double_operation(a, TokenType::Star, b), Ok(decimal(x * y)));
        assert_eq!(double_operation(a, TokenType::Slash, b), Ok(decimal(x / y)));
    }
}

#[test]
fn zero_patterns() {
    assert!(is_zero_bits(0.0f64.to_bits()));
    assert!(is_zero_bits((-0.0f64).to_bits()));
    assert!(!is_zero_bits(1.0f64.to_bits()));
    assert!(!is_zero_bits(5e-324f64.to_bits()));
    assert!(!is_zero_bits(f64::NAN.to_bits()));
}

#[test]
fn integer_with_decimal_gives_decimal() {
    assert_eq!(
        binary_operation(RuntimeVal::Int(1), TokenType::Plus, decimal(1.5)),
        Ok(decimal(2.5))
    );
    assert_eq!(
        binary_operation(decimal(1.5), TokenType::Star, RuntimeVal::Int(-2)),
        Ok(decimal(-3.0))
    );
    assert_eq!(
        binary_operation(RuntimeVal::Int(1), TokenType::Slash, decimal(4.0)),
        Ok(decimal(0.25))
    );
    assert_eq!(
        binary_operation(decimal(5.5), TokenType::Minus, RuntimeVal::Int(2)),
        Ok(decimal(3.5))
    );
}

#[test]
fn large_integer_is_widened_to_the_nearest_double() {
    assert_eq!(
        binary_operation(RuntimeVal::Int(i64::MAX), TokenType::Plus, decimal(0.0)),
        Ok(decimal(i64::MAX as f64))
    );
    assert_eq!(
        binary_operation(
            RuntimeVal::Int(9007199254740993),
            TokenType::Plus,
            decimal(0.0)
        ),
        Ok(decimal(9007199254740993i64 as f64))
    );
    assert_eq!(
        binary_operation(decimal(0.0), TokenType::Plus, RuntimeVal::Int(i64::MIN)),
        Ok(decimal(i64::MIN as f64))
    );
}

#[test]
fn integer_divided_by_decimal_zero_is_an_error() {
    assert_eq!(
        binary_operation(RuntimeVal::Int(1), TokenType::Slash, decimal(0.0)),
        Err(RuntimeError::DivisionByZero)
    );
    assert_eq!(
        binary_operation(RuntimeVal::Int(1), TokenType::Slash, decimal(-0.0)),
        Err(RuntimeError::DivisionByZero)
    );
    assert_eq!(
        binary_operation(RuntimeVal::Int(1), TokenType::Star, decimal(0.0)),
        Ok(decimal(0.0))
    );
}

#[test]
fn decimal_divided_by_zero_is_no_error() {
    assert_eq!(
        binary_operation(decimal(1.0), TokenType::Slash, decimal(0.0)),
        Ok(decimal(f64::INFINITY))
    );
    assert_eq!(
        binary_operation(decimal(-1.0), TokenType::Slash, decimal(0.0)),
        Ok(decimal(f64::NEG_INFINITY))
    );
    assert_eq!(
        binary_operation(decimal(1.0), TokenType::Slash, RuntimeVal::Int(0)),
        Ok(decimal(f64::INFINITY))
    );
    match binary_operation(decimal(0.0), TokenType::Slash, decimal(0.0)) {
        Ok(RuntimeVal::Float(bits)) => assert!(f64::from_bits(bits).is_nan()),
        other => panic!("expected a NaN, got {:?}", other),
    }
}

#[test]
fn strings_are_joined_by_plus_alone() {
    assert_eq!(
        binary_operation(text("a"), TokenType::Plus, text("b")),
        Ok(text("ab"))
    );
    assert_eq!(
        binary_operation(text(""), TokenType::Plus, text("")),
        Ok(text(""))
    );
    assert_eq!(
        binary_operation(text("a"), TokenType::Minus, text("b")),
        Err(RuntimeError::InvalidOperandType)
    );
    assert_eq!(
        binary_operation(text("a"), TokenType::Star, text("b")),
        Err(RuntimeError::InvalidOperandType)
    );
}

#[test]
fn joining_strings_is_associative() {
    let left = binary_operation(
        binary_operation(text("ab"), TokenType::Plus, text("")).unwrap(),
        TokenType::Plus,
        text("cd"),
    );
    let right = binary_operation(
        text("ab"),
        TokenType::Plus,
        binary_operation(text(""), TokenType::Plus, text("cd")).unwrap(),
    );
    assert_eq!(left, Ok(text("abcd")));
    assert_eq!(right, Ok(text("abcd")));
}

#[test]
fn other_operands_are_refused() {
    let operands = [
        (RuntimeVal::Int(1), text("a")),
        (text("a"), RuntimeVal::Int(1)),
        (RuntimeVal::Bool(true), RuntimeVal::Bool(false)),
        (RuntimeVal::Bool(true), RuntimeVal::Int(1)),
        (RuntimeVal::Int(1), RuntimeVal::Undefined),
        (RuntimeVal::Undefined, RuntimeVal::Undefined),
        (decimal(1.0), text("a")),
        (
            RuntimeVal::Return(Box::new(RuntimeVal::Int(1))),
            RuntimeVal::Int(1),
        ),
        (
            RuntimeVal::Int(1),
            RuntimeVal::Block(Box::new(RuntimeVal::Undefined)),
        ),
    ];
    for (left, right) in operands {
        assert_eq!(
            binary_operation(left, TokenType::Plus, right),
            Err(RuntimeError::InvalidOperandType)
        );
    }
}

#[test]
fn every_double_divided_by_zero_is_infinite_or_nan() {
    let dividends = [
        0.0f64,
        -0.0,
        1.0,
        -1.0,
        5e-324,
        f64::MAX,
        f64::MIN,
        f64::INFINITY,
        f64::NEG_INFINITY,
        f64::NAN,
        1e-310,
    ];
    let exponent = 0x7ff0_0000_0000_0000u64;
    for zero in [0.0f64, -0.0] {
        for dividend in dividends {
            match double_operation(dividend.to_bits(), TokenType::Slash, zero.to_bits()) {
                Ok(RuntimeVal::Float(bits)) => {
                    assert_eq!(bits & exponent, exponent);
                    let expected = dividend / zero;
                    if expected.is_nan() {
                        assert!(f64::from_bits(bits).is_nan());
                    } else {
                        assert_eq!(bits, expected.to_bits());
                    }
                }
                other => panic!("expected a double, got {:?}", other),
            }
        }
    }
}
