//! Arithmetic operator tests: integer and decimal paths, string and
//! array concatenation, precedence, and the zero-divisor errors.

use rq::errors::EvalError;
use rq::evaluator::Evaluator;
use rq::num::{dec_from_parts, Number};
use rq::parser::ExpressionParser;
use rq::value::Value;

fn vint(i: i64) -> Value {
    Value::Num(Number::Int(i))
}

fn vdec(m: i64, e: u32) -> Value {
    Value::Num(dec_from_parts(m, e).unwrap())
}

fn vstr(s: &str) -> Value {
    Value::Str(s.to_string())
}

fn parse_and_eval(expr_str: &str, input: Option<Value>) -> Result<Value, EvalError> {
    let parser = ExpressionParser::new();
    let evaluator = Evaluator::new();
    let expr = parser.parse(expr_str).expect("expression should parse");
    evaluator.evaluate(&expr, input.as_ref())
}

fn eval_null(expr_str: &str) -> Result<Value, EvalError> {
    parse_and_eval(expr_str, Some(Value::Null))
}

#[test]
fn test_add_integers() {
    let result = eval_null("1 + 2").unwrap();
    assert_eq!(result, vint(3));
}

#[test]
fn test_add_floats() {
    let result = eval_null("1.5 + 2.5").unwrap();
    assert_eq!(result, vdec(4, 0));
}

#[test]
fn test_add_strings() {
    let result = eval_null("\"hello\" + \" \" + \"world\"").unwrap();
    assert_eq!(result, vstr("hello world"));
}

#[test]
fn test_add_arrays() {
    let result = eval_null("[1, 2] + [3, 4]").unwrap();
    assert_eq!(result, Value::Arr(vec![vint(1), vint(2), vint(3), vint(4)]));
}

#[test]
fn test_add_mixed_types_error() {
    let result = eval_null("1 + \"hello\"");
    assert!(result.is_err());
}

#[test]
fn test_sub_integers() {
    let result = eval_null("5 - 3").unwrap();
    assert_eq!(result, vint(2));
}

#[test]
fn test_sub_floats() {
    let result = eval_null("5.5 - 2.5").unwrap();
    assert_eq!(result, vdec(3, 0));
}

#[test]
fn test_sub_negative_result() {
    let result = eval_null("3 - 5").unwrap();
    assert_eq!(result, vint(-2));
}

#[test]
fn test_sub_strings_error() {
    let result = eval_null("\"hello\" - \"world\"");
    assert!(result.is_err());
}

#[test]
fn test_mul_integers() {
    let result = eval_null("4 * 5").unwrap();
    assert_eq!(result, vint(20));
}

#[test]
fn test_mul_floats() {
    let result = eval_null("2.5 * 4.0").unwrap();
    assert_eq!(result, vdec(10, 0));
}

#[test]
fn test_mul_by_zero() {
    let result = eval_null("5 * 0").unwrap();
    assert_eq!(result, vint(0));
}

#[test]
fn test_div_integers() {
    let result = eval_null("10 / 2").unwrap();
    assert_eq!(result, vdec(5, 0));
}

#[test]
fn test_div_floats() {
    let result = eval_null("7.5 / 2.5").unwrap();
    assert_eq!(result, vdec(3, 0));
}

#[test]
fn test_div_by_zero() {
    let result = eval_null("10 / 0");
    assert!(result.is_err());
    assert!(result.unwrap_err().message().contains("Division by zero"));
}

#[test]
fn test_modulo_integers() {
    let result = eval_null("10 % 3").unwrap();
    assert_eq!(result, vint(1));
}

#[test]
fn test_modulo_by_zero() {
    let result = eval_null("10 % 0");
    assert!(result.is_err());
    assert!(result.unwrap_err().message().contains("Modulo by zero"));
}

#[test]
fn test_precedence_mul_before_add() {
    let result = eval_null("2 + 3 * 4").unwrap();
    assert_eq!(result, vint(14));
}

#[test]
fn test_precedence_div_before_sub() {
    let result = eval_null("10 - 6 / 2").unwrap();
    assert_eq!(result, vdec(7, 0));
}

#[test]
fn test_precedence_left_to_right() {
    let result = eval_null("10 - 3 - 2").unwrap();
    assert_eq!(result, vint(5));
}

#[test]
fn test_complex_arithmetic() {
    let result = eval_null("(2 + 3) * (4 - 1)").unwrap();
    assert_eq!(result, vint(15));
}

#[test]
fn test_arithmetic_with_fields() {
    let doc = Value::Obj(vec![
        (vstr("a"), vint(5)),
        (vstr("b"), vint(3)),
    ]);
    let result = parse_and_eval(".a + .b", Some(doc)).unwrap();
    assert_eq!(result, vint(8));
}

#[test]
fn test_precedence_paren_first() {
    let result = eval_null("(1 + 2) * 3").unwrap();
    assert_eq!(result, vint(9));
}

#[test]
fn test_precedence_one_plus_product() {
    let result = eval_null("1 + 2 * 3").unwrap();
    assert_eq!(result, vint(7));
}

#[test]
fn test_division_by_decimal_zero() {
    let result = eval_null("10 / 0.0");
    assert!(result.is_err());
    assert!(result.unwrap_err().message().contains("Division by zero"));
}

#[test]
fn test_modulo_by_decimal_zero() {
    let result = eval_null("10 % 0.0");
    assert!(result.is_err());
    assert!(result.unwrap_err().message().contains("Modulo by zero"));
}

#[test]
fn test_mixed_int_and_decimal_addition() {
    let result = eval_null("1 + 2.5").unwrap();
    assert_eq!(result, vdec(35, 1));
}

#[test]
fn test_decimal_modulo() {
    let result = eval_null("10.5 % 3").unwrap();
    assert_eq!(result, vdec(15, 1));
}

#[test]
fn test_integer_sum_is_exact_integer() {
    // the sum of two integers is an exact integer, not a decimal
    let result = eval_null("2 + 3").unwrap();
    assert_eq!(result, vint(5));
    assert_ne!(result, vdec(5, 0));
}

#[test]
fn test_integer_addition_overflow_reported() {
    let result = eval_null("9223372036854775807 + 1");
    assert!(result.is_err());
    assert!(result.unwrap_err().message().contains("overflow"));
}
