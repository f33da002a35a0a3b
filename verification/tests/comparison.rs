//! Comparison operator tests: the ordering rule over like-typed
//! scalars, and the undefined order of everything else.

use rq::errors::EvalError;
use rq::evaluator::Evaluator;
use rq::num::Number;
use rq::parser::ExpressionParser;
use rq::value::Value;

fn vint(i: i64) -> Value {
    Value::Num(Number::Int(i))
}

fn vstr(s: &str) -> Value {
    Value::Str(s.to_string())
}

fn vbool(b: bool) -> Value {
    Value::Bool(b)
}

fn parse_and_eval(expr_str: &str, input: Option<Value>) -> Result<Value, EvalError> {
    let parser = ExpressionParser::new();
    let evaluator = Evaluator::new();
    let expr = parser.parse(expr_str).expect("expression should parse");
    evaluator.evaluate(&expr, input.as_ref())
}

fn eval_null(expr_str: &str) -> Result<Value, EvalError> {
    parse_and_eval(expr_str, Some(Value::Null))
}

#[test]
fn test_equal_integers() {
    assert_eq!(eval_null("5 == 5").unwrap(), vbool(true));
}

#[test]
fn test_not_equal_integers() {
    assert_eq!(eval_null("5 == 3").unwrap(), vbool(false));
}

#[test]
fn test_equal_strings() {
    assert_eq!(eval_null("\"hello\" == \"hello\"").unwrap(), vbool(true));
}

#[test]
fn test_not_equal_strings() {
    assert_eq!(eval_null("\"hello\" == \"world\"").unwrap(), vbool(false));
}

#[test]
fn test_equal_booleans() {
    assert_eq!(eval_null("true == true").unwrap(), vbool(true));
}

#[test]
fn test_equal_null() {
    assert_eq!(eval_null("null == null").unwrap(), vbool(true));
}

#[test]
fn test_equal_different_types() {
    assert_eq!(eval_null("5 == \"5\"").unwrap(), vbool(false));
}

#[test]
fn test_not_equal_operator() {
    assert_eq!(eval_null("5 != 3").unwrap(), vbool(true));
}

#[test]
fn test_not_equal_same() {
    assert_eq!(eval_null("5 != 5").unwrap(), vbool(false));
}

#[test]
fn test_less_than_true() {
    assert_eq!(eval_null("3 < 5").unwrap(), vbool(true));
}

#[test]
fn test_less_than_false() {
    assert_eq!(eval_null("5 < 3").unwrap(), vbool(false));
}

#[test]
fn test_less_than_equal() {
    assert_eq!(eval_null("5 < 5").unwrap(), vbool(false));
}

#[test]
fn test_less_than_or_equal_true() {
    assert_eq!(eval_null("3 <= 5").unwrap(), vbool(true));
}

#[test]
fn test_less_than_or_equal_equal() {
    assert_eq!(eval_null("5 <= 5").unwrap(), vbool(true));
}

#[test]
fn test_less_than_or_equal_false() {
    assert_eq!(eval_null("5 <= 3").unwrap(), vbool(false));
}

#[test]
fn test_greater_than_true() {
    assert_eq!(eval_null("5 > 3").unwrap(), vbool(true));
}

#[test]
fn test_greater_than_false() {
    assert_eq!(eval_null("3 > 5").unwrap(), vbool(false));
}

#[test]
fn test_greater_than_or_equal_true() {
    assert_eq!(eval_null("5 >= 3").unwrap(), vbool(true));
}

#[test]
fn test_greater_than_or_equal_equal() {
    assert_eq!(eval_null("5 >= 5").unwrap(), vbool(true));
}

#[test]
fn test_equal_floats() {
    assert_eq!(eval_null("3.14 == 3.14").unwrap(), vbool(true));
}

#[test]
fn test_less_than_floats() {
    assert_eq!(eval_null("3.14 < 3.15").unwrap(), vbool(true));
}

#[test]
fn test_less_than_strings() {
    assert_eq!(eval_null("\"apple\" < \"banana\"").unwrap(), vbool(true));
}

#[test]
fn test_comparison_with_fields() {
    let doc = Value::Obj(vec![(vstr("value"), vint(15))]);
    assert_eq!(parse_and_eval(".value > 10", Some(doc)).unwrap(), vbool(true));
}

#[test]
fn test_comparison_with_fields_false() {
    let doc = Value::Obj(vec![(vstr("value"), vint(5))]);
    assert_eq!(parse_and_eval(".value > 10", Some(doc)).unwrap(), vbool(false));
}

#[test]
fn test_chained_comparison() {
    assert_eq!(eval_null("5 > 3 and 3 > 1").unwrap(), vbool(true));
}

#[test]
fn test_compare_arrays() {
    // arrays have no defined order, so equality is false
    assert_eq!(eval_null("[1, 2] == [1, 2]").unwrap(), vbool(false));
}

#[test]
fn test_cross_numeric_forms_compare() {
    assert_eq!(eval_null("1 < 1.5").unwrap(), vbool(true));
    assert_eq!(eval_null("2 >= 1.5").unwrap(), vbool(true));
}

#[test]
fn test_unordered_relational_is_false() {
    assert_eq!(eval_null("\"a\" < 1").unwrap(), vbool(false));
    assert_eq!(eval_null("\"a\" > 1").unwrap(), vbool(false));
    assert_eq!(eval_null("\"a\" != 1").unwrap(), vbool(true));
}

#[test]
fn test_alternative_of_null() {
    assert_eq!(eval_null("null // \"default\"").unwrap(), vstr("default"));
}

#[test]
fn test_alternative_of_false() {
    assert_eq!(eval_null("false // 7").unwrap(), vint(7));
}

#[test]
fn test_alternative_of_error() {
    let doc = Value::Obj(vec![(vstr("a"), vint(1))]);
    assert_eq!(parse_and_eval(".missing // 9", Some(doc)).unwrap(), vint(9));
}

#[test]
fn test_alternative_keeps_truthy_left() {
    assert_eq!(eval_null("3 // 9").unwrap(), vint(3));
}

#[test]
fn test_and_returns_left_when_falsy() {
    assert_eq!(eval_null("0 and 5").unwrap(), vint(0));
}

#[test]
fn test_or_returns_left_when_truthy() {
    assert_eq!(eval_null("3 || 5").unwrap(), vint(3));
}

#[test]
fn test_not_negates_truthiness() {
    assert_eq!(eval_null("!0").unwrap(), vbool(true));
    assert_eq!(eval_null("!3").unwrap(), vbool(false));
}
