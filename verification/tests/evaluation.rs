//! Evaluator tests: identity, navigation, iteration, piping, selection
//! and the whole-query scenarios the language is meant for.

use rq::errors::EvalError;
use rq::evaluator::{Context, Evaluator};
use rq::num::Number;
use rq::parser::ExpressionParser;
use rq::value::{dup, Value};
use rq::canon::value_to_string;
use rq::ast::Expression;

fn vint(i: i64) -> Value {
    Value::Num(Number::Int(i))
}

fn vstr(s: &str) -> Value {
    Value::Str(s.to_string())
}

fn parse_and_eval(expr_str: &str, input: Option<Value>) -> Result<Value, EvalError> {
    let parser = ExpressionParser::new();
    let evaluator = Evaluator::new();
    let expr = parser.parse(expr_str).expect("expression should parse");
    evaluator.evaluate(&expr, input.as_ref())
}

fn eval_multi(expr_str: &str, input: Value) -> Vec<Value> {
    let parser = ExpressionParser::new();
    let evaluator = Evaluator::new();
    let expr = parser.parse(expr_str).expect("expression should parse");
    let ctx = Context::new(input);
    evaluator.eval_multi(&expr, &ctx).expect("evaluation should succeed")
}

#[test]
fn test_eval_identity() {
    let input = Value::Obj(vec![(vstr("name"), vstr("test"))]);
    let result = parse_and_eval(".", Some(dup(&input))).unwrap();
    assert_eq!(result, input);
}

#[test]
fn test_eval_field_access() {
    let input = Value::Obj(vec![(vstr("name"), vstr("test")), (vstr("value"), vint(42))]);
    let result = parse_and_eval(".name", Some(input)).unwrap();
    assert_eq!(result, vstr("test"));
}

#[test]
fn test_eval_nested_field() {
    let input = Value::Obj(vec![
        (
            vstr("user"),
            Value::Obj(vec![(vstr("name"), vstr("alice")), (vstr("age"), vint(30))]),
        ),
    ]);
    let result = parse_and_eval(".user.name", Some(input)).unwrap();
    assert_eq!(result, vstr("alice"));
}

#[test]
fn test_eval_array_index() {
    let input = Value::Arr(vec![vstr("a"), vstr("b"), vstr("c")]);
    let result = parse_and_eval(".[1]", Some(input)).unwrap();
    assert_eq!(result, vstr("b"));
}

#[test]
fn test_eval_iterator() {
    let input = Value::Arr(vec![vint(1), vint(2), vint(3)]);
    let results = eval_multi(".[]", input);
    assert_eq!(results.len(), 3);
    assert_eq!(results[0], vint(1));
    assert_eq!(results[1], vint(2));
    assert_eq!(results[2], vint(3));
}

#[test]
fn test_eval_pipe() {
    let input = Value::Obj(vec![
        (
            vstr("items"),
            Value::Arr(vec![
                Value::Obj(vec![(vstr("name"), vstr("foo")), (vstr("value"), vint(1))]),
                Value::Obj(vec![(vstr("name"), vstr("bar")), (vstr("value"), vint(2))]),
            ]),
        ),
    ]);
    let results = eval_multi(".items[] | .name", input);
    assert_eq!(results.len(), 2);
    assert_eq!(results[0], vstr("foo"));
    assert_eq!(results[1], vstr("bar"));
}

#[test]
fn test_eval_select() {
    let input = Value::Arr(vec![
        Value::Obj(vec![(vstr("name"), vstr("alice")), (vstr("active"), Value::Bool(true))]),
        Value::Obj(vec![(vstr("name"), vstr("bob"))]),
        Value::Obj(vec![
            (vstr("name"), vstr("charlie")),
            (vstr("active"), Value::Bool(true)),
        ]),
    ]);
    // an item without the field fails the condition and is dropped by
    // the pipe's per-item fallback
    let results = eval_multi(".[] | select(.active)", input);
    assert_eq!(results.len(), 2);
    match &results[0] {
        Value::Obj(fields) => assert_eq!(fields[0], (vstr("name"), vstr("alice"))),
        _ => panic!("expected an object"),
    }
    match &results[1] {
        Value::Obj(fields) => assert_eq!(fields[0], (vstr("name"), vstr("charlie"))),
        _ => panic!("expected an object"),
    }
}

#[test]
fn test_eval_arithmetic() {
    let result = parse_and_eval("1 + 2 * 3", None).unwrap();
    assert_eq!(result, vint(7));
}

#[test]
fn test_eval_comparison() {
    let result = parse_and_eval("5 > 3", None).unwrap();
    assert_eq!(result, Value::Bool(true));
}

#[test]
fn test_eval_keys() {
    let input = Value::Obj(vec![
        (vstr("a"), vint(1)),
        (vstr("b"), vint(2)),
        (vstr("c"), vint(3)),
    ]);
    let result = parse_and_eval("keys", Some(input)).unwrap();
    assert_eq!(result, Value::Arr(vec![vstr("a"), vstr("b"), vstr("c")]));
}

#[test]
fn test_eval_length() {
    let input = Value::Arr(vec![vint(1), vint(2), vint(3), vint(4), vint(5)]);
    let result = parse_and_eval("length", Some(input)).unwrap();
    assert_eq!(result, vint(5));
}

#[test]
fn test_pipe_concatenates_streams_in_order() {
    // each left value fans out again on the right, and the streams are
    // concatenated left to right
    let input = Value::Arr(vec![
        Value::Arr(vec![vint(1), vint(2)]),
        Value::Arr(vec![vint(3)]),
    ]);
    let results = eval_multi(".[] | .[]", input);
    assert_eq!(results, vec![vint(1), vint(2), vint(3)]);
}

#[test]
fn test_iterator_over_object_yields_values() {
    let input = Value::Obj(vec![(vstr("a"), vint(1)), (vstr("b"), vint(2))]);
    let results = eval_multi(".[]", input);
    assert_eq!(results, vec![vint(1), vint(2)]);
}

#[test]
fn test_iterator_over_scalar_yields_nothing() {
    let results = eval_multi(".[]", vint(5));
    assert_eq!(results.len(), 0);
}

#[test]
fn test_empty_expression_is_null() {
    let result = parse_and_eval("", Some(vint(5))).unwrap();
    assert_eq!(result, Value::Null);
}

#[test]
fn test_comma_builds_array() {
    let result = parse_and_eval("1, 2, 3", None).unwrap();
    assert_eq!(result, Value::Arr(vec![vint(1), vint(2), vint(3)]));
}

#[test]
fn test_object_constructor_evaluates_entries() {
    let input = Value::Obj(vec![(vstr("n"), vint(7))]);
    let result = parse_and_eval("{\"m\": .n}", Some(input)).unwrap();
    assert_eq!(result, Value::Obj(vec![(vstr("m"), vint(7))]));
}

#[test]
fn test_object_constructor_last_key_wins() {
    let result = parse_and_eval("{\"k\": 1, \"k\": 2}", None).unwrap();
    assert_eq!(result, Value::Obj(vec![(vstr("k"), vint(2))]));
}

#[test]
fn test_rendering_of_results() {
    assert_eq!(value_to_string(&parse_and_eval("10 + 5", None).unwrap()), "15");
    assert_eq!(value_to_string(&parse_and_eval("10 / 4", None).unwrap()), "2.5");
    assert_eq!(value_to_string(&parse_and_eval("10 / 2", None).unwrap()), "5.0");
    assert_eq!(value_to_string(&parse_and_eval("5 > 3", None).unwrap()), "true");
}

#[test]
fn test_unsupported_node_reports_unsupported() {
    let evaluator = Evaluator::new();
    let node = Expression::Floor { target: Box::new(Expression::Identity) };
    let result = evaluator.evaluate(&node, Some(&vint(1)));
    assert!(result.is_err());
    assert!(result.unwrap_err().message().contains("Unsupported expression"));
}
