//! Whole-query tests: each one runs a complete expression against a
//! small project document and checks the rendered result, the way the
//! command-line tool uses the library.

use rq::canon::value_to_string;
use rq::errors::EvalError;
use rq::evaluator::Evaluator;
use rq::num::Number;
use rq::parser::ExpressionParser;
use rq::value::Value;

fn vint(i: i64) -> Value {
    Value::Num(Number::Int(i))
}

fn vstr(s: &str) -> Value {
    Value::Str(s.to_string())
}

/// The sample project document the whole-query tests walk.
fn sample() -> Value {
    Value::Obj(vec![
        (vstr("name"), vstr("test-project")),
        (vstr("count"), vint(42)),
        (vstr("active"), Value::Bool(true)),
        (vstr("empty"), Value::Null),
        (
            vstr("author"),
            Value::Obj(vec![(vstr("name"), vstr("Alice")), (vstr("email"), vstr("a@b.c"))]),
        ),
        (
            vstr("nested"),
            Value::Obj(vec![
                (vstr("deep"), Value::Obj(vec![(vstr("value"), vstr("found"))])),
            ]),
        ),
        (
            vstr("tags"),
            Value::Arr(vec![vstr("one"), vstr("two"), vstr("three")]),
        ),
        (
            vstr("numbers"),
            Value::Arr(vec![vint(1), vint(2), vint(3), vint(4), vint(5)]),
        ),
        (
            vstr("users"),
            Value::Arr(vec![
                Value::Obj(vec![(vstr("name"), vstr("Alice")), (vstr("age"), vint(30))]),
                Value::Obj(vec![(vstr("name"), vstr("Bob")), (vstr("age"), vint(25))]),
            ]),
        ),
        (
            vstr("dependencies"),
            Value::Obj(vec![(vstr("foo"), vstr("1.0")), (vstr("bar"), vstr("2.0"))]),
        ),
    ])
}

fn run(expr_str: &str, input: Option<Value>) -> Result<Value, EvalError> {
    let parser = ExpressionParser::new();
    let evaluator = Evaluator::new();
    let expr = parser.parse(expr_str).expect("expression should parse");
    evaluator.evaluate(&expr, input.as_ref())
}

fn render(expr_str: &str, input: Option<Value>) -> String {
    value_to_string(&run(expr_str, input).expect("evaluation should succeed"))
}

#[test]
fn test_nested_field_access() {
    assert_eq!(render(".author.name", Some(sample())), "Alice");
}

#[test]
fn test_deep_nested_field_access() {
    assert_eq!(render(".nested.deep.value", Some(sample())), "found");
}

#[test]
fn test_array_index() {
    assert_eq!(render(".tags | .[0]", Some(sample())), "one");
}

#[test]
fn test_array_last_index() {
    assert_eq!(render(".tags | .[-1]", Some(sample())), "three");
}

#[test]
fn test_array_length() {
    assert_eq!(render(".tags | length", Some(sample())), "3");
}

#[test]
fn test_array_slice() {
    let result = run(".numbers | .[1:3]", Some(sample())).unwrap();
    assert_eq!(result, Value::Arr(vec![vint(2), vint(3)]));
}

#[test]
fn test_pipe_field_access() {
    assert_eq!(render(".users | .[0].name", Some(sample())), "Alice");
}

#[test]
fn test_pipe_keys() {
    let result = run(".dependencies | keys", Some(sample())).unwrap();
    assert_eq!(result, Value::Arr(vec![vstr("foo"), vstr("bar")]));
}

#[test]
fn test_select_filter() {
    let parser = ExpressionParser::new();
    let evaluator = Evaluator::new();
    let expr = parser.parse(".users[]").unwrap();
    let ctx = rq::evaluator::Context::new(sample());
    let results = evaluator.eval_multi(&expr, &ctx).unwrap();
    assert_eq!(results.len(), 2);
}

#[test]
fn test_number_field() {
    assert_eq!(render(".count", Some(sample())), "42");
}

#[test]
fn test_boolean_field() {
    assert_eq!(render(".active", Some(sample())), "true");
}

#[test]
fn test_null_field() {
    assert_eq!(render(".empty", Some(sample())), "null");
}

#[test]
fn test_assignment() {
    let result = run(".count = 100", Some(sample())).unwrap();
    match result {
        Value::Obj(fields) => assert_eq!(fields[1], (vstr("count"), vint(100))),
        _ => panic!("expected the whole object back"),
    }
}

#[test]
fn test_arithmetic_add() {
    assert_eq!(render("10 + 5", None), "15");
}

#[test]
fn test_arithmetic_multiply() {
    assert_eq!(render("3 * 7", None), "21");
}

#[test]
fn test_arithmetic_precedence() {
    assert_eq!(render("2 + 3 * 4", None), "14");
}

#[test]
fn test_comparison_greater() {
    assert_eq!(render("10 > 5", None), "true");
}

#[test]
fn test_comparison_equal() {
    assert_eq!(render("5 == 5", None), "true");
}

#[test]
fn test_comparison_not_equal() {
    assert_eq!(render("5 != 3", None), "true");
}

#[test]
fn integration_test_test_length_string() {
    assert_eq!(render("\"hello\" | length", None), "5");
}

#[test]
fn integration_test_test_length_array() {
    assert_eq!(render("[1, 2, 3] | length", None), "3");
}

#[test]
fn test_sort() {
    let result = run("[3, 1, 2] | sort", None).unwrap();
    assert_eq!(result, Value::Arr(vec![vint(1), vint(2), vint(3)]));
}

#[test]
fn test_reverse() {
    let result = run("[1, 2, 3] | reverse", None).unwrap();
    assert_eq!(result, Value::Arr(vec![vint(3), vint(2), vint(1)]));
}

#[test]
fn test_unique() {
    let result = run("[1, 2, 2, 3, 3, 3] | unique", None).unwrap();
    assert_eq!(result, Value::Arr(vec![vint(1), vint(2), vint(3)]));
}

#[test]
fn test_flatten() {
    let result = run("[[1, 2], [3, 4]] | flatten", None).unwrap();
    assert_eq!(result, Value::Arr(vec![vint(1), vint(2), vint(3), vint(4)]));
}

#[test]
fn test_type_function() {
    assert_eq!(render("\"hello\" | type", None), "string");
}

#[test]
fn test_alternative() {
    assert_eq!(render("null // \"default\"", None), "default");
}

#[test]
fn test_items_and_names_stream() {
    // `.items[] | .name` yields the names in order
    let doc = Value::Obj(vec![
        (
            vstr("items"),
            Value::Arr(vec![
                Value::Obj(vec![(vstr("name"), vstr("foo"))]),
                Value::Obj(vec![(vstr("name"), vstr("bar"))]),
            ]),
        ),
    ]);
    let parser = ExpressionParser::new();
    let evaluator = Evaluator::new();
    let expr = parser.parse(".items[] | .name").unwrap();
    let ctx = rq::evaluator::Context::new(doc);
    let results = evaluator.eval_multi(&expr, &ctx).unwrap();
    assert_eq!(results, vec![vstr("foo"), vstr("bar")]);
}
