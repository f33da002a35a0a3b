//! Field access, index access and slice tests, with the error messages
//! each failure names.

use rq::errors::EvalError;
use rq::evaluator::Evaluator;
use rq::num::Number;
use rq::parser::ExpressionParser;
use rq::value::Value;

fn vint(i: i64) -> Value {
    Value::Num(Number::Int(i))
}

fn vstr(s: &str) -> Value {
    Value::Str(s.to_string())
}

fn parse_and_eval(expr_str: &str, input: Option<Value>) -> Result<Value, EvalError> {
    let parser = ExpressionParser::new();
    let evaluator = Evaluator::new();
    let expr = parser.parse(expr_str).expect("expression should parse");
    evaluator.evaluate(&expr, input.as_ref())
}

fn abc() -> Value {
    Value::Arr(vec![vstr("a"), vstr("b"), vstr("c")])
}

#[test]
fn test_field_access_simple() {
    let doc = Value::Obj(vec![(vstr("name"), vstr("test"))]);
    assert_eq!(parse_and_eval(".name", Some(doc)).unwrap(), vstr("test"));
}

#[test]
fn test_field_access_nested() {
    let doc = Value::Obj(vec![
        (vstr("user"), Value::Obj(vec![(vstr("name"), vstr("alice"))])),
    ]);
    assert_eq!(parse_and_eval(".user.name", Some(doc)).unwrap(), vstr("alice"));
}

#[test]
fn test_field_access_missing() {
    let doc = Value::Obj(vec![(vstr("name"), vstr("test"))]);
    let result = parse_and_eval(".missing", Some(doc));
    assert!(result.is_err());
    assert!(result.unwrap_err().message().contains("Field 'missing' not found"));
}

#[test]
fn test_field_access_on_non_object() {
    let doc = Value::Arr(vec![vint(1), vint(2), vint(3)]);
    let result = parse_and_eval(".name", Some(doc));
    assert!(result.is_err());
    assert!(result.unwrap_err().message().contains("Cannot access field"));
}

#[test]
fn test_field_access_on_string() {
    let result = parse_and_eval(".name", Some(vstr("hello")));
    assert!(result.is_err());
}

#[test]
fn test_field_access_number() {
    let doc = Value::Obj(vec![(vstr("count"), vint(42))]);
    assert_eq!(parse_and_eval(".count", Some(doc)).unwrap(), vint(42));
}

#[test]
fn test_field_access_boolean() {
    let doc = Value::Obj(vec![(vstr("active"), Value::Bool(true))]);
    assert_eq!(parse_and_eval(".active", Some(doc)).unwrap(), Value::Bool(true));
}

#[test]
fn test_field_access_null() {
    let doc = Value::Obj(vec![(vstr("value"), Value::Null)]);
    assert_eq!(parse_and_eval(".value", Some(doc)).unwrap(), Value::Null);
}

#[test]
fn test_field_access_deeply_nested() {
    let doc = Value::Obj(vec![
        (
            vstr("a"),
            Value::Obj(vec![
                (
                    vstr("b"),
                    Value::Obj(vec![
                        (vstr("c"), Value::Obj(vec![(vstr("d"), vstr("deep"))])),
                    ]),
                ),
            ]),
        ),
    ]);
    assert_eq!(parse_and_eval(".a.b.c.d", Some(doc)).unwrap(), vstr("deep"));
}

#[test]
fn test_field_access_with_hyphens() {
    let doc = Value::Obj(vec![(vstr("my-field"), vstr("value"))]);
    assert_eq!(parse_and_eval(".my-field", Some(doc)).unwrap(), vstr("value"));
}

#[test]
fn test_field_access_with_underscores() {
    let doc = Value::Obj(vec![(vstr("my_field"), vstr("value"))]);
    assert_eq!(parse_and_eval(".my_field", Some(doc)).unwrap(), vstr("value"));
}

#[test]
fn test_index_access_first() {
    assert_eq!(parse_and_eval(".[0]", Some(abc())).unwrap(), vstr("a"));
}

#[test]
fn test_index_access_last() {
    assert_eq!(parse_and_eval(".[2]", Some(abc())).unwrap(), vstr("c"));
}

#[test]
fn test_index_access_negative() {
    assert_eq!(parse_and_eval(".[-1]", Some(abc())).unwrap(), vstr("c"));
}

#[test]
fn test_index_access_negative_first() {
    assert_eq!(parse_and_eval(".[-3]", Some(abc())).unwrap(), vstr("a"));
}

#[test]
fn test_index_access_out_of_bounds() {
    let result = parse_and_eval(".[5]", Some(abc()));
    assert!(result.is_err());
    assert!(result.unwrap_err().message().contains("out of bounds"));
}

#[test]
fn test_index_access_negative_out_of_bounds() {
    let result = parse_and_eval(".[-5]", Some(abc()));
    assert!(result.is_err());
}

#[test]
fn test_index_access_on_non_array() {
    let result = parse_and_eval(".[0]", Some(vstr("hello")));
    assert!(result.is_err());
    assert!(result.unwrap_err().message().contains("Cannot index"));
}

#[test]
fn test_index_access_on_object() {
    let doc = Value::Obj(vec![(vstr("name"), vstr("test"))]);
    let result = parse_and_eval(".[0]", Some(doc));
    assert!(result.is_err());
}

#[test]
fn test_index_access_empty_array() {
    let result = parse_and_eval(".[0]", Some(Value::Arr(vec![])));
    assert!(result.is_err());
}

#[test]
fn test_index_access_nested_array() {
    let doc = Value::Arr(vec![
        Value::Arr(vec![vint(1), vint(2)]),
        Value::Arr(vec![vint(3), vint(4)]),
    ]);
    assert_eq!(parse_and_eval(".[0][1]", Some(doc)).unwrap(), vint(2));
}

#[test]
fn test_index_access_after_field() {
    let doc = Value::Obj(vec![
        (vstr("items"), Value::Arr(vec![vstr("first"), vstr("second")])),
    ]);
    assert_eq!(parse_and_eval(".items[0]", Some(doc)).unwrap(), vstr("first"));
}

#[test]
fn test_slice_middle() {
    let doc = Value::Arr(vec![vint(1), vint(2), vint(3), vint(4)]);
    assert_eq!(
        parse_and_eval(".[1:3]", Some(doc)).unwrap(),
        Value::Arr(vec![vint(2), vint(3)])
    );
}

#[test]
fn test_slice_negative_endpoints() {
    let doc = Value::Arr(vec![vint(1), vint(2), vint(3), vint(4)]);
    assert_eq!(
        parse_and_eval(".[-3:-1]", Some(doc)).unwrap(),
        Value::Arr(vec![vint(2), vint(3)])
    );
}

#[test]
fn test_slice_open_ends() {
    let doc = Value::Arr(vec![vint(1), vint(2), vint(3)]);
    assert_eq!(
        parse_and_eval(".[:2]", Some(doc)).unwrap(),
        Value::Arr(vec![vint(1), vint(2)])
    );
    let doc2 = Value::Arr(vec![vint(1), vint(2), vint(3)]);
    assert_eq!(
        parse_and_eval(".[1:]", Some(doc2)).unwrap(),
        Value::Arr(vec![vint(2), vint(3)])
    );
}

#[test]
fn test_slice_empty_when_reversed() {
    let doc = Value::Arr(vec![vint(1), vint(2), vint(3)]);
    assert_eq!(parse_and_eval(".[2:1]", Some(doc)).unwrap(), Value::Arr(vec![]));
}

#[test]
fn test_slice_of_string_characters() {
    assert_eq!(parse_and_eval(".[1:3]", Some(vstr("hello"))).unwrap(), vstr("el"));
}

#[test]
fn test_slice_length_rule() {
    // the slice length is max(0, min(b, n) - max(a, 0)) after
    // normalizing negative endpoints against the length
    let doc = Value::Arr(vec![vint(1), vint(2), vint(3), vint(4), vint(5)]);
    let out = parse_and_eval(".[1:9]", Some(doc)).unwrap();
    match out {
        Value::Arr(vs) => assert_eq!(vs.len(), 4),
        _ => panic!("expected an array"),
    }
}

#[test]
fn test_quoted_key_field_access() {
    let doc = Value::Obj(vec![(vstr("odd key"), vint(7))]);
    assert_eq!(parse_and_eval(".[\"odd key\"]", Some(doc)).unwrap(), vint(7));
}
