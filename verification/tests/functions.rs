//! Built-in function tests: keys, length, sort, reverse, unique,
//! flatten, first and last, add, has, type, tostring, tonumber, env,
//! map, filter, group_by, select, assignment and recursion.

use rq::errors::EvalError;
use rq::evaluator::{Context, Evaluator};
use rq::num::{dec_from_parts, Number};
use rq::ast::Expression;
use rq::parser::ExpressionParser;
use rq::value::{dup, Value};

fn vint(i: i64) -> Value {
    Value::Num(Number::Int(i))
}

fn vdec(m: i64, e: u32) -> Value {
    Value::Num(dec_from_parts(m, e).unwrap())
}

fn vstr(s: &str) -> Value {
    Value::Str(s.to_string())
}

fn parse_and_eval(expr_str: &str, input: Option<Value>) -> Result<Value, EvalError> {
    let parser = ExpressionParser::new();
    let evaluator = Evaluator::new();
    let expr = parser.parse(expr_str).expect("expression should parse");
    evaluator.evaluate(&expr, input.as_ref())
}

fn eval_node(expr: Expression, input: Value) -> Result<Value, EvalError> {
    let evaluator = Evaluator::new();
    evaluator.evaluate(&expr, Some(&input))
}

fn tostring_node() -> Expression {
    Expression::ToString { target: Box::new(Expression::Identity) }
}

fn tonumber_node() -> Expression {
    Expression::ToNumber { target: Box::new(Expression::Identity) }
}

fn abc_obj() -> Value {
    Value::Obj(vec![
        (vstr("a"), vint(1)),
        (vstr("b"), vint(2)),
        (vstr("c"), vint(3)),
    ])
}

#[test]
fn test_keys_object() {
    let result = parse_and_eval("keys", Some(abc_obj())).unwrap();
    assert_eq!(result, Value::Arr(vec![vstr("a"), vstr("b"), vstr("c")]));
}

#[test]
fn test_keys_array() {
    let doc = Value::Arr(vec![vstr("a"), vstr("b"), vstr("c")]);
    let result = parse_and_eval("keys", Some(doc)).unwrap();
    assert_eq!(result, Value::Arr(vec![vint(0), vint(1), vint(2)]));
}

#[test]
fn test_keys_empty_object() {
    let result = parse_and_eval("keys", Some(Value::Obj(vec![]))).unwrap();
    assert_eq!(result, Value::Arr(vec![]));
}

#[test]
fn test_keys_empty_array() {
    let result = parse_and_eval("keys", Some(Value::Arr(vec![]))).unwrap();
    assert_eq!(result, Value::Arr(vec![]));
}

#[test]
fn test_keys_on_string() {
    assert!(parse_and_eval("keys", Some(vstr("hello"))).is_err());
}

#[test]
fn test_keys_on_number() {
    assert!(parse_and_eval("keys", Some(vint(42))).is_err());
}

#[test]
fn test_keys_nested() {
    let doc = Value::Obj(vec![
        (
            vstr("data"),
            Value::Obj(vec![(vstr("x"), vint(1)), (vstr("y"), vint(2))]),
        ),
    ]);
    let result = parse_and_eval(".data | keys", Some(doc)).unwrap();
    assert_eq!(result, Value::Arr(vec![vstr("x"), vstr("y")]));
}

#[test]
fn length_test_length_string() {
    assert_eq!(parse_and_eval("length", Some(vstr("hello"))).unwrap(), vint(5));
}

#[test]
fn length_test_length_array() {
    let doc = Value::Arr(vec![vint(1), vint(2), vint(3), vint(4), vint(5)]);
    assert_eq!(parse_and_eval("length", Some(doc)).unwrap(), vint(5));
}

#[test]
fn test_length_object() {
    assert_eq!(parse_and_eval("length", Some(abc_obj())).unwrap(), vint(3));
}

#[test]
fn test_length_empty_string() {
    assert_eq!(parse_and_eval("length", Some(vstr(""))).unwrap(), vint(0));
}

#[test]
fn test_length_empty_array() {
    assert_eq!(parse_and_eval("length", Some(Value::Arr(vec![]))).unwrap(), vint(0));
}

#[test]
fn test_length_empty_object() {
    assert_eq!(parse_and_eval("length", Some(Value::Obj(vec![]))).unwrap(), vint(0));
}

#[test]
fn test_length_nested_array() {
    let doc = Value::Obj(vec![
        (vstr("items"), Value::Arr(vec![vstr("a"), vstr("b"), vstr("c")])),
    ]);
    assert_eq!(parse_and_eval(".items | length", Some(doc)).unwrap(), vint(3));
}

#[test]
fn test_length_on_null() {
    assert!(parse_and_eval("length", Some(Value::Null)).is_err());
}

#[test]
fn test_length_on_boolean() {
    assert!(parse_and_eval("length", Some(Value::Bool(true))).is_err());
}

#[test]
fn test_length_unicode_string() {
    // length reports the UTF-8 byte count, not the character count
    assert_eq!(parse_and_eval("length", Some(vstr("héllo"))).unwrap(), vint(6));
}

#[test]
fn test_sort_numbers() {
    let doc = Value::Arr(vec![vint(3), vint(1), vint(2)]);
    let result = parse_and_eval("sort", Some(doc)).unwrap();
    assert_eq!(result, Value::Arr(vec![vint(1), vint(2), vint(3)]));
}

#[test]
fn test_sort_strings() {
    let doc = Value::Arr(vec![vstr("pear"), vstr("apple"), vstr("fig")]);
    let result = parse_and_eval("sort", Some(doc)).unwrap();
    assert_eq!(result, Value::Arr(vec![vstr("apple"), vstr("fig"), vstr("pear")]));
}

#[test]
fn test_sort_is_idempotent() {
    let doc = Value::Arr(vec![vint(3), vint(1), vint(2), vint(1)]);
    let once = parse_and_eval("sort", Some(doc)).unwrap();
    let twice = parse_and_eval("sort", Some(dup(&once))).unwrap();
    assert_eq!(once, twice);
}

#[test]
fn test_sort_non_array_errors() {
    let result = parse_and_eval("sort", Some(vstr("x")));
    assert!(result.is_err());
    assert!(result.unwrap_err().message().contains("Cannot sort"));
}

#[test]
fn test_reverse_array() {
    let doc = Value::Arr(vec![vint(1), vint(2), vint(3)]);
    let result = parse_and_eval("reverse", Some(doc)).unwrap();
    assert_eq!(result, Value::Arr(vec![vint(3), vint(2), vint(1)]));
}

#[test]
fn test_reverse_string() {
    assert_eq!(parse_and_eval("reverse", Some(vstr("abc"))).unwrap(), vstr("cba"));
}

#[test]
fn test_reverse_twice_restores() {
    let doc = Value::Arr(vec![vint(1), vint(2), vint(3)]);
    let result = parse_and_eval("reverse | reverse", Some(dup(&doc))).unwrap();
    assert_eq!(result, doc);
}

#[test]
fn test_reverse_non_sequence_errors() {
    let result = parse_and_eval("reverse", Some(vint(1)));
    assert!(result.is_err());
    assert!(result.unwrap_err().message().contains("Cannot reverse"));
}

#[test]
fn test_unique_keeps_first_occurrences() {
    let doc = Value::Arr(vec![vint(1), vint(2), vint(2), vint(3), vint(3), vint(3)]);
    let result = parse_and_eval("unique", Some(doc)).unwrap();
    assert_eq!(result, Value::Arr(vec![vint(1), vint(2), vint(3)]));
}

#[test]
fn test_unique_is_idempotent() {
    let doc = Value::Arr(vec![vint(2), vint(1), vint(2), vint(1)]);
    let once = parse_and_eval("unique", Some(doc)).unwrap();
    let twice = parse_and_eval("unique", Some(dup(&once))).unwrap();
    assert_eq!(once, twice);
}

#[test]
fn test_unique_tells_int_from_decimal() {
    // an exact integer and a decimal render differently, so both stay
    let doc = Value::Arr(vec![vint(1), vdec(1, 0)]);
    let result = parse_and_eval("unique", Some(doc)).unwrap();
    assert_eq!(result, Value::Arr(vec![vint(1), vdec(1, 0)]));
}

#[test]
fn test_unique_non_array_errors() {
    let result = parse_and_eval("unique", Some(vstr("x")));
    assert!(result.is_err());
    assert!(result.unwrap_err().message().contains("Cannot get unique"));
}

#[test]
fn test_flatten_one_level() {
    let doc = Value::Arr(vec![
        Value::Arr(vec![vint(1), vint(2)]),
        Value::Arr(vec![vint(3), vint(4)]),
        vint(5),
    ]);
    let result = parse_and_eval("flatten", Some(doc)).unwrap();
    assert_eq!(
        result,
        Value::Arr(vec![vint(1), vint(2), vint(3), vint(4), vint(5)])
    );
}

#[test]
fn test_flatten_does_not_recurse() {
    let doc = Value::Arr(vec![Value::Arr(vec![Value::Arr(vec![vint(1)])])]);
    let result = parse_and_eval("flatten", Some(doc)).unwrap();
    assert_eq!(result, Value::Arr(vec![Value::Arr(vec![vint(1)])]));
}

#[test]
fn test_first_and_last() {
    let doc = Value::Arr(vec![vint(7), vint(8), vint(9)]);
    assert_eq!(parse_and_eval("first()", Some(dup(&doc))).unwrap(), vint(7));
    assert_eq!(parse_and_eval("last()", Some(doc)).unwrap(), vint(9));
}

#[test]
fn test_first_of_empty_errors() {
    let result = parse_and_eval("first()", Some(Value::Arr(vec![])));
    assert!(result.is_err());
    assert!(result.unwrap_err().message().contains("empty array"));
}

#[test]
fn test_last_of_empty_errors() {
    let result = parse_and_eval("last()", Some(Value::Arr(vec![])));
    assert!(result.is_err());
    assert!(result.unwrap_err().message().contains("empty array"));
}

#[test]
fn test_add_sums_integers() {
    let doc = Value::Arr(vec![vint(1), vint(2), vint(3)]);
    assert_eq!(parse_and_eval("add", Some(doc)).unwrap(), vint(6));
}

#[test]
fn test_add_concatenates_strings() {
    let doc = Value::Arr(vec![vstr("ab"), vstr("cd")]);
    assert_eq!(parse_and_eval("add", Some(doc)).unwrap(), vstr("abcd"));
}

#[test]
fn test_add_of_empty_is_zero() {
    assert_eq!(parse_and_eval("add", Some(Value::Arr(vec![]))).unwrap(), vint(0));
}

#[test]
fn test_add_mixed_elements_error() {
    let doc = Value::Arr(vec![vint(1), vstr("x")]);
    let result = parse_and_eval("add", Some(doc));
    assert!(result.is_err());
    assert!(result.unwrap_err().message().contains("non-numeric"));
}

#[test]
fn test_has_on_object_and_array() {
    // the grammar folds comma-separated call arguments into one array
    // argument, so the two-argument form is exercised on the tree
    fn has_node(key: Value) -> Expression {
        Expression::Has {
            target: Box::new(Expression::Identity),
            key: Box::new(Expression::Literal(key)),
        }
    }
    let doc = Value::Obj(vec![(vstr("name"), vint(1))]);
    assert_eq!(eval_node(has_node(vstr("name")), dup(&doc)).unwrap(), Value::Bool(true));
    assert_eq!(eval_node(has_node(vstr("other")), doc).unwrap(), Value::Bool(false));
    let arr = Value::Arr(vec![vint(10), vint(20)]);
    assert_eq!(eval_node(has_node(vint(1)), dup(&arr)).unwrap(), Value::Bool(true));
    assert_eq!(eval_node(has_node(vint(-2)), dup(&arr)).unwrap(), Value::Bool(true));
    assert_eq!(eval_node(has_node(vint(2)), arr).unwrap(), Value::Bool(false));
}

#[test]
fn test_type_names() {
    assert_eq!(parse_and_eval("type", Some(Value::Null)).unwrap(), vstr("null"));
    assert_eq!(parse_and_eval("type", Some(Value::Bool(true))).unwrap(), vstr("boolean"));
    assert_eq!(parse_and_eval("type", Some(vint(1))).unwrap(), vstr("number"));
    assert_eq!(parse_and_eval("type", Some(vstr("x"))).unwrap(), vstr("string"));
    assert_eq!(parse_and_eval("type", Some(Value::Arr(vec![]))).unwrap(), vstr("array"));
    assert_eq!(parse_and_eval("type", Some(Value::Obj(vec![]))).unwrap(), vstr("object"));
}

#[test]
fn test_tostring_scalars() {
    assert_eq!(eval_node(tostring_node(), vint(42)).unwrap(), vstr("42"));
    assert_eq!(eval_node(tostring_node(), vdec(5, 0)).unwrap(), vstr("5.0"));
    assert_eq!(eval_node(tostring_node(), Value::Null).unwrap(), vstr("null"));
    assert_eq!(eval_node(tostring_node(), vstr("x")).unwrap(), vstr("x"));
}

#[test]
fn test_tostring_containers_use_structural_encoding() {
    let doc = Value::Obj(vec![(vstr("a"), Value::Arr(vec![vint(1), vint(2)]))]);
    assert_eq!(eval_node(tostring_node(), doc).unwrap(), vstr("{\"a\":[1,2]}"));
}

#[test]
fn test_tonumber_parses_integer_then_decimal() {
    assert_eq!(eval_node(tonumber_node(), vstr("42")).unwrap(), vint(42));
    assert_eq!(eval_node(tonumber_node(), vstr("-7")).unwrap(), vint(-7));
    assert_eq!(eval_node(tonumber_node(), vstr("2.5")).unwrap(), vdec(25, 1));
    assert_eq!(eval_node(tonumber_node(), vint(3)).unwrap(), vint(3));
}

#[test]
fn test_tonumber_rejects_garbage() {
    let result = eval_node(tonumber_node(), vstr("abc"));
    assert!(result.is_err());
    assert!(result.unwrap_err().message().contains("Cannot parse 'abc' as number"));
}

#[test]
fn test_tonumber_of_array_errors() {
    let result = eval_node(tonumber_node(), Value::Arr(vec![]));
    assert!(result.is_err());
    assert!(result.unwrap_err().message().contains("to number"));
}

#[test]
fn test_env_reads_injected_table() {
    let parser = ExpressionParser::new();
    let evaluator = Evaluator::with_env(vec![("HOME_PORT".to_string(), "8080".to_string())]);
    let expr = parser.parse("env(\"HOME_PORT\")").unwrap();
    let result = evaluator.evaluate(&expr, Some(&Value::Null)).unwrap();
    assert_eq!(result, vstr("8080"));
    let expr2 = parser.parse("env(\"NO_SUCH_NAME\")").unwrap();
    let missing = evaluator.evaluate(&expr2, Some(&Value::Null)).unwrap();
    assert_eq!(missing, Value::Null);
}

#[test]
fn test_map_applies_per_element() {
    let doc = Value::Arr(vec![vint(1), vint(2), vint(3)]);
    let body = Expression::Multiply {
        left: Box::new(Expression::Identity),
        right: Box::new(Expression::Literal(vint(2))),
    };
    let node = Expression::MapOp {
        target: Box::new(Expression::Identity),
        expr: Box::new(body),
    };
    let result = eval_node(node, doc).unwrap();
    assert_eq!(result, Value::Arr(vec![vint(2), vint(4), vint(6)]));
}

#[test]
fn test_filter_keeps_truthy() {
    let doc = Value::Arr(vec![vint(1), vint(5), vint(2), vint(9)]);
    let body = Expression::GreaterThan {
        left: Box::new(Expression::Identity),
        right: Box::new(Expression::Literal(vint(2))),
    };
    let node = Expression::Filter {
        target: Box::new(Expression::Identity),
        expr: Box::new(body),
    };
    let result = eval_node(node, doc).unwrap();
    assert_eq!(result, Value::Arr(vec![vint(5), vint(9)]));
}

#[test]
fn test_group_by_key_text() {
    let doc = Value::Arr(vec![
        Value::Obj(vec![(vstr("k"), vstr("x")), (vstr("n"), vint(1))]),
        Value::Obj(vec![(vstr("k"), vstr("y")), (vstr("n"), vint(2))]),
        Value::Obj(vec![(vstr("k"), vstr("x")), (vstr("n"), vint(3))]),
    ]);
    let key_expr = Expression::FieldAccess {
        target: Box::new(Expression::Identity),
        field: "k".to_string(),
    };
    let node = Expression::GroupBy {
        target: Box::new(Expression::Identity),
        key_expr: Box::new(key_expr),
    };
    let result = eval_node(node, doc).unwrap();
    match result {
        Value::Arr(groups) => {
            assert_eq!(groups.len(), 2);
            match &groups[0] {
                Value::Obj(fields) => {
                    assert_eq!(fields[0], (vstr("key"), vstr("x")));
                },
                _ => panic!("expected an object per group"),
            }
        },
        _ => panic!("expected an array of groups"),
    }
}

#[test]
fn test_select_returns_value_or_null() {
    let doc = Value::Obj(vec![(vstr("active"), Value::Bool(true))]);
    let kept = parse_and_eval("select(.active)", Some(doc)).unwrap();
    match kept {
        Value::Obj(_) => {},
        _ => panic!("a truthy condition keeps the current value"),
    }
    let doc2 = Value::Obj(vec![(vstr("active"), Value::Bool(false))]);
    assert_eq!(parse_and_eval("select(.active)", Some(doc2)).unwrap(), Value::Null);
}

#[test]
fn test_assignment_sets_field() {
    let doc = Value::Obj(vec![(vstr("count"), vint(1))]);
    let result = parse_and_eval(".count = 100", Some(doc)).unwrap();
    assert_eq!(result, Value::Obj(vec![(vstr("count"), vint(100))]));
}

#[test]
fn test_assignment_adds_new_field() {
    let doc = Value::Obj(vec![(vstr("a"), vint(1))]);
    let result = parse_and_eval(".b = 2", Some(doc)).unwrap();
    assert_eq!(
        result,
        Value::Obj(vec![(vstr("a"), vint(1)), (vstr("b"), vint(2))])
    );
}

#[test]
fn test_update_sees_old_field_value() {
    // the update body binds at the assignment level, so the sum needs
    // its parentheses
    let doc = Value::Obj(vec![(vstr("count"), vint(41))]);
    let result = parse_and_eval(".count |= (. + 1)", Some(doc)).unwrap();
    assert_eq!(result, Value::Obj(vec![(vstr("count"), vint(42))]));
}

#[test]
fn test_recurse_walks_depth_first() {
    let doc = Value::Obj(vec![(vstr("a"), Value::Arr(vec![vint(1)]))]);
    let result = parse_and_eval("..", Some(dup(&doc))).unwrap();
    assert_eq!(
        result,
        Value::Arr(vec![doc, Value::Arr(vec![vint(1)]), vint(1)])
    );
}

#[test]
fn test_variables_resolve_from_context() {
    let parser = ExpressionParser::new();
    let evaluator = Evaluator::new();
    let expr = parser.parse("$who").unwrap();
    let mut ctx = Context::new(Value::Null);
    ctx.set_variable("who".to_string(), vstr("me"));
    assert_eq!(evaluator.eval(&expr, &ctx).unwrap(), vstr("me"));
    let expr2 = parser.parse("$other").unwrap();
    let missing = evaluator.eval(&expr2, &ctx);
    assert!(missing.is_err());
    assert!(missing.unwrap_err().message().contains("Undefined variable: other"));
}

#[test]
fn test_decimal_rendering_edges() {
    let e = Evaluator::new();
    let p = ExpressionParser::new();
    let small = p.parse("0.05").unwrap();
    let got = e.evaluate(&small, None).unwrap();
    assert_eq!(rq::canon::value_to_string(&got), "0.05");
    let neg = p.parse("0 - 2.5").unwrap();
    let got = e.evaluate(&neg, None).unwrap();
    assert_eq!(rq::canon::value_to_string(&got), "-2.5");
    let trimmed = p.parse("2.50").unwrap();
    let got = e.evaluate(&trimmed, None).unwrap();
    assert_eq!(rq::canon::value_to_string(&got), "2.5");
}

#[test]
fn test_canonical_encoding_escapes_strings() {
    let doc = Value::Obj(vec![(vstr("a"), vstr("say \"hi\"\n"))]);
    assert_eq!(
        rq::canon::canon_string(&doc),
        "{\"a\":\"say \\\"hi\\\"\\n\"}"
    );
}

#[test]
fn test_canonical_encoding_is_structural() {
    let a = Value::Arr(vec![vint(1), vstr("x"), Value::Null, Value::Bool(true)]);
    assert_eq!(rq::canon::canon_string(&a), "[1,\"x\",null,true]");
}
