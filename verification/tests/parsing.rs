//! Parser tests: the shapes of the trees the grammar produces, and the
//! parse failures malformed text reports.

use rq::ast::Expression;
use rq::num::Number;
use rq::parser::ExpressionParser;
use rq::value::Value;

fn vint(i: i64) -> Value {
    Value::Num(Number::Int(i))
}

fn vstr(s: &str) -> Value {
    Value::Str(s.to_string())
}

fn lit_int(i: i64) -> Expression {
    Expression::Literal(vint(i))
}

#[test]
fn test_parse_identity() {
    let parser = ExpressionParser::new();
    let expr = parser.parse(".").unwrap();
    assert_eq!(expr, Expression::Identity);
}

#[test]
fn test_parse_field_access() {
    let parser = ExpressionParser::new();
    let expr = parser.parse(".name").unwrap();
    assert_eq!(
        expr,
        Expression::FieldAccess {
            target: Box::new(Expression::Identity),
            field: "name".to_string(),
        }
    );
}

#[test]
fn test_parse_nested_field() {
    let parser = ExpressionParser::new();
    let expr = parser.parse(".user.name").unwrap();
    assert_eq!(
        expr,
        Expression::FieldAccess {
            target: Box::new(Expression::FieldAccess {
                target: Box::new(Expression::Identity),
                field: "user".to_string(),
            }),
            field: "name".to_string(),
        }
    );
}

#[test]
fn test_parse_array_index() {
    let parser = ExpressionParser::new();
    let expr = parser.parse(".[1]").unwrap();
    assert_eq!(
        expr,
        Expression::IndexAccess { target: Box::new(Expression::Identity), index: 1 }
    );
}

#[test]
fn test_parse_iterator() {
    let parser = ExpressionParser::new();
    let expr = parser.parse(".[]").unwrap();
    assert_eq!(expr, Expression::Iterator { target: Box::new(Expression::Identity) });
}

#[test]
fn test_parse_pipe() {
    let parser = ExpressionParser::new();
    let expr = parser.parse(".items | .name").unwrap();
    assert_eq!(
        expr,
        Expression::Pipe {
            left: Box::new(Expression::FieldAccess {
                target: Box::new(Expression::Identity),
                field: "items".to_string(),
            }),
            right: Box::new(Expression::FieldAccess {
                target: Box::new(Expression::Identity),
                field: "name".to_string(),
            }),
        }
    );
}

#[test]
fn test_parse_assignment() {
    let parser = ExpressionParser::new();
    let expr = parser.parse(".name = \"test\"").unwrap();
    assert_eq!(
        expr,
        Expression::Assign {
            target: Box::new(Expression::FieldAccess {
                target: Box::new(Expression::Identity),
                field: "name".to_string(),
            }),
            value: Box::new(Expression::Literal(vstr("test"))),
        }
    );
}

#[test]
fn test_parse_literal() {
    let parser = ExpressionParser::new();
    let expr = parser.parse("42").unwrap();
    assert_eq!(expr, lit_int(42));
}

#[test]
fn test_parse_string() {
    let parser = ExpressionParser::new();
    let expr = parser.parse("\"hello\"").unwrap();
    assert_eq!(expr, Expression::Literal(vstr("hello")));
}

#[test]
fn test_parse_array() {
    let parser = ExpressionParser::new();
    let expr = parser.parse("[1, 2, 3]").unwrap();
    assert_eq!(
        expr,
        Expression::Array { elements: vec![lit_int(1), lit_int(2), lit_int(3)] }
    );
}

#[test]
fn test_parse_object() {
    let parser = ExpressionParser::new();
    let expr = parser.parse(r#"{"name": "test", "value": 42}"#).unwrap();
    assert_eq!(
        expr,
        Expression::Object {
            fields: vec![
                (Expression::Literal(vstr("name")), Expression::Literal(vstr("test"))),
                (Expression::Literal(vstr("value")), lit_int(42)),
            ],
        }
    );
}

#[test]
fn test_parse_select() {
    let parser = ExpressionParser::new();
    let expr = parser.parse("select(.active)").unwrap();
    assert_eq!(
        expr,
        Expression::Select {
            condition: Box::new(Expression::FieldAccess {
                target: Box::new(Expression::Identity),
                field: "active".to_string(),
            }),
        }
    );
}

#[test]
fn test_parse_keys_function() {
    let parser = ExpressionParser::new();
    let expr = parser.parse("keys").unwrap();
    assert_eq!(expr, Expression::Keys { target: Box::new(Expression::Identity) });
}

#[test]
fn test_parse_length_function() {
    let parser = ExpressionParser::new();
    let expr = parser.parse("length").unwrap();
    assert_eq!(expr, Expression::Length { target: Box::new(Expression::Identity) });
}

#[test]
fn test_parse_field_comparison() {
    let parser = ExpressionParser::new();
    let expr = parser.parse(".active > 3").unwrap();
    assert_eq!(
        expr,
        Expression::GreaterThan {
            left: Box::new(Expression::FieldAccess {
                target: Box::new(Expression::Identity),
                field: "active".to_string(),
            }),
            right: Box::new(lit_int(3)),
        }
    );
}

#[test]
fn test_parse_arithmetic() {
    let parser = ExpressionParser::new();
    let expr = parser.parse("1 + 2 * 3").unwrap();
    assert_eq!(
        expr,
        Expression::Add {
            left: Box::new(lit_int(1)),
            right: Box::new(Expression::Multiply {
                left: Box::new(lit_int(2)),
                right: Box::new(lit_int(3)),
            }),
        }
    );
}

#[test]
fn test_parse_comparison() {
    let parser = ExpressionParser::new();
    let expr = parser.parse("5 > 3").unwrap();
    assert_eq!(
        expr,
        Expression::GreaterThan { left: Box::new(lit_int(5)), right: Box::new(lit_int(3)) }
    );
}

#[test]
fn test_parse_group() {
    let parser = ExpressionParser::new();
    let expr = parser.parse("(1 + 2) * 3").unwrap();
    assert_eq!(
        expr,
        Expression::Multiply {
            left: Box::new(Expression::Group {
                expr: Box::new(Expression::Add {
                    left: Box::new(lit_int(1)),
                    right: Box::new(lit_int(2)),
                }),
            }),
            right: Box::new(lit_int(3)),
        }
    );
}

#[test]
fn test_parse_recurse() {
    let parser = ExpressionParser::new();
    let expr = parser.parse("..").unwrap();
    assert_eq!(expr, Expression::Recurse);
}

#[test]
fn test_parse_slice() {
    let parser = ExpressionParser::new();
    let expr = parser.parse(".[1:3]").unwrap();
    assert_eq!(
        expr,
        Expression::Slice {
            target: Box::new(Expression::Identity),
            start: Some(1),
            end: Some(3),
        }
    );
}

#[test]
fn test_parse_empty() {
    let parser = ExpressionParser::new();
    let expr = parser.parse("empty").unwrap();
    assert_eq!(
        expr,
        Expression::FieldAccess {
            target: Box::new(Expression::Identity),
            field: "empty".to_string(),
        }
    );
}

#[test]
fn test_parse_unterminated_string_errors() {
    let parser = ExpressionParser::new();
    let result = parser.parse("\"oops");
    assert!(result.is_err());
    assert!(result.unwrap_err().message().contains("Unterminated string"));
}

#[test]
fn test_parse_unclosed_group_errors() {
    let parser = ExpressionParser::new();
    let result = parser.parse("(1 + 2");
    assert!(result.is_err());
    assert!(result.unwrap_err().message().contains("close group"));
}

#[test]
fn test_parse_unexpected_character_errors() {
    let parser = ExpressionParser::new();
    let result = parser.parse("@");
    assert!(result.is_err());
    assert!(result.unwrap_err().message().contains("Unexpected character"));
}

#[test]
fn test_parse_unknown_function_errors() {
    let parser = ExpressionParser::new();
    let result = parser.parse("explode(.)");
    assert!(result.is_err());
    assert!(result.unwrap_err().message().contains("Unknown function: explode"));
}

#[test]
fn test_parse_wrong_arity_errors() {
    let parser = ExpressionParser::new();
    let result = parser.parse("add(1)");
    assert!(result.is_err());
    assert!(result.unwrap_err().message().contains("add takes no arguments"));
}

#[test]
fn test_parse_decimal_literal() {
    let parser = ExpressionParser::new();
    let expr = parser.parse("3.14").unwrap();
    assert_eq!(
        expr,
        Expression::Literal(Value::Num(rq::num::dec_from_parts(314, 2).unwrap()))
    );
}

#[test]
fn test_parse_huge_integer_literal_errors() {
    let parser = ExpressionParser::new();
    let result = parser.parse("99999999999999999999");
    assert!(result.is_err());
    assert!(result.unwrap_err().message().contains("Invalid integer literal"));
}

#[test]
fn test_parse_variable_reference() {
    let parser = ExpressionParser::new();
    let expr = parser.parse("$name").unwrap();
    assert_eq!(expr, Expression::Variable { name: "name".to_string() });
}

#[test]
fn test_parse_alternative_operator() {
    let parser = ExpressionParser::new();
    let expr = parser.parse("null // \"default\"").unwrap();
    assert_eq!(
        expr,
        Expression::Alternative {
            left: Box::new(Expression::Literal(Value::Null)),
            right: Box::new(Expression::Literal(vstr("default"))),
        }
    );
}

#[test]
fn test_parse_update_assignment() {
    let parser = ExpressionParser::new();
    let expr = parser.parse(".count |= (. + 1)").unwrap();
    assert_eq!(
        expr,
        Expression::Update {
            target: Box::new(Expression::FieldAccess {
                target: Box::new(Expression::Identity),
                field: "count".to_string(),
            }),
            value: Box::new(Expression::Group {
                expr: Box::new(Expression::Add {
                    left: Box::new(Expression::Identity),
                    right: Box::new(lit_int(1)),
                }),
            }),
        }
    );
}
