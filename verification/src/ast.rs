//! The expression tree of the query language. The parser produces it and
//! the evaluator consumes it; a number of node kinds are part of the
//! grammar's intended surface but have no evaluation rule yet, and the
//! evaluator reports those as unsupported.

use vstd::prelude::*;
use crate::value::{Value, MVal, mval_of};

verus! {

/// Mathematical model of an expression tree, for the parser's
/// contracts: every node kind the grammar can produce, with sequences
/// in place of vectors and character sequences in place of strings.
/// The node kinds that are reserved in the grammar and never produced
/// by the parser all collapse into one `Reserved` model.
pub enum MExpr {
    Identity,
    Literal(MVal),
    FieldAccess { target: Box<MExpr>, field: Seq<char> },
    IndexAccess { target: Box<MExpr>, index: int },
    Iterator { target: Box<MExpr> },
    Pipe { left: Box<MExpr>, right: Box<MExpr> },
    Comma { left: Box<MExpr>, right: Box<MExpr> },
    Assign { target: Box<MExpr>, value: Box<MExpr> },
    Update { target: Box<MExpr>, value: Box<MExpr> },
    Add { left: Box<MExpr>, right: Box<MExpr> },
    Subtract { left: Box<MExpr>, right: Box<MExpr> },
    Multiply { left: Box<MExpr>, right: Box<MExpr> },
    Divide { left: Box<MExpr>, right: Box<MExpr> },
    Modulo { left: Box<MExpr>, right: Box<MExpr> },
    Equal { left: Box<MExpr>, right: Box<MExpr> },
    NotEqual { left: Box<MExpr>, right: Box<MExpr> },
    LessThan { left: Box<MExpr>, right: Box<MExpr> },
    LessThanOrEqual { left: Box<MExpr>, right: Box<MExpr> },
    GreaterThan { left: Box<MExpr>, right: Box<MExpr> },
    GreaterThanOrEqual { left: Box<MExpr>, right: Box<MExpr> },
    And { left: Box<MExpr>, right: Box<MExpr> },
    Or { left: Box<MExpr>, right: Box<MExpr> },
    Not { expr: Box<MExpr> },
    Select { condition: Box<MExpr> },
    Keys { target: Box<MExpr> },
    Length { target: Box<MExpr> },
    Type { target: Box<MExpr> },
    Has { target: Box<MExpr>, key: Box<MExpr> },
    Sort { target: Box<MExpr> },
    Reverse { target: Box<MExpr> },
    Unique { target: Box<MExpr> },
    Flatten { target: Box<MExpr> },
    GroupBy { target: Box<MExpr>, key_expr: Box<MExpr> },
    MapOp { target: Box<MExpr>, expr: Box<MExpr> },
    Filter { target: Box<MExpr>, expr: Box<MExpr> },
    Recurse,
    Group { expr: Box<MExpr> },
    Variable { name: Seq<char> },
    Array { elements: Seq<MExpr> },
    Object { fields: Seq<(MExpr, MExpr)> },
    Slice { target: Box<MExpr>, start: Option<int>, end: Option<int> },
    Alternative { left: Box<MExpr>, right: Box<MExpr> },
    First { expr: Box<MExpr> },
    Last { expr: Box<MExpr> },
    Empty,
    Env { name: Box<MExpr> },
    ToString { target: Box<MExpr> },
    ToNumber { target: Box<MExpr> },
    AddOp,
    Reserved,
}

/// The model of an expression tree.
pub open spec fn expr_model(e: Expression) -> MExpr
    decreases e,
{
    match e {
        Expression::Identity => MExpr::Identity,
        Expression::Literal(v) => MExpr::Literal(mval_of(v)),
        Expression::FieldAccess { target, field } => MExpr::FieldAccess {
            target: Box::new(expr_model(*target)),
            field: field@,
        },
        Expression::IndexAccess { target, index } => MExpr::IndexAccess {
            target: Box::new(expr_model(*target)),
            index: index as int,
        },
        Expression::Iterator { target } => MExpr::Iterator {
            target: Box::new(expr_model(*target)),
        },
        Expression::Pipe { left, right } => MExpr::Pipe {
            left: Box::new(expr_model(*left)),
            right: Box::new(expr_model(*right)),
        },
        Expression::Comma { left, right } => MExpr::Comma {
            left: Box::new(expr_model(*left)),
            right: Box::new(expr_model(*right)),
        },
        Expression::Assign { target, value } => MExpr::Assign {
            target: Box::new(expr_model(*target)),
            value: Box::new(expr_model(*value)),
        },
        Expression::Update { target, value } => MExpr::Update {
            target: Box::new(expr_model(*target)),
            value: Box::new(expr_model(*value)),
        },
        Expression::Add { left, right } => MExpr::Add {
            left: Box::new(expr_model(*left)),
            right: Box::new(expr_model(*right)),
        },
        Expression::Subtract { left, right } => MExpr::Subtract {
            left: Box::new(expr_model(*left)),
            right: Box::new(expr_model(*right)),
        },
        Expression::Multiply { left, right } => MExpr::Multiply {
            left: Box::new(expr_model(*left)),
            right: Box::new(expr_model(*right)),
        },
        Expression::Divide { left, right } => MExpr::Divide {
            left: Box::new(expr_model(*left)),
            right: Box::new(expr_model(*right)),
        },
        Expression::Modulo { left, right } => MExpr::Modulo {
            left: Box::new(expr_model(*left)),
            right: Box::new(expr_model(*right)),
        },
        Expression::Equal { left, right } => MExpr::Equal {
            left: Box::new(expr_model(*left)),
            right: Box::new(expr_model(*right)),
        },
        Expression::NotEqual { left, right } => MExpr::NotEqual {
            left: Box::new(expr_model(*left)),
            right: Box::new(expr_model(*right)),
        },
        Expression::LessThan { left, right } => MExpr::LessThan {
            left: Box::new(expr_model(*left)),
            right: Box::new(expr_model(*right)),
        },
        Expression::LessThanOrEqual { left, right } => MExpr::LessThanOrEqual {
            left: Box::new(expr_model(*left)),
            right: Box::new(expr_model(*right)),
        },
        Expression::GreaterThan { left, right } => MExpr::GreaterThan {
            left: Box::new(expr_model(*left)),
            right: Box::new(expr_model(*right)),
        },
        Expression::GreaterThanOrEqual { left, right } => MExpr::GreaterThanOrEqual {
            left: Box::new(expr_model(*left)),
            right: Box::new(expr_model(*right)),
        },
        Expression::And { left, right } => MExpr::And {
            left: Box::new(expr_model(*left)),
            right: Box::new(expr_model(*right)),
        },
        Expression::Or { left, right } => MExpr::Or {
            left: Box::new(expr_model(*left)),
            right: Box::new(expr_model(*right)),
        },
        Expression::Not { expr } => MExpr::Not { expr: Box::new(expr_model(*expr)) },
        Expression::Select { condition } => MExpr::Select {
            condition: Box::new(expr_model(*condition)),
        },
        Expression::Keys { target } => MExpr::Keys { target: Box::new(expr_model(*target)) },
        Expression::Length { target } => MExpr::Length {
            target: Box::new(expr_model(*target)),
        },
        Expression::Type { target } => MExpr::Type { target: Box::new(expr_model(*target)) },
        Expression::Has { target, key } => MExpr::Has {
            target: Box::new(expr_model(*target)),
            key: Box::new(expr_model(*key)),
        },
        Expression::Sort { target } => MExpr::Sort { target: Box::new(expr_model(*target)) },
        Expression::Reverse { target } => MExpr::Reverse {
            target: Box::new(expr_model(*target)),
        },
        Expression::Unique { target } => MExpr::Unique {
            target: Box::new(expr_model(*target)),
        },
        Expression::Flatten { target } => MExpr::Flatten {
            target: Box::new(expr_model(*target)),
        },
        Expression::GroupBy { target, key_expr } => MExpr::GroupBy {
            target: Box::new(expr_model(*target)),
            key_expr: Box::new(expr_model(*key_expr)),
        },
        Expression::MapOp { target, expr } => MExpr::MapOp {
            target: Box::new(expr_model(*target)),
            expr: Box::new(expr_model(*expr)),
        },
        Expression::Filter { target, expr } => MExpr::Filter {
            target: Box::new(expr_model(*target)),
            expr: Box::new(expr_model(*expr)),
        },
        Expression::Recurse => MExpr::Recurse,
        Expression::Group { expr } => MExpr::Group { expr: Box::new(expr_model(*expr)) },
        Expression::Variable { name } => MExpr::Variable { name: name@ },
        Expression::Array { elements } => MExpr::Array { elements: exprs_model(elements@) },
        Expression::Object { fields } => MExpr::Object { fields: expr_pairs_model(fields@) },
        Expression::Slice { target, start, end } => MExpr::Slice {
            target: Box::new(expr_model(*target)),
            start: match start {
                Some(i) => Some(i as int),
                None => None,
            },
            end: match end {
                Some(i) => Some(i as int),
                None => None,
            },
        },
        Expression::Alternative { left, right } => MExpr::Alternative {
            left: Box::new(expr_model(*left)),
            right: Box::new(expr_model(*right)),
        },
        Expression::First { expr } => MExpr::First { expr: Box::new(expr_model(*expr)) },
        Expression::Last { expr } => MExpr::Last { expr: Box::new(expr_model(*expr)) },
        Expression::Empty => MExpr::Empty,
        Expression::Env { name } => MExpr::Env { name: Box::new(expr_model(*name)) },
        Expression::ToString { target } => MExpr::ToString {
            target: Box::new(expr_model(*target)),
        },
        Expression::ToNumber { target } => MExpr::ToNumber {
            target: Box::new(expr_model(*target)),
        },
        Expression::AddOp => MExpr::AddOp,
        _ => MExpr::Reserved,
    }
}

pub open spec fn exprs_model(s: Seq<Expression>) -> Seq<MExpr>
    decreases s,
{
    if s.len() == 0 {
        Seq::empty()
    } else {
        seq![expr_model(s[0])] + exprs_model(s.drop_first())
    }
}

pub open spec fn expr_pairs_model(s: Seq<(Expression, Expression)>) -> Seq<(MExpr, MExpr)>
    decreases s,
{
    if s.len() == 0 {
        Seq::empty()
    } else {
        seq![(expr_model(s[0].0), expr_model(s[0].1))] + expr_pairs_model(s.drop_first())
    }
}

pub broadcast proof fn lemma_exprs_model(s: Seq<Expression>)
    ensures
        #![trigger exprs_model(s)]
        exprs_model(s).len() == s.len() && forall|i: int|
            0 <= i < s.len() ==> exprs_model(s)[i] == expr_model(s[i]),
    decreases s,
{
    if s.len() > 0 {
        lemma_exprs_model(s.drop_first());
    }
}

pub broadcast proof fn lemma_expr_pairs_model(s: Seq<(Expression, Expression)>)
    ensures
        #![trigger expr_pairs_model(s)]
        expr_pairs_model(s).len() == s.len() && forall|i: int|
            0 <= i < s.len() ==> expr_pairs_model(s)[i] == (
                expr_model(s[i].0),
                expr_model(s[i].1),
            ),
    decreases s,
{
    if s.len() > 0 {
        lemma_expr_pairs_model(s.drop_first());
    }
}

pub proof fn lemma_expr_pairs_model_push(s: Seq<(Expression, Expression)>, e: (
    Expression,
    Expression,
))
    ensures
        expr_pairs_model(s.push(e)) == expr_pairs_model(s).push(
            (expr_model(e.0), expr_model(e.1)),
        ),
    decreases s,
{
    broadcast use lemma_expr_pairs_model;

    if s.len() == 0 {
        assert(s.push(e).drop_first() =~= Seq::<(Expression, Expression)>::empty());
        assert(expr_pairs_model(s.push(e)) =~= expr_pairs_model(s).push(
            (expr_model(e.0), expr_model(e.1)),
        ));
    } else {
        lemma_expr_pairs_model_push(s.drop_first(), e);
        assert(s.push(e).drop_first() =~= s.drop_first().push(e));
        assert(s.push(e)[0] == s[0]);
        assert(expr_pairs_model(s.push(e)) =~= expr_pairs_model(s).push(
            (expr_model(e.0), expr_model(e.1)),
        ));
    }
}

pub proof fn lemma_exprs_model_push(s: Seq<Expression>, e: Expression)
    ensures
        exprs_model(s.push(e)) == exprs_model(s).push(expr_model(e)),
    decreases s,
{
    broadcast use lemma_exprs_model;

    if s.len() == 0 {
        assert(s.push(e).drop_first() =~= Seq::<Expression>::empty());
        assert(exprs_model(s.push(e)) =~= exprs_model(s).push(expr_model(e)));
    } else {
        lemma_exprs_model_push(s.drop_first(), e);
        assert(s.push(e).drop_first() =~= s.drop_first().push(e));
        assert(s.push(e)[0] == s[0]);
        assert(exprs_model(s.push(e)) =~= exprs_model(s).push(expr_model(e)));
    }
}

/// A parsed expression.
#[derive(Debug, PartialEq)]
pub enum Expression {
    /// Identity (`.`): the input unchanged.
    Identity,
    /// A literal value.
    Literal(Value),
    /// Field access (`.field` or `.["field"]`).
    FieldAccess { target: Box<Expression>, field: String },
    /// Array index access (`.[index]`).
    IndexAccess { target: Box<Expression>, index: isize },
    /// Array or object iterator (`.[]`).
    Iterator { target: Box<Expression> },
    /// Pipe (`|`): feed each result of the left side to the right side.
    Pipe { left: Box<Expression>, right: Box<Expression> },
    /// Comma: kept as a node kind, but the parser builds an array instead.
    Comma { left: Box<Expression>, right: Box<Expression> },
    /// Assignment (`=`) to a field of the current value.
    Assign { target: Box<Expression>, value: Box<Expression> },
    /// Update assignment (`|=`): the right side sees the old field value.
    Update { target: Box<Expression>, value: Box<Expression> },
    /// Addition (`+`).
    Add { left: Box<Expression>, right: Box<Expression> },
    /// Subtraction (`-`).
    Subtract { left: Box<Expression>, right: Box<Expression> },
    /// Multiplication (`*`).
    Multiply { left: Box<Expression>, right: Box<Expression> },
    /// Division (`/`).
    Divide { left: Box<Expression>, right: Box<Expression> },
    /// Modulo (`%`).
    Modulo { left: Box<Expression>, right: Box<Expression> },
    /// Equality (`==`).
    Equal { left: Box<Expression>, right: Box<Expression> },
    /// Inequality (`!=`).
    NotEqual { left: Box<Expression>, right: Box<Expression> },
    /// Less than (`<`).
    LessThan { left: Box<Expression>, right: Box<Expression> },
    /// Less than or equal (`<=`).
    LessThanOrEqual { left: Box<Expression>, right: Box<Expression> },
    /// Greater than (`>`).
    GreaterThan { left: Box<Expression>, right: Box<Expression> },
    /// Greater than or equal (`>=`).
    GreaterThanOrEqual { left: Box<Expression>, right: Box<Expression> },
    /// Logical AND (`and`), short-circuit.
    And { left: Box<Expression>, right: Box<Expression> },
    /// Logical OR (`||`), short-circuit.
    Or { left: Box<Expression>, right: Box<Expression> },
    /// Logical NOT (`!`).
    Not { expr: Box<Expression> },
    /// `select(cond)`: the current value if the condition is truthy.
    Select { condition: Box<Expression> },
    /// `keys`.
    Keys { target: Box<Expression> },
    /// `length`.
    Length { target: Box<Expression> },
    /// `type`.
    Type { target: Box<Expression> },
    /// `has(target, key)`.
    Has { target: Box<Expression>, key: Box<Expression> },
    /// `sort`.
    Sort { target: Box<Expression> },
    /// `reverse`.
    Reverse { target: Box<Expression> },
    /// `unique`.
    Unique { target: Box<Expression> },
    /// `flatten`.
    Flatten { target: Box<Expression> },
    /// `group_by(target, key_expr)`.
    GroupBy { target: Box<Expression>, key_expr: Box<Expression> },
    /// `map(target, expr)`.
    MapOp { target: Box<Expression>, expr: Box<Expression> },
    /// `filter(target, expr)`.
    Filter { target: Box<Expression>, expr: Box<Expression> },
    /// Recursive descent (`..`).
    Recurse,
    /// A parenthesized expression.
    Group { expr: Box<Expression> },
    /// A variable reference (`$name`).
    Variable { name: String },
    /// An array constructor.
    Array { elements: Vec<Expression> },
    /// An object constructor.
    Object { fields: Vec<(Expression, Expression)> },
    /// Conditional; reserved, not evaluated.
    IfThenElse {
        condition: Box<Expression>,
        then_branch: Box<Expression>,
        else_branch: Box<Expression>,
    },
    /// Array or string slice (`.[start:end]`).
    Slice { target: Box<Expression>, start: Option<isize>, end: Option<isize> },
    /// Alternative (`//`): the right side when the left errors or is null or false.
    Alternative { left: Box<Expression>, right: Box<Expression> },
    /// Try-catch; reserved, not evaluated.
    Try { expr: Box<Expression>, catch: Option<Box<Expression>> },
    /// Path expression; reserved, not evaluated.
    Path { expr: Box<Expression> },
    /// Get path; reserved, not evaluated.
    GetPath { target: Box<Expression>, path: Box<Expression> },
    /// Set path; reserved, not evaluated.
    SetPath { target: Box<Expression>, path: Box<Expression>, value: Box<Expression> },
    /// Delete path; reserved, not evaluated.
    DelPath { target: Box<Expression>, path: Box<Expression> },
    /// Range; reserved, not evaluated.
    Range { start: Box<Expression>, end: Box<Expression> },
    /// Limit; reserved, not evaluated.
    Limit { n: Box<Expression>, expr: Box<Expression> },
    /// `first`.
    First { expr: Box<Expression> },
    /// `last`.
    Last { expr: Box<Expression> },
    /// Nth; reserved, not evaluated.
    Nth { n: Box<Expression>, expr: Box<Expression> },
    /// The empty expression: evaluates to null.
    Empty,
    /// Error; reserved, not evaluated.
    Error { message: Option<Box<Expression>> },
    /// Debug; reserved, not evaluated.
    Debug { expr: Box<Expression> },
    /// `env(name)`: read a variable of the injected environment table.
    Env { name: Box<Expression> },
    /// Split; reserved, not evaluated.
    Split { target: Box<Expression>, separator: Box<Expression> },
    /// Join; reserved, not evaluated.
    Join { target: Box<Expression>, separator: Box<Expression> },
    /// Contains; reserved, not evaluated.
    Contains { target: Box<Expression>, value: Box<Expression> },
    /// Inside; reserved, not evaluated.
    Inside { target: Box<Expression>, container: Box<Expression> },
    /// Startswith; reserved, not evaluated.
    StartsWith { target: Box<Expression>, prefix: Box<Expression> },
    /// Endswith; reserved, not evaluated.
    EndsWith { target: Box<Expression>, suffix: Box<Expression> },
    /// Ltrimstr; reserved, not evaluated.
    Ltrimstr { target: Box<Expression>, prefix: Box<Expression> },
    /// Rtrimstr; reserved, not evaluated.
    Rtrimstr { target: Box<Expression>, suffix: Box<Expression> },
    /// Format; reserved, not evaluated.
    Format { target: Box<Expression>, fmt: String },
    /// `tostring`.
    ToString { target: Box<Expression> },
    /// `tonumber`.
    ToNumber { target: Box<Expression> },
    /// Floor; reserved, not evaluated.
    Floor { target: Box<Expression> },
    /// Ceil; reserved, not evaluated.
    Ceil { target: Box<Expression> },
    /// Sqrt; reserved, not evaluated.
    Sqrt { target: Box<Expression> },
    /// `add`: sum or concatenate the elements of the current array.
    AddOp,
    /// Min; reserved, not evaluated.
    Min { target: Box<Expression> },
    /// Max; reserved, not evaluated.
    Max { target: Box<Expression> },
    /// Min_by; reserved, not evaluated.
    MinBy { target: Box<Expression>, key: Box<Expression> },
    /// Max_by; reserved, not evaluated.
    MaxBy { target: Box<Expression>, key: Box<Expression> },
    /// Any; reserved, not evaluated.
    Any { target: Box<Expression> },
    /// All; reserved, not evaluated.
    All { target: Box<Expression> },
    /// Indices; reserved, not evaluated.
    Indices { target: Box<Expression>, value: Box<Expression> },
    /// Index lookup; reserved, not evaluated.
    Index { target: Box<Expression>, value: Box<Expression> },
    /// Rindex; reserved, not evaluated.
    Rindex { target: Box<Expression>, value: Box<Expression> },
    /// Substring containment; reserved, not evaluated.
    InsideString { target: Box<Expression>, substr: Box<Expression> },
    /// Pattern test; reserved, not evaluated.
    Test { target: Box<Expression>, pattern: Box<Expression> },
    /// Pattern match; reserved, not evaluated.
    Match { target: Box<Expression>, pattern: Box<Expression> },
    /// Pattern capture; reserved, not evaluated.
    Capture { target: Box<Expression>, pattern: Box<Expression> },
    /// Pattern scan; reserved, not evaluated.
    Scan { target: Box<Expression>, pattern: Box<Expression> },
    /// Pattern split; reserved, not evaluated.
    Splits { target: Box<Expression>, pattern: Box<Expression> },
    /// Single substitution; reserved, not evaluated.
    Sub { target: Box<Expression>, pattern: Box<Expression>, replacement: Box<Expression> },
    /// Global substitution; reserved, not evaluated.
    Gsub { target: Box<Expression>, pattern: Box<Expression>, replacement: Box<Expression> },
}

/// Weight of an expression for termination measures: nodes the evaluator
/// recurses into count their subtrees; every node weighs at least one.
pub open spec fn expr_size(e: Expression) -> nat
    decreases e,
{
    match e {
        Expression::FieldAccess { target, .. } => 1 + expr_size(*target),
        Expression::IndexAccess { target, .. } => 1 + expr_size(*target),
        Expression::Iterator { target } => 1 + expr_size(*target),
        Expression::Slice { target, .. } => 1 + expr_size(*target),
        Expression::Pipe { left, right } => 1 + expr_size(*left) + expr_size(*right),
        Expression::Comma { left, right } => 1 + expr_size(*left) + expr_size(*right),
        Expression::Assign { target, value } => 1 + expr_size(*target) + expr_size(*value),
        Expression::Update { target, value } => 1 + expr_size(*target) + expr_size(*value),
        Expression::Add { left, right } => 1 + expr_size(*left) + expr_size(*right),
        Expression::Subtract { left, right } => 1 + expr_size(*left) + expr_size(*right),
        Expression::Multiply { left, right } => 1 + expr_size(*left) + expr_size(*right),
        Expression::Divide { left, right } => 1 + expr_size(*left) + expr_size(*right),
        Expression::Modulo { left, right } => 1 + expr_size(*left) + expr_size(*right),
        Expression::Equal { left, right } => 1 + expr_size(*left) + expr_size(*right),
        Expression::NotEqual { left, right } => 1 + expr_size(*left) + expr_size(*right),
        Expression::LessThan { left, right } => 1 + expr_size(*left) + expr_size(*right),
        Expression::LessThanOrEqual { left, right } => 1 + expr_size(*left) + expr_size(*right),
        Expression::GreaterThan { left, right } => 1 + expr_size(*left) + expr_size(*right),
        Expression::GreaterThanOrEqual { left, right } => 1 + expr_size(*left) + expr_size(
            *right,
        ),
        Expression::And { left, right } => 1 + expr_size(*left) + expr_size(*right),
        Expression::Or { left, right } => 1 + expr_size(*left) + expr_size(*right),
        Expression::Alternative { left, right } => 1 + expr_size(*left) + expr_size(*right),
        Expression::Not { expr } => 1 + expr_size(*expr),
        Expression::Select { condition } => 1 + expr_size(*condition),
        Expression::Group { expr } => 1 + expr_size(*expr),
        Expression::First { expr } => 1 + expr_size(*expr),
        Expression::Last { expr } => 1 + expr_size(*expr),
        Expression::Keys { target } => 1 + expr_size(*target),
        Expression::Length { target } => 1 + expr_size(*target),
        Expression::Type { target } => 1 + expr_size(*target),
        Expression::Sort { target } => 1 + expr_size(*target),
        Expression::Reverse { target } => 1 + expr_size(*target),
        Expression::Unique { target } => 1 + expr_size(*target),
        Expression::Flatten { target } => 1 + expr_size(*target),
        Expression::ToString { target } => 1 + expr_size(*target),
        Expression::ToNumber { target } => 1 + expr_size(*target),
        Expression::Env { name } => 1 + expr_size(*name),
        Expression::Has { target, key } => 1 + expr_size(*target) + expr_size(*key),
        Expression::GroupBy { target, key_expr } => 1 + expr_size(*target) + expr_size(
            *key_expr,
        ),
        Expression::MapOp { target, expr } => 1 + expr_size(*target) + expr_size(*expr),
        Expression::Filter { target, expr } => 1 + expr_size(*target) + expr_size(*expr),
        Expression::Array { elements } => 1 + expr_list_size(elements@),
        Expression::Object { fields } => 1 + expr_pairs_size(fields@),
        _ => 1,
    }
}

pub open spec fn expr_list_size(s: Seq<Expression>) -> nat
    decreases s,
{
    if s.len() == 0 {
        0
    } else {
        expr_size(s[0]) + expr_list_size(s.drop_first())
    }
}

pub open spec fn expr_pairs_size(s: Seq<(Expression, Expression)>) -> nat
    decreases s,
{
    if s.len() == 0 {
        0
    } else {
        expr_size(s[0].0) + expr_size(s[0].1) + expr_pairs_size(s.drop_first())
    }
}

pub broadcast proof fn lemma_expr_size_pos(e: Expression)
    ensures
        #[trigger] expr_size(e) >= 1,
{
}

pub broadcast proof fn lemma_expr_list_size(s: Seq<Expression>)
    ensures
        #![trigger expr_list_size(s)]
        forall|i: int| 0 <= i < s.len() ==> expr_size(s[i]) <= expr_list_size(s),
    decreases s,
{
    if s.len() > 0 {
        lemma_expr_list_size(s.drop_first());
        assert forall|i: int| 0 <= i < s.len() implies expr_size(s[i]) <= expr_list_size(s) by {
            if i > 0 {
                assert(s.drop_first()[i - 1] == s[i]);
            }
        }
    }
}

pub broadcast proof fn lemma_expr_pairs_size(s: Seq<(Expression, Expression)>)
    ensures
        #![trigger expr_pairs_size(s)]
        forall|i: int|
            0 <= i < s.len() ==> expr_size(s[i].0) + expr_size(s[i].1) <= expr_pairs_size(s),
    decreases s,
{
    if s.len() > 0 {
        lemma_expr_pairs_size(s.drop_first());
        assert forall|i: int|
            0 <= i < s.len() implies expr_size(s[i].0) + expr_size(s[i].1) <= expr_pairs_size(
            s,
        ) by {
            if i > 0 {
                assert(s.drop_first()[i - 1] == s[i]);
            }
        }
    }
}

} // verus!
