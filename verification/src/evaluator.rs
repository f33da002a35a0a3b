//! The expression evaluator: contexts, the single-valued entry point
//! `eval`, and the stream-valued entry point `eval_multi`. Both are
//! proved to agree exactly with the specification functions `eval_s`
//! and `eval_multi_s`.

use vstd::prelude::*;
use crate::num::MNum;
use crate::value::{Value, MVal, mval_of, mval_of_list, mval_of_entries, lemma_mval_list,
    lemma_mval_entries, lemma_mval_push, dup, is_truthy, value_type, truthy_s};
use crate::canon::value_to_string;
use crate::ast::{Expression, expr_size, expr_list_size, expr_pairs_size, lemma_expr_size_pos,
    lemma_expr_list_size, lemma_expr_pairs_size};
use crate::errors::EvalError;
use crate::semantics::{MCtx, child_s, assoc_find, assoc_set, lemma_assoc_find_at,
    lemma_assoc_find_none, lemma_assoc_set_at, lemma_assoc_set_new, eval_s, eval_multi_s,
    arr_fold, obj_fold, map_fold, filter_fold, group_fold, group_add, groups_result, pipe_fold,
    lemma_group_add_at, lemma_group_add_new, lemma_obj_find};
use crate::operators;
use crate::operators::{res_model, multi_model, find_key, set_entry, entries_dup, obj_values_vec};

verus! {

broadcast use vstd::std_specs::vec::group_vec_axioms, vstd::seq::axiom_seq_index_decreases;

/// Pointwise model of a variable table.
pub open spec fn vars_model(s: Seq<(String, Value)>) -> Seq<(Seq<char>, MVal)> {
    Seq::new(s.len(), |i: int| (s[i].0@, mval_of(s[i].1)))
}

/// Pointwise model of an environment table.
pub open spec fn env_model(s: Seq<(String, String)>) -> Seq<(Seq<char>, Seq<char>)> {
    Seq::new(s.len(), |i: int| (s[i].0@, s[i].1@))
}

/// Context for expression evaluation: the current value, an owned
/// snapshot of the enclosing context, and the variables in scope.
#[derive(Debug)]
pub struct Context {
    /// The current value being processed.
    pub value: Value,
    /// Parent context (for relative lookups).
    pub parent: Option<Box<Context>>,
    /// Variables in scope.
    pub variables: Vec<(String, Value)>,
}

impl View for Context {
    type V = MCtx;

    open spec fn view(&self) -> MCtx {
        MCtx { value: self.value@, vars: vars_model(self.variables@) }
    }
}

impl Context {
    /// Create a new context with no parent and no variables.
    pub fn new(value: Value) -> (c: Context)
        ensures
            c@.value == value@,
            c@.vars == Seq::<(Seq<char>, MVal)>::empty(),
    {
        let c = Context { value, parent: None, variables: Vec::new() };
        proof {
            assert(c@.vars =~= Seq::<(Seq<char>, MVal)>::empty());
        }
        c
    }

    /// A deep copy of this context, model for model.
    pub fn duplicate(&self) -> (c: Context)
        ensures
            c@ == self@,
        decreases self,
    {
        let parent = match &self.parent {
            Some(p) => Some(Box::new(p.duplicate())),
            None => None,
        };
        let mut vars: Vec<(String, Value)> = Vec::new();
        let mut i: usize = 0;
        while i < self.variables.len()
            invariant
                i <= self.variables@.len(),
                vars@.len() == i,
                forall|j: int| 0 <= j < i ==> vars@[j].0@ == self.variables@[j].0@ && mval_of(
                    #[trigger] vars@[j].1,
                ) == mval_of(self.variables@[j].1),
            decreases self.variables@.len() - i,
        {
            let name = self.variables[i].0.clone();
            let v = dup(&self.variables[i].1);
            vars.push((name, v));
            i = i + 1;
        }
        let c = Context { value: dup(&self.value), parent, variables: vars };
        proof {
            assert(c@.vars =~= self@.vars);
        }
        c
    }

    /// Create a child context: a new current value, a snapshot of this
    /// context as the parent, and a copy of the variable table.
    pub fn child(&self, value: Value) -> (c: Context)
        ensures
            c@ == child_s(self@, value@),
        decreases self,
    {
        let snapshot = self.duplicate();
        let vars = {
            let mut vars: Vec<(String, Value)> = Vec::new();
            let mut i: usize = 0;
            while i < self.variables.len()
                invariant
                    i <= self.variables@.len(),
                    vars@.len() == i,
                    forall|j: int| 0 <= j < i ==> vars@[j].0@ == self.variables@[j].0@ && mval_of(
                        #[trigger] vars@[j].1,
                    ) == mval_of(self.variables@[j].1),
                decreases self.variables@.len() - i,
            {
                let name = self.variables[i].0.clone();
                let v = dup(&self.variables[i].1);
                vars.push((name, v));
                i = i + 1;
            }
            vars
        };
        let c = Context { value, parent: Some(Box::new(snapshot)), variables: vars };
        proof {
            assert(c@.vars =~= self@.vars);
        }
        c
    }

    /// Bind a variable, replacing an existing binding of the same name.
    pub fn set_variable(&mut self, name: String, value: Value)
        ensures
            final(self)@.value == old(self)@.value,
            final(self)@.vars == assoc_set(old(self)@.vars, name@, mval_of(value)),
    {
        let ghost vm = vars_model(self.variables@);
        let mut i: usize = 0;
        loop
            invariant
                i <= self.variables@.len(),
                self.variables@ == old(self).variables@,
                self.value == old(self).value,
                self.parent == old(self).parent,
                vm == vars_model(self.variables@),
                forall|j: int| 0 <= j < i ==> vm[j].0 != name@,
            ensures
                i <= self.variables@.len(),
                self.variables@ == old(self).variables@,
                self.value == old(self).value,
                forall|j: int| 0 <= j < i ==> vm[j].0 != name@,
                i < self.variables@.len() ==> vm[i as int].0 == name@,
            decreases self.variables@.len() - i,
        {
            if i == self.variables.len() {
                break;
            }
            if self.variables[i].0.eq(&name) {
                break;
            }
            i = i + 1;
        }
        if i < self.variables.len() {
            proof {
                lemma_assoc_set_at(vm, name@, mval_of(value), i as int);
            }
            self.variables.set(i, (name, value));
            proof {
                assert(vars_model(self.variables@) =~= vm.update(
                    i as int,
                    (name@, mval_of(self.variables@[i as int].1)),
                ));
            }
        } else {
            proof {
                lemma_assoc_set_new(vm, name@, mval_of(value));
            }
            self.variables.push((name, value));
            proof {
                assert(vars_model(self.variables@) =~= vm.push(
                    (name@, mval_of(self.variables@[self.variables@.len() - 1].1)),
                ));
            }
        }
    }

    /// Look a variable up by name.
    pub fn get_variable(&self, name: &str) -> (r: Option<&Value>)
        ensures
            match r {
                Some(v) => assoc_find(self@.vars, name@) == Some(mval_of(*v)),
                None => assoc_find(self@.vars, name@) is None,
            },
    {
        let needle = String::from_str(name);
        let ghost vm = vars_model(self.variables@);
        let mut i: usize = 0;
        loop
            invariant
                i <= self.variables@.len(),
                vm == vars_model(self.variables@),
                needle@ == name@,
                forall|j: int| 0 <= j < i ==> vm[j].0 != name@,
            ensures
                i <= self.variables@.len(),
                forall|j: int| 0 <= j < i ==> vm[j].0 != name@,
                i < self.variables@.len() ==> vm[i as int].0 == name@,
            decreases self.variables@.len() - i,
        {
            if i == self.variables.len() {
                break;
            }
            if self.variables[i].0.eq(&needle) {
                break;
            }
            i = i + 1;
        }
        if i < self.variables.len() {
            proof {
                lemma_assoc_find_at(vm, name@, i as int);
            }
            Some(&self.variables[i].1)
        } else {
            proof {
                lemma_assoc_find_none(vm, name@);
            }
            None
        }
    }
}

/// The expression evaluator, carrying the environment table that the
/// `env` operator reads.
pub struct Evaluator {
    /// Name-value pairs of the environment, first match wins.
    pub env_vars: Vec<(String, String)>,
}

impl View for Evaluator {
    type V = Seq<(Seq<char>, Seq<char>)>;

    open spec fn view(&self) -> Seq<(Seq<char>, Seq<char>)> {
        env_model(self.env_vars@)
    }
}

impl Evaluator {
    /// Create an evaluator with an empty environment table.
    pub fn new() -> (e: Evaluator)
        ensures
            e@ == Seq::<(Seq<char>, Seq<char>)>::empty(),
    {
        let e = Evaluator { env_vars: Vec::new() };
        proof {
            assert(e@ =~= Seq::<(Seq<char>, Seq<char>)>::empty());
        }
        e
    }

    /// Create an evaluator that reads the given environment table.
    pub fn with_env(env_vars: Vec<(String, String)>) -> (e: Evaluator)
        ensures
            e@ == env_model(env_vars@),
    {
        Evaluator { env_vars }
    }

    /// Look an environment variable up by name.
    fn lookup_env(&self, name: &str) -> (r: Option<String>)
        ensures
            match r {
                Some(w) => assoc_find(self@, name@) == Some(w@),
                None => assoc_find(self@, name@) is None,
            },
    {
        let needle = String::from_str(name);
        let ghost em = env_model(self.env_vars@);
        let mut i: usize = 0;
        loop
            invariant
                i <= self.env_vars@.len(),
                em == env_model(self.env_vars@),
                needle@ == name@,
                forall|j: int| 0 <= j < i ==> em[j].0 != name@,
            ensures
                i <= self.env_vars@.len(),
                forall|j: int| 0 <= j < i ==> em[j].0 != name@,
                i < self.env_vars@.len() ==> em[i as int].0 == name@,
            decreases self.env_vars@.len() - i,
        {
            if i == self.env_vars.len() {
                break;
            }
            if self.env_vars[i].0.eq(&needle) {
                break;
            }
            i = i + 1;
        }
        if i < self.env_vars.len() {
            proof {
                lemma_assoc_find_at(em, name@, i as int);
            }
            Some(self.env_vars[i].1.clone())
        } else {
            proof {
                lemma_assoc_find_none(em, name@);
            }
            None
        }
    }

    /// Evaluate an expression against an optional input document; a
    /// missing document evaluates against null.
    pub fn evaluate(&self, expr: &Expression, input: Option<&Value>) -> (r: Result<
        Value,
        EvalError,
    >)
        ensures
            res_model(r) == eval_s(
                *expr,
                MCtx {
                    value: match input {
                        Some(v) => mval_of(*v),
                        None => MVal::Null,
                    },
                    vars: Seq::empty(),
                },
                self@,
            ),
    {
        let ctx = match input {
            Some(v) => Context::new(dup(v)),
            None => Context::new(Value::Null),
        };
        self.eval(expr, &ctx)
    }

    /// Evaluate an expression to a single value in a context.
    #[verifier::loop_isolation(false)]
    #[verifier::rlimit(100)]
    pub fn eval(&self, expr: &Expression, ctx: &Context) -> (r: Result<Value, EvalError>)
        ensures
            res_model(r) == eval_s(*expr, ctx@, self@),
        decreases expr_size(*expr), 0nat, 0nat,
    {
        match expr {
            Expression::Identity => Ok(dup(&ctx.value)),
            Expression::Literal(v) => Ok(dup(v)),
            Expression::Empty => Ok(Value::Null),
            Expression::FieldAccess { target, field } => {
                match self.eval(target, ctx) {
                    Ok(tv) => operators::field_access(&tv, field.as_str()),
                    Err(e) => Err(e),
                }
            },
            Expression::IndexAccess { target, index } => {
                match self.eval(target, ctx) {
                    Ok(tv) => operators::index_access(&tv, *index),
                    Err(e) => Err(e),
                }
            },
            Expression::Iterator { target } => {
                match self.eval(target, ctx) {
                    Ok(tv) => operators::iterate(&tv),
                    Err(e) => Err(e),
                }
            },
            Expression::Pipe { left, right } => {
                match self.eval(left, ctx) {
                    Ok(lv) => {
                        let child_ctx = ctx.child(lv);
                        self.eval(right, &child_ctx)
                    },
                    Err(e) => Err(e),
                }
            },
            Expression::Comma { .. } => Ok(Value::Null),
            Expression::Assign { target, value } => {
                match &**target {
                    Expression::FieldAccess { field, .. } => {
                        match self.eval(value, ctx) {
                            Ok(nv) => {
                                match &ctx.value {
                                    Value::Obj(fs) => {
                                        let mut copy = entries_dup(fs);
                                        let key = Value::Str(field.clone());
                                        set_entry(&mut copy, key, nv);
                                        Ok(Value::Obj(copy))
                                    },
                                    _ => Ok(dup(&ctx.value)),
                                }
                            },
                            Err(e) => Err(e),
                        }
                    },
                    _ => Err(EvalError::AssignTarget),
                }
            },
            Expression::Update { target, value } => {
                match &**target {
                    Expression::FieldAccess { field, .. } => {
                        let current = match &ctx.value {
                            Value::Obj(fs) => {
                                let key = Value::Str(field.clone());
                                let i = find_key(fs, &key);
                                proof {
                                    lemma_mval_entries(fs@);
                                    lemma_obj_find(mval_of_entries(fs@), key@);
                                }
                                if i < fs.len() {
                                    dup(&fs[i].1)
                                } else {
                                    Value::Null
                                }
                            },
                            _ => Value::Null,
                        };
                        let child_ctx = ctx.child(current);
                        match self.eval(value, &child_ctx) {
                            Ok(nv) => {
                                match &ctx.value {
                                    Value::Obj(fs) => {
                                        let mut copy = entries_dup(fs);
                                        let key = Value::Str(field.clone());
                                        set_entry(&mut copy, key, nv);
                                        Ok(Value::Obj(copy))
                                    },
                                    _ => Ok(dup(&ctx.value)),
                                }
                            },
                            Err(e) => Err(e),
                        }
                    },
                    _ => Err(EvalError::UpdateTarget),
                }
            },
            Expression::Add { left, right } => {
                match self.eval(left, ctx) {
                    Ok(a) => match self.eval(right, ctx) {
                        Ok(b) => operators::add(&a, &b),
                        Err(e) => Err(e),
                    },
                    Err(e) => Err(e),
                }
            },
            Expression::Subtract { left, right } => {
                match self.eval(left, ctx) {
                    Ok(a) => match self.eval(right, ctx) {
                        Ok(b) => operators::sub(&a, &b),
                        Err(e) => Err(e),
                    },
                    Err(e) => Err(e),
                }
            },
            Expression::Multiply { left, right } => {
                match self.eval(left, ctx) {
                    Ok(a) => match self.eval(right, ctx) {
                        Ok(b) => operators::mul(&a, &b),
                        Err(e) => Err(e),
                    },
                    Err(e) => Err(e),
                }
            },
            Expression::Divide { left, right } => {
                match self.eval(left, ctx) {
                    Ok(a) => match self.eval(right, ctx) {
                        Ok(b) => operators::div(&a, &b),
                        Err(e) => Err(e),
                    },
                    Err(e) => Err(e),
                }
            },
            Expression::Modulo { left, right } => {
                match self.eval(left, ctx) {
                    Ok(a) => match self.eval(right, ctx) {
                        Ok(b) => operators::modulo(&a, &b),
                        Err(e) => Err(e),
                    },
                    Err(e) => Err(e),
                }
            },
            Expression::Equal { left, right } => {
                match self.eval(left, ctx) {
                    Ok(a) => match self.eval(right, ctx) {
                        Ok(b) => Ok(operators::equal(&a, &b)),
                        Err(e) => Err(e),
                    },
                    Err(e) => Err(e),
                }
            },
            Expression::NotEqual { left, right } => {
                match self.eval(left, ctx) {
                    Ok(a) => match self.eval(right, ctx) {
                        Ok(b) => Ok(operators::not_equal(&a, &b)),
                        Err(e) => Err(e),
                    },
                    Err(e) => Err(e),
                }
            },
            Expression::LessThan { left, right } => {
                match self.eval(left, ctx) {
                    Ok(a) => match self.eval(right, ctx) {
                        Ok(b) => Ok(operators::less_than(&a, &b)),
                        Err(e) => Err(e),
                    },
                    Err(e) => Err(e),
                }
            },
            Expression::LessThanOrEqual { left, right } => {
                match self.eval(left, ctx) {
                    Ok(a) => match self.eval(right, ctx) {
                        Ok(b) => Ok(operators::less_than_or_equal(&a, &b)),
                        Err(e) => Err(e),
                    },
                    Err(e) => Err(e),
                }
            },
            Expression::GreaterThan { left, right } => {
                match self.eval(left, ctx) {
                    Ok(a) => match self.eval(right, ctx) {
                        Ok(b) => Ok(operators::greater_than(&a, &b)),
                        Err(e) => Err(e),
                    },
                    Err(e) => Err(e),
                }
            },
            Expression::GreaterThanOrEqual { left, right } => {
                match self.eval(left, ctx) {
                    Ok(a) => match self.eval(right, ctx) {
                        Ok(b) => Ok(operators::greater_than_or_equal(&a, &b)),
                        Err(e) => Err(e),
                    },
                    Err(e) => Err(e),
                }
            },
            Expression::And { left, right } => {
                match self.eval(left, ctx) {
                    Ok(a) => {
                        if !is_truthy(&a) {
                            Ok(a)
                        } else {
                            self.eval(right, ctx)
                        }
                    },
                    Err(e) => Err(e),
                }
            },
            Expression::Or { left, right } => {
                match self.eval(left, ctx) {
                    Ok(a) => {
                        if is_truthy(&a) {
                            Ok(a)
                        } else {
                            self.eval(right, ctx)
                        }
                    },
                    Err(e) => Err(e),
                }
            },
            Expression::Not { expr: inner } => {
                match self.eval(inner, ctx) {
                    Ok(a) => Ok(operators::not(&a)),
                    Err(e) => Err(e),
                }
            },
            Expression::Select { condition } => {
                match self.eval(condition, ctx) {
                    Ok(a) => {
                        if is_truthy(&a) {
                            Ok(dup(&ctx.value))
                        } else {
                            Ok(Value::Null)
                        }
                    },
                    Err(e) => Err(e),
                }
            },
            Expression::Keys { target } => {
                match self.eval(target, ctx) {
                    Ok(tv) => operators::keys(&tv),
                    Err(e) => Err(e),
                }
            },
            Expression::Length { target } => {
                match self.eval(target, ctx) {
                    Ok(tv) => operators::length(&tv),
                    Err(e) => Err(e),
                }
            },
            Expression::Type { target } => {
                match self.eval(target, ctx) {
                    Ok(tv) => Ok(Value::Str(String::from_str(value_type(&tv)))),
                    Err(e) => Err(e),
                }
            },
            Expression::Has { target, key } => {
                match self.eval(target, ctx) {
                    Ok(tv) => match self.eval(key, ctx) {
                        Ok(kv) => Ok(operators::has(&tv, &kv)),
                        Err(e) => Err(e),
                    },
                    Err(e) => Err(e),
                }
            },
            Expression::Sort { target } => {
                match self.eval(target, ctx) {
                    Ok(tv) => operators::sort(&tv),
                    Err(e) => Err(e),
                }
            },
            Expression::Reverse { target } => {
                match self.eval(target, ctx) {
                    Ok(tv) => operators::reverse(&tv),
                    Err(e) => Err(e),
                }
            },
            Expression::Unique { target } => {
                match self.eval(target, ctx) {
                    Ok(tv) => operators::unique(&tv),
                    Err(e) => Err(e),
                }
            },
            Expression::Flatten { target } => {
                match self.eval(target, ctx) {
                    Ok(tv) => operators::flatten(&tv),
                    Err(e) => Err(e),
                }
            },
            Expression::GroupBy { target, key_expr } => {
                match self.eval(target, ctx) {
                    Ok(tv) => match tv {
                        Value::Arr(items) => {
                            match self.group_items(&items, key_expr, ctx) {
                                Ok(groups) => Ok(build_groups(groups)),
                                Err(e) => Err(e),
                            }
                        },
                        other => Err(
                            EvalError::GroupOf {
                                kind: String::from_str(value_type(&other)),
                            },
                        ),
                    },
                    Err(e) => Err(e),
                }
            },
            Expression::MapOp { target, expr: body } => {
                match self.eval(target, ctx) {
                    Ok(tv) => match tv {
                        Value::Arr(items) => {
                            match self.map_items(&items, body, ctx) {
                                Ok(rs) => Ok(Value::Arr(rs)),
                                Err(e) => Err(e),
                            }
                        },
                        other => Err(
                            EvalError::MapOver {
                                kind: String::from_str(value_type(&other)),
                            },
                        ),
                    },
                    Err(e) => Err(e),
                }
            },
            Expression::Filter { target, expr: body } => {
                match self.eval(target, ctx) {
                    Ok(tv) => match tv {
                        Value::Arr(items) => {
                            match self.filter_items(&items, body, ctx) {
                                Ok(rs) => Ok(Value::Arr(rs)),
                                Err(e) => Err(e),
                            }
                        },
                        other => Err(
                            EvalError::FilterOf {
                                kind: String::from_str(value_type(&other)),
                            },
                        ),
                    },
                    Err(e) => Err(e),
                }
            },
            Expression::Recurse => Ok(operators::recurse(&ctx.value)),
            Expression::Group { expr: inner } => self.eval(inner, ctx),
            Expression::Variable { name } => {
                match ctx.get_variable(name.as_str()) {
                    Some(v) => Ok(dup(v)),
                    None => Err(EvalError::UndefinedVariable { name: name.clone() }),
                }
            },
            Expression::Array { elements } => {
                proof {
                    assert(expr_size(*expr) == 1 + expr_list_size(elements@));
                }
                match self.eval_elements(elements, ctx) {
                    Ok(rs) => Ok(Value::Arr(rs)),
                    Err(e) => Err(e),
                }
            },
            Expression::Object { fields } => {
                proof {
                    assert(expr_size(*expr) == 1 + expr_pairs_size(fields@));
                }
                match self.eval_fields(fields, ctx) {
                    Ok(fs) => Ok(Value::Obj(fs)),
                    Err(e) => Err(e),
                }
            },
            Expression::Slice { target, start, end } => {
                match self.eval(target, ctx) {
                    Ok(tv) => operators::slice(&tv, *start, *end),
                    Err(e) => Err(e),
                }
            },
            Expression::Alternative { left, right } => {
                match self.eval(left, ctx) {
                    Ok(v) => {
                        let is_null = matches!(&v, Value::Null);
                        let is_false = match &v {
                            Value::Bool(b) => !*b,
                            _ => false,
                        };
                        if is_null || is_false {
                            self.eval(right, ctx)
                        } else {
                            Ok(v)
                        }
                    },
                    Err(_) => self.eval(right, ctx),
                }
            },
            Expression::First { expr: inner } => {
                match self.eval(inner, ctx) {
                    Ok(v) => operators::first(&v),
                    Err(e) => Err(e),
                }
            },
            Expression::Last { expr: inner } => {
                match self.eval(inner, ctx) {
                    Ok(v) => operators::last(&v),
                    Err(e) => Err(e),
                }
            },
            Expression::AddOp => operators::addop(&ctx.value),
            Expression::Env { name } => {
                match self.eval(name, ctx) {
                    Ok(nv) => match nv {
                        Value::Str(s) => {
                            match self.lookup_env(s.as_str()) {
                                Some(w) => Ok(Value::Str(w)),
                                None => Ok(Value::Null),
                            }
                        },
                        _ => Ok(Value::Null),
                    },
                    Err(e) => Err(e),
                }
            },
            Expression::ToString { target } => {
                match self.eval(target, ctx) {
                    Ok(tv) => Ok(Value::Str(value_to_string(&tv))),
                    Err(e) => Err(e),
                }
            },
            Expression::ToNumber { target } => {
                match self.eval(target, ctx) {
                    Ok(tv) => operators::tonumber(&tv),
                    Err(e) => Err(e),
                }
            },
            _ => Err(EvalError::UnsupportedExpression),
        }
    }

    /// Evaluate an expression to a stream of values: iteration fans out,
    /// a pipe concatenates, everything else yields its single value.
    #[verifier::loop_isolation(false)]
    pub fn eval_multi(&self, expr: &Expression, ctx: &Context) -> (r: Result<
        Vec<Value>,
        EvalError,
    >)
        ensures
            multi_model(r) == eval_multi_s(*expr, ctx@, self@),
        decreases expr_size(*expr), 1nat, 0nat,
    {
        match expr {
            Expression::Iterator { target } => {
                match self.eval(target, ctx) {
                    Ok(tv) => match tv {
                        Value::Arr(vs) => Ok(vs),
                        Value::Obj(fs) => Ok(obj_values_vec(&fs)),
                        _ => {
                            let empty: Vec<Value> = Vec::new();
                            proof {
                                assert(mval_of_list(empty@) =~= Seq::<MVal>::empty());
                            }
                            Ok(empty)
                        },
                    },
                    Err(e) => Err(e),
                }
            },
            Expression::Pipe { left, right } => {
                match self.eval_multi(left, ctx) {
                    Ok(ls) => Ok(self.pipe_items(&ls, right, ctx)),
                    Err(e) => Err(e),
                }
            },
            _ => {
                match self.eval(expr, ctx) {
                    Ok(v) => {
                        let mut out: Vec<Value> = Vec::new();
                        proof {
                            lemma_mval_push(out@, v);
                            assert(mval_of_list(Seq::<Value>::empty()) =~= Seq::<MVal>::empty());
                            assert(Seq::<MVal>::empty().push(mval_of(v)) =~= seq![mval_of(v)]);
                        }
                        out.push(v);
                        Ok(out)
                    },
                    Err(e) => Err(e),
                }
            },
        }
    }

    /// Feed each value to the right side of a pipe and concatenate the
    /// results, with the single-evaluation fallback per item.
    #[verifier::loop_isolation(false)]
    fn pipe_items(&self, items: &Vec<Value>, right: &Expression, ctx: &Context) -> (r: Vec<Value>)
        ensures
            mval_of_list(r@) == pipe_fold(mval_of_list(items@), *right, ctx@, self@),
        decreases expr_size(*right), 2nat, 0nat,
    {
        proof {
            lemma_mval_list(items@);
        }
        let ghost ms = mval_of_list(items@);
        let mut out: Vec<Value> = Vec::new();
        let mut i: usize = 0;
        proof {
            assert(ms.skip(0) =~= ms);
            assert(mval_of_list(out@) =~= Seq::<MVal>::empty());
            assert(Seq::<MVal>::empty() + pipe_fold(ms, *right, ctx@, self@) =~= pipe_fold(
                ms,
                *right,
                ctx@,
                self@,
            ));
        }
        while i < items.len()
            invariant
                i <= items.len(),
                mval_of_list(out@) + pipe_fold(ms.skip(i as int), *right, ctx@, self@)
                    == pipe_fold(ms, *right, ctx@, self@),
            decreases items.len() - i,
        {
            proof {
                lemma_mval_list(items@);
                assert(ms.skip(i as int)[0] == ms[i as int]);
                assert(ms.skip(i as int).drop_first() =~= ms.skip(i + 1));
            }
            let item = dup(&items[i]);
            let child_ctx = ctx.child(item);
            match self.eval_multi(right, &child_ctx) {
                Ok(mut vals) => {
                    proof {
                        crate::operators::lemma_mval_list_concat(out@, vals@);
                        assert((mval_of_list(out@) + mval_of_list(vals@)) + pipe_fold(
                            ms.skip(i + 1),
                            *right,
                            ctx@,
                            self@,
                        ) =~= mval_of_list(out@) + (mval_of_list(vals@) + pipe_fold(
                            ms.skip(i + 1),
                            *right,
                            ctx@,
                            self@,
                        )));
                    }
                    out.append(&mut vals);
                },
                Err(_) => {
                    match self.eval(right, &child_ctx) {
                        Ok(single) => {
                            proof {
                                lemma_mval_push(out@, single);
                                assert(mval_of_list(out@).push(mval_of(single)) + pipe_fold(
                                    ms.skip(i + 1),
                                    *right,
                                    ctx@,
                                    self@,
                                ) =~= mval_of_list(out@) + (seq![mval_of(single)] + pipe_fold(
                                    ms.skip(i + 1),
                                    *right,
                                    ctx@,
                                    self@,
                                )));
                            }
                            out.push(single);
                        },
                        Err(_) => {
                            proof {
                                assert(mval_of_list(out@) + (Seq::<MVal>::empty() + pipe_fold(
                                    ms.skip(i + 1),
                                    *right,
                                    ctx@,
                                    self@,
                                )) =~= mval_of_list(out@) + pipe_fold(
                                    ms.skip(i + 1),
                                    *right,
                                    ctx@,
                                    self@,
                                ));
                            }
                        },
                    }
                },
            }
            i = i + 1;
        }
        proof {
            assert(ms.skip(items@.len() as int).len() == 0);
            assert(mval_of_list(out@) + Seq::<MVal>::empty() =~= mval_of_list(out@));
        }
        out
    }

    /// Evaluate the elements of an array constructor, left to right.
    #[verifier::loop_isolation(false)]
    fn eval_elements(&self, elements: &Vec<Expression>, ctx: &Context) -> (r: Result<
        Vec<Value>,
        EvalError,
    >)
        ensures
            multi_model(r) == arr_fold(elements@, ctx@, self@, Seq::empty()),
        decreases expr_list_size(elements@), 2nat, 0nat,
    {
        let mut out: Vec<Value> = Vec::new();
        let mut i: usize = 0;
        proof {
            assert(elements@.skip(0) =~= elements@);
            assert(mval_of_list(out@) =~= Seq::<MVal>::empty());
        }
        while i < elements.len()
            invariant
                i <= elements.len(),
                arr_fold(elements@.skip(i as int), ctx@, self@, mval_of_list(out@)) == arr_fold(
                    elements@,
                    ctx@,
                    self@,
                    Seq::empty(),
                ),
            decreases elements.len() - i,
        {
            proof {
                lemma_expr_list_size(elements@);
                assert(elements@.skip(i as int)[0] == elements@[i as int]);
                assert(elements@.skip(i as int).drop_first() =~= elements@.skip(i + 1));
                vstd::seq_lib::lemma_seq_skip_index(elements@, i as int, 0);
            }
            match self.eval(&elements[i], ctx) {
                Ok(v) => {
                    proof {
                        lemma_mval_push(out@, v);
                    }
                    out.push(v);
                },
                Err(e) => {
                    return Err(e);
                },
            }
            i = i + 1;
        }
        proof {
            assert(elements@.skip(elements@.len() as int).len() == 0);
        }
        Ok(out)
    }

    /// Evaluate the entries of an object constructor, left to right;
    /// later duplicate keys overwrite earlier ones.
    #[verifier::loop_isolation(false)]
    fn eval_fields(&self, fields: &Vec<(Expression, Expression)>, ctx: &Context) -> (r: Result<
        Vec<(Value, Value)>,
        EvalError,
    >)
        ensures
            match r {
                Ok(fs) => obj_fold(fields@, ctx@, self@, Seq::empty()) == Ok::<_, crate::errors::MErr>(
                    mval_of_entries(fs@),
                ),
                Err(e) => obj_fold(fields@, ctx@, self@, Seq::empty()) == Err::<
                    Seq<(MVal, MVal)>,
                    _,
                >(e@),
            },
        decreases expr_pairs_size(fields@), 2nat, 0nat,
    {
        let mut out: Vec<(Value, Value)> = Vec::new();
        let mut i: usize = 0;
        proof {
            assert(fields@.skip(0) =~= fields@);
            assert(mval_of_entries(out@) =~= Seq::<(MVal, MVal)>::empty());
        }
        while i < fields.len()
            invariant
                i <= fields.len(),
                obj_fold(fields@.skip(i as int), ctx@, self@, mval_of_entries(out@)) == obj_fold(
                    fields@,
                    ctx@,
                    self@,
                    Seq::empty(),
                ),
            decreases fields.len() - i,
        {
            proof {
                lemma_expr_pairs_size(fields@);
                assert(fields@.skip(i as int)[0] == fields@[i as int]);
                assert(fields@.skip(i as int).drop_first() =~= fields@.skip(i + 1));
            }
            let k = match self.eval(&fields[i].0, ctx) {
                Ok(k) => k,
                Err(e) => {
                    return Err(e);
                },
            };
            let v = match self.eval(&fields[i].1, ctx) {
                Ok(v) => v,
                Err(e) => {
                    return Err(e);
                },
            };
            set_entry(&mut out, k, v);
            i = i + 1;
        }
        proof {
            assert(fields@.skip(fields@.len() as int).len() == 0);
        }
        Ok(out)
    }

    /// Evaluate a map body once per element, in order.
    #[verifier::loop_isolation(false)]
    fn map_items(&self, items: &Vec<Value>, body: &Expression, ctx: &Context) -> (r: Result<
        Vec<Value>,
        EvalError,
    >)
        ensures
            multi_model(r) == map_fold(mval_of_list(items@), *body, ctx@, self@, Seq::empty()),
        decreases expr_size(*body), 2nat, 0nat,
    {
        proof {
            lemma_mval_list(items@);
        }
        let ghost ms = mval_of_list(items@);
        let mut out: Vec<Value> = Vec::new();
        let mut i: usize = 0;
        proof {
            assert(ms.skip(0) =~= ms);
            assert(mval_of_list(out@) =~= Seq::<MVal>::empty());
        }
        while i < items.len()
            invariant
                i <= items.len(),
                map_fold(ms.skip(i as int), *body, ctx@, self@, mval_of_list(out@)) == map_fold(
                    ms,
                    *body,
                    ctx@,
                    self@,
                    Seq::empty(),
                ),
            decreases items.len() - i,
        {
            proof {
                lemma_mval_list(items@);
                assert(ms.skip(i as int)[0] == ms[i as int]);
                assert(ms.skip(i as int).drop_first() =~= ms.skip(i + 1));
            }
            let item = dup(&items[i]);
            let child_ctx = ctx.child(item);
            match self.eval(body, &child_ctx) {
                Ok(v) => {
                    proof {
                        lemma_mval_push(out@, v);
                    }
                    out.push(v);
                },
                Err(e) => {
                    return Err(e);
                },
            }
            i = i + 1;
        }
        proof {
            assert(ms.skip(items@.len() as int).len() == 0);
        }
        Ok(out)
    }

    /// Keep the elements whose condition is truthy, in order.
    #[verifier::loop_isolation(false)]
    fn filter_items(&self, items: &Vec<Value>, body: &Expression, ctx: &Context) -> (r: Result<
        Vec<Value>,
        EvalError,
    >)
        ensures
            multi_model(r) == filter_fold(mval_of_list(items@), *body, ctx@, self@, Seq::empty()),
        decreases expr_size(*body), 2nat, 0nat,
    {
        proof {
            lemma_mval_list(items@);
        }
        let ghost ms = mval_of_list(items@);
        let mut out: Vec<Value> = Vec::new();
        let mut i: usize = 0;
        proof {
            assert(ms.skip(0) =~= ms);
            assert(mval_of_list(out@) =~= Seq::<MVal>::empty());
        }
        while i < items.len()
            invariant
                i <= items.len(),
                filter_fold(ms.skip(i as int), *body, ctx@, self@, mval_of_list(out@))
                    == filter_fold(ms, *body, ctx@, self@, Seq::empty()),
            decreases items.len() - i,
        {
            proof {
                lemma_mval_list(items@);
                assert(ms.skip(i as int)[0] == ms[i as int]);
                assert(ms.skip(i as int).drop_first() =~= ms.skip(i + 1));
            }
            let item = dup(&items[i]);
            let child_ctx = ctx.child(dup(&item));
            match self.eval(body, &child_ctx) {
                Ok(cond) => {
                    if is_truthy(&cond) {
                        proof {
                            lemma_mval_push(out@, item);
                        }
                        out.push(item);
                    }
                },
                Err(e) => {
                    return Err(e);
                },
            }
            i = i + 1;
        }
        proof {
            assert(ms.skip(items@.len() as int).len() == 0);
        }
        Ok(out)
    }

    /// Group elements by the text of their key expression, first-seen
    /// group order.
    #[verifier::loop_isolation(false)]
    fn group_items(&self, items: &Vec<Value>, key_expr: &Expression, ctx: &Context) -> (r: Result<
        Vec<(String, Vec<Value>)>,
        EvalError,
    >)
        ensures
            match r {
                Ok(g) => group_fold(mval_of_list(items@), *key_expr, ctx@, self@, Seq::empty())
                    == Ok::<_, crate::errors::MErr>(groups_model(g@)),
                Err(e) => group_fold(mval_of_list(items@), *key_expr, ctx@, self@, Seq::empty())
                    == Err::<Seq<(Seq<char>, Seq<MVal>)>, _>(e@),
            },
        decreases expr_size(*key_expr), 2nat, 0nat,
    {
        proof {
            lemma_mval_list(items@);
        }
        let ghost ms = mval_of_list(items@);
        let mut out: Vec<(String, Vec<Value>)> = Vec::new();
        let mut i: usize = 0;
        proof {
            assert(ms.skip(0) =~= ms);
            assert(groups_model(out@) =~= Seq::<(Seq<char>, Seq<MVal>)>::empty());
        }
        while i < items.len()
            invariant
                i <= items.len(),
                group_fold(ms.skip(i as int), *key_expr, ctx@, self@, groups_model(out@))
                    == group_fold(ms, *key_expr, ctx@, self@, Seq::empty()),
            decreases items.len() - i,
        {
            proof {
                lemma_mval_list(items@);
                assert(ms.skip(i as int)[0] == ms[i as int]);
                assert(ms.skip(i as int).drop_first() =~= ms.skip(i + 1));
            }
            let item = dup(&items[i]);
            let child_ctx = ctx.child(dup(&item));
            let kv = match self.eval(key_expr, &child_ctx) {
                Ok(kv) => kv,
                Err(e) => {
                    return Err(e);
                },
            };
            let key = value_to_string(&kv);
            group_upsert(&mut out, key, item);
            i = i + 1;
        }
        proof {
            assert(ms.skip(items@.len() as int).len() == 0);
        }
        Ok(out)
    }
}

impl Default for Evaluator {
    fn default() -> (e: Evaluator)
        ensures
            e@ == Seq::<(Seq<char>, Seq<char>)>::empty(),
    {
        Evaluator::new()
    }
}

/// Pointwise model of a grouping table.
pub open spec fn groups_model(g: Seq<(String, Vec<Value>)>) -> Seq<(Seq<char>, Seq<MVal>)> {
    Seq::new(g.len(), |i: int| (g[i].0@, mval_of_list(g[i].1@)))
}

/// Append an element to its group, or open a new group at the end.
fn group_upsert(out: &mut Vec<(String, Vec<Value>)>, key: String, item: Value)
    ensures
        groups_model(final(out)@) == group_add(groups_model(old(out)@), key@, mval_of(item)),
{
    let ghost gm = groups_model(out@);
    let mut i: usize = 0;
    loop
        invariant
            i <= out@.len(),
            out@ == old(out)@,
            gm == groups_model(out@),
            forall|j: int| 0 <= j < i ==> gm[j].0 != key@,
        ensures
            i <= out@.len(),
            out@ == old(out)@,
            forall|j: int| 0 <= j < i ==> gm[j].0 != key@,
            i < out@.len() ==> gm[i as int].0 == key@,
        decreases out@.len() - i,
    {
        if i == out.len() {
            break;
        }
        if out[i].0.eq(&key) {
            break;
        }
        i = i + 1;
    }
    if i < out.len() {
        proof {
            lemma_group_add_at(gm, key@, mval_of(item), i as int);
        }
        let mut entry = out.remove(i);
        proof {
            lemma_mval_push(entry.1@, item);
        }
        entry.1.push(item);
        out.insert(i, entry);
        proof {
            assert(groups_model(out@) =~= gm.update(
                i as int,
                (gm[i as int].0, gm[i as int].1.push(mval_of(item))),
            )) by {
                assert(forall|t: int| 0 <= t < i ==> out@[t] == old(out)@[t]);
                assert(forall|t: int|
                    i < t < out@.len() ==> out@[t] == old(out)@[t]);
            }
        }
    } else {
        proof {
            lemma_group_add_new(gm, key@, mval_of(item));
        }
        let mut items: Vec<Value> = Vec::new();
        proof {
            lemma_mval_push(items@, item);
            assert(mval_of_list(Seq::<Value>::empty()) =~= Seq::<MVal>::empty());
        }
        items.push(item);
        out.push((key, items));
        proof {
            assert(groups_model(out@) =~= gm.push((key@, seq![mval_of(
                out@[out@.len() - 1].1@[0],
            )])));
            assert(groups_model(out@) =~= gm.push((key@, seq![mval_of(item)])));
        }
    }
}

/// The array value of a finished grouping: one object per group with
/// its key text and its members.
#[verifier::loop_isolation(false)]
fn build_groups(groups: Vec<(String, Vec<Value>)>) -> (r: Value)
    ensures
        r@ == groups_result(groups_model(groups@)),
{
    let ghost gm = groups_model(groups@);
    let mut out: Vec<Value> = Vec::new();
    let mut i: usize = 0;
    while i < groups.len()
        invariant
            i <= groups@.len(),
            gm == groups_model(groups@),
            out@.len() == i,
            forall|t: int|
                0 <= t < i ==> #[trigger] mval_of_list(out@)[t] == MVal::Obj(
                    seq![
                        (MVal::Str("key"@), MVal::Str(gm[t].0)),
                        (MVal::Str("value"@), MVal::Arr(gm[t].1)),
                    ],
                ),
        decreases groups@.len() - i,
    {
        let key_txt = groups[i].0.clone();
        let members = crate::operators::arr_dup(&groups[i].1);
        let mut fields: Vec<(Value, Value)> = Vec::new();
        fields.push((Value::Str(String::from_str("key")), Value::Str(key_txt)));
        fields.push((Value::Str(String::from_str("value")), Value::Arr(members)));
        proof {
            lemma_mval_entries(fields@);
            assert(mval_of_entries(fields@) =~= seq![
                (MVal::Str("key"@), MVal::Str(gm[i as int].0)),
                (MVal::Str("value"@), MVal::Arr(gm[i as int].1)),
            ]);
        }
        let obj = Value::Obj(fields);
        proof {
            lemma_mval_push(out@, obj);
            lemma_mval_list(out@);
        }
        out.push(obj);
        i = i + 1;
    }
    proof {
        lemma_mval_list(out@);
        assert(mval_of_list(out@) =~= (match groups_result(gm) {
            MVal::Arr(s) => s,
            _ => Seq::empty(),
        }));
    }
    Value::Arr(out)
}

} // verus!
