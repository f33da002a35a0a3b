//! The document value model: a dynamically typed tree of nulls, booleans,
//! numbers, strings, arrays and insertion-ordered objects, together with
//! its mathematical model `MVal` and the shared value-level predicates
//! (truthiness, the ordering rule, structural equality).

use vstd::prelude::*;
use crate::num::{MNum, Number, Cmp, num_is_zero_s, num_cmp_s, num_is_zero, num_cmp};

verus! {

broadcast use vstd::std_specs::vec::group_vec_axioms, vstd::seq::axiom_seq_index_decreases;

/// Mathematical model of a document value.
pub enum MVal {
    Null,
    Bool(bool),
    Num(MNum),
    Str(Seq<char>),
    Arr(Seq<MVal>),
    Obj(Seq<(MVal, MVal)>),
}

/// A document value. Objects keep their entries in insertion order and
/// their keys are unique under structural equality.
#[derive(Debug, PartialEq)]
pub enum Value {
    Null,
    Bool(bool),
    Num(Number),
    Str(String),
    Arr(Vec<Value>),
    Obj(Vec<(Value, Value)>),
}

pub open spec fn mval_of(v: Value) -> MVal
    decreases v,
{
    match v {
        Value::Null => MVal::Null,
        Value::Bool(b) => MVal::Bool(b),
        Value::Num(n) => MVal::Num(n.model()),
        Value::Str(s) => MVal::Str(s@),
        Value::Arr(vs) => MVal::Arr(mval_of_list(vs@)),
        Value::Obj(fs) => MVal::Obj(mval_of_entries(fs@)),
    }
}

pub open spec fn mval_of_list(s: Seq<Value>) -> Seq<MVal>
    decreases s,
{
    if s.len() == 0 {
        Seq::empty()
    } else {
        seq![mval_of(s[0])] + mval_of_list(s.drop_first())
    }
}

pub open spec fn mval_of_entries(s: Seq<(Value, Value)>) -> Seq<(MVal, MVal)>
    decreases s,
{
    if s.len() == 0 {
        Seq::empty()
    } else {
        seq![(mval_of(s[0].0), mval_of(s[0].1))] + mval_of_entries(s.drop_first())
    }
}

impl View for Value {
    type V = MVal;

    open spec fn view(&self) -> MVal {
        mval_of(*self)
    }
}

pub broadcast proof fn lemma_mval_list(s: Seq<Value>)
    ensures
        #![trigger mval_of_list(s)]
        mval_of_list(s).len() == s.len() && forall|i: int|
            0 <= i < s.len() ==> mval_of_list(s)[i] == mval_of(s[i]),
    decreases s,
{
    if s.len() > 0 {
        lemma_mval_list(s.drop_first());
    }
}

pub broadcast proof fn lemma_mval_entries(s: Seq<(Value, Value)>)
    ensures
        #![trigger mval_of_entries(s)]
        mval_of_entries(s).len() == s.len() && forall|i: int|
            0 <= i < s.len() ==> mval_of_entries(s)[i] == (mval_of(s[i].0), mval_of(s[i].1)),
    decreases s,
{
    if s.len() > 0 {
        lemma_mval_entries(s.drop_first());
    }
}

/// Number of nodes of a value tree; every value has at least one.
pub open spec fn val_size(v: Value) -> nat
    decreases v,
{
    match v {
        Value::Arr(vs) => 1 + val_list_size(vs@),
        Value::Obj(fs) => 1 + val_entries_size(fs@),
        _ => 1,
    }
}

pub open spec fn val_list_size(s: Seq<Value>) -> nat
    decreases s,
{
    if s.len() == 0 {
        0
    } else {
        val_size(s[0]) + val_list_size(s.drop_first())
    }
}

pub open spec fn val_entries_size(s: Seq<(Value, Value)>) -> nat
    decreases s,
{
    if s.len() == 0 {
        0
    } else {
        val_size(s[0].0) + val_size(s[0].1) + val_entries_size(s.drop_first())
    }
}

pub broadcast proof fn lemma_val_list_size(s: Seq<Value>)
    ensures
        #![trigger val_list_size(s)]
        forall|i: int| 0 <= i < s.len() ==> val_size(s[i]) <= val_list_size(s),
    decreases s,
{
    if s.len() > 0 {
        lemma_val_list_size(s.drop_first());
        assert forall|i: int| 0 <= i < s.len() implies val_size(s[i]) <= val_list_size(s) by {
            if i > 0 {
                assert(s.drop_first()[i - 1] == s[i]);
            }
        }
    }
}

pub broadcast proof fn lemma_val_entries_size(s: Seq<(Value, Value)>)
    ensures
        #![trigger val_entries_size(s)]
        forall|i: int|
            0 <= i < s.len() ==> val_size(s[i].0) + val_size(s[i].1) <= val_entries_size(s),
    decreases s,
{
    if s.len() > 0 {
        lemma_val_entries_size(s.drop_first());
        assert forall|i: int|
            0 <= i < s.len() implies val_size(s[i].0) + val_size(s[i].1) <= val_entries_size(
            s,
        ) by {
            if i > 0 {
                assert(s.drop_first()[i - 1] == s[i]);
            }
        }
    }
}

/// A deep copy with the same model as the value copied.
#[verifier::loop_isolation(false)]
pub fn dup(v: &Value) -> (r: Value)
    ensures
        r@ == v@,
    decreases val_size(*v),
{
    match v {
        Value::Null => Value::Null,
        Value::Bool(b) => Value::Bool(*b),
        Value::Num(n) => Value::Num(*n),
        Value::Str(s) => Value::Str(s.clone()),
        Value::Arr(vs) => {
            let mut out: Vec<Value> = Vec::new();
            let mut i: usize = 0;
            while i < vs.len()
                invariant
                    i <= vs.len(),
                    mval_of_list(out@) == mval_of_list(vs@.take(i as int)),
                    out@.len() == i,
                decreases vs.len() - i,
            {
                proof {
                    lemma_val_list_size(vs@);
                    assert(*v == Value::Arr(*vs));
                    assert(val_size(*v) == 1 + val_list_size(vs@));
                }
                let d = dup(&vs[i]);
                proof {
                    lemma_mval_push(out@, d);
                    lemma_mval_push(vs@.take(i as int), vs@[i as int]);
                    assert(vs@.take(i as int).push(vs@[i as int]) =~= vs@.take(i + 1));
                }
                out.push(d);
                i = i + 1;
            }
            proof {
                assert(vs@.take(vs@.len() as int) =~= vs@);
            }
            Value::Arr(out)
        },
        Value::Obj(fs) => {
            let mut out: Vec<(Value, Value)> = Vec::new();
            let mut i: usize = 0;
            while i < fs.len()
                invariant
                    i <= fs.len(),
                    mval_of_entries(out@) == mval_of_entries(fs@.take(i as int)),
                    out@.len() == i,
                decreases fs.len() - i,
            {
                proof {
                    lemma_val_entries_size(fs@);
                    assert(*v == Value::Obj(*fs));
                    assert(val_size(*v) == 1 + val_entries_size(fs@));
                }
                let k = dup(&fs[i].0);
                let w = dup(&fs[i].1);
                proof {
                    lemma_mval_entries_push(out@, (k, w));
                    lemma_mval_entries_push(fs@.take(i as int), fs@[i as int]);
                    assert(fs@.take(i as int).push(fs@[i as int]) =~= fs@.take(i + 1));
                }
                out.push((k, w));
                i = i + 1;
            }
            proof {
                assert(fs@.take(fs@.len() as int) =~= fs@);
            }
            Value::Obj(out)
        },
    }
}

pub proof fn lemma_mval_push(s: Seq<Value>, v: Value)
    ensures
        mval_of_list(s.push(v)) == mval_of_list(s).push(mval_of(v)),
    decreases s,
{
    broadcast use lemma_mval_list;

    if s.len() == 0 {
        assert(s.push(v).drop_first() =~= Seq::<Value>::empty());
        assert(mval_of_list(s.push(v)) =~= mval_of_list(s).push(mval_of(v)));
    } else {
        lemma_mval_push(s.drop_first(), v);
        assert(s.push(v).drop_first() =~= s.drop_first().push(v));
        assert(s.push(v)[0] == s[0]);
        assert(mval_of_list(s.push(v)) =~= mval_of_list(s).push(mval_of(v)));
    }
}

pub proof fn lemma_mval_entries_push(s: Seq<(Value, Value)>, v: (Value, Value))
    ensures
        mval_of_entries(s.push(v)) == mval_of_entries(s).push((mval_of(v.0), mval_of(v.1))),
    decreases s,
{
    broadcast use lemma_mval_entries;

    if s.len() == 0 {
        assert(s.push(v).drop_first() =~= Seq::<(Value, Value)>::empty());
        assert(mval_of_entries(s.push(v)) =~= mval_of_entries(s).push(
            (mval_of(v.0), mval_of(v.1)),
        ));
    } else {
        lemma_mval_entries_push(s.drop_first(), v);
        assert(s.push(v).drop_first() =~= s.drop_first().push(v));
        assert(s.push(v)[0] == s[0]);
        assert(mval_of_entries(s.push(v)) =~= mval_of_entries(s).push(
            (mval_of(v.0), mval_of(v.1)),
        ));
    }
}

/// Domain-specific truthiness: null, false, numeric zero and empty
/// strings, arrays and objects are falsy; everything else is truthy.
pub open spec fn truthy_s(m: MVal) -> bool {
    match m {
        MVal::Null => false,
        MVal::Bool(b) => b,
        MVal::Num(n) => !num_is_zero_s(n),
        MVal::Str(s) => s.len() > 0,
        MVal::Arr(a) => a.len() > 0,
        MVal::Obj(o) => o.len() > 0,
    }
}

/// Whether a value counts as true in a condition.
pub fn is_truthy(value: &Value) -> (r: bool)
    ensures
        r == truthy_s(value@),
{
    match value {
        Value::Null => false,
        Value::Bool(b) => *b,
        Value::Num(n) => !num_is_zero(n),
        Value::Str(s) => !s.as_str().is_empty(),
        Value::Arr(vs) => {
            proof {
                lemma_mval_list(vs@);
            }
            vs.len() > 0
        },
        Value::Obj(fs) => {
            proof {
                lemma_mval_entries(fs@);
            }
            fs.len() > 0
        },
    }
}

/// Lexicographic order of two character sequences.
pub open spec fn str_cmp_s(s: Seq<char>, t: Seq<char>) -> Cmp
    decreases s.len(),
{
    if s.len() == 0 && t.len() == 0 {
        Cmp::Eq
    } else if s.len() == 0 {
        Cmp::Lt
    } else if t.len() == 0 {
        Cmp::Gt
    } else if s[0] < t[0] {
        Cmp::Lt
    } else if t[0] < s[0] {
        Cmp::Gt
    } else {
        str_cmp_s(s.drop_first(), t.drop_first())
    }
}

/// Lexicographic comparison of two strings, character by character.
pub fn str_cmp(s: &str, t: &str) -> (r: Cmp)
    ensures
        r == str_cmp_s(s@, t@),
{
    let sl = s.unicode_len();
    let tl = t.unicode_len();
    let mut i: usize = 0;
    proof {
        assert(s@.skip(0) =~= s@);
        assert(t@.skip(0) =~= t@);
    }
    loop
        invariant
            i <= sl,
            i <= tl,
            sl == s@.len(),
            tl == t@.len(),
            str_cmp_s(s@, t@) == str_cmp_s(s@.skip(i as int), t@.skip(i as int)),
        ensures
            str_cmp_s(s@, t@) == str_cmp_s(s@.skip(i as int), t@.skip(i as int)),
            i <= sl,
            i <= tl,
            i == sl || i == tl || s@[i as int] != t@[i as int],
        decreases sl - i,
    {
        if i == sl || i == tl {
            break;
        }
        let a = s.get_char(i);
        let b = t.get_char(i);
        if a != b {
            break;
        }
        proof {
            assert(s@.skip(i as int).drop_first() =~= s@.skip(i + 1));
            assert(t@.skip(i as int).drop_first() =~= t@.skip(i + 1));
            assert(s@.skip(i as int)[0] == s@[i as int]);
            assert(t@.skip(i as int)[0] == t@[i as int]);
        }
        i = i + 1;
    }
    proof {
        assert(s@.skip(i as int).len() == s@.len() - i);
        assert(t@.skip(i as int).len() == t@.len() - i);
        if i < sl && i < tl {
            assert(s@.skip(i as int)[0] == s@[i as int]);
            assert(t@.skip(i as int)[0] == t@[i as int]);
        }
    }
    if i == sl && i == tl {
        Cmp::Eq
    } else if i == sl {
        Cmp::Lt
    } else if i == tl {
        Cmp::Gt
    } else {
        let a = s.get_char(i);
        let b = t.get_char(i);
        if a < b {
            Cmp::Lt
        } else {
            Cmp::Gt
        }
    }
}

/// The ordering rule of the language: only like-typed scalars are
/// ordered; any pairing with an array, an object, or two different
/// scalar types has no defined order.
pub open spec fn cmp_s(a: MVal, b: MVal) -> Option<Cmp> {
    match (a, b) {
        (MVal::Null, MVal::Null) => Some(Cmp::Eq),
        (MVal::Bool(x), MVal::Bool(y)) => Some(
            if x == y {
                Cmp::Eq
            } else if !x {
                Cmp::Lt
            } else {
                Cmp::Gt
            },
        ),
        (MVal::Num(x), MVal::Num(y)) => Some(num_cmp_s(x, y)),
        (MVal::Str(x), MVal::Str(y)) => Some(str_cmp_s(x, y)),
        _ => None,
    }
}

/// Compare two values under the ordering rule; `None` means unordered.
pub fn compare_values(a: &Value, b: &Value) -> (r: Option<Cmp>)
    ensures
        r == cmp_s(a@, b@),
{
    match (a, b) {
        (Value::Null, Value::Null) => Some(Cmp::Eq),
        (Value::Bool(x), Value::Bool(y)) => Some(
            if *x == *y {
                Cmp::Eq
            } else if !*x {
                Cmp::Lt
            } else {
                Cmp::Gt
            },
        ),
        (Value::Num(x), Value::Num(y)) => Some(num_cmp(x, y)),
        (Value::Str(x), Value::Str(y)) => Some(str_cmp(x.as_str(), y.as_str())),
        _ => None,
    }
}

/// The name of a value's type, as the `type` operator reports it.
pub open spec fn type_str_s(m: MVal) -> Seq<char> {
    match m {
        MVal::Null => "null"@,
        MVal::Bool(_) => "boolean"@,
        MVal::Num(_) => "number"@,
        MVal::Str(_) => "string"@,
        MVal::Arr(_) => "array"@,
        MVal::Obj(_) => "object"@,
    }
}

/// Report the type of a value as a string.
pub fn value_type(value: &Value) -> (r: &'static str)
    ensures
        r@ == type_str_s(value@),
{
    match value {
        Value::Null => "null",
        Value::Bool(_) => "boolean",
        Value::Num(_) => "number",
        Value::Str(_) => "string",
        Value::Arr(_) => "array",
        Value::Obj(_) => "object",
    }
}

/// Structural equality of two values: same shape, same contents.
pub fn value_eq(a: &Value, b: &Value) -> (r: bool)
    ensures
        r == (a@ == b@),
    decreases val_size(*a),
{
    match (a, b) {
        (Value::Null, Value::Null) => true,
        (Value::Bool(x), Value::Bool(y)) => *x == *y,
        (Value::Num(x), Value::Num(y)) => num_eq(x, y),
        (Value::Str(x), Value::Str(y)) => x.eq(y),
        (Value::Arr(xs), Value::Arr(ys)) => {
            proof {
                lemma_mval_list(xs@);
                lemma_mval_list(ys@);
            }
            if xs.len() != ys.len() {
                return false;
            }
            let mut i: usize = 0;
            loop
                invariant
                    i <= xs.len(),
                    xs.len() == ys.len(),
                    a == Value::Arr(*xs),
                    b == Value::Arr(*ys),
                    forall|j: int| 0 <= j < i ==> mval_of(xs@[j]) == mval_of(ys@[j]),
                ensures
                    i <= xs.len(),
                    forall|j: int| 0 <= j < i ==> mval_of(xs@[j]) == mval_of(ys@[j]),
                    i < xs.len() ==> mval_of(xs@[i as int]) != mval_of(ys@[i as int]),
                decreases xs.len() - i,
            {
                if i == xs.len() {
                    break;
                }
                proof {
                    lemma_val_list_size(xs@);
                    assert(*a == Value::Arr(*xs));
                    assert(val_size(*a) == 1 + val_list_size(xs@));
                    lemma_mval_list(xs@);
                    lemma_mval_list(ys@);
                }
                if !value_eq(&xs[i], &ys[i]) {
                    break;
                }
                i = i + 1;
            }
            if i == xs.len() {
                proof {
                    lemma_mval_list(xs@);
                    lemma_mval_list(ys@);
                    assert(mval_of_list(xs@) =~= mval_of_list(ys@));
                }
                true
            } else {
                proof {
                    lemma_mval_list(xs@);
                    lemma_mval_list(ys@);
                    assert(mval_of_list(xs@)[i as int] != mval_of_list(ys@)[i as int]);
                }
                false
            }
        },
        (Value::Obj(xs), Value::Obj(ys)) => {
            proof {
                lemma_mval_entries(xs@);
                lemma_mval_entries(ys@);
            }
            if xs.len() != ys.len() {
                return false;
            }
            let mut i: usize = 0;
            loop
                invariant
                    i <= xs.len(),
                    xs.len() == ys.len(),
                    a == Value::Obj(*xs),
                    b == Value::Obj(*ys),
                    forall|j: int|
                        0 <= j < i ==> (mval_of(xs@[j].0), mval_of(xs@[j].1)) == (
                        mval_of(ys@[j].0),
                        mval_of(ys@[j].1),
                        ),
                ensures
                    i <= xs.len(),
                    forall|j: int|
                        0 <= j < i ==> (mval_of(xs@[j].0), mval_of(xs@[j].1)) == (
                        mval_of(ys@[j].0),
                        mval_of(ys@[j].1),
                        ),
                    i < xs.len() ==> (mval_of(xs@[i as int].0), mval_of(xs@[i as int].1)) != (
                    mval_of(ys@[i as int].0),
                    mval_of(ys@[i as int].1),
                    ),
                decreases xs.len() - i,
            {
                if i == xs.len() {
                    break;
                }
                proof {
                    lemma_val_entries_size(xs@);
                    assert(*a == Value::Obj(*xs));
                    assert(val_size(*a) == 1 + val_entries_size(xs@));
                    lemma_mval_entries(xs@);
                    lemma_mval_entries(ys@);
                }
                if !value_eq(&xs[i].0, &ys[i].0) {
                    break;
                }
                if !value_eq(&xs[i].1, &ys[i].1) {
                    break;
                }
                i = i + 1;
            }
            if i == xs.len() {
                proof {
                    lemma_mval_entries(xs@);
                    lemma_mval_entries(ys@);
                    assert(mval_of_entries(xs@) =~= mval_of_entries(ys@));
                }
                true
            } else {
                proof {
                    lemma_mval_entries(xs@);
                    lemma_mval_entries(ys@);
                    assert(mval_of_entries(xs@)[i as int] != mval_of_entries(ys@)[i as int]);
                }
                false
            }
        },
        _ => false,
    }
}

/// Structural equality of two numbers: same path, same representation.
pub fn num_eq(a: &Number, b: &Number) -> (r: bool)
    ensures
        r == (a.model() == b.model()),
{
    match (a, b) {
        (Number::Int(x), Number::Int(y)) => *x == *y,
        (Number::Dec(x), Number::Dec(y)) => x.mantissa() == y.mantissa() && x.scale() == y.scale(),
        _ => false,
    }
}

} // verus!
