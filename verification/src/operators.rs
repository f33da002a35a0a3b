//! Executable operator library: one verified function per evaluation
//! rule that works on already-evaluated values. Each function is proved
//! to agree exactly with its specification in `semantics`.

use vstd::prelude::*;
use crate::num::{Number, MNum, Cmp, num_add, num_sub, num_mul, num_div, num_rem, num_is_zero,
    num_opt_model};
use crate::value::{Value, MVal, mval_of, mval_of_list, mval_of_entries, val_size, val_list_size,
    val_entries_size, lemma_mval_list, lemma_mval_entries, lemma_mval_push, lemma_mval_entries_push,
    lemma_val_list_size, lemma_val_entries_size, dup, value_eq, is_truthy, compare_values,
    value_type, truthy_s, type_str_s};
use crate::canon::{canon, canon_string, push_char};
use crate::errors::{EvalError, MErr};
use crate::semantics::{add_vals, sub_vals, mul_vals, div_vals, rem_vals, eq_vals, ne_vals,
    lt_vals, le_vals, gt_vals, ge_vals, keys_vals, length_vals, has_vals, field_vals, index_vals,
    slice_vals, iterate_vals, obj_values, sort_vals, sort_s, sort_acc, ins_sorted, ord_vals,
    reverse_vals, unique_vals, uniq_acc, flat_s, flatten_vals, first_vals, last_vals, addop_vals,
    add_nums, add_strs, tonumber_vals, int_text_val, dec_text_parts, all_digits, digits_val,
    rec_s, rec_list, rec_vals, obj_find, obj_set, lemma_obj_find, norm_idx, first_dot};

verus! {

broadcast use vstd::std_specs::vec::group_vec_axioms, vstd::seq::axiom_seq_index_decreases;

/// Model of an evaluation result.
pub open spec fn res_model(r: Result<Value, EvalError>) -> Result<MVal, MErr> {
    match r {
        Ok(v) => Ok(mval_of(v)),
        Err(e) => Err(e@),
    }
}

/// Model of a multi-valued evaluation result.
pub open spec fn multi_model(r: Result<Vec<Value>, EvalError>) -> Result<Seq<MVal>, MErr> {
    match r {
        Ok(vs) => Ok(mval_of_list(vs@)),
        Err(e) => Err(e@),
    }
}

pub proof fn lemma_mval_list_concat(a: Seq<Value>, b: Seq<Value>)
    ensures
        mval_of_list(a + b) == mval_of_list(a) + mval_of_list(b),
{
    broadcast use lemma_mval_list;

    assert(mval_of_list(a + b) =~= mval_of_list(a) + mval_of_list(b)) by {
        assert(forall|i: int| 0 <= i < a.len() ==> (a + b)[i] == a[i]);
        assert(forall|i: int| a.len() <= i < a.len() + b.len() ==> (a + b)[i] == b[i - a.len()]);
    }
}

/// The type name of a value as an owned string.
fn kind_of(v: &Value) -> (r: String)
    ensures
        r@ == type_str_s(v@),
{
    String::from_str(value_type(v))
}

/// Add two values: numbers add, strings and arrays concatenate.
pub fn add(a: &Value, b: &Value) -> (r: Result<Value, EvalError>)
    ensures
        res_model(r) == add_vals(a@, b@),
{
    match (a, b) {
        (Value::Num(x), Value::Num(y)) => match num_add(x, y) {
            Some(n) => Ok(Value::Num(n)),
            None => Err(EvalError::NumberOverflow),
        },
        (Value::Str(x), Value::Str(y)) => {
            let mut s = x.clone();
            s.append(y.as_str());
            Ok(Value::Str(s))
        },
        (Value::Arr(x), Value::Arr(y)) => {
            let mut out = arr_dup(x);
            let mut tail = arr_dup(y);
            proof {
                lemma_mval_list_concat(out@, tail@);
            }
            out.append(&mut tail);
            Ok(Value::Arr(out))
        },
        _ => Err(
            EvalError::CannotAdd { left: kind_of(a), right: kind_of(b) },
        ),
    }
}

/// A deep copy of a vector of values.
pub fn arr_dup(vs: &Vec<Value>) -> (r: Vec<Value>)
    ensures
        mval_of_list(r@) == mval_of_list(vs@),
        r@.len() == vs@.len(),
{
    let mut out: Vec<Value> = Vec::new();
    let mut i: usize = 0;
    while i < vs.len()
        invariant
            i <= vs.len(),
            out@.len() == i,
            mval_of_list(out@) == mval_of_list(vs@.take(i as int)),
        decreases vs.len() - i,
    {
        let d = dup(&vs[i]);
        proof {
            lemma_mval_push(out@, d);
            lemma_mval_push(vs@.take(i as int), vs@[i as int]);
            assert(vs@.take(i as int).push(vs@[i as int]) =~= vs@.take(i + 1));
        }
        out.push(d);
        i = i + 1;
    }
    proof {
        assert(vs@.take(vs@.len() as int) =~= vs@);
        broadcast use lemma_mval_list;

    }
    out
}

/// A deep copy of an object's entry list.
pub fn entries_dup(fs: &Vec<(Value, Value)>) -> (r: Vec<(Value, Value)>)
    ensures
        mval_of_entries(r@) == mval_of_entries(fs@),
        r@.len() == fs@.len(),
{
    let mut out: Vec<(Value, Value)> = Vec::new();
    let mut i: usize = 0;
    while i < fs.len()
        invariant
            i <= fs.len(),
            out@.len() == i,
            mval_of_entries(out@) == mval_of_entries(fs@.take(i as int)),
        decreases fs.len() - i,
    {
        let k = dup(&fs[i].0);
        let w = dup(&fs[i].1);
        proof {
            lemma_mval_entries_push(out@, (k, w));
            lemma_mval_entries_push(fs@.take(i as int), fs@[i as int]);
            assert(fs@.take(i as int).push(fs@[i as int]) =~= fs@.take(i + 1));
        }
        out.push((k, w));
        i = i + 1;
    }
    proof {
        assert(fs@.take(fs@.len() as int) =~= fs@);
    }
    out
}

/// Subtract two values: numbers only.
pub fn sub(a: &Value, b: &Value) -> (r: Result<Value, EvalError>)
    ensures
        res_model(r) == sub_vals(a@, b@),
{
    match (a, b) {
        (Value::Num(x), Value::Num(y)) => match num_sub(x, y) {
            Some(n) => Ok(Value::Num(n)),
            None => Err(EvalError::NumberOverflow),
        },
        _ => Err(
            EvalError::CannotSubtract { left: kind_of(a), right: kind_of(b) },
        ),
    }
}

/// Multiply two values: numbers only.
pub fn mul(a: &Value, b: &Value) -> (r: Result<Value, EvalError>)
    ensures
        res_model(r) == mul_vals(a@, b@),
{
    match (a, b) {
        (Value::Num(x), Value::Num(y)) => match num_mul(x, y) {
            Some(n) => Ok(Value::Num(n)),
            None => Err(EvalError::NumberOverflow),
        },
        _ => Err(
            EvalError::CannotMultiply { left: kind_of(a), right: kind_of(b) },
        ),
    }
}

/// Divide two values: numbers only, always a decimal result; a zero
/// divisor of either numeric form is an error.
pub fn div(a: &Value, b: &Value) -> (r: Result<Value, EvalError>)
    ensures
        res_model(r) == div_vals(a@, b@),
{
    match (a, b) {
        (Value::Num(x), Value::Num(y)) => {
            if num_is_zero(y) {
                Err(EvalError::DivisionByZero)
            } else {
                match num_div(x, y) {
                    Some(n) => Ok(Value::Num(n)),
                    None => Err(EvalError::NumberOverflow),
                }
            }
        },
        _ => Err(
            EvalError::CannotDivide { left: kind_of(a), right: kind_of(b) },
        ),
    }
}

/// Remainder of two values: numbers only; a zero divisor is an error.
pub fn modulo(a: &Value, b: &Value) -> (r: Result<Value, EvalError>)
    ensures
        res_model(r) == rem_vals(a@, b@),
{
    match (a, b) {
        (Value::Num(x), Value::Num(y)) => {
            if num_is_zero(y) {
                Err(EvalError::ModuloByZero)
            } else {
                match num_rem(x, y) {
                    Some(n) => Ok(Value::Num(n)),
                    None => Err(EvalError::NumberOverflow),
                }
            }
        },
        _ => Err(
            EvalError::CannotModulo { left: kind_of(a), right: kind_of(b) },
        ),
    }
}

/// Equality under the ordering rule.
pub fn equal(a: &Value, b: &Value) -> (r: Value)
    ensures
        r@ == MVal::Bool(eq_vals(a@, b@)),
{
    match compare_values(a, b) {
        Some(o) => Value::Bool(matches!(o, Cmp::Eq)),
        None => Value::Bool(false),
    }
}

/// Inequality under the ordering rule.
pub fn not_equal(a: &Value, b: &Value) -> (r: Value)
    ensures
        r@ == MVal::Bool(ne_vals(a@, b@)),
{
    match compare_values(a, b) {
        Some(o) => Value::Bool(!matches!(o, Cmp::Eq)),
        None => Value::Bool(true),
    }
}

/// Strictly less under the ordering rule.
pub fn less_than(a: &Value, b: &Value) -> (r: Value)
    ensures
        r@ == MVal::Bool(lt_vals(a@, b@)),
{
    match compare_values(a, b) {
        Some(o) => Value::Bool(matches!(o, Cmp::Lt)),
        None => Value::Bool(false),
    }
}

/// Less or equal under the ordering rule.
pub fn less_than_or_equal(a: &Value, b: &Value) -> (r: Value)
    ensures
        r@ == MVal::Bool(le_vals(a@, b@)),
{
    match compare_values(a, b) {
        Some(o) => Value::Bool(!matches!(o, Cmp::Gt)),
        None => Value::Bool(false),
    }
}

/// Strictly greater under the ordering rule.
pub fn greater_than(a: &Value, b: &Value) -> (r: Value)
    ensures
        r@ == MVal::Bool(gt_vals(a@, b@)),
{
    match compare_values(a, b) {
        Some(o) => Value::Bool(matches!(o, Cmp::Gt)),
        None => Value::Bool(false),
    }
}

/// Greater or equal under the ordering rule.
pub fn greater_than_or_equal(a: &Value, b: &Value) -> (r: Value)
    ensures
        r@ == MVal::Bool(ge_vals(a@, b@)),
{
    match compare_values(a, b) {
        Some(o) => Value::Bool(!matches!(o, Cmp::Lt)),
        None => Value::Bool(false),
    }
}

/// Truthiness negation, always a boolean.
pub fn not(v: &Value) -> (r: Value)
    ensures
        r@ == MVal::Bool(!truthy_s(v@)),
{
    Value::Bool(!is_truthy(v))
}

/// Index of the first entry with a structurally equal key, or the
/// entry count when the key is absent.
pub fn find_key(fs: &Vec<(Value, Value)>, k: &Value) -> (i: usize)
    ensures
        i as int == obj_find(mval_of_entries(fs@), k@),
{
    proof {
        lemma_mval_entries(fs@);
        lemma_obj_find(mval_of_entries(fs@), k@);
    }
    let mut i: usize = 0;
    loop
        invariant
            i <= fs@.len(),
            forall|j: int| 0 <= j < i ==> mval_of_entries(fs@)[j].0 != k@,
        ensures
            i <= fs@.len(),
            forall|j: int| 0 <= j < i ==> mval_of_entries(fs@)[j].0 != k@,
            i < fs@.len() ==> mval_of_entries(fs@)[i as int].0 == k@,
        decreases fs@.len() - i,
    {
        proof {
            lemma_mval_entries(fs@);
        }
        if i == fs.len() {
            break;
        }
        if value_eq(&fs[i].0, k) {
            break;
        }
        i = i + 1;
    }
    proof {
        let ms = mval_of_entries(fs@);
        lemma_mval_entries(fs@);
        lemma_obj_find(ms, k@);
        if i < fs@.len() {
            assert(obj_find(ms, k@) == i as int) by {
                if obj_find(ms, k@) < i as int {
                    assert(ms[obj_find(ms, k@)].0 != k@);
                }
                if obj_find(ms, k@) > i as int {
                    assert(ms[i as int].0 == k@);
                }
            }
        } else {
            if obj_find(ms, k@) < ms.len() {
                assert(ms[obj_find(ms, k@)].0 == k@);
                assert(false);
            }
        }
    }
    i
}

/// `keys`: the keys of an object in order, or the indices of an array.
pub fn keys(v: &Value) -> (r: Result<Value, EvalError>)
    ensures
        res_model(r) == keys_vals(v@),
{
    match v {
        Value::Obj(fs) => {
            proof {
                lemma_mval_entries(fs@);
            }
            let mut out: Vec<Value> = Vec::new();
            let mut i: usize = 0;
            proof {
                assert(mval_of_list(out@) =~= mval_of_entries(fs@).take(0).map_values(
                    |p: (MVal, MVal)| p.0,
                ));
            }
            while i < fs.len()
                invariant
                    i <= fs.len(),
                    out@.len() == i,
                    mval_of_list(out@) == mval_of_entries(fs@).take(i as int).map_values(
                        |p: (MVal, MVal)| p.0,
                    ),
                decreases fs.len() - i,
            {
                proof {
                    lemma_mval_entries(fs@);
                }
                let d = dup(&fs[i].0);
                proof {
                    lemma_mval_push(out@, d);
                    lemma_mval_entries(fs@);
                    assert(mval_of_entries(fs@).take(i + 1).map_values(|p: (MVal, MVal)| p.0)
                        =~= mval_of_entries(fs@).take(i as int).map_values(
                        |p: (MVal, MVal)| p.0,
                    ).push(mval_of(fs@[i as int].0)));
                }
                out.push(d);
                i = i + 1;
            }
            proof {
                lemma_mval_entries(fs@);
                let ms = mval_of_entries(fs@);
                assert(ms.take(ms.len() as int) =~= ms);
                assert(ms.map_values(|p: (MVal, MVal)| p.0) =~= Seq::new(
                    ms.len(),
                    |i: int| ms[i].0,
                ));
            }
            Ok(Value::Arr(out))
        },
        Value::Arr(vs) => {
            proof {
                lemma_mval_list(vs@);
            }
            if (vs.len() as u64) > 0x7fff_ffff_ffff_ffffu64 {
                return Err(EvalError::NumberOverflow);
            }
            let mut out: Vec<Value> = Vec::new();
            let mut i: usize = 0;
            proof {
                assert(mval_of_list(out@) =~= Seq::new(0, |j: int| MVal::Num(MNum::Int(j))));
            }
            while i < vs.len()
                invariant
                    i <= vs.len(),
                    vs.len() <= 0x7fff_ffff_ffff_ffff,
                    out@.len() == i,
                    mval_of_list(out@) == Seq::new(i as nat, |j: int| MVal::Num(MNum::Int(j))),
                decreases vs.len() - i,
            {
                let d = Value::Num(Number::Int(i as i64));
                proof {
                    lemma_mval_push(out@, d);
                    assert(Seq::new((i + 1) as nat, |j: int| MVal::Num(MNum::Int(j))) =~= Seq::new(
                        i as nat,
                        |j: int| MVal::Num(MNum::Int(j)),
                    ).push(MVal::Num(MNum::Int(i as int))));
                }
                out.push(d);
                i = i + 1;
            }
            proof {
                lemma_mval_list(vs@);
                assert(mval_of_list(vs@).len() == vs@.len());
            }
            Ok(Value::Arr(out))
        },
        _ => Err(EvalError::KeysOf { kind: kind_of(v) }),
    }
}

/// `length`: byte count of a string, element count of a container.
pub fn length(v: &Value) -> (r: Result<Value, EvalError>)
    ensures
        res_model(r) == length_vals(v@),
{
    match v {
        Value::Str(s) => {
            let b = s.as_str().as_bytes();
            let n = b.len();
            proof {
                broadcast use vstd::slice::axiom_spec_len;

                assert(n as nat == vstd::utf8::encode_utf8(s@).len());
            }
            if (n as u64) > 0x7fff_ffff_ffff_ffffu64 {
                Err(EvalError::NumberOverflow)
            } else {
                Ok(Value::Num(Number::Int(n as i64)))
            }
        },
        Value::Arr(vs) => {
            proof {
                lemma_mval_list(vs@);
            }
            if (vs.len() as u64) > 0x7fff_ffff_ffff_ffffu64 {
                Err(EvalError::NumberOverflow)
            } else {
                Ok(Value::Num(Number::Int(vs.len() as i64)))
            }
        },
        Value::Obj(fs) => {
            proof {
                lemma_mval_entries(fs@);
            }
            if (fs.len() as u64) > 0x7fff_ffff_ffff_ffffu64 {
                Err(EvalError::NumberOverflow)
            } else {
                Ok(Value::Num(Number::Int(fs.len() as i64)))
            }
        },
        _ => Err(EvalError::LengthOf { kind: kind_of(v) }),
    }
}

/// `has`: key membership of an object, index membership of an array.
pub fn has(target: &Value, key: &Value) -> (r: Value)
    ensures
        r@ == MVal::Bool(has_vals(target@, key@)),
{
    match target {
        Value::Obj(fs) => {
            let i = find_key(fs, key);
            proof {
                lemma_mval_entries(fs@);
                lemma_obj_find(mval_of_entries(fs@), key@);
            }
            Value::Bool(i < fs.len())
        },
        Value::Arr(vs) => {
            proof {
                lemma_mval_list(vs@);
            }
            match key {
                Value::Num(Number::Int(i)) => {
                    if *i < 0 {
                        let mag = (0i128 - (*i as i128)) as u128;
                        Value::Bool(mag <= vs.len() as u128)
                    } else {
                        Value::Bool((*i as u128) < vs.len() as u128)
                    }
                },
                _ => Value::Bool(false),
            }
        },
        _ => Value::Bool(false),
    }
}

/// Field access on an object; missing keys and non-objects are errors
/// naming the field.
pub fn field_access(target: &Value, field: &str) -> (r: Result<Value, EvalError>)
    ensures
        res_model(r) == field_vals(target@, field@),
{
    match target {
        Value::Obj(fs) => {
            let key = Value::Str(String::from_str(field));
            let i = find_key(fs, &key);
            proof {
                lemma_mval_entries(fs@);
                lemma_obj_find(mval_of_entries(fs@), key@);
            }
            if i < fs.len() {
                Ok(dup(&fs[i].1))
            } else {
                Err(EvalError::FieldNotFound { field: String::from_str(field) })
            }
        },
        _ => Err(EvalError::FieldOnNonObject { field: String::from_str(field) }),
    }
}

/// Index access with negative indices counted from the end.
pub fn index_access(target: &Value, index: isize) -> (r: Result<Value, EvalError>)
    ensures
        res_model(r) == index_vals(target@, index as int),
{
    match target {
        Value::Arr(vs) => {
            proof {
                lemma_mval_list(vs@);
            }
            if index < 0 {
                let mag = (0i128 - (index as i128)) as u128;
                if mag <= vs.len() as u128 {
                    let at = vs.len() - (mag as usize);
                    Ok(dup(&vs[at]))
                } else {
                    Err(EvalError::IndexOutOfBounds { index })
                }
            } else {
                if (index as u128) < vs.len() as u128 {
                    Ok(dup(&vs[index as usize]))
                } else {
                    Err(EvalError::IndexOutOfBounds { index })
                }
            }
        },
        _ => Err(EvalError::IndexOnNonArray),
    }
}

/// The sort comparator: unordered pairs count as equal.
pub fn ord_of(a: &Value, b: &Value) -> (r: Cmp)
    ensures
        r == ord_vals(a@, b@),
{
    match compare_values(a, b) {
        Some(o) => o,
        None => Cmp::Eq,
    }
}

proof fn lemma_ins_sorted_at(x: MVal, s: Seq<MVal>, j: int)
    requires
        0 <= j <= s.len(),
        forall|t: int| 0 <= t < j ==> ord_vals(x, #[trigger] s[t]) != Cmp::Lt,
        j < s.len() ==> ord_vals(x, s[j]) == Cmp::Lt,
    ensures
        ins_sorted(x, s) == s.take(j) + seq![x] + s.skip(j),
    decreases s,
{
    if s.len() == 0 {
        assert(ins_sorted(x, s) =~= s.take(j) + seq![x] + s.skip(j));
    } else if j == 0 {
        assert(ord_vals(x, s[0]) == Cmp::Lt);
        assert(ins_sorted(x, s) =~= s.take(0) + seq![x] + s.skip(0));
    } else {
        assert(ord_vals(x, s[0]) != Cmp::Lt);
        assert(forall|t: int|
            0 <= t < j - 1 ==> ord_vals(x, #[trigger] s.drop_first()[t]) != Cmp::Lt) by {
            assert(forall|t: int| 0 <= t < j - 1 ==> s.drop_first()[t] == s[t + 1]);
        }
        if j - 1 < s.drop_first().len() {
            assert(s.drop_first()[j - 1] == s[j]);
        }
        lemma_ins_sorted_at(x, s.drop_first(), j - 1);
        assert(ins_sorted(x, s) =~= s.take(j) + seq![x] + s.skip(j)) by {
            assert(s.drop_first().take(j - 1) =~= s.take(j).drop_first());
            assert(s.drop_first().skip(j - 1) =~= s.skip(j));
        }
    }
}

/// Insert a value into a sorted vector at the first place where it
/// compares strictly less, keeping the sort stable.
fn insert_sorted_vec(out: &mut Vec<Value>, x: Value)
    ensures
        mval_of_list(final(out)@) == ins_sorted(mval_of(x), mval_of_list(old(out)@)),
{
    proof {
        lemma_mval_list(out@);
    }
    let mut j: usize = 0;
    loop
        invariant
            j <= out@.len(),
            out@ == old(out)@,
            forall|t: int|
                0 <= t < j ==> ord_vals(mval_of(x), #[trigger] mval_of_list(out@)[t]) != Cmp::Lt,
        ensures
            j <= out@.len(),
            out@ == old(out)@,
            forall|t: int|
                0 <= t < j ==> ord_vals(mval_of(x), #[trigger] mval_of_list(out@)[t]) != Cmp::Lt,
            j < out@.len() ==> ord_vals(mval_of(x), mval_of_list(out@)[j as int]) == Cmp::Lt,
        decreases out@.len() - j,
    {
        proof {
            lemma_mval_list(out@);
        }
        if j == out.len() {
            break;
        }
        let o = ord_of(&x, &out[j]);
        if matches!(o, Cmp::Lt) {
            break;
        }
        j = j + 1;
    }
    proof {
        lemma_mval_list(out@);
        lemma_ins_sorted_at(mval_of(x), mval_of_list(out@), j as int);
    }
    let ghost pre = out@;
    out.insert(j, x);
    proof {
        lemma_mval_list(out@);
        lemma_mval_list(pre);
        assert(mval_of_list(out@) =~= mval_of_list(pre).take(j as int) + seq![mval_of(x)]
            + mval_of_list(pre).skip(j as int)) by {
            assert(forall|t: int| 0 <= t < j ==> out@[t] == pre[t]);
            assert(out@[j as int] == x);
            assert(forall|t: int| j < t < out@.len() ==> out@[t] == pre[t - 1]);
        }
    }
}

/// `sort`: arrays only, stable under the ordering rule.
#[verifier::loop_isolation(false)]
pub fn sort(v: &Value) -> (r: Result<Value, EvalError>)
    ensures
        res_model(r) == sort_vals(v@),
{
    match v {
        Value::Arr(vs) => {
            proof {
                lemma_mval_list(vs@);
            }
            let mut out: Vec<Value> = Vec::new();
            let mut i: usize = 0;
            proof {
                assert(mval_of_list(vs@).skip(0) =~= mval_of_list(vs@));
                assert(mval_of_list(out@) =~= Seq::<MVal>::empty());
            }
            while i < vs.len()
                invariant
                    i <= vs.len(),
                    sort_acc(mval_of_list(vs@).skip(i as int), mval_of_list(out@)) == sort_s(
                        mval_of_list(vs@),
                    ),
                decreases vs.len() - i,
            {
                let d = dup(&vs[i]);
                proof {
                    let ms = mval_of_list(vs@);
                    lemma_mval_list(vs@);
                    assert(ms.skip(i as int)[0] == ms[i as int]);
                    assert(ms.skip(i as int).drop_first() =~= ms.skip(i + 1));
                }
                insert_sorted_vec(&mut out, d);
                i = i + 1;
            }
            proof {
                assert(mval_of_list(vs@).skip(vs@.len() as int).len() == 0);
            }
            Ok(Value::Arr(out))
        },
        _ => Err(EvalError::SortOf { kind: kind_of(v) }),
    }
}

/// `reverse`: arrays by element, strings by character.
#[verifier::loop_isolation(false)]
pub fn reverse(v: &Value) -> (r: Result<Value, EvalError>)
    ensures
        res_model(r) == reverse_vals(v@),
{
    match v {
        Value::Arr(vs) => {
            proof {
                lemma_mval_list(vs@);
            }
            let mut out: Vec<Value> = Vec::new();
            let mut j: usize = vs.len();
            while j > 0
                invariant
                    j <= vs.len(),
                    out@.len() == vs@.len() - j,
                    forall|t: int|
                        0 <= t < out@.len() ==> #[trigger] mval_of_list(out@)[t] == mval_of_list(
                            vs@,
                        )[vs@.len() - 1 - t],
                decreases j,
            {
                j = j - 1;
                let d = dup(&vs[j]);
                proof {
                    lemma_mval_push(out@, d);
                    lemma_mval_list(out@);
                    lemma_mval_list(vs@);
                }
                out.push(d);
            }
            proof {
                lemma_mval_list(out@);
                lemma_mval_list(vs@);
                assert(mval_of_list(out@) =~= mval_of_list(vs@).reverse());
            }
            Ok(Value::Arr(out))
        },
        Value::Str(s) => {
            let n = s.as_str().unicode_len();
            let mut out = String::new();
            let mut j: usize = n;
            while j > 0
                invariant
                    j <= n,
                    n == s@.len(),
                    out@.len() == n - j,
                    forall|t: int| 0 <= t < out@.len() ==> #[trigger] out@[t] == s@[n - 1 - t],
                decreases j,
            {
                j = j - 1;
                let c = s.as_str().get_char(j);
                push_char(&mut out, c);
            }
            proof {
                assert(out@ =~= s@.reverse());
            }
            Ok(Value::Str(out))
        },
        _ => Err(EvalError::ReverseOf { kind: kind_of(v) }),
    }
}

/// Pointwise view of a vector of strings.
pub open spec fn strs_model(s: Seq<String>) -> Seq<Seq<char>> {
    Seq::new(s.len(), |i: int| s[i]@)
}

/// Whether a string is already among the seen canonical texts.
#[verifier::loop_isolation(false)]
fn seen_contains(seen: &Vec<String>, k: &String) -> (r: bool)
    ensures
        r == strs_model(seen@).contains(k@),
{
    let mut i: usize = 0;
    while i < seen.len()
        invariant
            i <= seen@.len(),
            forall|j: int| 0 <= j < i ==> strs_model(seen@)[j] != k@,
        decreases seen@.len() - i,
    {
        if seen[i].eq(k) {
            proof {
                assert(strs_model(seen@)[i as int] == k@);
            }
            return true;
        }
        i = i + 1;
    }
    proof {
        if strs_model(seen@).contains(k@) {
            let w = choose|j: int| 0 <= j < strs_model(seen@).len() && strs_model(seen@)[j] == k@;
            assert(strs_model(seen@)[w] != k@);
        }
    }
    false
}

/// `unique`: arrays only; keeps the first occurrence of each canonical
/// encoding, in order.
#[verifier::loop_isolation(false)]
pub fn unique(v: &Value) -> (r: Result<Value, EvalError>)
    ensures
        res_model(r) == unique_vals(v@),
{
    match v {
        Value::Arr(vs) => {
            proof {
                lemma_mval_list(vs@);
            }
            let mut out: Vec<Value> = Vec::new();
            let mut seen: Vec<String> = Vec::new();
            let mut i: usize = 0;
            proof {
                assert(mval_of_list(vs@).skip(0) =~= mval_of_list(vs@));
                assert(strs_model(seen@) =~= Seq::<Seq<char>>::empty());
                assert(mval_of_list(out@) =~= Seq::<MVal>::empty());
                assert(Seq::<MVal>::empty() + uniq_acc(mval_of_list(vs@), Seq::empty())
                    =~= uniq_acc(mval_of_list(vs@), Seq::empty()));
            }
            while i < vs.len()
                invariant
                    i <= vs.len(),
                    mval_of_list(out@) + uniq_acc(
                        mval_of_list(vs@).skip(i as int),
                        strs_model(seen@),
                    ) == uniq_acc(mval_of_list(vs@), Seq::empty()),
                decreases vs.len() - i,
            {
                let ghost ms = mval_of_list(vs@);
                proof {
                    lemma_mval_list(vs@);
                    assert(ms.skip(i as int)[0] == ms[i as int]);
                    assert(ms.skip(i as int).drop_first() =~= ms.skip(i + 1));
                }
                let key = canon_string(&vs[i]);
                if !seen_contains(&seen, &key) {
                    let d = dup(&vs[i]);
                    proof {
                        lemma_mval_push(out@, d);
                        assert(strs_model(seen@.push(key)) =~= strs_model(seen@).push(key@));
                        assert(mval_of_list(out@).push(mval_of(d)) + uniq_acc(
                            ms.skip(i + 1),
                            strs_model(seen@).push(canon(ms[i as int])),
                        ) =~= mval_of_list(out@) + (seq![ms[i as int]] + uniq_acc(
                            ms.skip(i + 1),
                            strs_model(seen@).push(canon(ms[i as int])),
                        )));
                    }
                    out.push(d);
                    seen.push(key);
                }
                i = i + 1;
            }
            proof {
                assert(mval_of_list(vs@).skip(vs@.len() as int).len() == 0);
                assert(mval_of_list(out@) + Seq::<MVal>::empty() =~= mval_of_list(out@));
            }
            Ok(Value::Arr(out))
        },
        _ => Err(EvalError::UniqueOf { kind: kind_of(v) }),
    }
}

/// `flatten`: one level; nested arrays are spliced in.
#[verifier::loop_isolation(false)]
pub fn flatten(v: &Value) -> (r: Result<Value, EvalError>)
    ensures
        res_model(r) == flatten_vals(v@),
{
    match v {
        Value::Arr(vs) => {
            proof {
                lemma_mval_list(vs@);
            }
            let mut out: Vec<Value> = Vec::new();
            let mut i: usize = 0;
            proof {
                assert(mval_of_list(vs@).skip(0) =~= mval_of_list(vs@));
                assert(mval_of_list(out@) =~= Seq::<MVal>::empty());
                assert(Seq::<MVal>::empty() + flat_s(mval_of_list(vs@)) =~= flat_s(
                    mval_of_list(vs@),
                ));
            }
            while i < vs.len()
                invariant
                    i <= vs.len(),
                    mval_of_list(out@) + flat_s(mval_of_list(vs@).skip(i as int)) == flat_s(
                        mval_of_list(vs@),
                    ),
                decreases vs.len() - i,
            {
                let ghost ms = mval_of_list(vs@);
                proof {
                    lemma_mval_list(vs@);
                    assert(ms.skip(i as int)[0] == ms[i as int]);
                    assert(ms.skip(i as int).drop_first() =~= ms.skip(i + 1));
                }
                match &vs[i] {
                    Value::Arr(inner) => {
                        let mut d = arr_dup(inner);
                        proof {
                            lemma_mval_list_concat(out@, d@);
                            assert((mval_of_list(out@) + mval_of_list(d@)) + flat_s(
                                ms.skip(i + 1),
                            ) =~= mval_of_list(out@) + (mval_of_list(d@) + flat_s(ms.skip(i + 1))));
                        }
                        out.append(&mut d);
                    },
                    other => {
                        let d = dup(other);
                        proof {
                            lemma_mval_push(out@, d);
                            assert(mval_of_list(out@).push(mval_of(d)) + flat_s(ms.skip(i + 1))
                                =~= mval_of_list(out@) + (seq![mval_of(d)] + flat_s(
                                ms.skip(i + 1),
                            )));
                        }
                        out.push(d);
                    },
                }
                i = i + 1;
            }
            proof {
                assert(mval_of_list(vs@).skip(vs@.len() as int).len() == 0);
                assert(mval_of_list(out@) + Seq::<MVal>::empty() =~= mval_of_list(out@));
            }
            Ok(Value::Arr(out))
        },
        _ => Err(EvalError::FlattenOf { kind: kind_of(v) }),
    }
}

/// `first`: the first element of an array.
pub fn first(v: &Value) -> (r: Result<Value, EvalError>)
    ensures
        res_model(r) == first_vals(v@),
{
    match v {
        Value::Arr(vs) => {
            proof {
                lemma_mval_list(vs@);
            }
            if vs.len() == 0 {
                Err(EvalError::FirstEmpty)
            } else {
                Ok(dup(&vs[0]))
            }
        },
        _ => Err(EvalError::FirstOf { kind: kind_of(v) }),
    }
}

/// `last`: the last element of an array.
pub fn last(v: &Value) -> (r: Result<Value, EvalError>)
    ensures
        res_model(r) == last_vals(v@),
{
    match v {
        Value::Arr(vs) => {
            proof {
                lemma_mval_list(vs@);
            }
            if vs.len() == 0 {
                Err(EvalError::LastEmpty)
            } else {
                Ok(dup(&vs[vs.len() - 1]))
            }
        },
        _ => Err(EvalError::LastOf { kind: kind_of(v) }),
    }
}

/// `add`: sum an array of numbers or concatenate an array of strings.
#[verifier::loop_isolation(false)]
pub fn addop(v: &Value) -> (r: Result<Value, EvalError>)
    ensures
        res_model(r) == addop_vals(v@),
{
    match v {
        Value::Arr(vs) => {
            proof {
                lemma_mval_list(vs@);
            }
            if vs.len() == 0 {
                return Ok(Value::Num(Number::Int(0)));
            }
            let ghost ms = mval_of_list(vs@);
            match &vs[0] {
                Value::Num(_) => {
                    let mut acc = Number::Int(0);
                    let mut i: usize = 0;
                    proof {
                        assert(ms.skip(0) =~= ms);
                    }
                    while i < vs.len()
                        invariant
                            i <= vs.len(),
                            ms == mval_of_list(vs@),
                            add_nums(ms.skip(i as int), acc.model()) == add_nums(
                                ms,
                                MNum::Int(0),
                            ),
                        decreases vs.len() - i,
                    {
                        proof {
                            lemma_mval_list(vs@);
                            assert(ms.skip(i as int)[0] == ms[i as int]);
                            assert(ms.skip(i as int).drop_first() =~= ms.skip(i + 1));
                        }
                        match &vs[i] {
                            Value::Num(n) => {
                                match num_add(&acc, n) {
                                    Some(t) => {
                                        acc = t;
                                    },
                                    None => {
                                        return Err(EvalError::NumberOverflow);
                                    },
                                }
                            },
                            _ => {
                                return Err(EvalError::AddNonNumeric);
                            },
                        }
                        i = i + 1;
                    }
                    proof {
                        assert(ms.skip(vs@.len() as int).len() == 0);
                    }
                    Ok(Value::Num(acc))
                },
                Value::Str(_) => {
                    let mut acc = String::new();
                    let mut i: usize = 0;
                    proof {
                        assert(ms.skip(0) =~= ms);
                        assert(acc@ =~= Seq::<char>::empty());
                    }
                    while i < vs.len()
                        invariant
                            i <= vs.len(),
                            ms == mval_of_list(vs@),
                            add_strs(ms.skip(i as int), acc@) == add_strs(ms, Seq::empty()),
                        decreases vs.len() - i,
                    {
                        proof {
                            lemma_mval_list(vs@);
                            assert(ms.skip(i as int)[0] == ms[i as int]);
                            assert(ms.skip(i as int).drop_first() =~= ms.skip(i + 1));
                        }
                        match &vs[i] {
                            Value::Str(t) => {
                                acc.append(t.as_str());
                            },
                            _ => {
                                return Err(EvalError::AddNonString);
                            },
                        }
                        i = i + 1;
                    }
                    proof {
                        assert(ms.skip(vs@.len() as int).len() == 0);
                    }
                    Ok(Value::Str(acc))
                },
                _ => Err(EvalError::AddNonNumeric),
            }
        },
        _ => Err(EvalError::AddElementsOf { kind: kind_of(v) }),
    }
}

/// A slice endpoint normalized against a length.
pub fn normalize_index(i: isize, n: usize) -> (r: usize)
    ensures
        r as int == norm_idx(i as int, n as int),
        r <= n || i as int == r,
{
    if i < 0 {
        let mag = (0i128 - (i as i128)) as u128;
        if mag >= n as u128 {
            0
        } else {
            n - (mag as usize)
        }
    } else {
        i as usize
    }
}

/// Slice of an array or string, with normalized optional endpoints.
#[verifier::loop_isolation(false)]
pub fn slice(target: &Value, start: Option<isize>, end: Option<isize>) -> (r: Result<
    Value,
    EvalError,
>)
    ensures
        res_model(r) == slice_vals(
            target@,
            match start {
                Some(i) => Some(i as int),
                None => None,
            },
            match end {
                Some(i) => Some(i as int),
                None => None,
            },
        ),
{
    match target {
        Value::Arr(vs) => {
            proof {
                lemma_mval_list(vs@);
            }
            let n = vs.len();
            let s0 = match start {
                Some(i) => normalize_index(i, n),
                None => 0,
            };
            let e0 = match end {
                Some(i) => normalize_index(i, n),
                None => n,
            };
            let s1 = if s0 < n {
                s0
            } else {
                n
            };
            let e1 = if e0 < n {
                e0
            } else {
                n
            };
            if s1 >= e1 {
                Ok(Value::Arr(Vec::new()))
            } else {
                let mut out: Vec<Value> = Vec::new();
                let mut j: usize = s1;
                while j < e1
                    invariant
                        s1 <= j <= e1,
                        out@.len() == j - s1,
                        mval_of_list(out@) == mval_of_list(vs@).subrange(s1 as int, j as int),
                    decreases e1 - j,
                {
                    let d = dup(&vs[j]);
                    proof {
                        lemma_mval_push(out@, d);
                        lemma_mval_list(vs@);
                        assert(mval_of_list(vs@).subrange(s1 as int, j + 1) =~= mval_of_list(
                            vs@,
                        ).subrange(s1 as int, j as int).push(mval_of_list(vs@)[j as int]));
                    }
                    out.push(d);
                    j = j + 1;
                }
                Ok(Value::Arr(out))
            }
        },
        Value::Str(cs) => {
            let n = cs.as_str().unicode_len();
            let s0 = match start {
                Some(i) => normalize_index(i, n),
                None => 0,
            };
            let e0 = match end {
                Some(i) => normalize_index(i, n),
                None => n,
            };
            let s1 = if s0 < n {
                s0
            } else {
                n
            };
            let e1 = if e0 < n {
                e0
            } else {
                n
            };
            if s1 >= e1 {
                Ok(Value::Str(String::new()))
            } else {
                let piece = cs.as_str().substring_char(s1, e1);
                Ok(Value::Str(piece.to_owned()))
            }
        },
        _ => Err(EvalError::SliceOf { kind: kind_of(target) }),
    }
}

/// The single-valued form of iteration: elements of an array or the
/// values of an object, as one array.
#[verifier::loop_isolation(false)]
pub fn iterate(v: &Value) -> (r: Result<Value, EvalError>)
    ensures
        res_model(r) == iterate_vals(v@),
{
    match v {
        Value::Arr(_) => Ok(dup(v)),
        Value::Obj(fs) => {
            proof {
                lemma_mval_entries(fs@);
            }
            let vals = obj_values_vec(fs);
            Ok(Value::Arr(vals))
        },
        _ => Err(EvalError::CannotIterate),
    }
}

/// The values of an object's entries, in order, deep-copied.
#[verifier::loop_isolation(false)]
pub fn obj_values_vec(fs: &Vec<(Value, Value)>) -> (r: Vec<Value>)
    ensures
        mval_of_list(r@) == obj_values(mval_of_entries(fs@)),
{
    proof {
        lemma_mval_entries(fs@);
    }
    let mut out: Vec<Value> = Vec::new();
    let mut i: usize = 0;
    while i < fs.len()
        invariant
            i <= fs.len(),
            out@.len() == i,
            forall|t: int|
                0 <= t < i ==> #[trigger] mval_of_list(out@)[t] == mval_of_entries(fs@)[t].1,
        decreases fs.len() - i,
    {
        let d = dup(&fs[i].1);
        proof {
            lemma_mval_push(out@, d);
            lemma_mval_list(out@);
            lemma_mval_entries(fs@);
        }
        out.push(d);
        i = i + 1;
    }
    proof {
        lemma_mval_list(out@);
        assert(mval_of_list(out@) =~= obj_values(mval_of_entries(fs@)));
    }
    out
}

proof fn lemma_digits_prefix(s: Seq<char>, i: int)
    requires
        0 <= i <= s.len(),
        all_digits(s),
    ensures
        digits_val(s.take(i)) <= digits_val(s),
    decreases s.len() - i,
{
    if i < s.len() {
        lemma_digits_prefix(s, i + 1);
        assert(s.take(i + 1).drop_last() =~= s.take(i));
        assert(s.take(i + 1).last() == s[i]);
        assert('0' <= s[i] <= '9');
        assert(digits_val(s.take(i + 1)) == (digits_val(s.take(i)) * 10 + (s[i] as int - 48))
            as nat);
    } else {
        assert(s.take(i) =~= s);
    }
}

/// Parse an optionally signed digit run as a machine integer; `None`
/// when the text has another shape or the value does not fit.
#[verifier::loop_isolation(false)]
fn parse_int_text(s: &str) -> (r: Option<i64>)
    ensures
        match int_text_val(s@) {
            Some(i) => if -0x8000_0000_0000_0000 <= i <= 0x7fff_ffff_ffff_ffff {
                r == Some(i as i64)
            } else {
                r is None
            },
            None => r is None,
        },
{
    let n = s.unicode_len();
    if n == 0 {
        return None;
    }
    let c0 = s.get_char(0);
    let neg = c0 == '-';
    let start: usize = if c0 == '-' || c0 == '+' {
        1
    } else {
        0
    };
    if start == n {
        return None;
    }
    let ghost ds: Seq<char> = if start == 1 {
        s@.drop_first()
    } else {
        s@
    };
    proof {
        if start == 1 {
            assert(forall|t: int| 0 <= t < ds.len() ==> ds[t] == s@[t + 1]);
        }
        assert(ds.take(0) =~= Seq::<char>::empty());
    }
    let mut acc: i128 = 0;
    let mut k: usize = start;
    while k < n
        invariant
            start <= k <= n,
            n == s@.len(),
            start == 0 || start == 1,
            ds == if start == 1 {
                s@.drop_first()
            } else {
                s@
            },
            ds.len() == n - start,
            forall|t: int| 0 <= t < k - start ==> ds[t] == s@[t + start],
            all_digits(ds.take(k - start)),
            acc == digits_val(ds.take(k - start)),
            0 <= acc <= 0x8000_0000_0000_0000,
        decreases n - k,
    {
        let c = s.get_char(k);
        if c < '0' || c > '9' {
            proof {
                assert(ds[(k - start) as int] == s@[k as int]);
                assert(!all_digits(ds));
            }
            return None;
        }
        let d: u32 = (c as u32) - 48;
        proof {
            assert(ds.take(k - start + 1).drop_last() =~= ds.take((k - start) as int));
            assert(ds.take(k - start + 1).last() == ds[(k - start) as int]);
            assert(ds[(k - start) as int] == s@[k as int]);
        }
        acc = acc * 10 + (d as i128);
        if acc > 0x8000_0000_0000_0000i128 {
            proof {
                if all_digits(ds) {
                    lemma_digits_prefix(ds, k - start + 1);
                }
            }
            return None;
        }
        k = k + 1;
    }
    proof {
        assert(ds.take((n - start) as int) =~= ds);
    }
    if neg {
        if acc <= 0x8000_0000_0000_0000i128 {
            Some((0i128 - acc) as i64)
        } else {
            None
        }
    } else {
        if acc <= 0x7fff_ffff_ffff_ffffi128 {
            Some(acc as i64)
        } else {
            None
        }
    }
}

/// First position of a point character at or after `start`, or the
/// text's length when there is none.
fn find_dot(s: &str, start: usize) -> (p: usize)
    requires
        start <= s@.len(),
    ensures
        start <= p <= s@.len(),
        p < s@.len() ==> s@[p as int] == '.',
        forall|t: int| start <= t < p ==> s@[t] != '.',
{
    let n = s.unicode_len();
    let mut p: usize = start;
    loop
        invariant
            start <= p <= n,
            n == s@.len(),
            forall|t: int| start <= t < p ==> s@[t] != '.',
        ensures
            start <= p <= n,
            forall|t: int| start <= t < p ==> s@[t] != '.',
            p < n ==> s@[p as int] == '.',
        decreases n - p,
    {
        if p == n {
            break;
        }
        let c = s.get_char(p);
        if c == '.' {
            break;
        }
        p = p + 1;
    }
    p
}

/// Parse a decimal text into a normalized number; `None` when the text
/// has another shape or the mantissa does not fit.
#[verifier::loop_isolation(false)]
#[verifier::rlimit(80)]
fn parse_dec_text(s: &str) -> (r: Option<Number>)
    ensures
        match dec_text_parts(s@) {
            Some(p) => if p.1 <= 18 && -0x8000_0000_0000_0000 <= p.0 <= 0x7fff_ffff_ffff_ffff {
                num_opt_model(r) == crate::num::dfin(p.0, p.1)
            } else {
                r is None
            },
            None => r is None,
        },
{
    let n = s.unicode_len();
    if n == 0 {
        proof {
            assert(dec_text_parts(s@) is None);
        }
        return None;
    }
    let c0 = s.get_char(0);
    let neg = c0 == '-';
    let start: usize = if c0 == '-' || c0 == '+' {
        1
    } else {
        0
    };
    let ghost ds: Seq<char> = if start == 1 {
        s@.drop_first()
    } else {
        s@
    };
    proof {
        if start == 1 {
            assert(forall|t: int| 0 <= t < ds.len() ==> ds[t] == s@[t + 1]);
        }
    }
    let p = find_dot(s, start);
    proof {
        assert(forall|t: int| 0 <= t < p - start ==> ds[t] == s@[t + start]);
        crate::semantics::lemma_first_dot(ds);
        if p == n {
            assert(first_dot(ds) >= ds.len()) by {
                if first_dot(ds) < ds.len() {
                    assert(ds[first_dot(ds)] != '.');
                }
            }
        } else {
            assert(ds[(p - start) as int] == '.');
            assert(first_dot(ds) == p - start) by {
                if first_dot(ds) < p - start {
                    assert(ds[first_dot(ds)] != '.');
                }
                if first_dot(ds) > p - start {
                    assert(ds[(p - start) as int] != '.');
                }
            }
        }
    }
    if p == n {
        proof {
            assert(dec_text_parts(s@) is None);
        }
        return None;
    }
    if n - start - 1 == 0 {
        // a bare point with a possible sign: no digits at all
        proof {
            let whole0 = ds.take((p - start) as int);
            let frac0 = ds.skip((p - start + 1) as int);
            assert(whole0.len() + frac0.len() == 0);
            assert(dec_text_parts(s@) is None);
        }
        return None;
    }
    let frac_len: usize = n - p - 1;
    if frac_len > 18 {
        return None;
    }
    let ghost whole = ds.take((p - start) as int);
    let ghost frac = ds.skip((p - start + 1) as int);
    let ghost digits = whole + frac;
    let mut acc: i128 = 0;
    let mut k: usize = start;
    proof {
        assert(digits.take(0) =~= Seq::<char>::empty());
    }
    while k < n
        invariant
            start <= k <= n,
            n == s@.len(),
            start == 0 || start == 1,
            start <= p < n,
            ds == if start == 1 {
                s@.drop_first()
            } else {
                s@
            },
            ds.len() == n - start,
            ds[(p - start) as int] == '.',
            whole == ds.take((p - start) as int),
            frac == ds.skip((p - start + 1) as int),
            digits == whole + frac,
            k <= p ==> all_digits(digits.take((k - start) as int)) && acc == digits_val(
                digits.take((k - start) as int),
            ),
            k > p ==> k >= p + 1 && all_digits(digits.take((k - start - 1) as int)) && acc
                == digits_val(digits.take((k - start - 1) as int)),
            0 <= acc <= 0x8000_0000_0000_0000,
        decreases n - k,
    {
        if k == p {
            k = k + 1;
            continue ;
        }
        let c = s.get_char(k);
        if c < '0' || c > '9' {
            proof {
                assert(ds[(k - start) as int] == s@[k as int]);
                if k < p {
                    assert(whole[(k - start) as int] == c);
                    assert(!all_digits(whole));
                } else {
                    assert(frac[(k - p - 1) as int] == ds[(k - start) as int]);
                    assert(!all_digits(frac));
                }
            }
            proof {
                assert(dec_text_parts(s@) is None);
            }
            return None;
        }
        let d: u32 = (c as u32) - 48;
        let ghost pos: int = if k < p {
            k - start
        } else {
            k - start - 1
        };
        proof {
            assert(digits.len() == ds.len() - 1);
            if k < p {
                assert(digits[pos] == whole[pos]);
                assert(whole[pos] == ds[pos]);
                assert(ds[pos] == s@[k as int]);
            } else {
                assert(digits[pos] == frac[pos - whole.len()]);
                assert(frac[pos - whole.len()] == ds[pos - whole.len() + (p - start + 1)]);
                assert(ds[(k - start) as int] == s@[k as int]);
            }
            assert(digits.take(pos + 1).drop_last() =~= digits.take(pos));
            assert(digits.take(pos + 1).last() == digits[pos]);
        }
        acc = acc * 10 + (d as i128);
        if acc > 0x8000_0000_0000_0000i128 {
            proof {
                if all_digits(whole) && all_digits(frac) {
                    assert forall|t: int| 0 <= t < digits.len() implies '0' <= #[trigger] digits[t]
                        <= '9' by {
                        if t < whole.len() {
                            assert(digits[t] == whole[t]);
                        } else {
                            assert(digits[t] == frac[t - whole.len()]);
                        }
                    }
                    assert(all_digits(digits));
                    lemma_digits_prefix(digits, pos + 1);
                }
            }
            return None;
        }
        k = k + 1;
    }
    proof {
        assert(digits.take((n - start - 1) as int) =~= digits);
        assert(forall|t: int| 0 <= t < whole.len() ==> #[trigger] whole[t] == digits[t]);
        assert(forall|t: int|
            0 <= t < frac.len() ==> #[trigger] frac[t] == digits[whole.len() + t]);
        assert(all_digits(whole));
        assert(all_digits(frac));
    }
    let m: i64 = if neg {
        if acc > 0x8000_0000_0000_0000i128 {
            return None;
        }
        (0i128 - acc) as i64
    } else {
        if acc > 0x7fff_ffff_ffff_ffffi128 {
            return None;
        }
        acc as i64
    };
    crate::num::dec_from_parts(m, frac_len as u32)
}

/// `tonumber`: numbers pass through, strings parse, anything else is
/// an error.
pub fn tonumber(v: &Value) -> (r: Result<Value, EvalError>)
    ensures
        res_model(r) == tonumber_vals(v@),
{
    match v {
        Value::Num(_) => Ok(dup(v)),
        Value::Str(s) => {
            match parse_int_text(s.as_str()) {
                Some(i) => Ok(Value::Num(Number::Int(i))),
                None => match parse_dec_text(s.as_str()) {
                    Some(nm) => Ok(Value::Num(nm)),
                    None => Err(EvalError::ParseNumber { text: s.clone() }),
                },
            }
        },
        _ => Err(EvalError::ToNumberOf { kind: kind_of(v) }),
    }
}

/// Collect a value and all of its descendants, depth first, the value
/// itself first.
#[verifier::loop_isolation(false)]
#[verifier::rlimit(60)]
pub fn collect_values(value: &Value, results: &mut Vec<Value>)
    ensures
        mval_of_list(final(results)@) == mval_of_list(old(results)@) + rec_s(value@),
    decreases val_size(*value),
{
    let d = dup(value);
    proof {
        lemma_mval_push(results@, d);
    }
    results.push(d);
    match value {
        Value::Arr(vs) => {
            proof {
                lemma_mval_list(vs@);
                lemma_val_list_size(vs@);
                assert(*value == Value::Arr(*vs));
                assert(val_size(*value) == 1 + val_list_size(vs@));
                let ms = mval_of_list(vs@);
                assert(ms.skip(0) =~= ms);
                assert(mval_of_list(results@) =~= mval_of_list(old(results)@).push(value@));
                assert(mval_of_list(old(results)@).push(value@) + rec_list(ms) =~= mval_of_list(
                    old(results)@,
                ) + (seq![value@] + rec_list(ms)));
            }
            let mut i: usize = 0;
            while i < vs.len()
                invariant
                    i <= vs.len(),
                    mval_of_list(results@) + rec_list(mval_of_list(vs@).skip(i as int))
                        == mval_of_list(old(results)@) + rec_s(value@),
                decreases vs.len() - i,
            {
                let ghost ms = mval_of_list(vs@);
                proof {
                    lemma_mval_list(vs@);
                    lemma_val_list_size(vs@);
                    assert(ms.skip(i as int)[0] == ms[i as int]);
                    assert(ms.skip(i as int).drop_first() =~= ms.skip(i + 1));
                }
                let ghost pre = results@;
                collect_values(&vs[i], results);
                proof {
                    assert((mval_of_list(pre) + rec_s(ms[i as int])) + rec_list(ms.skip(i + 1))
                        =~= mval_of_list(pre) + (rec_s(ms[i as int]) + rec_list(ms.skip(i + 1))));
                }
                i = i + 1;
            }
            proof {
                assert(mval_of_list(vs@).skip(vs@.len() as int).len() == 0);
                assert(mval_of_list(results@) + Seq::<MVal>::empty() =~= mval_of_list(results@));
            }
        },
        Value::Obj(fs) => {
            proof {
                lemma_mval_entries(fs@);
                lemma_val_entries_size(fs@);
                assert(*value == Value::Obj(*fs));
                assert(val_size(*value) == 1 + val_entries_size(fs@));
                let ms = mval_of_entries(fs@);
                assert(ms.skip(0) =~= ms);
                assert(mval_of_list(results@) =~= mval_of_list(old(results)@).push(value@));
                assert(mval_of_list(old(results)@).push(value@) + rec_vals(ms) =~= mval_of_list(
                    old(results)@,
                ) + (seq![value@] + rec_vals(ms)));
            }
            let mut i: usize = 0;
            while i < fs.len()
                invariant
                    i <= fs.len(),
                    mval_of_list(results@) + rec_vals(mval_of_entries(fs@).skip(i as int))
                        == mval_of_list(old(results)@) + rec_s(value@),
                decreases fs.len() - i,
            {
                let ghost ms = mval_of_entries(fs@);
                proof {
                    lemma_mval_entries(fs@);
                    lemma_val_entries_size(fs@);
                    assert(ms.skip(i as int)[0] == ms[i as int]);
                    assert(ms.skip(i as int).drop_first() =~= ms.skip(i + 1));
                }
                let ghost pre = results@;
                collect_values(&fs[i].1, results);
                proof {
                    assert((mval_of_list(pre) + rec_s(ms[i as int].1)) + rec_vals(ms.skip(i + 1))
                        =~= mval_of_list(pre) + (rec_s(ms[i as int].1) + rec_vals(
                        ms.skip(i + 1),
                    )));
                }
                i = i + 1;
            }
            proof {
                assert(mval_of_entries(fs@).skip(fs@.len() as int).len() == 0);
                assert(mval_of_list(results@) + Seq::<MVal>::empty() =~= mval_of_list(results@));
            }
        },
        _ => {
            proof {
                assert(mval_of_list(results@) =~= mval_of_list(old(results)@) + rec_s(value@));
            }
        },
    }
}

/// The full recursive traversal of the current value, as an array.
pub fn recurse(current: &Value) -> (r: Value)
    ensures
        r@ == MVal::Arr(rec_s(current@)),
{
    let mut results: Vec<Value> = Vec::new();
    proof {
        assert(Seq::<MVal>::empty() + rec_s(current@) =~= rec_s(current@));
    }
    collect_values(current, &mut results);
    Value::Arr(results)
}

/// Set one field of an object's entry list: an existing key keeps its
/// position and key value, a new key is appended.
#[verifier::loop_isolation(false)]
pub fn set_entry(fs: &mut Vec<(Value, Value)>, k: Value, v: Value)
    ensures
        mval_of_entries(final(fs)@) == obj_set(mval_of_entries(old(fs)@), k@, v@),
{
    let i = find_key(fs, &k);
    proof {
        lemma_mval_entries(fs@);
        lemma_obj_find(mval_of_entries(fs@), k@);
    }
    if i < fs.len() {
        let old_key = dup(&fs[i].0);
        let ghost pre = fs@;
        fs.set(i, (old_key, v));
        proof {
            lemma_mval_entries(fs@);
            lemma_mval_entries(pre);
            assert(mval_of_entries(fs@) =~= obj_set(mval_of_entries(pre), k@, v@)) by {
                assert(forall|t: int| 0 <= t < fs@.len() && t != i ==> fs@[t] == pre[t]);
            }
        }
    } else {
        proof {
            lemma_mval_entries_push(fs@, (k, v));
        }
        fs.push((k, v));
    }
}

} // verus!
