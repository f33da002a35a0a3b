//! The mathematical semantics of evaluation: one specification function
//! per operator over the value model, and the two recursive evaluation
//! functions `eval_s` (single result) and `eval_multi_s` (a stream of
//! results). The executable evaluator is proved to agree with these
//! functions exactly.

use vstd::prelude::*;
use crate::num::{MNum, num_add_s, num_sub_s, num_mul_s, num_div_s, num_rem_s, num_is_zero_s,
    num_cmp_s, Cmp};
use crate::value::{MVal, mval_of, truthy_s, cmp_s, type_str_s};
use crate::canon::{canon, vts, num_str};
use crate::errors::MErr;
use crate::ast::{Expression, expr_size, expr_list_size, expr_pairs_size, lemma_expr_size_pos,
    lemma_expr_list_size, lemma_expr_pairs_size};

verus! {

/// Model of an evaluation context: the current value and the variables
/// in scope.
pub struct MCtx {
    pub value: MVal,
    pub vars: Seq<(Seq<char>, MVal)>,
}

/// The child context used for a nested scope: a new current value, the
/// same variables.
pub open spec fn child_s(c: MCtx, v: MVal) -> MCtx {
    MCtx { value: v, vars: c.vars }
}

/// First match in an association sequence.
pub open spec fn assoc_find<V>(s: Seq<(Seq<char>, V)>, key: Seq<char>) -> Option<V>
    decreases s,
{
    if s.len() == 0 {
        None
    } else if s[0].0 == key {
        Some(s[0].1)
    } else {
        assoc_find(s.drop_first(), key)
    }
}

/// Bind or rebind a name in an association sequence, keeping positions.
pub open spec fn assoc_set<V>(s: Seq<(Seq<char>, V)>, key: Seq<char>, v: V) -> Seq<(Seq<char>, V)>
    decreases s,
{
    if s.len() == 0 {
        seq![(key, v)]
    } else if s[0].0 == key {
        seq![(key, v)] + s.drop_first()
    } else {
        seq![s[0]] + assoc_set(s.drop_first(), key, v)
    }
}

pub proof fn lemma_assoc_find_at<V>(s: Seq<(Seq<char>, V)>, key: Seq<char>, i: int)
    requires
        0 <= i < s.len(),
        s[i].0 == key,
        forall|j: int| 0 <= j < i ==> s[j].0 != key,
    ensures
        assoc_find(s, key) == Some(s[i].1),
    decreases s,
{
    if i > 0 {
        assert(forall|j: int| 0 <= j < i - 1 ==> s.drop_first()[j] == s[j + 1]);
        assert(s.drop_first()[i - 1] == s[i]);
        lemma_assoc_find_at(s.drop_first(), key, i - 1);
    }
}

pub proof fn lemma_assoc_find_none<V>(s: Seq<(Seq<char>, V)>, key: Seq<char>)
    requires
        forall|j: int| 0 <= j < s.len() ==> s[j].0 != key,
    ensures
        assoc_find(s, key) is None,
    decreases s,
{
    if s.len() > 0 {
        assert(forall|j: int| 0 <= j < s.len() - 1 ==> s.drop_first()[j] == s[j + 1]);
        lemma_assoc_find_none(s.drop_first(), key);
    }
}

pub proof fn lemma_assoc_set_at<V>(s: Seq<(Seq<char>, V)>, key: Seq<char>, v: V, i: int)
    requires
        0 <= i < s.len(),
        s[i].0 == key,
        forall|j: int| 0 <= j < i ==> s[j].0 != key,
    ensures
        assoc_set(s, key, v) == s.update(i, (key, v)),
    decreases s,
{
    if i == 0 {
        assert(assoc_set(s, key, v) =~= s.update(0, (key, v)));
    } else {
        assert(forall|j: int| 0 <= j < i - 1 ==> s.drop_first()[j] == s[j + 1]);
        assert(s.drop_first()[i - 1] == s[i]);
        lemma_assoc_set_at(s.drop_first(), key, v, i - 1);
        assert(assoc_set(s, key, v) =~= s.update(i, (key, v))) by {
            assert(s.drop_first().update(i - 1, (key, v)) =~= s.update(i, (key, v)).drop_first());
        }
    }
}

pub proof fn lemma_assoc_set_new<V>(s: Seq<(Seq<char>, V)>, key: Seq<char>, v: V)
    requires
        forall|j: int| 0 <= j < s.len() ==> s[j].0 != key,
    ensures
        assoc_set(s, key, v) == s.push((key, v)),
    decreases s,
{
    if s.len() == 0 {
        assert(assoc_set(s, key, v) =~= s.push((key, v)));
    } else {
        assert(forall|j: int| 0 <= j < s.len() - 1 ==> s.drop_first()[j] == s[j + 1]);
        lemma_assoc_set_new(s.drop_first(), key, v);
        assert(assoc_set(s, key, v) =~= s.push((key, v))) by {
            assert(s.drop_first().push((key, v)) =~= s.push((key, v)).drop_first());
        }
    }
}

/// Index of the first entry of an object with a given key, or the
/// number of entries when the key is absent.
pub open spec fn obj_find(s: Seq<(MVal, MVal)>, k: MVal) -> int
    decreases s,
{
    if s.len() == 0 {
        0
    } else if s[0].0 == k {
        0
    } else {
        1 + obj_find(s.drop_first(), k)
    }
}

/// Whether an object has an entry with a given key.
pub open spec fn obj_has(s: Seq<(MVal, MVal)>, k: MVal) -> bool {
    obj_find(s, k) < s.len()
}

/// The value under a key; meaningful only when `obj_has` holds.
pub open spec fn obj_get(s: Seq<(MVal, MVal)>, k: MVal) -> MVal {
    s[obj_find(s, k)].1
}

/// Set a key to a value: an existing entry keeps its position and its
/// key, a new entry is appended.
pub open spec fn obj_set(s: Seq<(MVal, MVal)>, k: MVal, v: MVal) -> Seq<(MVal, MVal)> {
    if obj_has(s, k) {
        s.update(obj_find(s, k), (s[obj_find(s, k)].0, v))
    } else {
        s.push((k, v))
    }
}

pub broadcast proof fn lemma_obj_find(s: Seq<(MVal, MVal)>, k: MVal)
    ensures
        #![trigger obj_find(s, k)]
        0 <= obj_find(s, k) <= s.len(),
        obj_find(s, k) < s.len() ==> s[obj_find(s, k)].0 == k,
        forall|j: int| 0 <= j < obj_find(s, k) ==> s[j].0 != k,
    decreases s,
{
    if s.len() > 0 && s[0].0 != k {
        lemma_obj_find(s.drop_first(), k);
        assert forall|j: int| 0 <= j < obj_find(s, k) implies s[j].0 != k by {
            if j > 0 {
                assert(s.drop_first()[j - 1] == s[j]);
            }
        }
    }
}

/// Sum of two values: numbers add, strings and arrays concatenate.
pub open spec fn add_vals(a: MVal, b: MVal) -> Result<MVal, MErr> {
    match (a, b) {
        (MVal::Num(x), MVal::Num(y)) => match num_add_s(x, y) {
            Some(n) => Ok(MVal::Num(n)),
            None => Err(MErr::NumberOverflow),
        },
        (MVal::Str(x), MVal::Str(y)) => Ok(MVal::Str(x + y)),
        (MVal::Arr(x), MVal::Arr(y)) => Ok(MVal::Arr(x + y)),
        _ => Err(MErr::CannotAdd { left: type_str_s(a), right: type_str_s(b) }),
    }
}

/// Difference of two values: numbers only.
pub open spec fn sub_vals(a: MVal, b: MVal) -> Result<MVal, MErr> {
    match (a, b) {
        (MVal::Num(x), MVal::Num(y)) => match num_sub_s(x, y) {
            Some(n) => Ok(MVal::Num(n)),
            None => Err(MErr::NumberOverflow),
        },
        _ => Err(MErr::CannotSubtract { left: type_str_s(a), right: type_str_s(b) }),
    }
}

/// Product of two values: numbers only.
pub open spec fn mul_vals(a: MVal, b: MVal) -> Result<MVal, MErr> {
    match (a, b) {
        (MVal::Num(x), MVal::Num(y)) => match num_mul_s(x, y) {
            Some(n) => Ok(MVal::Num(n)),
            None => Err(MErr::NumberOverflow),
        },
        _ => Err(MErr::CannotMultiply { left: type_str_s(a), right: type_str_s(b) }),
    }
}

/// Quotient of two values: numbers only, always on the decimal path; a
/// zero divisor is an error whatever its numeric form.
pub open spec fn div_vals(a: MVal, b: MVal) -> Result<MVal, MErr> {
    match (a, b) {
        (MVal::Num(x), MVal::Num(y)) => if num_is_zero_s(y) {
            Err(MErr::DivisionByZero)
        } else {
            match num_div_s(x, y) {
                Some(n) => Ok(MVal::Num(n)),
                None => Err(MErr::NumberOverflow),
            }
        },
        _ => Err(MErr::CannotDivide { left: type_str_s(a), right: type_str_s(b) }),
    }
}

/// Remainder of two values: numbers only; a zero divisor is an error.
pub open spec fn rem_vals(a: MVal, b: MVal) -> Result<MVal, MErr> {
    match (a, b) {
        (MVal::Num(x), MVal::Num(y)) => if num_is_zero_s(y) {
            Err(MErr::ModuloByZero)
        } else {
            match num_rem_s(x, y) {
                Some(n) => Ok(MVal::Num(n)),
                None => Err(MErr::NumberOverflow),
            }
        },
        _ => Err(MErr::CannotModulo { left: type_str_s(a), right: type_str_s(b) }),
    }
}

/// Equality under the ordering rule: unordered pairs are not equal.
pub open spec fn eq_vals(a: MVal, b: MVal) -> bool {
    cmp_s(a, b) == Some(Cmp::Eq)
}

/// Inequality: unordered pairs are unequal.
pub open spec fn ne_vals(a: MVal, b: MVal) -> bool {
    match cmp_s(a, b) {
        Some(o) => o != Cmp::Eq,
        None => true,
    }
}

/// Strictly less; unordered pairs are not less.
pub open spec fn lt_vals(a: MVal, b: MVal) -> bool {
    cmp_s(a, b) == Some(Cmp::Lt)
}

/// Less or equal; false for unordered pairs.
pub open spec fn le_vals(a: MVal, b: MVal) -> bool {
    cmp_s(a, b) == Some(Cmp::Lt) || cmp_s(a, b) == Some(Cmp::Eq)
}

/// Strictly greater; false for unordered pairs.
pub open spec fn gt_vals(a: MVal, b: MVal) -> bool {
    cmp_s(a, b) == Some(Cmp::Gt)
}

/// Greater or equal; false for unordered pairs.
pub open spec fn ge_vals(a: MVal, b: MVal) -> bool {
    cmp_s(a, b) == Some(Cmp::Gt) || cmp_s(a, b) == Some(Cmp::Eq)
}

/// The keys of an object in insertion order, or the index sequence of
/// an array; other types are an error. Indices beyond the machine
/// integer range report an overflow.
pub open spec fn keys_vals(v: MVal) -> Result<MVal, MErr> {
    match v {
        MVal::Obj(fs) => Ok(MVal::Arr(Seq::new(fs.len(), |i: int| fs[i].0))),
        MVal::Arr(vs) => if vs.len() <= 0x7fff_ffff_ffff_ffff {
            Ok(MVal::Arr(Seq::new(vs.len(), |i: int| MVal::Num(MNum::Int(i)))))
        } else {
            Err(MErr::NumberOverflow)
        },
        _ => Err(MErr::KeysOf { kind: type_str_s(v) }),
    }
}

/// The length of a value: the UTF-8 byte count of a string, the element
/// or entry count of an array or object; other types are an error.
pub open spec fn length_vals(v: MVal) -> Result<MVal, MErr> {
    match v {
        MVal::Str(s) => if vstd::utf8::encode_utf8(s).len() <= 0x7fff_ffff_ffff_ffff {
            Ok(MVal::Num(MNum::Int(vstd::utf8::encode_utf8(s).len() as int)))
        } else {
            Err(MErr::NumberOverflow)
        },
        MVal::Arr(vs) => if vs.len() <= 0x7fff_ffff_ffff_ffff {
            Ok(MVal::Num(MNum::Int(vs.len() as int)))
        } else {
            Err(MErr::NumberOverflow)
        },
        MVal::Obj(fs) => if fs.len() <= 0x7fff_ffff_ffff_ffff {
            Ok(MVal::Num(MNum::Int(fs.len() as int)))
        } else {
            Err(MErr::NumberOverflow)
        },
        _ => Err(MErr::LengthOf { kind: type_str_s(v) }),
    }
}

/// Key membership: structural for objects, a normalized index check for
/// arrays, false for everything else; never an error.
pub open spec fn has_vals(target: MVal, key: MVal) -> bool {
    match target {
        MVal::Obj(fs) => obj_has(fs, key),
        MVal::Arr(vs) => match key {
            MVal::Num(MNum::Int(i)) => if i < 0 {
                -i <= vs.len()
            } else {
                i < vs.len()
            },
            _ => false,
        },
        _ => false,
    }
}

/// Field access: the value under a string key of an object; a missing
/// key and a non-object target are distinct errors naming the field.
pub open spec fn field_vals(target: MVal, field: Seq<char>) -> Result<MVal, MErr> {
    match target {
        MVal::Obj(fs) => if obj_has(fs, MVal::Str(field)) {
            Ok(obj_get(fs, MVal::Str(field)))
        } else {
            Err(MErr::FieldNotFound { field })
        },
        _ => Err(MErr::FieldOnNonObject { field }),
    }
}

/// Index access with negative indices counted from the end; any index
/// outside the array is an error naming the index.
pub open spec fn index_vals(target: MVal, index: int) -> Result<MVal, MErr> {
    match target {
        MVal::Arr(vs) => if index < 0 {
            if -index <= vs.len() {
                Ok(vs[vs.len() + index])
            } else {
                Err(MErr::IndexOutOfBounds { index })
            }
        } else {
            if index < vs.len() {
                Ok(vs[index])
            } else {
                Err(MErr::IndexOutOfBounds { index })
            }
        },
        _ => Err(MErr::IndexOnNonArray),
    }
}

/// A slice endpoint normalized against a length: negative endpoints
/// count from the end and saturate at zero.
pub open spec fn norm_idx(i: int, n: int) -> int {
    if i < 0 {
        if n + i < 0 {
            0
        } else {
            n + i
        }
    } else {
        i
    }
}

/// Slice of an array or string: absent endpoints default to the full
/// range, an empty range yields an empty result of the same kind.
pub open spec fn slice_vals(target: MVal, start: Option<int>, end: Option<int>) -> Result<
    MVal,
    MErr,
> {
    match target {
        MVal::Arr(vs) => {
            let n = vs.len() as int;
            let s0 = match start {
                Some(i) => norm_idx(i, n),
                None => 0,
            };
            let e0 = match end {
                Some(i) => norm_idx(i, n),
                None => n,
            };
            let s1 = if s0 < n {
                s0
            } else {
                n
            };
            let e1 = if e0 < n {
                e0
            } else {
                n
            };
            if s1 >= e1 {
                Ok(MVal::Arr(Seq::empty()))
            } else {
                Ok(MVal::Arr(vs.subrange(s1, e1)))
            }
        },
        MVal::Str(cs) => {
            let n = cs.len() as int;
            let s0 = match start {
                Some(i) => norm_idx(i, n),
                None => 0,
            };
            let e0 = match end {
                Some(i) => norm_idx(i, n),
                None => n,
            };
            let s1 = if s0 < n {
                s0
            } else {
                n
            };
            let e1 = if e0 < n {
                e0
            } else {
                n
            };
            if s1 >= e1 {
                Ok(MVal::Str(Seq::empty()))
            } else {
                Ok(MVal::Str(cs.subrange(s1, e1)))
            }
        },
        _ => Err(MErr::SliceOf { kind: type_str_s(target) }),
    }
}

/// The values of an object in insertion order.
pub open spec fn obj_values(fs: Seq<(MVal, MVal)>) -> Seq<MVal> {
    Seq::new(fs.len(), |i: int| fs[i].1)
}

/// The single-valued form of iteration: the elements of an array or the
/// values of an object, as one array; other types are an error.
pub open spec fn iterate_vals(v: MVal) -> Result<MVal, MErr> {
    match v {
        MVal::Arr(vs) => Ok(MVal::Arr(vs)),
        MVal::Obj(fs) => Ok(MVal::Arr(obj_values(fs))),
        _ => Err(MErr::CannotIterate),
    }
}

/// The comparator of `sort`: unordered pairs count as equal, so sorting
/// never fails.
pub open spec fn ord_vals(a: MVal, b: MVal) -> Cmp {
    match cmp_s(a, b) {
        Some(o) => o,
        None => Cmp::Eq,
    }
}

/// Insert a value into a sorted sequence, after any entries that do not
/// compare strictly greater; this keeps the sort stable.
pub open spec fn ins_sorted(x: MVal, s: Seq<MVal>) -> Seq<MVal>
    decreases s,
{
    if s.len() == 0 {
        seq![x]
    } else if ord_vals(x, s[0]) == Cmp::Lt {
        seq![x] + s
    } else {
        seq![s[0]] + ins_sorted(x, s.drop_first())
    }
}

/// Stable insertion sort under the ordering rule.
pub open spec fn sort_acc(s: Seq<MVal>, acc: Seq<MVal>) -> Seq<MVal>
    decreases s,
{
    if s.len() == 0 {
        acc
    } else {
        sort_acc(s.drop_first(), ins_sorted(s[0], acc))
    }
}

/// The sorted form of a sequence.
pub open spec fn sort_s(s: Seq<MVal>) -> Seq<MVal> {
    sort_acc(s, Seq::empty())
}

/// Sort: arrays only.
pub open spec fn sort_vals(v: MVal) -> Result<MVal, MErr> {
    match v {
        MVal::Arr(vs) => Ok(MVal::Arr(sort_s(vs))),
        _ => Err(MErr::SortOf { kind: type_str_s(v) }),
    }
}

/// Reverse: arrays by element, strings by character.
pub open spec fn reverse_vals(v: MVal) -> Result<MVal, MErr> {
    match v {
        MVal::Arr(vs) => Ok(MVal::Arr(vs.reverse())),
        MVal::Str(s) => Ok(MVal::Str(s.reverse())),
        _ => Err(MErr::ReverseOf { kind: type_str_s(v) }),
    }
}

/// Keep the first occurrence of each canonical encoding.
pub open spec fn uniq_acc(s: Seq<MVal>, seen: Seq<Seq<char>>) -> Seq<MVal>
    decreases s,
{
    if s.len() == 0 {
        Seq::empty()
    } else if seen.contains(canon(s[0])) {
        uniq_acc(s.drop_first(), seen)
    } else {
        seq![s[0]] + uniq_acc(s.drop_first(), seen.push(canon(s[0])))
    }
}

/// Unique: arrays only; first-seen order, duplicates decided by the
/// canonical encoding.
pub open spec fn unique_vals(v: MVal) -> Result<MVal, MErr> {
    match v {
        MVal::Arr(vs) => Ok(MVal::Arr(uniq_acc(vs, Seq::empty()))),
        _ => Err(MErr::UniqueOf { kind: type_str_s(v) }),
    }
}

/// One level of flattening: nested arrays are spliced in, other
/// elements pass through.
pub open spec fn flat_s(s: Seq<MVal>) -> Seq<MVal>
    decreases s,
{
    if s.len() == 0 {
        Seq::empty()
    } else {
        (match s[0] {
            MVal::Arr(inner) => inner,
            other => seq![other],
        }) + flat_s(s.drop_first())
    }
}

/// Flatten: arrays only.
pub open spec fn flatten_vals(v: MVal) -> Result<MVal, MErr> {
    match v {
        MVal::Arr(vs) => Ok(MVal::Arr(flat_s(vs))),
        _ => Err(MErr::FlattenOf { kind: type_str_s(v) }),
    }
}

/// First element of an array; empty arrays are an error.
pub open spec fn first_vals(v: MVal) -> Result<MVal, MErr> {
    match v {
        MVal::Arr(vs) => if vs.len() == 0 {
            Err(MErr::FirstEmpty)
        } else {
            Ok(vs[0])
        },
        _ => Err(MErr::FirstOf { kind: type_str_s(v) }),
    }
}

/// Last element of an array; empty arrays are an error.
pub open spec fn last_vals(v: MVal) -> Result<MVal, MErr> {
    match v {
        MVal::Arr(vs) => if vs.len() == 0 {
            Err(MErr::LastEmpty)
        } else {
            Ok(vs[vs.len() - 1])
        },
        _ => Err(MErr::LastOf { kind: type_str_s(v) }),
    }
}

/// Sum a sequence of numbers, integer-preserving.
pub open spec fn add_nums(s: Seq<MVal>, acc: MNum) -> Result<MNum, MErr>
    decreases s,
{
    if s.len() == 0 {
        Ok(acc)
    } else {
        match s[0] {
            MVal::Num(n) => match num_add_s(acc, n) {
                Some(t) => add_nums(s.drop_first(), t),
                None => Err(MErr::NumberOverflow),
            },
            _ => Err(MErr::AddNonNumeric),
        }
    }
}

/// Concatenate a sequence of strings.
pub open spec fn add_strs(s: Seq<MVal>, acc: Seq<char>) -> Result<Seq<char>, MErr>
    decreases s,
{
    if s.len() == 0 {
        Ok(acc)
    } else {
        match s[0] {
            MVal::Str(t) => add_strs(s.drop_first(), acc + t),
            _ => Err(MErr::AddNonString),
        }
    }
}

/// The `add` operator: sum an array of numbers or concatenate an array
/// of strings; an empty array sums to integer zero.
pub open spec fn addop_vals(v: MVal) -> Result<MVal, MErr> {
    match v {
        MVal::Arr(vs) => if vs.len() == 0 {
            Ok(MVal::Num(MNum::Int(0)))
        } else {
            match vs[0] {
                MVal::Num(_) => match add_nums(vs, MNum::Int(0)) {
                    Ok(n) => Ok(MVal::Num(n)),
                    Err(e) => Err(e),
                },
                MVal::Str(_) => match add_strs(vs, Seq::empty()) {
                    Ok(t) => Ok(MVal::Str(t)),
                    Err(e) => Err(e),
                },
                _ => Err(MErr::AddNonNumeric),
            }
        },
        _ => Err(MErr::AddElementsOf { kind: type_str_s(v) }),
    }
}

/// `tostring`: the scalar or structural text of the value.
pub open spec fn tostring_vals(v: MVal) -> MVal {
    MVal::Str(vts(v))
}

/// The value of an optional-sign digit run, if the text has that shape.
pub open spec fn int_text_val(s: Seq<char>) -> Option<int> {
    let (neg, ds) = if s.len() > 0 && (s[0] == '-' || s[0] == '+') {
        (s[0] == '-', s.drop_first())
    } else {
        (false, s)
    };
    if ds.len() == 0 || !all_digits(ds) {
        None
    } else if neg {
        Some(-(digits_val(ds) as int))
    } else {
        Some(digits_val(ds) as int)
    }
}

pub open spec fn all_digits(s: Seq<char>) -> bool {
    forall|i: int| 0 <= i < s.len() ==> '0' <= #[trigger] s[i] <= '9'
}

pub open spec fn digits_val(s: Seq<char>) -> nat
    decreases s,
{
    if s.len() == 0 {
        0
    } else {
        (digits_val(s.drop_last()) * 10 + (s.last() as int - 48)) as nat
    }
}

/// The position of the first point character in a text, or the length
/// of the text when there is none.
pub open spec fn first_dot(s: Seq<char>) -> int
    decreases s,
{
    if s.len() == 0 {
        0
    } else if s[0] == '.' {
        0
    } else {
        1 + first_dot(s.drop_first())
    }
}

pub broadcast proof fn lemma_first_dot(s: Seq<char>)
    ensures
        #![trigger first_dot(s)]
        0 <= first_dot(s) <= s.len(),
        first_dot(s) < s.len() ==> s[first_dot(s)] == '.',
        forall|j: int| 0 <= j < first_dot(s) ==> s[j] != '.',
    decreases s,
{
    if s.len() > 0 && s[0] != '.' {
        lemma_first_dot(s.drop_first());
        assert forall|j: int| 0 <= j < first_dot(s) implies s[j] != '.' by {
            if j > 0 {
                assert(s.drop_first()[j - 1] == s[j]);
            }
        }
    }
}

/// The mantissa and scale of a decimal text `digits.digits`, if the
/// text has that shape: an optional sign, then digits with exactly one
/// point somewhere among them (not sign alone, not a bare point).
pub open spec fn dec_text_parts(s: Seq<char>) -> Option<(int, nat)> {
    let (neg, ds) = if s.len() > 0 && (s[0] == '-' || s[0] == '+') {
        (s[0] == '-', s.drop_first())
    } else {
        (false, s)
    };
    if first_dot(ds) >= ds.len() {
        None
    } else {
        let p = first_dot(ds);
        let whole = ds.take(p);
        let frac = ds.skip(p + 1);
        if whole.len() + frac.len() == 0 || !all_digits(whole) || !all_digits(frac) {
            None
        } else {
            let mag = digits_val(whole + frac);
            if neg {
                Some((-(mag as int), frac.len()))
            } else {
                Some((mag as int, frac.len()))
            }
        }
    }
}

/// The decimal-text fallback of `tonumber`.
pub open spec fn dec_tonumber(s: Seq<char>) -> Result<MVal, MErr> {
    match dec_text_parts(s) {
        Some((m, e)) => if e <= 18 && -0x8000_0000_0000_0000 <= m <= 0x7fff_ffff_ffff_ffff {
            match crate::num::dfin(m, e) {
                Some(n) => Ok(MVal::Num(n)),
                None => Err(MErr::ParseNumber { text: s }),
            }
        } else {
            Err(MErr::ParseNumber { text: s })
        },
        None => Err(MErr::ParseNumber { text: s }),
    }
}

/// `tonumber`: numbers pass through, strings parse as an integer first
/// and then as a decimal, anything else is an error.
pub open spec fn tonumber_vals(v: MVal) -> Result<MVal, MErr> {
    match v {
        MVal::Num(_) => Ok(v),
        MVal::Str(s) => match int_text_val(s) {
            Some(i) => if -0x8000_0000_0000_0000 <= i <= 0x7fff_ffff_ffff_ffff {
                Ok(MVal::Num(MNum::Int(i)))
            } else {
                dec_tonumber(s)
            },
            None => dec_tonumber(s),
        },
        _ => Err(MErr::ToNumberOf { kind: type_str_s(v) }),
    }
}

/// Depth-first pre-order traversal of a value and its descendants,
/// the starting value first.
pub open spec fn rec_s(v: MVal) -> Seq<MVal>
    decreases v, 0nat,
{
    match v {
        MVal::Arr(vs) => seq![v] + rec_list(vs),
        MVal::Obj(fs) => seq![v] + rec_vals(fs),
        _ => seq![v],
    }
}

pub open spec fn rec_list(s: Seq<MVal>) -> Seq<MVal>
    decreases s, 1nat,
{
    if s.len() == 0 {
        Seq::empty()
    } else {
        rec_s(s[0]) + rec_list(s.drop_first())
    }
}

pub open spec fn rec_vals(s: Seq<(MVal, MVal)>) -> Seq<MVal>
    decreases s, 1nat,
{
    if s.len() == 0 {
        Seq::empty()
    } else {
        rec_s(s[0].1) + rec_vals(s.drop_first())
    }
}

/// The result of an assignment to one field: a new object with the
/// field set; a non-object current value passes through unchanged.
pub open spec fn assign_result(cur: MVal, field: Seq<char>, nv: MVal) -> MVal {
    match cur {
        MVal::Obj(fs) => MVal::Obj(obj_set(fs, MVal::Str(field), nv)),
        _ => cur,
    }
}

/// The old field value an update's right side sees: the current field
/// value, or null when absent or when the current value is no object.
pub open spec fn update_current(cur: MVal, field: Seq<char>) -> MVal {
    match cur {
        MVal::Obj(fs) => if obj_has(fs, MVal::Str(field)) {
            obj_get(fs, MVal::Str(field))
        } else {
            MVal::Null
        },
        _ => MVal::Null,
    }
}

/// Evaluate one expression to one value in a context, against an
/// environment table.
pub open spec fn eval_s(e: Expression, c: MCtx, env: Seq<(Seq<char>, Seq<char>)>) -> Result<
    MVal,
    MErr,
>
    decreases expr_size(e), 0nat, 0nat,
{
    match e {
        Expression::Identity => Ok(c.value),
        Expression::Literal(v) => Ok(mval_of(v)),
        Expression::Empty => Ok(MVal::Null),
        Expression::FieldAccess { target, field } => match eval_s(*target, c, env) {
            Ok(tv) => field_vals(tv, field@),
            Err(er) => Err(er),
        },
        Expression::IndexAccess { target, index } => match eval_s(*target, c, env) {
            Ok(tv) => index_vals(tv, index as int),
            Err(er) => Err(er),
        },
        Expression::Iterator { target } => match eval_s(*target, c, env) {
            Ok(tv) => iterate_vals(tv),
            Err(er) => Err(er),
        },
        Expression::Pipe { left, right } => match eval_s(*left, c, env) {
            Ok(lv) => eval_s(*right, child_s(c, lv), env),
            Err(er) => Err(er),
        },
        Expression::Comma { .. } => Ok(MVal::Null),
        Expression::Assign { target, value } => match *target {
            Expression::FieldAccess { field, .. } => match eval_s(*value, c, env) {
                Ok(nv) => Ok(assign_result(c.value, field@, nv)),
                Err(er) => Err(er),
            },
            _ => Err(MErr::AssignTarget),
        },
        Expression::Update { target, value } => match *target {
            Expression::FieldAccess { field, .. } => {
                let cur = update_current(c.value, field@);
                match eval_s(*value, child_s(c, cur), env) {
                    Ok(nv) => Ok(assign_result(c.value, field@, nv)),
                    Err(er) => Err(er),
                }
            },
            _ => Err(MErr::UpdateTarget),
        },
        Expression::Add { left, right } => match (eval_s(*left, c, env), eval_s(
            *right,
            c,
            env,
        )) {
            (Err(er), _) => Err(er),
            (Ok(_), Err(er)) => Err(er),
            (Ok(a), Ok(b)) => add_vals(a, b),
        },
        Expression::Subtract { left, right } => match (eval_s(*left, c, env), eval_s(
            *right,
            c,
            env,
        )) {
            (Err(er), _) => Err(er),
            (Ok(_), Err(er)) => Err(er),
            (Ok(a), Ok(b)) => sub_vals(a, b),
        },
        Expression::Multiply { left, right } => match (eval_s(*left, c, env), eval_s(
            *right,
            c,
            env,
        )) {
            (Err(er), _) => Err(er),
            (Ok(_), Err(er)) => Err(er),
            (Ok(a), Ok(b)) => mul_vals(a, b),
        },
        Expression::Divide { left, right } => match (eval_s(*left, c, env), eval_s(
            *right,
            c,
            env,
        )) {
            (Err(er), _) => Err(er),
            (Ok(_), Err(er)) => Err(er),
            (Ok(a), Ok(b)) => div_vals(a, b),
        },
        Expression::Modulo { left, right } => match (eval_s(*left, c, env), eval_s(
            *right,
            c,
            env,
        )) {
            (Err(er), _) => Err(er),
            (Ok(_), Err(er)) => Err(er),
            (Ok(a), Ok(b)) => rem_vals(a, b),
        },
        Expression::Equal { left, right } => match (eval_s(*left, c, env), eval_s(
            *right,
            c,
            env,
        )) {
            (Err(er), _) => Err(er),
            (Ok(_), Err(er)) => Err(er),
            (Ok(a), Ok(b)) => Ok(MVal::Bool(eq_vals(a, b))),
        },
        Expression::NotEqual { left, right } => match (eval_s(*left, c, env), eval_s(
            *right,
            c,
            env,
        )) {
            (Err(er), _) => Err(er),
            (Ok(_), Err(er)) => Err(er),
            (Ok(a), Ok(b)) => Ok(MVal::Bool(ne_vals(a, b))),
        },
        Expression::LessThan { left, right } => match (eval_s(*left, c, env), eval_s(
            *right,
            c,
            env,
        )) {
            (Err(er), _) => Err(er),
            (Ok(_), Err(er)) => Err(er),
            (Ok(a), Ok(b)) => Ok(MVal::Bool(lt_vals(a, b))),
        },
        Expression::LessThanOrEqual { left, right } => match (eval_s(*left, c, env), eval_s(
            *right,
            c,
            env,
        )) {
            (Err(er), _) => Err(er),
            (Ok(_), Err(er)) => Err(er),
            (Ok(a), Ok(b)) => Ok(MVal::Bool(le_vals(a, b))),
        },
        Expression::GreaterThan { left, right } => match (eval_s(*left, c, env), eval_s(
            *right,
            c,
            env,
        )) {
            (Err(er), _) => Err(er),
            (Ok(_), Err(er)) => Err(er),
            (Ok(a), Ok(b)) => Ok(MVal::Bool(gt_vals(a, b))),
        },
        Expression::GreaterThanOrEqual { left, right } => match (eval_s(*left, c, env), eval_s(
            *right,
            c,
            env,
        )) {
            (Err(er), _) => Err(er),
            (Ok(_), Err(er)) => Err(er),
            (Ok(a), Ok(b)) => Ok(MVal::Bool(ge_vals(a, b))),
        },
        Expression::And { left, right } => match eval_s(*left, c, env) {
            Err(er) => Err(er),
            Ok(a) => if !truthy_s(a) {
                Ok(a)
            } else {
                eval_s(*right, c, env)
            },
        },
        Expression::Or { left, right } => match eval_s(*left, c, env) {
            Err(er) => Err(er),
            Ok(a) => if truthy_s(a) {
                Ok(a)
            } else {
                eval_s(*right, c, env)
            },
        },
        Expression::Not { expr } => match eval_s(*expr, c, env) {
            Err(er) => Err(er),
            Ok(a) => Ok(MVal::Bool(!truthy_s(a))),
        },
        Expression::Select { condition } => match eval_s(*condition, c, env) {
            Err(er) => Err(er),
            Ok(a) => if truthy_s(a) {
                Ok(c.value)
            } else {
                Ok(MVal::Null)
            },
        },
        Expression::Keys { target } => match eval_s(*target, c, env) {
            Ok(tv) => keys_vals(tv),
            Err(er) => Err(er),
        },
        Expression::Length { target } => match eval_s(*target, c, env) {
            Ok(tv) => length_vals(tv),
            Err(er) => Err(er),
        },
        Expression::Type { target } => match eval_s(*target, c, env) {
            Ok(tv) => Ok(MVal::Str(type_str_s(tv))),
            Err(er) => Err(er),
        },
        Expression::Has { target, key } => match (eval_s(*target, c, env), eval_s(*key, c, env)) {
            (Err(er), _) => Err(er),
            (Ok(_), Err(er)) => Err(er),
            (Ok(tv), Ok(kv)) => Ok(MVal::Bool(has_vals(tv, kv))),
        },
        Expression::Sort { target } => match eval_s(*target, c, env) {
            Ok(tv) => sort_vals(tv),
            Err(er) => Err(er),
        },
        Expression::Reverse { target } => match eval_s(*target, c, env) {
            Ok(tv) => reverse_vals(tv),
            Err(er) => Err(er),
        },
        Expression::Unique { target } => match eval_s(*target, c, env) {
            Ok(tv) => unique_vals(tv),
            Err(er) => Err(er),
        },
        Expression::Flatten { target } => match eval_s(*target, c, env) {
            Ok(tv) => flatten_vals(tv),
            Err(er) => Err(er),
        },
        Expression::GroupBy { target, key_expr } => match eval_s(*target, c, env) {
            Err(er) => Err(er),
            Ok(tv) => match tv {
                MVal::Arr(items) => match group_fold(items, *key_expr, c, env, Seq::empty()) {
                    Ok(groups) => Ok(groups_result(groups)),
                    Err(er) => Err(er),
                },
                _ => Err(MErr::GroupOf { kind: type_str_s(tv) }),
            },
        },
        Expression::MapOp { target, expr } => match eval_s(*target, c, env) {
            Err(er) => Err(er),
            Ok(tv) => match tv {
                MVal::Arr(items) => match map_fold(items, *expr, c, env, Seq::empty()) {
                    Ok(rs) => Ok(MVal::Arr(rs)),
                    Err(er) => Err(er),
                },
                _ => Err(MErr::MapOver { kind: type_str_s(tv) }),
            },
        },
        Expression::Filter { target, expr } => match eval_s(*target, c, env) {
            Err(er) => Err(er),
            Ok(tv) => match tv {
                MVal::Arr(items) => match filter_fold(items, *expr, c, env, Seq::empty()) {
                    Ok(rs) => Ok(MVal::Arr(rs)),
                    Err(er) => Err(er),
                },
                _ => Err(MErr::FilterOf { kind: type_str_s(tv) }),
            },
        },
        Expression::Recurse => Ok(MVal::Arr(rec_s(c.value))),
        Expression::Group { expr } => eval_s(*expr, c, env),
        Expression::Variable { name } => match assoc_find(c.vars, name@) {
            Some(v) => Ok(v),
            None => Err(MErr::UndefinedVariable { name: name@ }),
        },
        Expression::Array { elements } => match arr_fold(elements@, c, env, Seq::empty()) {
            Ok(rs) => Ok(MVal::Arr(rs)),
            Err(er) => Err(er),
        },
        Expression::Object { fields } => match obj_fold(fields@, c, env, Seq::empty()) {
            Ok(fs) => Ok(MVal::Obj(fs)),
            Err(er) => Err(er),
        },
        Expression::Slice { target, start, end } => match eval_s(*target, c, env) {
            Ok(tv) => slice_vals(
                tv,
                match start {
                    Some(i) => Some(i as int),
                    None => None,
                },
                match end {
                    Some(i) => Some(i as int),
                    None => None,
                },
            ),
            Err(er) => Err(er),
        },
        Expression::Alternative { left, right } => match eval_s(*left, c, env) {
            Err(_) => eval_s(*right, c, env),
            Ok(v) => if v == MVal::Null || v == MVal::Bool(false) {
                eval_s(*right, c, env)
            } else {
                Ok(v)
            },
        },
        Expression::First { expr } => match eval_s(*expr, c, env) {
            Ok(v) => first_vals(v),
            Err(er) => Err(er),
        },
        Expression::Last { expr } => match eval_s(*expr, c, env) {
            Ok(v) => last_vals(v),
            Err(er) => Err(er),
        },
        Expression::AddOp => addop_vals(c.value),
        Expression::Env { name } => match eval_s(*name, c, env) {
            Err(er) => Err(er),
            Ok(nv) => match nv {
                MVal::Str(s) => match assoc_find(env, s) {
                    Some(w) => Ok(MVal::Str(w)),
                    None => Ok(MVal::Null),
                },
                _ => Ok(MVal::Null),
            },
        },
        Expression::ToString { target } => match eval_s(*target, c, env) {
            Ok(tv) => Ok(tostring_vals(tv)),
            Err(er) => Err(er),
        },
        Expression::ToNumber { target } => match eval_s(*target, c, env) {
            Ok(tv) => tonumber_vals(tv),
            Err(er) => Err(er),
        },
        _ => Err(MErr::UnsupportedExpression),
    }
}

/// Evaluate the elements of an array constructor, left to right.
pub open spec fn arr_fold(
    es: Seq<Expression>,
    c: MCtx,
    env: Seq<(Seq<char>, Seq<char>)>,
    acc: Seq<MVal>,
) -> Result<Seq<MVal>, MErr>
    decreases expr_list_size(es), 2nat, 0nat,
{
    if es.len() == 0 {
        Ok(acc)
    } else {
        proof {
            lemma_expr_size_pos(es[0]);
        }
        match eval_s(es[0], c, env) {
            Err(er) => Err(er),
            Ok(v) => arr_fold(es.drop_first(), c, env, acc.push(v)),
        }
    }
}

/// Evaluate the entries of an object constructor, left to right; later
/// duplicate keys overwrite earlier ones.
pub open spec fn obj_fold(
    ps: Seq<(Expression, Expression)>,
    c: MCtx,
    env: Seq<(Seq<char>, Seq<char>)>,
    acc: Seq<(MVal, MVal)>,
) -> Result<Seq<(MVal, MVal)>, MErr>
    decreases expr_pairs_size(ps), 2nat, 0nat,
{
    if ps.len() == 0 {
        Ok(acc)
    } else {
        proof {
            lemma_expr_size_pos(ps[0].0);
            lemma_expr_size_pos(ps[0].1);
        }
        match eval_s(ps[0].0, c, env) {
            Err(er) => Err(er),
            Ok(k) => match eval_s(ps[0].1, c, env) {
                Err(er) => Err(er),
                Ok(v) => obj_fold(ps.drop_first(), c, env, obj_set(acc, k, v)),
            },
        }
    }
}

/// Evaluate a map body once per element, in order.
pub open spec fn map_fold(
    items: Seq<MVal>,
    f: Expression,
    c: MCtx,
    env: Seq<(Seq<char>, Seq<char>)>,
    acc: Seq<MVal>,
) -> Result<Seq<MVal>, MErr>
    decreases expr_size(f), 2nat, items.len(),
{
    if items.len() == 0 {
        Ok(acc)
    } else {
        match eval_s(f, child_s(c, items[0]), env) {
            Err(er) => Err(er),
            Ok(v) => map_fold(items.drop_first(), f, c, env, acc.push(v)),
        }
    }
}

/// Keep the elements whose condition is truthy, in order.
pub open spec fn filter_fold(
    items: Seq<MVal>,
    f: Expression,
    c: MCtx,
    env: Seq<(Seq<char>, Seq<char>)>,
    acc: Seq<MVal>,
) -> Result<Seq<MVal>, MErr>
    decreases expr_size(f), 2nat, items.len(),
{
    if items.len() == 0 {
        Ok(acc)
    } else {
        match eval_s(f, child_s(c, items[0]), env) {
            Err(er) => Err(er),
            Ok(v) => filter_fold(
                items.drop_first(),
                f,
                c,
                env,
                if truthy_s(v) {
                    acc.push(items[0])
                } else {
                    acc
                },
            ),
        }
    }
}

/// Group elements by the text of their key, first-seen group order.
pub open spec fn group_fold(
    items: Seq<MVal>,
    ke: Expression,
    c: MCtx,
    env: Seq<(Seq<char>, Seq<char>)>,
    acc: Seq<(Seq<char>, Seq<MVal>)>,
) -> Result<Seq<(Seq<char>, Seq<MVal>)>, MErr>
    decreases expr_size(ke), 2nat, items.len(),
{
    if items.len() == 0 {
        Ok(acc)
    } else {
        match eval_s(ke, child_s(c, items[0]), env) {
            Err(er) => Err(er),
            Ok(kv) => group_fold(
                items.drop_first(),
                ke,
                c,
                env,
                group_add(acc, vts(kv), items[0]),
            ),
        }
    }
}

/// Append an element to its group, or open a new group at the end.
pub open spec fn group_add(
    acc: Seq<(Seq<char>, Seq<MVal>)>,
    key: Seq<char>,
    v: MVal,
) -> Seq<(Seq<char>, Seq<MVal>)>
    decreases acc,
{
    if acc.len() == 0 {
        seq![(key, seq![v])]
    } else if acc[0].0 == key {
        seq![(acc[0].0, acc[0].1.push(v))] + acc.drop_first()
    } else {
        seq![acc[0]] + group_add(acc.drop_first(), key, v)
    }
}

pub proof fn lemma_group_add_at(acc: Seq<(Seq<char>, Seq<MVal>)>, key: Seq<char>, v: MVal, i: int)
    requires
        0 <= i < acc.len(),
        acc[i].0 == key,
        forall|j: int| 0 <= j < i ==> acc[j].0 != key,
    ensures
        group_add(acc, key, v) == acc.update(i, (acc[i].0, acc[i].1.push(v))),
    decreases acc,
{
    if i == 0 {
        assert(group_add(acc, key, v) =~= acc.update(0, (acc[0].0, acc[0].1.push(v))));
    } else {
        assert(forall|j: int| 0 <= j < i - 1 ==> acc.drop_first()[j] == acc[j + 1]);
        assert(acc.drop_first()[i - 1] == acc[i]);
        lemma_group_add_at(acc.drop_first(), key, v, i - 1);
        assert(group_add(acc, key, v) =~= acc.update(i, (acc[i].0, acc[i].1.push(v)))) by {
            assert(acc.drop_first().update(i - 1, (acc[i].0, acc[i].1.push(v))) =~= acc.update(
                i,
                (acc[i].0, acc[i].1.push(v)),
            ).drop_first());
        }
    }
}

pub proof fn lemma_group_add_new(acc: Seq<(Seq<char>, Seq<MVal>)>, key: Seq<char>, v: MVal)
    requires
        forall|j: int| 0 <= j < acc.len() ==> acc[j].0 != key,
    ensures
        group_add(acc, key, v) == acc.push((key, seq![v])),
    decreases acc,
{
    if acc.len() == 0 {
        assert(group_add(acc, key, v) =~= acc.push((key, seq![v])));
    } else {
        assert(forall|j: int| 0 <= j < acc.len() - 1 ==> acc.drop_first()[j] == acc[j + 1]);
        lemma_group_add_new(acc.drop_first(), key, v);
        assert(group_add(acc, key, v) =~= acc.push((key, seq![v]))) by {
            assert(acc.drop_first().push((key, seq![v])) =~= acc.push((key, seq![v])).drop_first());
        }
    }
}

/// The value of a finished grouping: one `{"key", "value"}` object per
/// group, in first-seen order.
pub open spec fn groups_result(groups: Seq<(Seq<char>, Seq<MVal>)>) -> MVal {
    MVal::Arr(
        Seq::new(
            groups.len(),
            |i: int|
                MVal::Obj(
                    seq![
                        (MVal::Str("key"@), MVal::Str(groups[i].0)),
                        (MVal::Str("value"@), MVal::Arr(groups[i].1)),
                    ],
                ),
        ),
    )
}

/// Evaluate one expression to a stream of values: iteration fans out to
/// the elements, a pipe concatenates the streams of its right side run
/// once per value of its left side, and every other node yields its
/// single value. A failing right side of a pipe falls back to a single
/// evaluation and otherwise drops that item.
pub open spec fn eval_multi_s(e: Expression, c: MCtx, env: Seq<(Seq<char>, Seq<char>)>) -> Result<
    Seq<MVal>,
    MErr,
>
    decreases expr_size(e), 1nat, 0nat,
{
    match e {
        Expression::Iterator { target } => match eval_s(*target, c, env) {
            Err(er) => Err(er),
            Ok(tv) => match tv {
                MVal::Arr(vs) => Ok(vs),
                MVal::Obj(fs) => Ok(obj_values(fs)),
                _ => Ok(Seq::empty()),
            },
        },
        Expression::Pipe { left, right } => match eval_multi_s(*left, c, env) {
            Err(er) => Err(er),
            Ok(ls) => Ok(pipe_fold(ls, *right, c, env)),
        },
        _ => match eval_s(e, c, env) {
            Ok(v) => Ok(seq![v]),
            Err(er) => Err(er),
        },
    }
}

/// Feed each value to the right side of a pipe and concatenate what
/// comes back; a failing multi-evaluation falls back to a single one,
/// and an item whose fallback also fails is dropped.
pub open spec fn pipe_fold(
    vs: Seq<MVal>,
    r: Expression,
    c: MCtx,
    env: Seq<(Seq<char>, Seq<char>)>,
) -> Seq<MVal>
    decreases expr_size(r), 2nat, vs.len(),
{
    if vs.len() == 0 {
        Seq::empty()
    } else {
        let ch = child_s(c, vs[0]);
        let head = match eval_multi_s(r, ch, env) {
            Ok(rs) => rs,
            Err(_) => match eval_s(r, ch, env) {
                Ok(v) => seq![v],
                Err(_) => Seq::empty(),
            },
        };
        head + pipe_fold(vs.drop_first(), r, c, env)
    }
}

} // verus!
