//! General laws of the evaluator, stated over the specification
//! functions and proved once and for all: identity, pipe streaming,
//! involution of reverse, the indexing and slicing rules, integer
//! preservation, and the zero-divisor and field-access error rules.

use vstd::prelude::*;
use crate::num::{MNum, num_div_s, num_is_zero_s, num_cmp_s, num_pair, p10, lemma_p10_pos, Cmp};
use crate::value::{MVal, str_cmp_s};
use crate::errors::MErr;
use crate::ast::Expression;
use crate::semantics::{MCtx, child_s, eval_s, eval_multi_s, pipe_fold, index_vals, slice_vals,
    norm_idx, add_vals, div_vals, rem_vals, field_vals, keys_vals, obj_has, uniq_acc, ord_vals,
    ins_sorted, sort_acc, sort_s};
use crate::canon::canon;

verus! {

/// Evaluating the identity expression returns the current value of the
/// context unchanged, for every document and every context.
pub proof fn lemma_identity(c: MCtx, env: Seq<(Seq<char>, Seq<char>)>)
    ensures
        eval_s(Expression::Identity, c, env) == Ok::<MVal, MErr>(c.value),
{
}

/// The concatenation of the streams of the right side of a pipe, run
/// once per value, in order.
pub open spec fn stream_concat(
    vs: Seq<MVal>,
    r: Expression,
    c: MCtx,
    env: Seq<(Seq<char>, Seq<char>)>,
) -> Seq<MVal>
    decreases vs,
{
    if vs.len() == 0 {
        Seq::empty()
    } else {
        (match eval_multi_s(r, child_s(c, vs[0]), env) {
            Ok(rs) => rs,
            Err(_) => Seq::empty(),
        }) + stream_concat(vs.drop_first(), r, c, env)
    }
}

proof fn lemma_pipe_fold_all_ok(
    vs: Seq<MVal>,
    r: Expression,
    c: MCtx,
    env: Seq<(Seq<char>, Seq<char>)>,
)
    requires
        forall|i: int|
            0 <= i < vs.len() ==> eval_multi_s(r, child_s(c, #[trigger] vs[i]), env) is Ok,
    ensures
        pipe_fold(vs, r, c, env) == stream_concat(vs, r, c, env),
    decreases vs,
{
    if vs.len() > 0 {
        assert(forall|i: int|
            0 <= i < vs.drop_first().len() ==> vs.drop_first()[i] == vs[i + 1]);
        lemma_pipe_fold_all_ok(vs.drop_first(), r, c, env);
    }
}

/// Multi-valued evaluation of a pipe equals concatenating the streams
/// of the right side over each value of the left side, in order, when
/// every per-value evaluation succeeds; a failing item first retries a
/// single evaluation and is dropped only if that fails too.
pub proof fn lemma_pipe_stream(
    left: Expression,
    right: Expression,
    c: MCtx,
    env: Seq<(Seq<char>, Seq<char>)>,
    vs: Seq<MVal>,
)
    requires
        eval_multi_s(left, c, env) == Ok::<Seq<MVal>, MErr>(vs),
        forall|i: int|
            0 <= i < vs.len() ==> eval_multi_s(right, child_s(c, #[trigger] vs[i]), env) is Ok,
    ensures
        eval_multi_s(
            Expression::Pipe { left: Box::new(left), right: Box::new(right) },
            c,
            env,
        ) == Ok::<Seq<MVal>, MErr>(stream_concat(vs, right, c, env)),
{
    lemma_pipe_fold_all_ok(vs, right, c, env);
}

/// Reversing twice gives the original back, for arrays and strings.
pub proof fn lemma_reverse_involution(x: MVal)
    requires
        x is Arr || x is Str,
    ensures
        crate::semantics::reverse_vals(x) matches Ok(y) && crate::semantics::reverse_vals(y)
            == Ok::<MVal, MErr>(x),
{
    match x {
        MVal::Arr(vs) => {
            assert(vs.reverse().reverse() =~= vs);
        },
        MVal::Str(s) => {
            assert(s.reverse().reverse() =~= s);
        },
        _ => {},
    }
}

/// Negative indexing counts from the end: for an array of length `n`,
/// index `-k` (for `1 <= k <= n`) reads element `n - k`, and any index
/// at or past either end is an out-of-bounds error naming the index.
pub proof fn lemma_negative_indexing(vs: Seq<MVal>, k: int)
    ensures
        1 <= k <= vs.len() ==> index_vals(MVal::Arr(vs), -k) == Ok::<MVal, MErr>(
            vs[vs.len() - k],
        ),
        index_vals(MVal::Arr(vs), vs.len() as int) == Err::<MVal, MErr>(
            MErr::IndexOutOfBounds { index: vs.len() as int },
        ),
        k > vs.len() ==> index_vals(MVal::Arr(vs), -k) == Err::<MVal, MErr>(
            MErr::IndexOutOfBounds { index: -k },
        ),
{
}

/// The length a slice must have, by the boundary law: with both
/// endpoints normalized against the length `n` and clamped to it, an
/// empty or reversed range has length zero and any other range has
/// its width.
pub open spec fn slice_len(a: int, b: int, n: int) -> nat {
    let lo = if norm_idx(a, n) < n {
        norm_idx(a, n)
    } else {
        n
    };
    let hi = if norm_idx(b, n) < n {
        norm_idx(b, n)
    } else {
        n
    };
    if lo >= hi {
        0
    } else {
        (hi - lo) as nat
    }
}

/// The slice boundary law for arrays: the length of `x[a:b]` over an
/// array of length `n` is `max(0, min(b, n) - max(a, 0))` after
/// negative endpoints are normalized against `n`.
pub proof fn lemma_slice_bounds(vs: Seq<MVal>, a: int, b: int)
    ensures
        slice_vals(MVal::Arr(vs), Some(a), Some(b)) matches Ok(y) && (y matches MVal::Arr(ys)
            && ys.len() == slice_len(a, b, vs.len() as int)),
{
}

/// The slice boundary law for strings, over the character count.
pub proof fn lemma_slice_bounds_str(cs: Seq<char>, a: int, b: int)
    ensures
        slice_vals(MVal::Str(cs), Some(a), Some(b)) matches Ok(y) && (y matches MVal::Str(ys)
            && ys.len() == slice_len(a, b, cs.len() as int)),
{
}

/// Integer preservation: the sum of two integers that fits stays an
/// exact integer, and a quotient is always on the decimal path.
pub proof fn lemma_integer_preservation(a: int, b: int)
    requires
        -0x8000_0000_0000_0000 <= a + b <= 0x7fff_ffff_ffff_ffff,
    ensures
        add_vals(MVal::Num(MNum::Int(a)), MVal::Num(MNum::Int(b))) == Ok::<MVal, MErr>(
            MVal::Num(MNum::Int(a + b)),
        ),
        b != 0 ==> (div_vals(MVal::Num(MNum::Int(a)), MVal::Num(MNum::Int(b))) matches Ok(q)
            ==> q matches MVal::Num(n) && n is Dec),
{
    match num_div_s(MNum::Int(a), MNum::Int(b)) {
        Some(n) => {
            assert(n is Dec);
        },
        None => {},
    }
}

/// Division and modulo by a numeric zero always error, whatever the
/// numeric form of either operand.
pub proof fn lemma_zero_divisor(a: MNum, z: MNum)
    requires
        num_is_zero_s(z),
    ensures
        div_vals(MVal::Num(a), MVal::Num(z)) == Err::<MVal, MErr>(MErr::DivisionByZero),
        rem_vals(MVal::Num(a), MVal::Num(z)) == Err::<MVal, MErr>(MErr::ModuloByZero),
{
}

/// Field access on a missing key errors naming that key; field access
/// on anything that is not an object errors naming the field as well.
pub proof fn lemma_field_errors(target: MVal, field: Seq<char>)
    ensures
        target matches MVal::Obj(fs) && !obj_has(fs, MVal::Str(field)) ==> field_vals(
            target,
            field,
        ) == Err::<MVal, MErr>(MErr::FieldNotFound { field }),
        !(target is Obj) ==> field_vals(target, field) == Err::<MVal, MErr>(
            MErr::FieldOnNonObject { field },
        ),
{
}

/// Pairwise-distinct canonical encodings.
pub open spec fn distinct_canons(t: Seq<MVal>) -> bool {
    forall|i: int, j: int|
        0 <= i < j < t.len() ==> canon(#[trigger] t[i]) != canon(#[trigger] t[j])
}

proof fn lemma_uniq_acc_distinct(s: Seq<MVal>, seen: Seq<Seq<char>>)
    ensures
        distinct_canons(uniq_acc(s, seen)),
        forall|k: int|
            0 <= k < uniq_acc(s, seen).len() ==> !seen.contains(
                canon(#[trigger] uniq_acc(s, seen)[k]),
            ),
    decreases s,
{
    if s.len() > 0 {
        if seen.contains(canon(s[0])) {
            lemma_uniq_acc_distinct(s.drop_first(), seen);
        } else {
            lemma_uniq_acc_distinct(s.drop_first(), seen.push(canon(s[0])));
            let u = uniq_acc(s, seen);
            let tail = uniq_acc(s.drop_first(), seen.push(canon(s[0])));
            assert(forall|k: int| 0 <= k < tail.len() ==> u[k + 1] == tail[k]);
            assert forall|k: int|
                0 <= k < tail.len() implies canon(#[trigger] tail[k]) != canon(s[0]) by {
                assert(!seen.push(canon(s[0])).contains(canon(tail[k])));
                if canon(tail[k]) == canon(s[0]) {
                    assert(seen.push(canon(s[0]))[seen.len() as int] == canon(s[0]));
                    assert(seen.push(canon(s[0])).contains(canon(tail[k])));
                }
            }
            assert forall|k: int|
                0 <= k < tail.len() implies !seen.contains(canon(#[trigger] tail[k])) by {
                if seen.contains(canon(tail[k])) {
                    let w = choose|i: int|
                        0 <= i < seen.len() && seen[i] == canon(tail[k]);
                    assert(seen.push(canon(s[0]))[w] == canon(tail[k]));
                    assert(seen.push(canon(s[0])).contains(canon(tail[k])));
                }
            }
        }
    }
}

proof fn lemma_uniq_acc_of_distinct(t: Seq<MVal>, seen: Seq<Seq<char>>)
    requires
        distinct_canons(t),
        forall|k: int| 0 <= k < t.len() ==> !seen.contains(canon(#[trigger] t[k])),
    ensures
        uniq_acc(t, seen) == t,
    decreases t,
{
    if t.len() == 0 {
        assert(uniq_acc(t, seen) =~= t);
    } else {
        assert(!seen.contains(canon(t[0])));
        let seen2 = seen.push(canon(t[0]));
        assert(forall|k: int|
            0 <= k < t.drop_first().len() ==> t.drop_first()[k] == t[k + 1]);
        assert forall|k: int|
            0 <= k < t.drop_first().len() implies !seen2.contains(
            canon(#[trigger] t.drop_first()[k]),
        ) by {
            assert(canon(t.drop_first()[k]) == canon(t[k + 1]));
            assert(canon(t[k + 1]) != canon(t[0]));
            assert(!seen.contains(canon(t[k + 1])));
            if seen2.contains(canon(t[k + 1])) {
                let w = choose|i: int|
                    0 <= i < seen2.len() && seen2[i] == canon(t[k + 1]);
                if w < seen.len() {
                    assert(seen[w] == canon(t[k + 1]));
                    assert(seen.contains(canon(t[k + 1])));
                } else {
                    assert(seen2[w] == canon(t[0]));
                }
            }
        }
        lemma_uniq_acc_of_distinct(t.drop_first(), seen2);
        assert(uniq_acc(t, seen) =~= t);
    }
}

/// `unique` is idempotent: applying it to its own result changes
/// nothing, and first-seen order is kept by construction.
pub proof fn lemma_unique_idempotent(vs: Seq<MVal>)
    ensures
        crate::semantics::unique_vals(MVal::Arr(uniq_acc(vs, Seq::empty()))) == Ok::<MVal, MErr>(
            MVal::Arr(uniq_acc(vs, Seq::empty())),
        ),
{
    let u = uniq_acc(vs, Seq::empty());
    lemma_uniq_acc_distinct(vs, Seq::empty());
    assert(forall|k: int| 0 <= k < u.len() ==> !Seq::<Seq<char>>::empty().contains(
        canon(#[trigger] u[k]),
    ));
    lemma_uniq_acc_of_distinct(u, Seq::empty());
}

/// Every element is a number.
pub open spec fn all_nums(s: Seq<MVal>) -> bool {
    forall|i: int| 0 <= i < s.len() ==> #[trigger] s[i] is Num
}

/// Every element is a string.
pub open spec fn all_strs(s: Seq<MVal>) -> bool {
    forall|i: int| 0 <= i < s.len() ==> #[trigger] s[i] is Str
}

/// The sort comparator's less-or-equal.
pub open spec fn le_ord(a: MVal, b: MVal) -> bool {
    ord_vals(a, b) != Cmp::Gt
}

/// Sorted in the strong sense: every earlier element is less-or-equal
/// to every later one.
pub open spec fn pairwise_sorted(t: Seq<MVal>) -> bool {
    forall|i: int, j: int| 0 <= i < j < t.len() ==> le_ord(#[trigger] t[i], #[trigger] t[j])
}

proof fn lemma_str_cmp_antisym(s: Seq<char>, t: Seq<char>)
    ensures
        (str_cmp_s(s, t) == Cmp::Lt) == (str_cmp_s(t, s) == Cmp::Gt),
        (str_cmp_s(s, t) == Cmp::Eq) == (str_cmp_s(t, s) == Cmp::Eq),
    decreases s.len() + t.len(),
{
    if s.len() > 0 && t.len() > 0 && s[0] == t[0] {
        lemma_str_cmp_antisym(s.drop_first(), t.drop_first());
    }
}

proof fn lemma_ord_antisym(a: MVal, b: MVal)
    ensures
        (ord_vals(a, b) == Cmp::Lt) == (ord_vals(b, a) == Cmp::Gt),
{
    match (a, b) {
        (MVal::Str(s), MVal::Str(t)) => {
            lemma_str_cmp_antisym(s, t);
        },
        _ => {},
    }
}

proof fn lemma_str_cmp_trans_le(s: Seq<char>, t: Seq<char>, u: Seq<char>)
    requires
        str_cmp_s(s, t) != Cmp::Gt,
        str_cmp_s(t, u) != Cmp::Gt,
    ensures
        str_cmp_s(s, u) != Cmp::Gt,
    decreases s.len() + t.len() + u.len(),
{
    if s.len() > 0 && t.len() > 0 && u.len() > 0 {
        if s[0] == t[0] && t[0] == u[0] {
            lemma_str_cmp_trans_le(s.drop_first(), t.drop_first(), u.drop_first());
        }
    }
}

proof fn lemma_num_cmp_trans_le(a: MNum, b: MNum, c: MNum)
    requires
        num_cmp_s(a, b) != Cmp::Gt,
        num_cmp_s(b, c) != Cmp::Gt,
    ensures
        num_cmp_s(a, c) != Cmp::Gt,
{
    let pa = num_pair(a);
    let pb = num_pair(b);
    let pc = num_pair(c);
    let qa = p10(pa.1);
    let qb = p10(pb.1);
    let qc = p10(pc.1);
    lemma_p10_pos(pa.1);
    lemma_p10_pos(pb.1);
    lemma_p10_pos(pc.1);
    assert(pa.0 * qb <= pb.0 * qa);
    assert(pb.0 * qc <= pc.0 * qb);
    assert((pa.0 * qb) * qc <= (pb.0 * qa) * qc) by (nonlinear_arith)
        requires
            pa.0 * qb <= pb.0 * qa,
            qc >= 1,
    ;
    assert((pb.0 * qc) * qa <= (pc.0 * qb) * qa) by (nonlinear_arith)
        requires
            pb.0 * qc <= pc.0 * qb,
            qa >= 1,
    ;
    assert((pb.0 * qa) * qc == (pb.0 * qc) * qa) by (nonlinear_arith);
    assert((pa.0 * qb) * qc == (pa.0 * qc) * qb) by (nonlinear_arith);
    assert((pc.0 * qb) * qa == (pc.0 * qa) * qb) by (nonlinear_arith);
    assert((pa.0 * qc) * qb <= (pc.0 * qa) * qb);
    assert(pa.0 * qc <= pc.0 * qa) by (nonlinear_arith)
        requires
            (pa.0 * qc) * qb <= (pc.0 * qa) * qb,
            qb >= 1,
    ;
}

proof fn lemma_le_trans_homog(a: MVal, b: MVal, c: MVal)
    requires
        (a is Num && b is Num && c is Num) || (a is Str && b is Str && c is Str),
        le_ord(a, b),
        le_ord(b, c),
    ensures
        le_ord(a, c),
{
    match (a, b, c) {
        (MVal::Num(x), MVal::Num(y), MVal::Num(z)) => {
            lemma_num_cmp_trans_le(x, y, z);
        },
        (MVal::Str(x), MVal::Str(y), MVal::Str(z)) => {
            lemma_str_cmp_trans_le(x, y, z);
        },
        _ => {},
    }
}

proof fn lemma_ins_pairwise(x: MVal, s: Seq<MVal>)
    requires
        pairwise_sorted(s),
        (x is Num && all_nums(s)) || (x is Str && all_strs(s)),
    ensures
        pairwise_sorted(ins_sorted(x, s)),
        ins_sorted(x, s).len() == s.len() + 1,
        forall|k: int|
            0 <= k < ins_sorted(x, s).len() ==> #[trigger] ins_sorted(x, s)[k] == x || s.contains(
                ins_sorted(x, s)[k],
            ),
    decreases s,
{
    let r = ins_sorted(x, s);
    if s.len() == 0 {
        assert(pairwise_sorted(r));
    } else if ord_vals(x, s[0]) == Cmp::Lt {
        assert(r == seq![x] + s);
        assert forall|i: int, j: int| 0 <= i < j < r.len() implies le_ord(
            #[trigger] r[i],
            #[trigger] r[j],
        ) by {
            if i == 0 {
                assert(r[0] == x);
                assert(r[j] == s[j - 1]);
                if j == 1 {
                    assert(le_ord(x, s[0]));
                } else {
                    assert(le_ord(x, s[0]));
                    assert(le_ord(s[0], s[j - 1]));
                    lemma_le_trans_homog(x, s[0], s[j - 1]);
                }
            } else {
                assert(r[i] == s[i - 1]);
                assert(r[j] == s[j - 1]);
            }
        }
        assert(forall|k: int| 0 <= k < r.len() ==> #[trigger] r[k] == x || s.contains(r[k])) by {
            assert(forall|k: int| 1 <= k < r.len() ==> #[trigger] r[k] == s[k - 1]);
        }
    } else {
        lemma_ord_antisym(x, s[0]);
        lemma_ord_antisym(s[0], x);
        assert(le_ord(s[0], x));
        assert(pairwise_sorted(s.drop_first())) by {
            assert(forall|k: int|
                0 <= k < s.drop_first().len() ==> #[trigger] s.drop_first()[k] == s[k + 1]);
        }
        assert((x is Num && all_nums(s.drop_first())) || (x is Str && all_strs(
            s.drop_first(),
        ))) by {
            assert(forall|k: int|
                0 <= k < s.drop_first().len() ==> #[trigger] s.drop_first()[k] == s[k + 1]);
        }
        lemma_ins_pairwise(x, s.drop_first());
        let tail = ins_sorted(x, s.drop_first());
        assert(r == seq![s[0]] + tail);
        assert forall|i: int, j: int| 0 <= i < j < r.len() implies le_ord(
            #[trigger] r[i],
            #[trigger] r[j],
        ) by {
            assert(forall|k: int| 1 <= k < r.len() ==> #[trigger] r[k] == tail[k - 1]);
            if i == 0 {
                assert(r[0] == s[0]);
                let e = tail[j - 1];
                assert(e == x || s.drop_first().contains(e));
                if e == x {
                    assert(le_ord(s[0], x));
                } else {
                    let w = choose|w: int|
                        0 <= w < s.drop_first().len() && s.drop_first()[w] == e;
                    assert(s.drop_first()[w] == s[w + 1]);
                    assert(le_ord(s[0], s[w + 1]));
                }
            }
        }
        assert forall|k: int| 0 <= k < r.len() implies #[trigger] r[k] == x || s.contains(
            r[k],
        ) by {
            if k == 0 {
                assert(r[0] == s[0]);
                assert(s.contains(s[0]));
            } else {
                assert(r[k] == tail[k - 1]);
                let e = tail[k - 1];
                if e != x {
                    assert(s.drop_first().contains(e));
                    let w = choose|w: int|
                        0 <= w < s.drop_first().len() && s.drop_first()[w] == e;
                    assert(s.drop_first()[w] == s[w + 1]);
                    assert(s.contains(e));
                }
            }
        }
    }
}

proof fn lemma_sort_acc_props(s: Seq<MVal>, acc: Seq<MVal>)
    requires
        pairwise_sorted(acc),
        (all_nums(s) && all_nums(acc)) || (all_strs(s) && all_strs(acc)),
    ensures
        pairwise_sorted(sort_acc(s, acc)),
        forall|k: int|
            0 <= k < sort_acc(s, acc).len() ==> s.contains(#[trigger] sort_acc(s, acc)[k])
                || acc.contains(sort_acc(s, acc)[k]),
    decreases s,
{
    if s.len() == 0 {
        assert(forall|k: int|
            0 <= k < sort_acc(s, acc).len() ==> acc.contains(#[trigger] sort_acc(s, acc)[k]));
    } else {
        lemma_ins_pairwise(s[0], acc);
        let acc2 = ins_sorted(s[0], acc);
        assert(forall|k: int|
            0 <= k < s.drop_first().len() ==> #[trigger] s.drop_first()[k] == s[k + 1]);
        assert((all_nums(s.drop_first()) && all_nums(acc2)) || (all_strs(s.drop_first())
            && all_strs(acc2))) by {
            if all_nums(s) && all_nums(acc) {
                assert forall|k: int| 0 <= k < acc2.len() implies #[trigger] acc2[k] is Num by {
                    if acc2[k] != s[0] {
                        assert(acc.contains(acc2[k]));
                        let w = choose|w: int| 0 <= w < acc.len() && acc[w] == acc2[k];
                        assert(acc[w] is Num);
                    }
                }
            } else {
                assert forall|k: int| 0 <= k < acc2.len() implies #[trigger] acc2[k] is Str by {
                    if acc2[k] != s[0] {
                        assert(acc.contains(acc2[k]));
                        let w = choose|w: int| 0 <= w < acc.len() && acc[w] == acc2[k];
                        assert(acc[w] is Str);
                    }
                }
            }
        }
        lemma_sort_acc_props(s.drop_first(), acc2);
        assert forall|k: int| 0 <= k < sort_acc(s, acc).len() implies s.contains(
            #[trigger] sort_acc(s, acc)[k],
        ) || acc.contains(sort_acc(s, acc)[k]) by {
            let e = sort_acc(s, acc)[k];
            assert(sort_acc(s, acc) == sort_acc(s.drop_first(), acc2));
            if s.drop_first().contains(e) {
                let w = choose|w: int|
                    0 <= w < s.drop_first().len() && s.drop_first()[w] == e;
                assert(s.drop_first()[w] == s[w + 1]);
                assert(s.contains(e));
            } else if acc2.contains(e) {
                let w = choose|w: int| 0 <= w < acc2.len() && acc2[w] == e;
                if acc2[w] == s[0] {
                    assert(s.contains(s[0]));
                } else {
                    assert(acc.contains(acc2[w]));
                }
            }
        }
    }
}

proof fn lemma_ins_at_end(x: MVal, t: Seq<MVal>)
    requires
        forall|k: int| 0 <= k < t.len() ==> ord_vals(x, #[trigger] t[k]) != Cmp::Lt,
    ensures
        ins_sorted(x, t) == t.push(x),
    decreases t,
{
    if t.len() == 0 {
        assert(ins_sorted(x, t) =~= t.push(x));
    } else {
        assert(ord_vals(x, t[0]) != Cmp::Lt);
        assert(forall|k: int|
            0 <= k < t.drop_first().len() ==> #[trigger] t.drop_first()[k] == t[k + 1]);
        lemma_ins_at_end(x, t.drop_first());
        assert(ins_sorted(x, t) =~= t.push(x));
    }
}

proof fn lemma_sort_acc_of_pairwise(t: Seq<MVal>, i: int)
    requires
        pairwise_sorted(t),
        0 <= i <= t.len(),
    ensures
        sort_acc(t.skip(i), t.take(i)) == t,
    decreases t.len() - i,
{
    if i == t.len() {
        assert(t.skip(i).len() == 0);
        assert(sort_acc(t.skip(i), t.take(i)) == t.take(i));
        assert(t.take(i) =~= t);
    } else {
        assert(t.skip(i)[0] == t[i]);
        assert forall|k: int| 0 <= k < t.take(i).len() implies ord_vals(
            t[i],
            #[trigger] t.take(i)[k],
        ) != Cmp::Lt by {
            assert(t.take(i)[k] == t[k]);
            assert(le_ord(t[k], t[i]));
            lemma_ord_antisym(t[i], t[k]);
            lemma_ord_antisym(t[k], t[i]);
        }
        lemma_ins_at_end(t[i], t.take(i));
        assert(t.take(i).push(t[i]) =~= t.take(i + 1));
        assert(t.skip(i).drop_first() =~= t.skip(i + 1));
        lemma_sort_acc_of_pairwise(t, i + 1);
        assert(sort_acc(t.skip(i), t.take(i)) == sort_acc(t.skip(i + 1), t.take(i + 1)));
    }
}

/// `sort` is idempotent on numeric-homogeneous and string-homogeneous
/// arrays: sorting a sorted array changes nothing. For mixed arrays
/// the ordering rule treats unordered pairs as equal and need not be
/// transitive, so no such law is claimed there.
pub proof fn lemma_sort_idempotent(vs: Seq<MVal>)
    requires
        all_nums(vs) || all_strs(vs),
    ensures
        crate::semantics::sort_vals(MVal::Arr(sort_s(vs))) == Ok::<MVal, MErr>(
            MVal::Arr(sort_s(vs)),
        ),
{
    let y = sort_s(vs);
    assert(pairwise_sorted(Seq::<MVal>::empty()));
    if all_nums(vs) {
        assert(all_nums(Seq::<MVal>::empty()));
    } else {
        assert(all_strs(Seq::<MVal>::empty()));
    }
    lemma_sort_acc_props(vs, Seq::empty());
    assert(pairwise_sorted(y));
    lemma_sort_acc_of_pairwise(y, 0);
    assert(y.skip(0) =~= y);
    assert(y.take(0) =~= Seq::<MVal>::empty());
    assert(sort_s(y) == sort_acc(y.skip(0), y.take(0)));
    assert(sort_s(y) == y);
}

/// The keys rule: an object yields its keys in insertion order, an
/// array of length `n` yields the integers `0` to `n - 1` in order.
pub proof fn lemma_keys(v: MVal)
    ensures
        v matches MVal::Obj(fs) ==> keys_vals(v) == Ok::<MVal, MErr>(
            MVal::Arr(Seq::new(fs.len(), |i: int| fs[i].0)),
        ),
        v matches MVal::Arr(vs) ==> (vs.len() <= 0x7fff_ffff_ffff_ffff ==> keys_vals(v) == Ok::<
            MVal,
            MErr,
        >(MVal::Arr(Seq::new(vs.len(), |i: int| MVal::Num(MNum::Int(i)))))),
{
}

} // verus!
