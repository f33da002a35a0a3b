//! Text renderings of values: decimal renderings of numbers, and the
//! canonical structural encoding used by `unique`, `tostring` and
//! `group_by`. The encoding is deterministic and total over all value
//! shapes, so two values are structurally equal exactly when their
//! canonical texts agree.

use vstd::prelude::*;
use crate::num::{MNum, Number};
use crate::value::{MVal, Value, mval_of_list, mval_of_entries, val_size, val_list_size,
    val_entries_size, lemma_mval_list, lemma_mval_entries, lemma_val_list_size,
    lemma_val_entries_size};

verus! {

broadcast use vstd::std_specs::vec::group_vec_axioms, vstd::seq::axiom_seq_index_decreases;

/// Relies on String::push: appends exactly one character at the end.
#[verifier::external_body]
pub fn push_char(s: &mut String, c: char)
    ensures
        final(s)@ == old(s)@.push(c),
{
    s.push(c);
}

/// The decimal digit character for one digit value.
pub open spec fn digit_c(d: nat) -> char {
    ((48 + d) as u8) as char
}

/// The decimal digits of a natural number, most significant first.
pub open spec fn dec_digits(n: nat) -> Seq<char>
    decreases n,
{
    if n < 10 {
        seq![digit_c(n)]
    } else {
        dec_digits(n / 10).push(digit_c(n % 10))
    }
}

/// The decimal text of an integer, with a leading minus when negative.
pub open spec fn int_str(i: int) -> Seq<char> {
    if i < 0 {
        seq!['-'] + dec_digits((-i) as nat)
    } else {
        dec_digits(i as nat)
    }
}

/// Append the decimal digits of `n`.
#[verifier::loop_isolation(false)]
fn push_digits(out: &mut String, n: u64)
    ensures
        final(out)@ == old(out)@ + dec_digits(n as nat),
{
    if n == 0 {
        proof {
            assert(dec_digits(0) == seq![digit_c(0)]);
            assert(old(out)@.push(digit_c(0)) =~= old(out)@ + dec_digits(0));
        }
        push_char(out, '0');
        return ;
    }
    let mut tmp: Vec<char> = Vec::new();
    let mut m: u64 = n;
    proof {
        assert(tmp@.reverse() =~= Seq::<char>::empty());
        assert(dec_digits(n as nat) + tmp@.reverse() =~= dec_digits(n as nat));
    }
    loop
        invariant
            dec_digits(n as nat) == if m > 0 {
                dec_digits(m as nat) + tmp@.reverse()
            } else {
                tmp@.reverse()
            },
            m <= n,
            out == old(out),
        decreases m,
    {
        if m == 0 {
            break;
        }
        let d: u64 = m % 10;
        let m2: u64 = m / 10;
        proof {
            if m < 10 {
                assert(dec_digits(m as nat) == seq![digit_c(m as nat)]);
                assert(tmp@.push(digit_c(m as nat)).reverse() =~= seq![digit_c(m as nat)]
                    + tmp@.reverse());
            } else {
                assert(dec_digits(m as nat) == dec_digits(m as nat / 10).push(
                    digit_c(m as nat % 10),
                ));
                assert(tmp@.push(digit_c(m as nat % 10)).reverse() =~= seq![
                    digit_c(m as nat % 10),
                ] + tmp@.reverse());
                assert(dec_digits(m as nat / 10).push(digit_c(m as nat % 10)) + tmp@.reverse()
                    =~= dec_digits(m as nat / 10) + (seq![digit_c(m as nat % 10)]
                    + tmp@.reverse()));
            }
        }
        let c: char = (48u8 + (d as u8)) as char;
        proof {
            assert(c == digit_c(d as nat));
        }
        tmp.push(c);
        m = m2;
    }
    let mut j: usize = tmp.len();
    proof {
        assert(tmp@.reverse().take(0) =~= Seq::<char>::empty());
        assert(out@ + Seq::<char>::empty() =~= out@);
    }
    while j > 0
        invariant
            j <= tmp.len(),
            out@ == old(out)@ + tmp@.reverse().take((tmp@.len() - j) as int),
        decreases j,
    {
        j = j - 1;
        proof {
            assert(tmp@.reverse()[(tmp@.len() - j - 1) as int] == tmp@[j as int]);
            assert(tmp@.reverse().take((tmp@.len() - j) as int) =~= tmp@.reverse().take(
                (tmp@.len() - j - 1) as int,
            ).push(tmp@[j as int]));
        }
        let c = tmp[j];
        push_char(out, c);
    }
    proof {
        assert(tmp@.reverse().take(tmp@.len() as int) =~= tmp@.reverse());
    }
}

/// Append the decimal text of a signed integer.
#[verifier::loop_isolation(false)]
pub fn push_int(out: &mut String, x: i64)
    ensures
        final(out)@ == old(out)@ + int_str(x as int),
{
    if x < 0 {
        push_char(out, '-');
        let mag: u64 = (0i128 - (x as i128)) as u64;
        proof {
            assert(mag as nat == (-(x as int)) as nat);
        }
        push_digits(out, mag);
        proof {
            assert(old(out)@.push('-') + dec_digits(mag as nat) =~= old(out)@ + (seq!['-']
                + dec_digits(mag as nat)));
        }
    } else {
        push_digits(out, x as u64);
    }
}

/// The text of an integer, as `tostring` and the renderers produce it.
pub fn render_int(x: i64) -> (r: String)
    ensures
        r@ == int_str(x as int),
{
    let mut out = String::new();
    push_int(&mut out, x);
    proof {
        assert(Seq::<char>::empty() + int_str(x as int) =~= int_str(x as int));
    }
    out
}

/// A run of zero characters.
pub open spec fn zeros(n: nat) -> Seq<char> {
    Seq::new(n, |i: int| '0')
}

/// The decimal text of a fraction `m / 10^e`: a scale of zero renders
/// with a trailing `.0`, otherwise the point sits `e` digits from the
/// right, with leading zeros supplied as needed.
pub open spec fn dec_str(m: int, e: nat) -> Seq<char> {
    let sign: Seq<char> = if m < 0 {
        seq!['-']
    } else {
        Seq::empty()
    };
    let mag: nat = if m < 0 {
        (-m) as nat
    } else {
        m as nat
    };
    let ds = dec_digits(mag);
    if e == 0 {
        sign + ds + seq!['.', '0']
    } else if ds.len() <= e {
        sign + seq!['0', '.'] + zeros((e - ds.len()) as nat) + ds
    } else {
        sign + ds.take(ds.len() - e) + seq!['.'] + ds.skip(ds.len() - e)
    }
}

/// The text of a number: integers plain, decimals with a point.
pub open spec fn num_str(n: MNum) -> Seq<char> {
    match n {
        MNum::Int(i) => int_str(i),
        MNum::Dec { m, e } => dec_str(m, e),
    }
}

/// Append the decimal text of a fraction.
#[verifier::loop_isolation(false)]
pub fn push_dec(out: &mut String, m: i64, e: u32)
    ensures
        final(out)@ == old(out)@ + dec_str(m as int, e as nat),
{
    if m < 0 {
        push_char(out, '-');
    }
    let mag: u64 = if m < 0 {
        (0i128 - (m as i128)) as u64
    } else {
        m as u64
    };
    let ghost sign: Seq<char> = if m < 0 {
        seq!['-']
    } else {
        Seq::empty()
    };
    let ghost base: Seq<char> = out@;
    proof {
        assert(base =~= old(out)@ + sign);
        assert(mag as nat == if m < 0 {
            (-(m as int)) as nat
        } else {
            (m as int) as nat
        });
    }
    let mut tmp = String::new();
    push_digits(&mut tmp, mag);
    proof {
        assert(tmp@ =~= dec_digits(mag as nat));
    }
    let ghost ds = dec_digits(mag as nat);
    let dl = tmp.unicode_len();
    if e == 0 {
        out.append(tmp.as_str());
        push_char(out, '.');
        push_char(out, '0');
        proof {
            assert(out@ =~= old(out)@ + dec_str(m as int, e as nat));
        }
    } else if dl <= e as usize {
        push_char(out, '0');
        push_char(out, '.');
        let mut k: usize = 0;
        let pad: usize = e as usize - dl;
        while k < pad
            invariant
                k <= pad,
                out@ == base + seq!['0', '.'] + zeros(k as nat),
            decreases pad - k,
        {
            proof {
                assert(zeros((k + 1) as nat) =~= zeros(k as nat).push('0'));
                assert((base + seq!['0', '.'] + zeros(k as nat)).push('0') =~= base + seq![
                    '0',
                    '.',
                ] + zeros((k + 1) as nat));
            }
            push_char(out, '0');
            k = k + 1;
        }
        out.append(tmp.as_str());
        proof {
            assert(out@ =~= old(out)@ + dec_str(m as int, e as nat));
        }
    } else {
        let whole = tmp.as_str().substring_char(0, dl - e as usize);
        let frac = tmp.as_str().substring_char(dl - e as usize, dl);
        out.append(whole);
        push_char(out, '.');
        out.append(frac);
        proof {
            assert(whole@ =~= ds.take(ds.len() - e as nat));
            assert(frac@ =~= ds.skip(ds.len() - e as nat));
            assert(out@ =~= old(out)@ + dec_str(m as int, e as nat));
        }
    }
}

/// The text of a number.
pub fn render_number(n: &Number) -> (r: String)
    ensures
        r@ == num_str(n.model()),
{
    let mut out = String::new();
    match n {
        Number::Int(i) => {
            push_int(&mut out, *i);
        },
        Number::Dec(d) => {
            push_dec(&mut out, d.mantissa(), d.scale());
        },
    }
    proof {
        assert(Seq::<char>::empty() + num_str(n.model()) =~= num_str(n.model()));
    }
    out
}

/// The hexadecimal digit character for one digit value.
pub open spec fn hex_c(d: nat) -> char {
    if d < 10 {
        ((48 + d) as u8) as char
    } else {
        ((87 + d) as u8) as char
    }
}

/// The escaped form of one character inside a quoted string.
pub open spec fn esc_char(c: char) -> Seq<char> {
    if c == '"' {
        seq!['\\', '"']
    } else if c == '\\' {
        seq!['\\', '\\']
    } else if c == '\n' {
        seq!['\\', 'n']
    } else if c == '\r' {
        seq!['\\', 'r']
    } else if c == '\t' {
        seq!['\\', 't']
    } else if c == '\u{8}' {
        seq!['\\', 'b']
    } else if c == '\u{c}' {
        seq!['\\', 'f']
    } else if (c as u32) < 32 {
        seq!['\\', 'u', '0', '0', hex_c((c as u32 / 16) as nat), hex_c((c as u32 % 16) as nat)]
    } else {
        seq![c]
    }
}

/// The escaped form of a whole string, character by character.
pub open spec fn esc_seq(s: Seq<char>) -> Seq<char>
    decreases s,
{
    if s.len() == 0 {
        Seq::empty()
    } else {
        esc_char(s[0]) + esc_seq(s.drop_first())
    }
}

pub proof fn lemma_esc_push(s: Seq<char>, c: char)
    ensures
        esc_seq(s.push(c)) == esc_seq(s) + esc_char(c),
    decreases s,
{
    if s.len() == 0 {
        assert(s.push(c).drop_first() =~= Seq::<char>::empty());
        assert(s.push(c)[0] == c);
        assert(esc_seq(s) == Seq::<char>::empty());
        assert(esc_seq(s.push(c).drop_first()) == Seq::<char>::empty());
        assert(esc_seq(s.push(c)) == esc_char(c) + Seq::<char>::empty());
        assert(esc_char(c) + Seq::<char>::empty() =~= Seq::<char>::empty() + esc_char(c));
    } else {
        lemma_esc_push(s.drop_first(), c);
        assert(s.push(c).drop_first() =~= s.drop_first().push(c));
        assert(s.push(c)[0] == s[0]);
        assert(esc_char(s[0]) + (esc_seq(s.drop_first()) + esc_char(c)) =~= esc_seq(s) + esc_char(
            c,
        ));
    }
}

/// Append the escaped form of a string.
#[verifier::loop_isolation(false)]
fn push_escaped(out: &mut String, s: &str)
    ensures
        final(out)@ == old(out)@ + esc_seq(s@),
{
    let n = s.unicode_len();
    let mut i: usize = 0;
    proof {
        assert(s@.take(0) =~= Seq::<char>::empty());
        assert(old(out)@ + esc_seq(s@.take(0)) =~= old(out)@);
    }
    while i < n
        invariant
            i <= n,
            out@ == old(out)@ + esc_seq(s@.take(i as int)),
        decreases n - i,
    {
        let c = s.get_char(i);
        proof {
            lemma_esc_push(s@.take(i as int), c);
            assert(s@.take(i as int).push(c) =~= s@.take(i + 1));
        }
        if c == '"' {
            push_char(out, '\\');
            push_char(out, '"');
        } else if c == '\\' {
            push_char(out, '\\');
            push_char(out, '\\');
        } else if c == '\n' {
            push_char(out, '\\');
            push_char(out, 'n');
        } else if c == '\r' {
            push_char(out, '\\');
            push_char(out, 'r');
        } else if c == '\t' {
            push_char(out, '\\');
            push_char(out, 't');
        } else if c == '\u{8}' {
            push_char(out, '\\');
            push_char(out, 'b');
        } else if c == '\u{c}' {
            push_char(out, '\\');
            push_char(out, 'f');
        } else if (c as u32) < 32 {
            push_char(out, '\\');
            push_char(out, 'u');
            push_char(out, '0');
            push_char(out, '0');
            let hi: u32 = (c as u32) / 16;
            let lo: u32 = (c as u32) % 16;
            let hc: char = if hi < 10 {
                (48u8 + (hi as u8)) as char
            } else {
                (87u8 + (hi as u8)) as char
            };
            let lc: char = if lo < 10 {
                (48u8 + (lo as u8)) as char
            } else {
                (87u8 + (lo as u8)) as char
            };
            proof {
                assert(hc == hex_c(hi as nat));
                assert(lc == hex_c(lo as nat));
            }
            push_char(out, hc);
            push_char(out, lc);
        } else {
            push_char(out, c);
        }
        proof {
            assert(out@ =~= old(out)@ + esc_seq(s@.take(i + 1)));
        }
        i = i + 1;
    }
    proof {
        assert(s@.take(n as int) =~= s@);
    }
}

/// Canonical encoding of a value, a deterministic structural text form.
pub open spec fn canon(v: MVal) -> Seq<char>
    decreases v, 0nat,
{
    match v {
        MVal::Null => "null"@,
        MVal::Bool(b) => if b {
            "true"@
        } else {
            "false"@
        },
        MVal::Num(n) => num_str(n),
        MVal::Str(s) => seq!['"'] + esc_seq(s) + seq!['"'],
        MVal::Arr(vs) => seq!['['] + canon_list(vs) + seq![']'],
        MVal::Obj(fs) => seq!['{'] + canon_entries(fs) + seq!['}'],
    }
}

pub open spec fn canon_list(s: Seq<MVal>) -> Seq<char>
    decreases s, 1nat,
{
    if s.len() == 0 {
        Seq::empty()
    } else {
        canon(s[0]) + canon_rest(s.drop_first())
    }
}

pub open spec fn canon_rest(s: Seq<MVal>) -> Seq<char>
    decreases s, 2nat,
{
    if s.len() == 0 {
        Seq::empty()
    } else {
        seq![','] + canon(s[0]) + canon_rest(s.drop_first())
    }
}

/// An object key in canonical form: string keys are quoted and escaped,
/// any other key is stringified and then quoted.
pub open spec fn canon_key(k: MVal) -> Seq<char>
    decreases k, 1nat,
{
    match k {
        MVal::Str(s) => seq!['"'] + esc_seq(s) + seq!['"'],
        _ => seq!['"'] + esc_seq(canon(k)) + seq!['"'],
    }
}

pub open spec fn canon_entries(s: Seq<(MVal, MVal)>) -> Seq<char>
    decreases s, 2nat,
{
    if s.len() == 0 {
        Seq::empty()
    } else {
        canon_key(s[0].0) + seq![':'] + canon(s[0].1) + canon_entries_rest(s.drop_first())
    }
}

pub open spec fn canon_entries_rest(s: Seq<(MVal, MVal)>) -> Seq<char>
    decreases s, 3nat,
{
    if s.len() == 0 {
        Seq::empty()
    } else {
        seq![','] + canon_key(s[0].0) + seq![':'] + canon(s[0].1) + canon_entries_rest(
            s.drop_first(),
        )
    }
}

/// Append the canonical encoding of a value.
#[verifier::loop_isolation(false)]
#[verifier::rlimit(50)]
pub fn push_canon(out: &mut String, v: &Value)
    ensures
        final(out)@ == old(out)@ + canon(v@),
    decreases val_size(*v), 0nat,
{
    match v {
        Value::Null => {
            out.append("null");
            proof {
                assert(out@ =~= old(out)@ + canon(v@));
            }
        },
        Value::Bool(b) => {
            if *b {
                out.append("true");
            } else {
                out.append("false");
            }
            proof {
                assert(out@ =~= old(out)@ + canon(v@));
            }
        },
        Value::Num(n) => {
            match n {
                Number::Int(i) => {
                    push_int(out, *i);
                },
                Number::Dec(d) => {
                    push_dec(out, d.mantissa(), d.scale());
                },
            }
        },
        Value::Str(s) => {
            push_char(out, '"');
            push_escaped(out, s.as_str());
            push_char(out, '"');
            proof {
                assert(out@ =~= old(out)@ + canon(v@));
            }
        },
        Value::Arr(vs) => {
            proof {
                lemma_mval_list(vs@);
                lemma_val_list_size(vs@);
                assert(*v == Value::Arr(*vs));
                assert(val_size(*v) == 1 + val_list_size(vs@));
            }
            push_char(out, '[');
            if vs.len() > 0 {
                push_canon(out, &vs[0]);
                let mut i: usize = 1;
                proof {
                    let ms = mval_of_list(vs@);
                    assert(canon(v@) =~= seq!['['] + canon_list(ms) + seq![']']);
                    assert(ms.drop_first() =~= ms.skip(1));
                }
                while i < vs.len()
                    invariant
                        1 <= i <= vs.len(),
                        out@ + canon_rest(mval_of_list(vs@).skip(i as int)) == old(out)@ + seq![
                            '[',
                        ] + canon_list(mval_of_list(vs@)),
                    decreases vs.len() - i,
                {
                    push_char(out, ',');
                    push_canon(out, &vs[i]);
                    proof {
                        let ms = mval_of_list(vs@);
                        assert(ms.skip(i as int).drop_first() =~= ms.skip(i + 1));
                        assert(ms.skip(i as int)[0] == ms[i as int]);
                        assert(canon_rest(ms.skip(i as int)) =~= seq![','] + canon(ms[i as int])
                            + canon_rest(ms.skip(i + 1)));
                    }
                    i = i + 1;
                }
                proof {
                    let ms = mval_of_list(vs@);
                    assert(ms.skip(ms.len() as int).len() == 0);
                    assert(canon_rest(ms.skip(ms.len() as int)) =~= Seq::<char>::empty());
                    assert(out@ =~= old(out)@ + seq!['['] + canon_list(ms));
                }
            }
            push_char(out, ']');
            proof {
                let ms = mval_of_list(vs@);
                if vs@.len() == 0 {
                    assert(canon_list(ms) =~= Seq::<char>::empty());
                }
                assert(out@ =~= old(out)@ + canon(v@));
            }
        },
        Value::Obj(fs) => {
            proof {
                lemma_mval_entries(fs@);
                lemma_val_entries_size(fs@);
                assert(*v == Value::Obj(*fs));
                assert(val_size(*v) == 1 + val_entries_size(fs@));
            }
            push_char(out, '{');
            if fs.len() > 0 {
                push_canon_key(out, &fs[0].0);
                push_char(out, ':');
                push_canon(out, &fs[0].1);
                let mut i: usize = 1;
                proof {
                    let ms = mval_of_entries(fs@);
                    assert(canon(v@) =~= seq!['{'] + canon_entries(ms) + seq!['}']);
                    assert(ms.drop_first() =~= ms.skip(1));
                }
                while i < fs.len()
                    invariant
                        1 <= i <= fs.len(),
                        out@ + canon_entries_rest(mval_of_entries(fs@).skip(i as int)) == old(
                            out,
                        )@ + seq!['{'] + canon_entries(mval_of_entries(fs@)),
                    decreases fs.len() - i,
                {
                    push_char(out, ',');
                    push_canon_key(out, &fs[i].0);
                    push_char(out, ':');
                    push_canon(out, &fs[i].1);
                    proof {
                        let ms = mval_of_entries(fs@);
                        assert(ms.skip(i as int).drop_first() =~= ms.skip(i + 1));
                        assert(ms.skip(i as int)[0] == ms[i as int]);
                        assert(canon_entries_rest(ms.skip(i as int)) =~= seq![','] + canon_key(
                            ms[i as int].0,
                        ) + seq![':'] + canon(ms[i as int].1) + canon_entries_rest(
                            ms.skip(i + 1),
                        ));
                    }
                    i = i + 1;
                }
                proof {
                    let ms = mval_of_entries(fs@);
                    assert(canon_entries_rest(ms.skip(ms.len() as int)) =~= Seq::<char>::empty());
                    assert(out@ =~= old(out)@ + seq!['{'] + canon_entries(ms));
                }
            }
            push_char(out, '}');
            proof {
                let ms = mval_of_entries(fs@);
                if fs@.len() == 0 {
                    assert(canon_entries(ms) =~= Seq::<char>::empty());
                }
                assert(out@ =~= old(out)@ + canon(v@));
            }
        },
    }
}

/// Append the canonical encoding of an object key.
fn push_canon_key(out: &mut String, k: &Value)
    ensures
        final(out)@ == old(out)@ + canon_key(k@),
    decreases val_size(*k), 2nat,
{
    match k {
        Value::Str(s) => {
            push_char(out, '"');
            push_escaped(out, s.as_str());
            push_char(out, '"');
            proof {
                assert(out@ =~= old(out)@ + canon_key(k@));
            }
        },
        _ => {
            let kt = canon_string(k);
            push_char(out, '"');
            push_escaped(out, kt.as_str());
            push_char(out, '"');
            proof {
                assert(out@ =~= old(out)@ + canon_key(k@));
            }
        },
    }
}

/// The canonical encoding of a value as a fresh string.
pub fn canon_string(v: &Value) -> (r: String)
    ensures
        r@ == canon(v@),
    decreases val_size(*v), 1nat,
{
    let mut out = String::new();
    push_canon(&mut out, v);
    proof {
        assert(Seq::<char>::empty() + canon(v@) =~= canon(v@));
    }
    out
}

/// The scalar or structural text of a value, as `tostring` reports it:
/// scalars render bare, containers in their canonical encoding.
pub open spec fn vts(m: MVal) -> Seq<char> {
    match m {
        MVal::Null => "null"@,
        MVal::Bool(b) => if b {
            "true"@
        } else {
            "false"@
        },
        MVal::Num(n) => num_str(n),
        MVal::Str(s) => s,
        _ => canon(m),
    }
}

/// Convert a value to its string representation.
pub fn value_to_string(value: &Value) -> (r: String)
    ensures
        r@ == vts(value@),
{
    match value {
        Value::Str(s) => s.clone(),
        Value::Null => {
            let mut out = String::new();
            out.append("null");
            proof {
                assert(out@ =~= vts(value@));
            }
            out
        },
        Value::Bool(b) => {
            let mut out = String::new();
            if *b {
                out.append("true");
            } else {
                out.append("false");
            }
            proof {
                assert(out@ =~= vts(value@));
            }
            out
        },
        Value::Num(n) => render_number(n),
        _ => canon_string(value),
    }
}

} // verus!
