//! The grammar, as mathematics: one specification function per parser
//! production, in the style of the evaluator's `eval_s`. Each takes the
//! text, a position and a nesting allowance, and returns the parsed
//! model tree (or the parse error) together with the position after it.
//! The executable parser is proved to agree with these functions
//! exactly, so the tree parsed from any text is pinned down.

use vstd::prelude::*;
use crate::num::{MNum, dfin};
use crate::value::MVal;
use crate::ast::{Expression, MExpr, expr_model};
use crate::errors::{ParseError, MParseErr};
use crate::parser::{is_space_s, alpha_char, alnum_char, initial_fuel_s};

verus! {

/// Model of a parse result.
pub open spec fn pres_model(r: Result<Expression, ParseError>) -> Result<MExpr, MParseErr> {
    match r {
        Ok(e) => Ok(expr_model(e)),
        Err(e) => Err(e@),
    }
}

/// Characters left from a position, for termination measures.
pub open spec fn rem(text: Seq<char>, pos: int) -> nat {
    if pos <= text.len() {
        (text.len() - pos) as nat
    } else {
        0
    }
}

/// The position after the blank characters at `pos`.
pub open spec fn skip_ws_s(text: Seq<char>, pos: int) -> int
    decreases rem(text, pos),
{
    if 0 <= pos < text.len() && is_space_s(text[pos]) {
        skip_ws_s(text, pos + 1)
    } else {
        pos
    }
}

pub proof fn lemma_skip_ws_ge(text: Seq<char>, pos: int)
    ensures
        skip_ws_s(text, pos) >= pos,
    decreases rem(text, pos),
{
    if 0 <= pos < text.len() && is_space_s(text[pos]) {
        lemma_skip_ws_ge(text, pos + 1);
    }
}

pub proof fn lemma_skip_ws_idem(text: Seq<char>, pos: int)
    ensures
        skip_ws_s(text, skip_ws_s(text, pos)) == skip_ws_s(text, pos),
    decreases rem(text, pos),
{
    if 0 <= pos < text.len() && is_space_s(text[pos]) {
        lemma_skip_ws_idem(text, pos + 1);
    }
}

/// Whether character `c` stands at position `pos`.
pub open spec fn at_s(text: Seq<char>, pos: int, c: char) -> bool {
    0 <= pos < text.len() && text[pos] == c
}

/// Whether `c` is a decimal digit.
pub open spec fn digit_char(c: char) -> bool {
    '0' <= c <= '9'
}

/// The longest run of field-name characters from `pos`.
pub open spec fn fname_scan(text: Seq<char>, pos: int, acc: Seq<char>) -> (Seq<char>, int)
    decreases rem(text, pos),
{
    if 0 <= pos < text.len() && (alnum_char(text[pos]) || text[pos] == '_' || text[pos] == '-') {
        fname_scan(text, pos + 1, acc.push(text[pos]))
    } else {
        (acc, pos)
    }
}

/// A field name: at least one name character, else an error.
pub open spec fn field_name_s(text: Seq<char>, pos: int) -> (Result<Seq<char>, MParseErr>, int) {
    let (nm, p) = fname_scan(text, pos, Seq::empty());
    if nm.len() == 0 {
        (Err(MParseErr::ExpectedFieldName), p)
    } else {
        (Ok(nm), p)
    }
}

/// The longest run of identifier characters from `pos`.
pub open spec fn name_scan(text: Seq<char>, pos: int, acc: Seq<char>) -> (Seq<char>, int)
    decreases rem(text, pos),
{
    if 0 <= pos < text.len() && (alnum_char(text[pos]) || text[pos] == '_') {
        name_scan(text, pos + 1, acc.push(text[pos]))
    } else {
        (acc, pos)
    }
}

/// A digit run as a machine integer; overflow stops at the offending
/// digit, and an empty run is an error.
pub open spec fn int_scan(text: Seq<char>, pos: int, num: int, any: bool) -> (Result<
    int,
    MParseErr,
>, int)
    decreases rem(text, pos),
{
    if 0 <= pos < text.len() && digit_char(text[pos]) {
        let v = num * 10 + (text[pos] as int - 48);
        if v > isize::MAX as int {
            (Err(MParseErr::InvalidInteger), pos)
        } else {
            int_scan(text, pos + 1, v, true)
        }
    } else {
        if !any {
            (Err(MParseErr::InvalidInteger), pos)
        } else {
            (Ok(num), pos)
        }
    }
}

/// A signed integer: blanks, an optional minus, then a digit run.
pub open spec fn signed_integer_s(text: Seq<char>, pos: int) -> (Result<int, MParseErr>, int) {
    let p = skip_ws_s(text, pos);
    let neg = at_s(text, p, '-');
    let p1 = if neg {
        p + 1
    } else {
        p
    };
    let (r, p2) = int_scan(text, p1, 0, false);
    match r {
        Ok(v) => (
            Ok(
                if neg {
                    -v
                } else {
                    v
                },
            ),
            p2,
        ),
        Err(e) => (Err(e), p2),
    }
}

/// The replacement for one escaped character in a string literal.
pub open spec fn escape_char(e: char) -> char {
    if e == 'n' {
        '\n'
    } else if e == 't' {
        '\t'
    } else if e == 'r' {
        '\r'
    } else {
        e
    }
}

/// The body of a quoted string, from after the opening quote to after
/// the closing one.
pub open spec fn strlit_scan(text: Seq<char>, pos: int, quote: char, acc: Seq<char>) -> (Result<
    Seq<char>,
    MParseErr,
>, int)
    decreases rem(text, pos),
{
    if pos < 0 || pos >= text.len() {
        (Err(MParseErr::UnterminatedString), pos)
    } else if text[pos] == quote {
        (Ok(acc), pos + 1)
    } else if text[pos] == '\\' {
        if pos + 1 >= text.len() {
            (Err(MParseErr::UnterminatedEscape), pos + 1)
        } else {
            strlit_scan(text, pos + 2, quote, acc.push(escape_char(text[pos + 1])))
        }
    } else {
        strlit_scan(text, pos + 1, quote, acc.push(text[pos]))
    }
}

/// A quoted string literal with backslash escapes.
pub open spec fn string_literal_s(text: Seq<char>, pos: int) -> (Result<MExpr, MParseErr>, int) {
    if pos < 0 || pos >= text.len() {
        (Err(MParseErr::UnterminatedString), pos)
    } else {
        let quote = text[pos];
        let (r, p) = strlit_scan(text, pos + 1, quote, Seq::empty());
        match r {
            Ok(s) => (Ok(MExpr::Literal(MVal::Str(s))), p),
            Err(e) => (Err(e), p),
        }
    }
}

/// The digits of a numeric literal: mantissa, fraction length, whether
/// a point was seen, whether any digit was seen, and the stop position.
pub open spec fn numlit_scan(
    text: Seq<char>,
    pos: int,
    mant: int,
    frac: nat,
    in_frac: bool,
    any: bool,
) -> (Result<(int, nat, bool, bool), MParseErr>, int)
    decreases rem(text, pos),
{
    if 0 <= pos < text.len() && digit_char(text[pos]) {
        let v = mant * 10 + (text[pos] as int - 48);
        if v > i64::MAX as int {
            (
                Err(
                    if in_frac {
                        MParseErr::InvalidFloatLiteral
                    } else {
                        MParseErr::InvalidIntegerLiteral
                    },
                ),
                pos,
            )
        } else if in_frac && frac == 18 {
            (Err(MParseErr::InvalidFloatLiteral), pos)
        } else {
            numlit_scan(
                text,
                pos + 1,
                v,
                if in_frac {
                    frac + 1
                } else {
                    frac
                },
                in_frac,
                true,
            )
        }
    } else if 0 <= pos < text.len() && text[pos] == '.' && !in_frac {
        numlit_scan(text, pos + 1, mant, frac, true, any)
    } else {
        (Ok((mant, frac, in_frac, any)), pos)
    }
}

/// A numeric literal: an exact integer, or a decimal fraction when a
/// point was seen, normalized like every decimal of the library.
pub open spec fn number_literal_s(text: Seq<char>, pos: int) -> (Result<MExpr, MParseErr>, int) {
    let neg = at_s(text, pos, '-');
    let p0 = if neg {
        pos + 1
    } else {
        pos
    };
    let (r, p) = numlit_scan(text, p0, 0, 0, false, false);
    match r {
        Err(e) => (Err(e), p),
        Ok((mant, frac, in_frac, any)) => if !any {
            (
                Err(
                    if in_frac {
                        MParseErr::InvalidFloatLiteral
                    } else {
                        MParseErr::InvalidIntegerLiteral
                    },
                ),
                p,
            )
        } else {
            let signed = if neg {
                -mant
            } else {
                mant
            };
            if in_frac {
                match dfin(signed, frac) {
                    Some(n) => (Ok(MExpr::Literal(MVal::Num(n))), p),
                    None => (Err(MParseErr::InvalidFloatLiteral), p),
                }
            } else {
                (Ok(MExpr::Literal(MVal::Num(MNum::Int(signed)))), p)
            }
        },
    }
}

/// A variable reference after `$`.
pub open spec fn variable_s(text: Seq<char>, pos: int) -> (Result<MExpr, MParseErr>, int) {
    let p0 = if at_s(text, pos, '$') {
        pos + 1
    } else {
        pos
    };
    let (nm, p) = name_scan(text, p0, Seq::empty());
    if nm.len() == 0 {
        (Err(MParseErr::ExpectedVariableName), p)
    } else {
        (Ok(MExpr::Variable { name: nm }), p)
    }
}

/// The identity-target form of a bare built-in name, when there is one.
pub open spec fn bare_builtin_s(name: Seq<char>) -> Option<MExpr> {
    if name == "keys"@ {
        Some(MExpr::Keys { target: Box::new(MExpr::Identity) })
    } else if name == "length"@ {
        Some(MExpr::Length { target: Box::new(MExpr::Identity) })
    } else if name == "type"@ {
        Some(MExpr::Type { target: Box::new(MExpr::Identity) })
    } else if name == "sort"@ {
        Some(MExpr::Sort { target: Box::new(MExpr::Identity) })
    } else if name == "reverse"@ {
        Some(MExpr::Reverse { target: Box::new(MExpr::Identity) })
    } else if name == "unique"@ {
        Some(MExpr::Unique { target: Box::new(MExpr::Identity) })
    } else if name == "flatten"@ {
        Some(MExpr::Flatten { target: Box::new(MExpr::Identity) })
    } else if name == "add"@ {
        Some(MExpr::AddOp)
    } else if name == "recurse"@ {
        Some(MExpr::Recurse)
    } else {
        None
    }
}

/// The zero-or-one-argument form of a built-in: no argument means the
/// identity target.
pub open spec fn one_or_identity_s(
    args: Seq<MExpr>,
    which: u8,
    msg: Seq<char>,
) -> Result<MExpr, MParseErr> {
    if args.len() > 1 {
        Err(MParseErr::BadArity { message: msg })
    } else {
        let target = if args.len() == 1 {
            args[0]
        } else {
            MExpr::Identity
        };
        let b = Box::new(target);
        if which == 0 {
            Ok(MExpr::Keys { target: b })
        } else if which == 1 {
            Ok(MExpr::Length { target: b })
        } else if which == 2 {
            Ok(MExpr::Type { target: b })
        } else if which == 3 {
            Ok(MExpr::Sort { target: b })
        } else if which == 4 {
            Ok(MExpr::Reverse { target: b })
        } else if which == 5 {
            Ok(MExpr::Unique { target: b })
        } else if which == 6 {
            Ok(MExpr::Flatten { target: b })
        } else if which == 7 {
            Ok(MExpr::First { expr: b })
        } else {
            Ok(MExpr::Last { expr: b })
        }
    }
}

/// The call table: each recognized built-in with its arity check; an
/// unrecognized name is an error naming it.
pub open spec fn build_call_s(name: Seq<char>, args: Seq<MExpr>) -> Result<MExpr, MParseErr> {
    if name == "select"@ {
        if args.len() != 1 {
            Err(MParseErr::BadArity { message: "select requires exactly 1 argument"@ })
        } else {
            Ok(MExpr::Select { condition: Box::new(args[0]) })
        }
    } else if name == "keys"@ {
        one_or_identity_s(args, 0, "keys takes 0 or 1 arguments"@)
    } else if name == "length"@ {
        one_or_identity_s(args, 1, "length takes 0 or 1 arguments"@)
    } else if name == "type"@ {
        one_or_identity_s(args, 2, "type takes 0 or 1 arguments"@)
    } else if name == "sort"@ {
        one_or_identity_s(args, 3, "sort takes 0 or 1 arguments"@)
    } else if name == "reverse"@ {
        one_or_identity_s(args, 4, "reverse takes 0 or 1 arguments"@)
    } else if name == "unique"@ {
        one_or_identity_s(args, 5, "unique takes 0 or 1 arguments"@)
    } else if name == "flatten"@ {
        one_or_identity_s(args, 6, "flatten takes 0 or 1 arguments"@)
    } else if name == "first"@ {
        one_or_identity_s(args, 7, "first takes 0 or 1 arguments"@)
    } else if name == "last"@ {
        one_or_identity_s(args, 8, "last takes 0 or 1 arguments"@)
    } else if name == "has"@ {
        if args.len() != 2 {
            Err(MParseErr::BadArity { message: "has requires exactly 2 arguments"@ })
        } else {
            Ok(MExpr::Has { target: Box::new(args[0]), key: Box::new(args[1]) })
        }
    } else if name == "group_by"@ {
        if args.len() != 2 {
            Err(MParseErr::BadArity { message: "group_by requires exactly 2 arguments"@ })
        } else {
            Ok(MExpr::GroupBy { target: Box::new(args[0]), key_expr: Box::new(args[1]) })
        }
    } else if name == "map"@ {
        if args.len() != 2 {
            Err(MParseErr::BadArity { message: "map requires exactly 2 arguments"@ })
        } else {
            Ok(MExpr::MapOp { target: Box::new(args[0]), expr: Box::new(args[1]) })
        }
    } else if name == "filter"@ {
        if args.len() != 2 {
            Err(MParseErr::BadArity { message: "filter requires exactly 2 arguments"@ })
        } else {
            Ok(MExpr::Filter { target: Box::new(args[0]), expr: Box::new(args[1]) })
        }
    } else if name == "add"@ {
        if args.len() != 0 {
            Err(MParseErr::BadArity { message: "add takes no arguments"@ })
        } else {
            Ok(MExpr::AddOp)
        }
    } else if name == "env"@ {
        if args.len() != 1 {
            Err(MParseErr::BadArity { message: "env requires exactly 1 argument"@ })
        } else {
            Ok(MExpr::Env { name: Box::new(args[0]) })
        }
    } else {
        Err(MParseErr::UnknownFunction { name })
    }
}

/// Whether the three characters of the `and` keyword stand at `pos`;
/// the check is a prefix match, like the grammar's.
pub open spec fn and_kw_at(text: Seq<char>, pos: int) -> bool {
    pos >= 0 && pos + 3 <= text.len() && text[pos] == 'a' && text[pos + 1] == 'n' && text[pos + 2]
        == 'd'
}

/// Parse the main expression: pipes, right-associative, lowest.
#[verifier::opaque]
pub open spec fn expression_s(text: Seq<char>, pos: int, fuel: nat) -> (Result<
    MExpr,
    MParseErr,
>, int)
    decreases fuel, 1nat, 0nat,
{
    if fuel == 0 {
        (Err(MParseErr::TooDeep), pos)
    } else {
        let (r, p1) = or_s(text, pos, (fuel - 1) as nat);
        match r {
            Err(e) => (Err(e), p1),
            Ok(left) => {
                let p = skip_ws_s(text, p1);
                if at_s(text, p, '|') && !at_s(text, p + 1, '|') {
                    let (r2, p2) = expression_s(text, p + 1, (fuel - 1) as nat);
                    match r2 {
                        Err(e) => (Err(e), p2),
                        Ok(right) => (
                            Ok(MExpr::Pipe { left: Box::new(left), right: Box::new(right) }),
                            p2,
                        ),
                    }
                } else {
                    (Ok(left), p)
                }
            },
        }
    }
}

/// Parse logical or (`||`), left-associative.
#[verifier::opaque]
pub open spec fn or_s(text: Seq<char>, pos: int, fuel: nat) -> (Result<MExpr, MParseErr>, int)
    decreases fuel, 1nat, 0nat,
{
    if fuel == 0 {
        (Err(MParseErr::TooDeep), pos)
    } else {
        let (r, p1) = and_s(text, pos, (fuel - 1) as nat);
        match r {
            Err(e) => (Err(e), p1),
            Ok(left) => or_chain(text, p1, left, fuel),
        }
    }
}

#[verifier::opaque]
pub open spec fn or_chain(text: Seq<char>, pos: int, left: MExpr, fuel: nat) -> (Result<
    MExpr,
    MParseErr,
>, int)
    decreases fuel, 0nat, rem(text, pos),
{
    if fuel == 0 {
        (Err(MParseErr::TooDeep), pos)
    } else {
        let p = skip_ws_s(text, pos);
        if at_s(text, p, '|') && at_s(text, p + 1, '|') {
            let (r, p2) = and_s(text, p + 2, (fuel - 1) as nat);
            match r {
                Err(e) => (Err(e), p2),
                Ok(right) => {
                    let next = MExpr::Or { left: Box::new(left), right: Box::new(right) };
                    if p2 > p && p2 <= text.len() {
                        proof {
                            lemma_skip_ws_ge(text, pos);
                        }
                        or_chain(text, p2, next, fuel)
                    } else {
                        (Ok(next), p2)
                    }
                },
            }
        } else {
            (Ok(left), p)
        }
    }
}

/// Parse logical and (the `and` keyword), left-associative.
#[verifier::opaque]
pub open spec fn and_s(text: Seq<char>, pos: int, fuel: nat) -> (Result<MExpr, MParseErr>, int)
    decreases fuel, 1nat, 0nat,
{
    if fuel == 0 {
        (Err(MParseErr::TooDeep), pos)
    } else {
        let (r, p1) = comparison_s(text, pos, (fuel - 1) as nat);
        match r {
            Err(e) => (Err(e), p1),
            Ok(left) => and_chain(text, p1, left, fuel),
        }
    }
}

#[verifier::opaque]
pub open spec fn and_chain(text: Seq<char>, pos: int, left: MExpr, fuel: nat) -> (Result<
    MExpr,
    MParseErr,
>, int)
    decreases fuel, 0nat, rem(text, pos),
{
    if fuel == 0 {
        (Err(MParseErr::TooDeep), pos)
    } else {
        let p = skip_ws_s(text, pos);
        if and_kw_at(text, p) {
            let (r, p2) = comparison_s(text, p + 3, (fuel - 1) as nat);
            match r {
                Err(e) => (Err(e), p2),
                Ok(right) => {
                    let next = MExpr::And { left: Box::new(left), right: Box::new(right) };
                    if p2 > p && p2 <= text.len() {
                        proof {
                            lemma_skip_ws_ge(text, pos);
                        }
                        and_chain(text, p2, next, fuel)
                    } else {
                        (Ok(next), p2)
                    }
                },
            }
        } else {
            (Ok(left), p)
        }
    }
}

/// Parse one comparison at most; chains go through `and`/`or`.
#[verifier::opaque]
pub open spec fn comparison_s(text: Seq<char>, pos: int, fuel: nat) -> (Result<
    MExpr,
    MParseErr,
>, int)
    decreases fuel, 1nat, 0nat,
{
    if fuel == 0 {
        (Err(MParseErr::TooDeep), pos)
    } else {
        let (r, p1) = additive_s(text, pos, (fuel - 1) as nat);
        match r {
            Err(e) => (Err(e), p1),
            Ok(left) => {
                let p = skip_ws_s(text, p1);
                if at_s(text, p, '=') && at_s(text, p + 1, '=') {
                    comparison_rhs(text, p + 2, left, 1, fuel)
                } else if at_s(text, p, '!') && at_s(text, p + 1, '=') {
                    comparison_rhs(text, p + 2, left, 2, fuel)
                } else if at_s(text, p, '<') && at_s(text, p + 1, '=') {
                    comparison_rhs(text, p + 2, left, 3, fuel)
                } else if at_s(text, p, '>') && at_s(text, p + 1, '=') {
                    comparison_rhs(text, p + 2, left, 4, fuel)
                } else if at_s(text, p, '<') {
                    comparison_rhs(text, p + 1, left, 5, fuel)
                } else if at_s(text, p, '>') {
                    comparison_rhs(text, p + 1, left, 6, fuel)
                } else {
                    (Ok(left), p)
                }
            },
        }
    }
}

#[verifier::opaque]
pub open spec fn comparison_rhs(text: Seq<char>, pos: int, left: MExpr, op: u8, fuel: nat) -> (
    Result<MExpr, MParseErr>,
    int,
)
    decreases fuel, 0nat, 0nat,
{
    if fuel == 0 {
        (Err(MParseErr::TooDeep), pos)
    } else {
        let (r, p2) = additive_s(text, pos, (fuel - 1) as nat);
        match r {
            Err(e) => (Err(e), p2),
            Ok(right) => {
                let l = Box::new(left);
                let q = Box::new(right);
                let node = if op == 1 {
                    MExpr::Equal { left: l, right: q }
                } else if op == 2 {
                    MExpr::NotEqual { left: l, right: q }
                } else if op == 3 {
                    MExpr::LessThanOrEqual { left: l, right: q }
                } else if op == 4 {
                    MExpr::GreaterThanOrEqual { left: l, right: q }
                } else if op == 5 {
                    MExpr::LessThan { left: l, right: q }
                } else {
                    MExpr::GreaterThan { left: l, right: q }
                };
                (Ok(node), p2)
            },
        }
    }
}

/// Parse additive operators (`+`, `-`), left-associative; a leading
/// `//` would belong to the alternative operator and stops the chain.
#[verifier::opaque]
pub open spec fn additive_s(text: Seq<char>, pos: int, fuel: nat) -> (Result<
    MExpr,
    MParseErr,
>, int)
    decreases fuel, 1nat, 0nat,
{
    if fuel == 0 {
        (Err(MParseErr::TooDeep), pos)
    } else {
        let (r, p1) = multiplicative_s(text, pos, (fuel - 1) as nat);
        match r {
            Err(e) => (Err(e), p1),
            Ok(left) => additive_chain(text, p1, left, fuel),
        }
    }
}

#[verifier::opaque]
pub open spec fn additive_chain(text: Seq<char>, pos: int, left: MExpr, fuel: nat) -> (Result<
    MExpr,
    MParseErr,
>, int)
    decreases fuel, 0nat, rem(text, pos),
{
    if fuel == 0 {
        (Err(MParseErr::TooDeep), pos)
    } else {
        let p = skip_ws_s(text, pos);
        if at_s(text, p, '+') {
            let (r, p2) = multiplicative_s(text, p + 1, (fuel - 1) as nat);
            match r {
                Err(e) => (Err(e), p2),
                Ok(right) => {
                    let next = MExpr::Add { left: Box::new(left), right: Box::new(right) };
                    if p2 > p && p2 <= text.len() {
                        proof {
                            lemma_skip_ws_ge(text, pos);
                        }
                        additive_chain(text, p2, next, fuel)
                    } else {
                        (Ok(next), p2)
                    }
                },
            }
        } else if at_s(text, p, '-') {
            if at_s(text, p, '/') && at_s(text, p + 1, '/') {
                (Ok(left), p)
            } else {
                let (r, p2) = multiplicative_s(text, p + 1, (fuel - 1) as nat);
                match r {
                    Err(e) => (Err(e), p2),
                    Ok(right) => {
                        let next = MExpr::Subtract {
                            left: Box::new(left),
                            right: Box::new(right),
                        };
                        if p2 > p && p2 <= text.len() {
                            proof {
                                lemma_skip_ws_ge(text, pos);
                            }
                            additive_chain(text, p2, next, fuel)
                        } else {
                            (Ok(next), p2)
                        }
                    },
                }
            }
        } else {
            (Ok(left), p)
        }
    }
}

/// Parse multiplicative operators (`*`, `/`, `%`), left-associative.
#[verifier::opaque]
pub open spec fn multiplicative_s(text: Seq<char>, pos: int, fuel: nat) -> (Result<
    MExpr,
    MParseErr,
>, int)
    decreases fuel, 1nat, 0nat,
{
    if fuel == 0 {
        (Err(MParseErr::TooDeep), pos)
    } else {
        let (r, p1) = alternative_s(text, pos, (fuel - 1) as nat);
        match r {
            Err(e) => (Err(e), p1),
            Ok(left) => multiplicative_chain(text, p1, left, fuel),
        }
    }
}

#[verifier::opaque]
pub open spec fn multiplicative_chain(text: Seq<char>, pos: int, left: MExpr, fuel: nat) -> (
    Result<MExpr, MParseErr>,
    int,
)
    decreases fuel, 0nat, rem(text, pos),
{
    if fuel == 0 {
        (Err(MParseErr::TooDeep), pos)
    } else {
        let p = skip_ws_s(text, pos);
        if at_s(text, p, '*') || at_s(text, p, '/') || at_s(text, p, '%') {
            let (r, p2) = alternative_s(text, p + 1, (fuel - 1) as nat);
            match r {
                Err(e) => (Err(e), p2),
                Ok(right) => {
                    let l = Box::new(left);
                    let q = Box::new(right);
                    let next = if at_s(text, p, '*') {
                        MExpr::Multiply { left: l, right: q }
                    } else if at_s(text, p, '/') {
                        MExpr::Divide { left: l, right: q }
                    } else {
                        MExpr::Modulo { left: l, right: q }
                    };
                    if p2 > p && p2 <= text.len() {
                        proof {
                            lemma_skip_ws_ge(text, pos);
                        }
                        multiplicative_chain(text, p2, next, fuel)
                    } else {
                        (Ok(next), p2)
                    }
                },
            }
        } else {
            (Ok(left), p)
        }
    }
}

/// Parse the alternative operator (`//`), left-associative.
#[verifier::opaque]
pub open spec fn alternative_s(text: Seq<char>, pos: int, fuel: nat) -> (Result<
    MExpr,
    MParseErr,
>, int)
    decreases fuel, 1nat, 0nat,
{
    if fuel == 0 {
        (Err(MParseErr::TooDeep), pos)
    } else {
        let (r, p1) = assignment_s(text, pos, (fuel - 1) as nat);
        match r {
            Err(e) => (Err(e), p1),
            Ok(left) => alternative_chain(text, p1, left, fuel),
        }
    }
}

#[verifier::opaque]
pub open spec fn alternative_chain(text: Seq<char>, pos: int, left: MExpr, fuel: nat) -> (Result<
    MExpr,
    MParseErr,
>, int)
    decreases fuel, 0nat, rem(text, pos),
{
    if fuel == 0 {
        (Err(MParseErr::TooDeep), pos)
    } else {
        let p = skip_ws_s(text, pos);
        if at_s(text, p, '/') && at_s(text, p + 1, '/') {
            let (r, p2) = assignment_s(text, p + 2, (fuel - 1) as nat);
            match r {
                Err(e) => (Err(e), p2),
                Ok(right) => {
                    let next = MExpr::Alternative {
                        left: Box::new(left),
                        right: Box::new(right),
                    };
                    if p2 > p && p2 <= text.len() {
                        proof {
                            lemma_skip_ws_ge(text, pos);
                        }
                        alternative_chain(text, p2, next, fuel)
                    } else {
                        (Ok(next), p2)
                    }
                },
            }
        } else {
            (Ok(left), p)
        }
    }
}

/// Parse assignments (`=`, `|=`), right-associative; `==` stays a
/// comparison by two-character lookahead.
#[verifier::opaque]
pub open spec fn assignment_s(text: Seq<char>, pos: int, fuel: nat) -> (Result<
    MExpr,
    MParseErr,
>, int)
    decreases fuel, 1nat, 0nat,
{
    if fuel == 0 {
        (Err(MParseErr::TooDeep), pos)
    } else {
        let (r, p1) = comma_s(text, pos, (fuel - 1) as nat);
        match r {
            Err(e) => (Err(e), p1),
            Ok(left) => {
                let p = skip_ws_s(text, p1);
                if at_s(text, p, '|') && at_s(text, p + 1, '=') {
                    let (r2, p2) = assignment_s(text, p + 2, (fuel - 1) as nat);
                    match r2 {
                        Err(e) => (Err(e), p2),
                        Ok(value) => (
                            Ok(
                                MExpr::Update {
                                    target: Box::new(left),
                                    value: Box::new(value),
                                },
                            ),
                            p2,
                        ),
                    }
                } else if at_s(text, p, '=') && at_s(text, p + 1, '=') {
                    (Ok(left), p)
                } else if at_s(text, p, '=') {
                    let (r2, p2) = assignment_s(text, p + 1, (fuel - 1) as nat);
                    match r2 {
                        Err(e) => (Err(e), p2),
                        Ok(value) => (
                            Ok(
                                MExpr::Assign {
                                    target: Box::new(left),
                                    value: Box::new(value),
                                },
                            ),
                            p2,
                        ),
                    }
                } else {
                    (Ok(left), p)
                }
            },
        }
    }
}

/// Parse comma lists: more than one operand becomes an array.
#[verifier::opaque]
pub open spec fn comma_s(text: Seq<char>, pos: int, fuel: nat) -> (Result<MExpr, MParseErr>, int)
    decreases fuel, 1nat, 0nat,
{
    if fuel == 0 {
        (Err(MParseErr::TooDeep), pos)
    } else {
        let (r, p1) = unary_s(text, pos, (fuel - 1) as nat);
        match r {
            Err(e) => (Err(e), p1),
            Ok(first) => {
                comma_finish(comma_chain(text, p1, seq![first], fuel))
            },
        }
    }
}

/// Collapse a finished comma list: one operand stands alone, more
/// become an array.
pub open spec fn comma_finish(res: (Result<Seq<MExpr>, MParseErr>, int)) -> (Result<
    MExpr,
    MParseErr,
>, int) {
    match res.0 {
        Err(e) => (Err(e), res.1),
        Ok(elems) => if elems.len() == 1 {
            (Ok(elems[0]), res.1)
        } else {
            (Ok(MExpr::Array { elements: elems }), res.1)
        },
    }
}

#[verifier::opaque]
pub open spec fn comma_chain(text: Seq<char>, pos: int, elems: Seq<MExpr>, fuel: nat) -> (Result<
    Seq<MExpr>,
    MParseErr,
>, int)
    decreases fuel, 0nat, rem(text, pos),
{
    if fuel == 0 {
        (Err(MParseErr::TooDeep), pos)
    } else {
        let p = skip_ws_s(text, pos);
        if at_s(text, p, ',') {
            let (r, p2) = unary_s(text, p + 1, (fuel - 1) as nat);
            match r {
                Err(e) => (Err(e), p2),
                Ok(next) => if p2 > p && p2 <= text.len() {
                    proof {
                        lemma_skip_ws_ge(text, pos);
                    }
                    comma_chain(text, p2, elems.push(next), fuel)
                } else {
                    (Ok(elems.push(next)), p2)
                },
            }
        } else {
            (Ok(elems), p)
        }
    }
}

/// Parse unary operators (`!`, unary `-`); a minus before a digit is
/// handed to the primary level.
#[verifier::opaque]
pub open spec fn unary_s(text: Seq<char>, pos: int, fuel: nat) -> (Result<MExpr, MParseErr>, int)
    decreases fuel, 1nat, 0nat,
{
    if fuel == 0 {
        (Err(MParseErr::TooDeep), pos)
    } else {
        let p = skip_ws_s(text, pos);
        if at_s(text, p, '!') {
            let (r, p2) = unary_s(text, p + 1, (fuel - 1) as nat);
            match r {
                Err(e) => (Err(e), p2),
                Ok(inner) => (Ok(MExpr::Not { expr: Box::new(inner) }), p2),
            }
        } else if at_s(text, p, '-') {
            if p + 1 < text.len() && digit_char(text[p + 1]) {
                primary_s(text, p, (fuel - 1) as nat)
            } else {
                let (r, p2) = unary_s(text, p + 1, (fuel - 1) as nat);
                match r {
                    Err(e) => (Err(e), p2),
                    Ok(inner) => (
                        Ok(
                            MExpr::Subtract {
                                left: Box::new(MExpr::Literal(MVal::Num(MNum::Int(0)))),
                                right: Box::new(inner),
                            },
                        ),
                        p2,
                    ),
                }
            }
        } else {
            primary_s(text, p, (fuel - 1) as nat)
        }
    }
}

/// Parse primary expressions: dot forms, literals, constructors,
/// groups, variables and identifiers.
#[verifier::opaque]
pub open spec fn primary_s(text: Seq<char>, pos: int, fuel: nat) -> (Result<
    MExpr,
    MParseErr,
>, int)
    decreases fuel, 1nat, 0nat,
{
    if fuel == 0 {
        (Err(MParseErr::TooDeep), pos)
    } else {
        let p = skip_ws_s(text, pos);
        if p >= text.len() {
            (Ok(MExpr::Empty), p)
        } else {
            let c = text[p];
            if c == '.' {
                dot_s(text, p, (fuel - 1) as nat)
            } else if c == '"' || c == '\'' {
                string_literal_s(text, p)
            } else if c == '[' {
                array_ctor_s(text, p, (fuel - 1) as nat)
            } else if c == '{' {
                object_ctor_s(text, p, (fuel - 1) as nat)
            } else if c == '(' {
                group_s(text, p, (fuel - 1) as nat)
            } else if c == '$' {
                variable_s(text, p)
            } else if digit_char(c) {
                number_literal_s(text, p)
            } else if alpha_char(c) || c == '_' {
                identfn_s(text, p, (fuel - 1) as nat)
            } else {
                (Err(MParseErr::UnexpectedCharacter), p)
            }
        }
    }
}

/// Parse dot expressions: identity, recursion, field chains and
/// bracket forms.
#[verifier::opaque]
pub open spec fn dot_s(text: Seq<char>, pos: int, fuel: nat) -> (Result<MExpr, MParseErr>, int)
    decreases fuel, 1nat, 0nat,
{
    if fuel == 0 {
        (Err(MParseErr::TooDeep), pos)
    } else {
        let p0 = if at_s(text, pos, '.') {
            pos + 1
        } else {
            pos
        };
        let p = skip_ws_s(text, p0);
        if at_s(text, p, '.') {
            (Ok(MExpr::Recurse), p + 1)
        } else if p >= text.len() || (!alnum_char(text[p]) && text[p] != '_' && text[p] != '[') {
            (Ok(MExpr::Identity), p)
        } else if text[p] == '[' {
            let (r, p1) = bracket_s(MExpr::Identity, text, p, (fuel - 1) as nat);
            match r {
                Err(e) => (Err(e), p1),
                Ok(e) => dot_bracket_chain(text, p1, e, fuel),
            }
        } else {
            let (r, p1) = field_name_s(text, p);
            match r {
                Err(e) => (Err(e), p1),
                Ok(nm) => dot_field_chain(
                    text,
                    p1,
                    MExpr::FieldAccess { target: Box::new(MExpr::Identity), field: nm },
                    fuel,
                ),
            }
        }
    }
}

/// Chained access after a leading bracket form: further dots (field or
/// bracket) and bracket forms.
#[verifier::opaque]
pub open spec fn dot_bracket_chain(text: Seq<char>, pos: int, e: MExpr, fuel: nat) -> (Result<
    MExpr,
    MParseErr,
>, int)
    decreases fuel, 0nat, rem(text, pos),
{
    if fuel == 0 {
        (Err(MParseErr::TooDeep), pos)
    } else {
        let p = skip_ws_s(text, pos);
        if at_s(text, p, '.') {
            if at_s(text, p + 1, '[') {
                let (r, p2) = bracket_s(e, text, p + 1, (fuel - 1) as nat);
                match r {
                    Err(er) => (Err(er), p2),
                    Ok(e2) => if p2 > p && p2 <= text.len() {
                        proof {
                            lemma_skip_ws_ge(text, pos);
                        }
                        dot_bracket_chain(text, p2, e2, fuel)
                    } else {
                        (Ok(e2), p2)
                    },
                }
            } else {
                let (r, p2) = field_name_s(text, p + 1);
                match r {
                    Err(er) => (Err(er), p2),
                    Ok(nm) => {
                        let e2 = MExpr::FieldAccess { target: Box::new(e), field: nm };
                        if p2 > p && p2 <= text.len() {
                            proof {
                                lemma_skip_ws_ge(text, pos);
                            }
                            dot_bracket_chain(text, p2, e2, fuel)
                        } else {
                            (Ok(e2), p2)
                        }
                    },
                }
            }
        } else if at_s(text, p, '[') {
            let (r, p2) = bracket_s(e, text, p, (fuel - 1) as nat);
            match r {
                Err(er) => (Err(er), p2),
                Ok(e2) => if p2 > p && p2 <= text.len() {
                    proof {
                        lemma_skip_ws_ge(text, pos);
                    }
                    dot_bracket_chain(text, p2, e2, fuel)
                } else {
                    (Ok(e2), p2)
                },
            }
        } else {
            (Ok(e), p)
        }
    }
}

/// Chained access after a leading field: further fields and brackets.
#[verifier::opaque]
pub open spec fn dot_field_chain(text: Seq<char>, pos: int, e: MExpr, fuel: nat) -> (Result<
    MExpr,
    MParseErr,
>, int)
    decreases fuel, 0nat, rem(text, pos),
{
    if fuel == 0 {
        (Err(MParseErr::TooDeep), pos)
    } else {
        let p = skip_ws_s(text, pos);
        if at_s(text, p, '.') {
            let (r, p2) = field_name_s(text, p + 1);
            match r {
                Err(er) => (Err(er), p2),
                Ok(nm) => {
                    let e2 = MExpr::FieldAccess { target: Box::new(e), field: nm };
                    if p2 > p && p2 <= text.len() {
                        proof {
                            lemma_skip_ws_ge(text, pos);
                        }
                        dot_field_chain(text, p2, e2, fuel)
                    } else {
                        (Ok(e2), p2)
                    }
                },
            }
        } else if at_s(text, p, '[') {
            let (r, p2) = bracket_s(e, text, p, (fuel - 1) as nat);
            match r {
                Err(er) => (Err(er), p2),
                Ok(e2) => if p2 > p && p2 <= text.len() {
                    proof {
                        lemma_skip_ws_ge(text, pos);
                    }
                    dot_field_chain(text, p2, e2, fuel)
                } else {
                    (Ok(e2), p2)
                },
            }
        } else {
            (Ok(e), p)
        }
    }
}

/// Parse a bracket form after a target: an iterator `[]`, a quoted
/// key, a slice, or an index.
#[verifier::opaque]
pub open spec fn bracket_s(target: MExpr, text: Seq<char>, pos: int, fuel: nat) -> (Result<
    MExpr,
    MParseErr,
>, int)
    decreases fuel, 1nat, 0nat,
{
    if fuel == 0 {
        (Err(MParseErr::TooDeep), pos)
    } else {
        let p0 = if at_s(text, pos, '[') {
            pos + 1
        } else {
            pos
        };
        let p = skip_ws_s(text, p0);
        if at_s(text, p, ']') {
            (Ok(MExpr::Iterator { target: Box::new(target) }), p + 1)
        } else if p < text.len() && (text[p] == '"' || text[p] == '\'') {
            let (r, p1) = string_literal_s(text, p);
            match r {
                Err(e) => (Err(e), p1),
                Ok(key) => {
                    let p2 = skip_ws_s(text, p1);
                    if !at_s(text, p2, ']') {
                        (Err(MParseErr::ExpectedBracketAfterKey), p2)
                    } else {
                        match key {
                            MExpr::Literal(MVal::Str(s)) => (
                                Ok(MExpr::FieldAccess { target: Box::new(target), field: s }),
                                p2 + 1,
                            ),
                            _ => (Err(MParseErr::KeyNotStringLiteral), p2 + 1),
                        }
                    }
                },
            }
        } else if at_s(text, p, ':') {
            let p1 = skip_ws_s(text, p + 1);
            if at_s(text, p1, ']') {
                (
                    Ok(MExpr::Slice { target: Box::new(target), start: None, end: None }),
                    p1 + 1,
                )
            } else {
                let (r, p2) = signed_integer_s(text, p1);
                match r {
                    Err(e) => (Err(e), p2),
                    Ok(v) => if at_s(text, p2, ']') {
                        (
                            Ok(
                                MExpr::Slice {
                                    target: Box::new(target),
                                    start: None,
                                    end: Some(v),
                                },
                            ),
                            p2 + 1,
                        )
                    } else {
                        (Err(MParseErr::ExpectedBracketAfterSlice), p2)
                    },
                }
            }
        } else {
            let (r, p1) = signed_integer_s(text, p);
            match r {
                Err(e) => (Err(e), p1),
                Ok(start) => {
                    let p2 = skip_ws_s(text, p1);
                    if at_s(text, p2, ':') {
                        let p3 = skip_ws_s(text, p2 + 1);
                        if at_s(text, p3, ']') {
                            (
                                Ok(
                                    MExpr::Slice {
                                        target: Box::new(target),
                                        start: Some(start),
                                        end: None,
                                    },
                                ),
                                p3 + 1,
                            )
                        } else {
                            let (r2, p4) = signed_integer_s(text, p3);
                            match r2 {
                                Err(e) => (Err(e), p4),
                                Ok(v) => if at_s(text, p4, ']') {
                                    (
                                        Ok(
                                            MExpr::Slice {
                                                target: Box::new(target),
                                                start: Some(start),
                                                end: Some(v),
                                            },
                                        ),
                                        p4 + 1,
                                    )
                                } else {
                                    (Err(MParseErr::ExpectedBracketAfterSlice), p4)
                                },
                            }
                        }
                    } else if at_s(text, p2, ']') {
                        (
                            Ok(
                                MExpr::IndexAccess { target: Box::new(target), index: start },
                            ),
                            p2 + 1,
                        )
                    } else {
                        (Err(MParseErr::ExpectedBracketAfterIndex), p2)
                    }
                },
            }
        }
    }
}

/// Parse an array constructor.
#[verifier::opaque]
pub open spec fn array_ctor_s(text: Seq<char>, pos: int, fuel: nat) -> (Result<
    MExpr,
    MParseErr,
>, int)
    decreases fuel, 1nat, 0nat,
{
    if fuel == 0 {
        (Err(MParseErr::TooDeep), pos)
    } else {
        let p0 = if at_s(text, pos, '[') {
            pos + 1
        } else {
            pos
        };
        let p = skip_ws_s(text, p0);
        if at_s(text, p, ']') {
            (Ok(MExpr::Array { elements: Seq::empty() }), p + 1)
        } else {
            array_finish(text, array_items(text, p, Seq::empty(), fuel))
        }
    }
}

/// Close a finished element list with its bracket.
pub open spec fn array_finish(text: Seq<char>, res: (Result<Seq<MExpr>, MParseErr>, int)) -> (
    Result<MExpr, MParseErr>,
    int,
) {
    match res.0 {
        Err(e) => (Err(e), res.1),
        Ok(es) => if at_s(text, res.1, ']') {
            (Ok(MExpr::Array { elements: es }), res.1 + 1)
        } else {
            (Err(MParseErr::ArrayClose), res.1)
        },
    }
}

#[verifier::opaque]
pub open spec fn array_items(text: Seq<char>, pos: int, elems: Seq<MExpr>, fuel: nat) -> (Result<
    Seq<MExpr>,
    MParseErr,
>, int)
    decreases fuel, 0nat, rem(text, pos),
{
    if fuel == 0 {
        (Err(MParseErr::TooDeep), pos)
    } else {
        let (r, p1) = unary_s(text, pos, (fuel - 1) as nat);
        match r {
            Err(e) => (Err(e), p1),
            Ok(e) => {
                let es = elems.push(e);
                let p2 = skip_ws_s(text, p1);
                if at_s(text, p2, ',') {
                    let p3 = skip_ws_s(text, p2 + 1);
                    if at_s(text, p3, ']') {
                        (Ok(es), p3)
                    } else if p3 > pos && p3 <= text.len() {
                        array_items(text, p3, es, fuel)
                    } else {
                        (Ok(es), p3)
                    }
                } else if at_s(text, p2, ']') {
                    (Ok(es), p2)
                } else {
                    (Err(MParseErr::ArrayComma), p2)
                }
            },
        }
    }
}

/// Parse an object constructor.
#[verifier::opaque]
pub open spec fn object_ctor_s(text: Seq<char>, pos: int, fuel: nat) -> (Result<
    MExpr,
    MParseErr,
>, int)
    decreases fuel, 1nat, 0nat,
{
    if fuel == 0 {
        (Err(MParseErr::TooDeep), pos)
    } else {
        let p0 = if at_s(text, pos, '{') {
            pos + 1
        } else {
            pos
        };
        let p = skip_ws_s(text, p0);
        if at_s(text, p, '}') {
            (Ok(MExpr::Object { fields: Seq::empty() }), p + 1)
        } else {
            object_finish(text, object_items(text, p, Seq::empty(), fuel))
        }
    }
}

/// Close a finished entry list with its brace.
pub open spec fn object_finish(
    text: Seq<char>,
    res: (Result<Seq<(MExpr, MExpr)>, MParseErr>, int),
) -> (Result<MExpr, MParseErr>, int) {
    match res.0 {
        Err(e) => (Err(e), res.1),
        Ok(fs) => if at_s(text, res.1, '}') {
            (Ok(MExpr::Object { fields: fs }), res.1 + 1)
        } else {
            (Err(MParseErr::ObjectClose), res.1)
        },
    }
}

#[verifier::opaque]
pub open spec fn object_items(
    text: Seq<char>,
    pos: int,
    fields: Seq<(MExpr, MExpr)>,
    fuel: nat,
) -> (Result<Seq<(MExpr, MExpr)>, MParseErr>, int)
    decreases fuel, 0nat, rem(text, pos),
{
    if fuel == 0 {
        (Err(MParseErr::TooDeep), pos)
    } else {
        let (r, p1) = unary_s(text, pos, (fuel - 1) as nat);
        match r {
            Err(e) => (Err(e), p1),
            Ok(key) => {
                let p2 = skip_ws_s(text, p1);
                if !at_s(text, p2, ':') {
                    (Err(MParseErr::ObjectColon), p2)
                } else {
                    let (r2, p3) = unary_s(text, p2 + 1, (fuel - 1) as nat);
                    match r2 {
                        Err(e) => (Err(e), p3),
                        Ok(value) => {
                            let fs = fields.push((key, value));
                            let p4 = skip_ws_s(text, p3);
                            if at_s(text, p4, ',') {
                                let p5 = skip_ws_s(text, p4 + 1);
                                if at_s(text, p5, '}') {
                                    (Ok(fs), p5)
                                } else if p5 > pos && p5 <= text.len() {
                                    object_items(text, p5, fs, fuel)
                                } else {
                                    (Ok(fs), p5)
                                }
                            } else if at_s(text, p4, '}') {
                                (Ok(fs), p4)
                            } else {
                                (Err(MParseErr::ObjectComma), p4)
                            }
                        },
                    }
                }
            },
        }
    }
}

/// Parse a parenthesized group and any chained access after it.
#[verifier::opaque]
pub open spec fn group_s(text: Seq<char>, pos: int, fuel: nat) -> (Result<MExpr, MParseErr>, int)
    decreases fuel, 1nat, 0nat,
{
    if fuel == 0 {
        (Err(MParseErr::TooDeep), pos)
    } else {
        let p0 = if at_s(text, pos, '(') {
            pos + 1
        } else {
            pos
        };
        let (r, p1) = expression_s(text, p0, (fuel - 1) as nat);
        match r {
            Err(e) => (Err(e), p1),
            Ok(inner) => {
                let p2 = skip_ws_s(text, p1);
                if !at_s(text, p2, ')') {
                    (Err(MParseErr::GroupClose), p2)
                } else {
                    group_finish(group_chain(text, p2 + 1, inner, fuel))
                }
            },
        }
    }
}

/// Wrap a finished group chain in its grouping node.
pub open spec fn group_finish(res: (Result<MExpr, MParseErr>, int)) -> (Result<
    MExpr,
    MParseErr,
>, int) {
    match res.0 {
        Err(e) => (Err(e), res.1),
        Ok(result) => (Ok(MExpr::Group { expr: Box::new(result) }), res.1),
    }
}

#[verifier::opaque]
pub open spec fn group_chain(text: Seq<char>, pos: int, e: MExpr, fuel: nat) -> (Result<
    MExpr,
    MParseErr,
>, int)
    decreases fuel, 0nat, rem(text, pos),
{
    if fuel == 0 {
        (Err(MParseErr::TooDeep), pos)
    } else {
        let p = skip_ws_s(text, pos);
        if at_s(text, p, '.') {
            let (r, p2) = field_name_s(text, p + 1);
            match r {
                Err(er) => (Err(er), p2),
                Ok(nm) => {
                    let e2 = MExpr::FieldAccess { target: Box::new(e), field: nm };
                    if p2 > p && p2 <= text.len() {
                        proof {
                            lemma_skip_ws_ge(text, pos);
                        }
                        group_chain(text, p2, e2, fuel)
                    } else {
                        (Ok(e2), p2)
                    }
                },
            }
        } else if at_s(text, p, '[') {
            let (r, p2) = bracket_s(e, text, p, (fuel - 1) as nat);
            match r {
                Err(er) => (Err(er), p2),
                Ok(e2) => if p2 > p && p2 <= text.len() {
                    proof {
                        lemma_skip_ws_ge(text, pos);
                    }
                    group_chain(text, p2, e2, fuel)
                } else {
                    (Ok(e2), p2)
                },
            }
        } else {
            (Ok(e), p)
        }
    }
}

/// Parse an identifier, then decide: a literal keyword, a function
/// call, a bare built-in, or a field access on identity.
#[verifier::opaque]
pub open spec fn identfn_s(text: Seq<char>, pos: int, fuel: nat) -> (Result<
    MExpr,
    MParseErr,
>, int)
    decreases fuel, 1nat, 0nat,
{
    if fuel == 0 {
        (Err(MParseErr::TooDeep), pos)
    } else {
        let (nm, p1) = name_scan(text, pos, Seq::empty());
        if nm.len() == 0 {
            (Err(MParseErr::ExpectedIdentifier), p1)
        } else if nm == "true"@ {
            (Ok(MExpr::Literal(MVal::Bool(true))), p1)
        } else if nm == "false"@ {
            (Ok(MExpr::Literal(MVal::Bool(false))), p1)
        } else if nm == "null"@ {
            (Ok(MExpr::Literal(MVal::Null)), p1)
        } else {
            let p = skip_ws_s(text, p1);
            if at_s(text, p, '(') {
                call_s(nm, text, p, (fuel - 1) as nat)
            } else {
                match bare_builtin_s(nm) {
                    Some(e) => (Ok(e), p),
                    None => (
                        Ok(
                            MExpr::FieldAccess {
                                target: Box::new(MExpr::Identity),
                                field: nm,
                            },
                        ),
                        p,
                    ),
                }
            }
        }
    }
}

/// Parse a parenthesized call of a named built-in, checking arity.
#[verifier::opaque]
pub open spec fn call_s(name: Seq<char>, text: Seq<char>, pos: int, fuel: nat) -> (Result<
    MExpr,
    MParseErr,
>, int)
    decreases fuel, 1nat, 0nat,
{
    if fuel == 0 {
        (Err(MParseErr::TooDeep), pos)
    } else {
        let p0 = if at_s(text, pos, '(') {
            pos + 1
        } else {
            pos
        };
        let p = skip_ws_s(text, p0);
        if at_s(text, p, ')') {
            (build_call_s(name, Seq::empty()), p + 1)
        } else {
            call_finish(name, text, call_args(text, p, Seq::empty(), fuel))
        }
    }
}

/// Close a finished argument list and build the call.
pub open spec fn call_finish(
    name: Seq<char>,
    text: Seq<char>,
    res: (Result<Seq<MExpr>, MParseErr>, int),
) -> (Result<MExpr, MParseErr>, int) {
    match res.0 {
        Err(e) => (Err(e), res.1),
        Ok(args) => if at_s(text, res.1, ')') {
            (build_call_s(name, args), res.1 + 1)
        } else {
            (Err(MParseErr::CallClose), res.1)
        },
    }
}

#[verifier::opaque]
pub open spec fn call_args(text: Seq<char>, pos: int, args: Seq<MExpr>, fuel: nat) -> (Result<
    Seq<MExpr>,
    MParseErr,
>, int)
    decreases fuel, 0nat, rem(text, pos),
{
    if fuel == 0 {
        (Err(MParseErr::TooDeep), pos)
    } else {
        let (r, p1) = expression_s(text, pos, (fuel - 1) as nat);
        match r {
            Err(e) => (Err(e), p1),
            Ok(a) => {
                let more = args.push(a);
                let p2 = skip_ws_s(text, p1);
                if at_s(text, p2, ',') {
                    let p3 = skip_ws_s(text, p2 + 1);
                    if p3 > pos && p3 <= text.len() {
                        call_args(text, p3, more, fuel)
                    } else {
                        (Ok(more), p3)
                    }
                } else if at_s(text, p2, ')') {
                    (Ok(more), p2)
                } else {
                    (Err(MParseErr::CallComma), p2)
                }
            },
        }
    }
}

/// The whole grammar: what any expression text parses to, with the
/// standard nesting allowance for its length.
pub open spec fn parse_s(text: Seq<char>) -> Result<MExpr, MParseErr> {
    expression_s(text, 0, initial_fuel_s(text.len())).0
}

} // verus!
