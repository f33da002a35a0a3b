//! The expression parser: recursive descent over a character cursor
//! with explicit precedence levels, from pipe at the bottom to primary
//! expressions at the top. Every production only moves the cursor
//! forward and never past the end, and parsing always terminates; a
//! nesting-depth allowance guards the mutual recursion, generous enough
//! that no expression that fits in memory runs out of it.

use vstd::prelude::*;
use crate::value::{Value, MVal};
use crate::num::{Number, MNum, dec_from_parts};
use crate::ast::{Expression, MExpr, expr_model, exprs_model, expr_pairs_model,
    lemma_exprs_model, lemma_exprs_model_push, lemma_expr_pairs_model_push};
use crate::errors::{ParseError, MParseErr};
use crate::canon::push_char;
use crate::grammar::{pres_model, rem, skip_ws_s, lemma_skip_ws_ge, lemma_skip_ws_idem, at_s,
    digit_char, comma_finish, array_finish, object_finish, group_finish, call_finish,
    fname_scan, field_name_s,
    name_scan, int_scan, signed_integer_s, escape_char, strlit_scan, string_literal_s,
    numlit_scan, number_literal_s, variable_s, bare_builtin_s, one_or_identity_s, build_call_s,
    and_kw_at, expression_s, or_s, or_chain, and_s, and_chain, comparison_s, comparison_rhs,
    additive_s, additive_chain, multiplicative_s, multiplicative_chain, alternative_s,
    alternative_chain, assignment_s, comma_s, comma_chain, unary_s, primary_s, dot_s,
    dot_bracket_chain, dot_field_chain, bracket_s, array_ctor_s, array_items, object_ctor_s,
    object_items, group_s, group_chain, identfn_s, call_s, call_args, parse_s};

verus! {

broadcast use vstd::std_specs::vec::group_vec_axioms, vstd::seq::axiom_seq_index_decreases;

/// Whether a character is one of the blank characters the grammar
/// skips between tokens.
pub open spec fn is_space_s(c: char) -> bool {
    c == ' ' || c == '\t' || c == '\n' || c == '\r' || c == '\u{b}' || c == '\u{c}'
}

fn is_space(c: char) -> (r: bool)
    ensures
        r == is_space_s(c),
{
    c == ' ' || c == '\t' || c == '\n' || c == '\r' || c == '\u{b}' || c == '\u{c}'
}

/// What `char::is_alphabetic` returns; the classification depends on
/// the character alone.
pub uninterp spec fn alpha_char(c: char) -> bool;

/// Relies on char::is_alphabetic: the Unicode letter classification.
#[verifier::external_body]
fn is_alphabetic(c: char) -> (r: bool)
    ensures
        r == alpha_char(c),
{
    c.is_alphabetic()
}

/// What `char::is_alphanumeric` returns; the classification depends on
/// the character alone.
pub uninterp spec fn alnum_char(c: char) -> bool;

/// Relies on char::is_alphanumeric: the Unicode letter-or-digit
/// classification.
#[verifier::external_body]
fn is_alphanumeric(c: char) -> (r: bool)
    ensures
        r == alnum_char(c),
{
    c.is_alphanumeric()
}

/// A character cursor over the expression text.
pub struct Cursor {
    /// The characters of the whole input.
    pub text: Vec<char>,
    /// The position of the next character to read.
    pub pos: usize,
}

impl Cursor {
    /// The cursor never stands past the end of the text.
    pub open spec fn wf(&self) -> bool {
        self.pos <= self.text@.len()
    }
}

/// Parser for query expressions.
pub struct ExpressionParser;

/// The nesting allowance handed to the recursive productions: more
/// than the deepest chain of productions any input of this length can
/// produce; saturated at the top of the range for absurd lengths.
pub open spec fn initial_fuel_s(len: nat) -> nat {
    if len * 16 + 64 <= 0xffff_ffff_ffff_ffff {
        len * 16 + 64
    } else {
        0xffff_ffff_ffff_ffff
    }
}

fn initial_fuel(len: usize) -> (fuel: u64)
    ensures
        fuel == initial_fuel_s(len as nat),
{
    match (len as u64).checked_mul(16) {
        Some(x) => match x.checked_add(64) {
            Some(y) => y,
            None => u64::MAX,
        },
        None => u64::MAX,
    }
}

impl ExpressionParser {
    /// Create a new expression parser.
    pub fn new() -> ExpressionParser {
        ExpressionParser
    }

    /// Parse an expression string into a tree. The whole grammar walks
    /// the text strictly forward; text that follows a complete
    /// expression is left unread.
    pub fn parse(&self, input: &str) -> (r: Result<Expression, ParseError>)
        ensures
            pres_model(r) == parse_s(input@),
    {
        let n = input.unicode_len();
        let mut text: Vec<char> = Vec::new();
        let mut i: usize = 0;
        while i < n
            invariant
                i <= n,
                n == input@.len(),
                text@ == input@.take(i as int),
            decreases n - i,
        {
            let c = input.get_char(i);
            proof {
                assert(input@.take(i as int).push(input@[i as int]) =~= input@.take(i + 1));
            }
            text.push(c);
            i = i + 1;
        }
        proof {
            assert(input@.take(n as int) =~= input@);
        }
        let mut cur = Cursor { text, pos: 0 };
        let fuel = initial_fuel(n);
        self.parse_expression(&mut cur, fuel)
    }

    /// Parse the main expression: pipes, right-associative, lowest.
    #[verifier::rlimit(100)]
    #[verifier::spinoff_prover]
    pub fn parse_expression(&self, chars: &mut Cursor, fuel: u64) -> (r: Result<
        Expression,
        ParseError,
    >)
        requires
            old(chars).wf(),
        ensures
            final(chars).wf(),
            final(chars).text == old(chars).text,
            old(chars).pos <= final(chars).pos,
            ({
                let (r2, p2) = expression_s(old(chars).text@, old(chars).pos as int, fuel as nat);
                &&& final(chars).pos as int == p2
                &&& pres_model(r) == r2
            }),
        decreases fuel,
    {
        reveal(crate::grammar::expression_s);
        reveal(crate::grammar::or_s);
        reveal(crate::grammar::or_chain);
        reveal(crate::grammar::and_s);
        reveal(crate::grammar::and_chain);
        reveal(crate::grammar::comparison_s);
        if fuel == 0 {
            return Err(ParseError::TooDeep);
        }
        let left = match self.parse_or(chars, fuel - 1) {
            Ok(e) => e,
            Err(e) => {
                return Err(e);
            },
        };
        self.skip_whitespace(chars);
        if self.at(chars, '|') {
            // two-character lookahead keeps `||` for logical or
            if !self.at1(chars, '|') {
                chars.pos = chars.pos + 1;
                let right = match self.parse_expression(chars, fuel - 1) {
                    Ok(e) => e,
                    Err(e) => {
                        return Err(e);
                    },
                };
                return Ok(
                    Expression::Pipe { left: Box::new(left), right: Box::new(right) },
                );
            }
        }
        Ok(left)
    }

    /// Parse logical or (`||`), left-associative.
    #[verifier::rlimit(100)]
    #[verifier::spinoff_prover]
    fn parse_or(&self, chars: &mut Cursor, fuel: u64) -> (r: Result<Expression, ParseError>)
        requires
            old(chars).wf(),
        ensures
            final(chars).wf(),
            final(chars).text == old(chars).text,
            old(chars).pos <= final(chars).pos,
            ({
                let (r2, p2) = or_s(old(chars).text@, old(chars).pos as int, fuel as nat);
                &&& final(chars).pos as int == p2
                &&& pres_model(r) == r2
            }),
        decreases fuel,
    {
        reveal(crate::grammar::or_s);
        reveal(crate::grammar::or_chain);
        reveal(crate::grammar::and_s);
        reveal(crate::grammar::and_chain);
        reveal(crate::grammar::comparison_s);
        if fuel == 0 {
            return Err(ParseError::TooDeep);
        }
        let mut left = match self.parse_and(chars, fuel - 1) {
            Ok(e) => e,
            Err(e) => {
                return Err(e);
            },
        };
        loop
            invariant
                fuel >= 1,
                chars.wf(),
                chars.text == old(chars).text,
                old(chars).pos <= chars.pos,
                or_s(old(chars).text@, old(chars).pos as int, fuel as nat) == or_chain(
                    chars.text@,
                    chars.pos as int,
                    expr_model(left),
                    fuel as nat,
                ),
            ensures
                chars.wf(),
                chars.text == old(chars).text,
                old(chars).pos <= chars.pos,
                or_s(old(chars).text@, old(chars).pos as int, fuel as nat) == (
                    Ok::<MExpr, MParseErr>(expr_model(left)),
                    chars.pos as int,
                ),
            decreases chars.text@.len() - chars.pos,
        {
            let ghost pre = chars.pos as int;
            reveal(crate::grammar::or_chain);
            reveal(crate::grammar::and_s);
            self.skip_whitespace(chars);
            if self.at(chars, '|') && self.at1(chars, '|') {
                chars.pos = chars.pos + 2;
                let right = match self.parse_and(chars, fuel - 1) {
                    Ok(e) => e,
                    Err(e) => {
                        return Err(e);
                    },
                };
                left = Expression::Or { left: Box::new(left), right: Box::new(right) };
            } else {
                proof {
                    lemma_skip_ws_idem(chars.text@, pre);
                }
                break;
            }
        }
        Ok(left)
    }

    /// Parse logical and (the `and` keyword), left-associative.
    #[verifier::rlimit(100)]
    #[verifier::spinoff_prover]
    fn parse_and(&self, chars: &mut Cursor, fuel: u64) -> (r: Result<Expression, ParseError>)
        requires
            old(chars).wf(),
        ensures
            final(chars).wf(),
            final(chars).text == old(chars).text,
            old(chars).pos <= final(chars).pos,
            ({
                let (r2, p2) = and_s(old(chars).text@, old(chars).pos as int, fuel as nat);
                &&& final(chars).pos as int == p2
                &&& pres_model(r) == r2
            }),
        decreases fuel,
    {
        reveal(crate::grammar::and_s);
        reveal(crate::grammar::and_chain);
        reveal(crate::grammar::comparison_s);
        if fuel == 0 {
            return Err(ParseError::TooDeep);
        }
        let mut left = match self.parse_comparison(chars, fuel - 1) {
            Ok(e) => e,
            Err(e) => {
                return Err(e);
            },
        };
        loop
            invariant
                fuel >= 1,
                chars.wf(),
                chars.text == old(chars).text,
                old(chars).pos <= chars.pos,
                and_s(old(chars).text@, old(chars).pos as int, fuel as nat) == and_chain(
                    chars.text@,
                    chars.pos as int,
                    expr_model(left),
                    fuel as nat,
                ),
            ensures
                chars.wf(),
                chars.text == old(chars).text,
                old(chars).pos <= chars.pos,
                and_s(old(chars).text@, old(chars).pos as int, fuel as nat) == (
                    Ok::<MExpr, MParseErr>(expr_model(left)),
                    chars.pos as int,
                ),
            decreases chars.text@.len() - chars.pos,
        {
            let ghost pre = chars.pos as int;
            reveal(crate::grammar::and_chain);
            reveal(crate::grammar::comparison_s);
            self.skip_whitespace(chars);
            let kw = self.peek_keyword(chars, "and");
            proof {
                reveal_strlit("and");
                assert("and"@ =~= seq!['a', 'n', 'd']);
                if kw {
                    assert(chars.text@.subrange(chars.pos as int, chars.pos + 3)[0] == 'a');
                    assert(chars.text@.subrange(chars.pos as int, chars.pos + 3)[1] == 'n');
                    assert(chars.text@.subrange(chars.pos as int, chars.pos + 3)[2] == 'd');
                    assert(and_kw_at(chars.text@, chars.pos as int));
                } else {
                    if and_kw_at(chars.text@, chars.pos as int) {
                        assert(chars.text@.subrange(chars.pos as int, chars.pos + 3)
                            =~= "and"@);
                        assert(false);
                    }
                }
            }
            if kw {
                match self.consume_keyword(chars, "and") {
                    Ok(_) => {},
                    Err(e) => {
                        proof {
                            assert(false);
                        }
                        return Err(e);
                    },
                }
                let right = match self.parse_comparison(chars, fuel - 1) {
                    Ok(e) => e,
                    Err(e) => {
                        return Err(e);
                    },
                };
                left = Expression::And { left: Box::new(left), right: Box::new(right) };
            } else {
                proof {
                    lemma_skip_ws_idem(chars.text@, pre);
                }
                break;
            }
        }
        Ok(left)
    }

    /// Parse one comparison at most; chains go through `and`/`or`.
    #[verifier::rlimit(100)]
    #[verifier::spinoff_prover]
    fn parse_comparison(&self, chars: &mut Cursor, fuel: u64) -> (r: Result<
        Expression,
        ParseError,
    >)
        requires
            old(chars).wf(),
        ensures
            final(chars).wf(),
            final(chars).text == old(chars).text,
            old(chars).pos <= final(chars).pos,
            ({
                let (r2, p2) = comparison_s(old(chars).text@, old(chars).pos as int, fuel as nat);
                &&& final(chars).pos as int == p2
                &&& pres_model(r) == r2
            }),
        decreases fuel,
    {
        reveal(crate::grammar::comparison_s);
        reveal(crate::grammar::comparison_rhs);
        reveal(crate::grammar::additive_s);
        if fuel == 0 {
            return Err(ParseError::TooDeep);
        }
        let left = match self.parse_additive(chars, fuel - 1) {
            Ok(e) => e,
            Err(e) => {
                return Err(e);
            },
        };
        self.skip_whitespace(chars);
        let op: u8 = if self.at(chars, '=') && self.at1(chars, '=') {
            chars.pos = chars.pos + 2;
            1
        } else if self.at(chars, '!') && self.at1(chars, '=') {
            chars.pos = chars.pos + 2;
            2
        } else if self.at(chars, '<') && self.at1(chars, '=') {
            chars.pos = chars.pos + 2;
            3
        } else if self.at(chars, '>') && self.at1(chars, '=') {
            chars.pos = chars.pos + 2;
            4
        } else if self.at(chars, '<') {
            chars.pos = chars.pos + 1;
            5
        } else if self.at(chars, '>') {
            chars.pos = chars.pos + 1;
            6
        } else {
            return Ok(left);
        };
        proof {
            assert(comparison_s(old(chars).text@, old(chars).pos as int, fuel as nat)
                == comparison_rhs(
                chars.text@,
                chars.pos as int,
                expr_model(left),
                op,
                fuel as nat,
            ));
        }
        let right = match self.parse_additive(chars, fuel - 1) {
            Ok(e) => e,
            Err(e) => {
                return Err(e);
            },
        };
        if op == 1 {
            Ok(Expression::Equal { left: Box::new(left), right: Box::new(right) })
        } else if op == 2 {
            Ok(Expression::NotEqual { left: Box::new(left), right: Box::new(right) })
        } else if op == 3 {
            Ok(Expression::LessThanOrEqual { left: Box::new(left), right: Box::new(right) })
        } else if op == 4 {
            Ok(Expression::GreaterThanOrEqual { left: Box::new(left), right: Box::new(right) })
        } else if op == 5 {
            Ok(Expression::LessThan { left: Box::new(left), right: Box::new(right) })
        } else {
            Ok(Expression::GreaterThan { left: Box::new(left), right: Box::new(right) })
        }
    }

    /// Parse additive operators (`+`, `-`), left-associative; a leading
    /// `//` belongs to the alternative operator and stops this level.
    #[verifier::rlimit(100)]
    #[verifier::spinoff_prover]
    fn parse_additive(&self, chars: &mut Cursor, fuel: u64) -> (r: Result<Expression, ParseError>)
        requires
            old(chars).wf(),
        ensures
            final(chars).wf(),
            final(chars).text == old(chars).text,
            old(chars).pos <= final(chars).pos,
            ({
                let (r2, p2) = additive_s(old(chars).text@, old(chars).pos as int, fuel as nat);
                &&& final(chars).pos as int == p2
                &&& pres_model(r) == r2
            }),
        decreases fuel,
    {
        reveal(crate::grammar::additive_s);
        reveal(crate::grammar::additive_chain);
        reveal(crate::grammar::multiplicative_s);
        if fuel == 0 {
            return Err(ParseError::TooDeep);
        }
        let mut left = match self.parse_multiplicative(chars, fuel - 1) {
            Ok(e) => e,
            Err(e) => {
                return Err(e);
            },
        };
        loop
            invariant
                fuel >= 1,
                chars.wf(),
                chars.text == old(chars).text,
                old(chars).pos <= chars.pos,
                additive_s(old(chars).text@, old(chars).pos as int, fuel as nat)
                    == additive_chain(
                    chars.text@,
                    chars.pos as int,
                    expr_model(left),
                    fuel as nat,
                ),
            ensures
                chars.wf(),
                chars.text == old(chars).text,
                old(chars).pos <= chars.pos,
                additive_s(old(chars).text@, old(chars).pos as int, fuel as nat) == (
                    Ok::<MExpr, MParseErr>(expr_model(left)),
                    chars.pos as int,
                ),
            decreases chars.text@.len() - chars.pos,
        {
            let ghost pre = chars.pos as int;
            reveal(crate::grammar::additive_chain);
            reveal(crate::grammar::multiplicative_s);
            self.skip_whitespace(chars);
            if self.at(chars, '+') {
                chars.pos = chars.pos + 1;
                let right = match self.parse_multiplicative(chars, fuel - 1) {
                    Ok(e) => e,
                    Err(e) => {
                        return Err(e);
                    },
                };
                left = Expression::Add { left: Box::new(left), right: Box::new(right) };
            } else if self.at(chars, '-') {
                // a leading `//` would belong to the alternative operator
                if self.at(chars, '/') && self.at1(chars, '/') {
                    proof {
                        lemma_skip_ws_idem(chars.text@, pre);
                    }
                    break;
                }
                chars.pos = chars.pos + 1;
                let right = match self.parse_multiplicative(chars, fuel - 1) {
                    Ok(e) => e,
                    Err(e) => {
                        return Err(e);
                    },
                };
                left = Expression::Subtract { left: Box::new(left), right: Box::new(right) };
            } else {
                proof {
                    lemma_skip_ws_idem(chars.text@, pre);
                }
                break;
            }
        }
        Ok(left)
    }

    /// Parse multiplicative operators (`*`, `/`, `%`), left-associative.
    #[verifier::rlimit(100)]
    #[verifier::spinoff_prover]
    fn parse_multiplicative(&self, chars: &mut Cursor, fuel: u64) -> (r: Result<
        Expression,
        ParseError,
    >)
        requires
            old(chars).wf(),
        ensures
            final(chars).wf(),
            final(chars).text == old(chars).text,
            old(chars).pos <= final(chars).pos,
            ({
                let (r2, p2) = multiplicative_s(old(chars).text@, old(chars).pos as int, fuel as nat);
                &&& final(chars).pos as int == p2
                &&& pres_model(r) == r2
            }),
        decreases fuel,
    {
        reveal(crate::grammar::multiplicative_s);
        reveal(crate::grammar::multiplicative_chain);
        reveal(crate::grammar::alternative_s);
        if fuel == 0 {
            return Err(ParseError::TooDeep);
        }
        let mut left = match self.parse_alternative(chars, fuel - 1) {
            Ok(e) => e,
            Err(e) => {
                return Err(e);
            },
        };
        loop
            invariant
                fuel >= 1,
                chars.wf(),
                chars.text == old(chars).text,
                old(chars).pos <= chars.pos,
                multiplicative_s(old(chars).text@, old(chars).pos as int, fuel as nat)
                    == multiplicative_chain(
                    chars.text@,
                    chars.pos as int,
                    expr_model(left),
                    fuel as nat,
                ),
            ensures
                chars.wf(),
                chars.text == old(chars).text,
                old(chars).pos <= chars.pos,
                multiplicative_s(old(chars).text@, old(chars).pos as int, fuel as nat) == (
                    Ok::<MExpr, MParseErr>(expr_model(left)),
                    chars.pos as int,
                ),
            decreases chars.text@.len() - chars.pos,
        {
            let ghost pre = chars.pos as int;
            reveal(crate::grammar::multiplicative_chain);
            reveal(crate::grammar::alternative_s);
            self.skip_whitespace(chars);
            if self.at(chars, '*') {
                chars.pos = chars.pos + 1;
                let right = match self.parse_alternative(chars, fuel - 1) {
                    Ok(e) => e,
                    Err(e) => {
                        return Err(e);
                    },
                };
                left = Expression::Multiply { left: Box::new(left), right: Box::new(right) };
            } else if self.at(chars, '/') {
                chars.pos = chars.pos + 1;
                let right = match self.parse_alternative(chars, fuel - 1) {
                    Ok(e) => e,
                    Err(e) => {
                        return Err(e);
                    },
                };
                left = Expression::Divide { left: Box::new(left), right: Box::new(right) };
            } else if self.at(chars, '%') {
                chars.pos = chars.pos + 1;
                let right = match self.parse_alternative(chars, fuel - 1) {
                    Ok(e) => e,
                    Err(e) => {
                        return Err(e);
                    },
                };
                left = Expression::Modulo { left: Box::new(left), right: Box::new(right) };
            } else {
                proof {
                    lemma_skip_ws_idem(chars.text@, pre);
                }
                break;
            }
        }
        Ok(left)
    }

    /// Parse the alternative operator (`//`), left-associative.
    #[verifier::rlimit(100)]
    #[verifier::spinoff_prover]
    fn parse_alternative(&self, chars: &mut Cursor, fuel: u64) -> (r: Result<
        Expression,
        ParseError,
    >)
        requires
            old(chars).wf(),
        ensures
            final(chars).wf(),
            final(chars).text == old(chars).text,
            old(chars).pos <= final(chars).pos,
            ({
                let (r2, p2) = alternative_s(old(chars).text@, old(chars).pos as int, fuel as nat);
                &&& final(chars).pos as int == p2
                &&& pres_model(r) == r2
            }),
        decreases fuel,
    {
        reveal(crate::grammar::alternative_s);
        reveal(crate::grammar::alternative_chain);
        reveal(crate::grammar::assignment_s);
        if fuel == 0 {
            return Err(ParseError::TooDeep);
        }
        let mut left = match self.parse_assignment(chars, fuel - 1) {
            Ok(e) => e,
            Err(e) => {
                return Err(e);
            },
        };
        loop
            invariant
                fuel >= 1,
                chars.wf(),
                chars.text == old(chars).text,
                old(chars).pos <= chars.pos,
                alternative_s(old(chars).text@, old(chars).pos as int, fuel as nat)
                    == alternative_chain(
                    chars.text@,
                    chars.pos as int,
                    expr_model(left),
                    fuel as nat,
                ),
            ensures
                chars.wf(),
                chars.text == old(chars).text,
                old(chars).pos <= chars.pos,
                alternative_s(old(chars).text@, old(chars).pos as int, fuel as nat) == (
                    Ok::<MExpr, MParseErr>(expr_model(left)),
                    chars.pos as int,
                ),
            decreases chars.text@.len() - chars.pos,
        {
            let ghost pre = chars.pos as int;
            reveal(crate::grammar::alternative_chain);
            reveal(crate::grammar::assignment_s);
            self.skip_whitespace(chars);
            if self.at(chars, '/') && self.at1(chars, '/') {
                chars.pos = chars.pos + 2;
                let right = match self.parse_assignment(chars, fuel - 1) {
                    Ok(e) => e,
                    Err(e) => {
                        return Err(e);
                    },
                };
                left = Expression::Alternative { left: Box::new(left), right: Box::new(right) };
            } else {
                proof {
                    lemma_skip_ws_idem(chars.text@, pre);
                }
                break;
            }
        }
        Ok(left)
    }

    /// Parse assignments (`=`, `|=`), right-associative; `==` stays a
    /// comparison by two-character lookahead.
    #[verifier::rlimit(100)]
    #[verifier::spinoff_prover]
    fn parse_assignment(&self, chars: &mut Cursor, fuel: u64) -> (r: Result<
        Expression,
        ParseError,
    >)
        requires
            old(chars).wf(),
        ensures
            final(chars).wf(),
            final(chars).text == old(chars).text,
            old(chars).pos <= final(chars).pos,
            ({
                let (r2, p2) = assignment_s(old(chars).text@, old(chars).pos as int, fuel as nat);
                &&& final(chars).pos as int == p2
                &&& pres_model(r) == r2
            }),
        decreases fuel,
    {
        reveal(crate::grammar::assignment_s);
        reveal(crate::grammar::comma_s);
        if fuel == 0 {
            return Err(ParseError::TooDeep);
        }
        let left = match self.parse_comma(chars, fuel - 1) {
            Ok(e) => e,
            Err(e) => {
                return Err(e);
            },
        };
        self.skip_whitespace(chars);
        if self.at(chars, '|') && self.at1(chars, '=') {
            chars.pos = chars.pos + 2;
            let value = match self.parse_assignment(chars, fuel - 1) {
                Ok(e) => e,
                Err(e) => {
                    return Err(e);
                },
            };
            return Ok(Expression::Update { target: Box::new(left), value: Box::new(value) });
        }
        if self.at(chars, '=') && self.at1(chars, '=') {
            return Ok(left);
        }
        if self.at(chars, '=') {
            chars.pos = chars.pos + 1;
            let value = match self.parse_assignment(chars, fuel - 1) {
                Ok(e) => e,
                Err(e) => {
                    return Err(e);
                },
            };
            return Ok(Expression::Assign { target: Box::new(left), value: Box::new(value) });
        }
        Ok(left)
    }

    /// Parse comma lists: more than one operand becomes an array.
    #[verifier::rlimit(100)]
    #[verifier::spinoff_prover]
    fn parse_comma(&self, chars: &mut Cursor, fuel: u64) -> (r: Result<Expression, ParseError>)
        requires
            old(chars).wf(),
        ensures
            final(chars).wf(),
            final(chars).text == old(chars).text,
            old(chars).pos <= final(chars).pos,
            ({
                let (r2, p2) = comma_s(old(chars).text@, old(chars).pos as int, fuel as nat);
                &&& final(chars).pos as int == p2
                &&& pres_model(r) == r2
            }),
        decreases fuel,
    {
        reveal(crate::grammar::comma_s);
        reveal(crate::grammar::comma_chain);
        reveal(crate::grammar::unary_s);
        if fuel == 0 {
            return Err(ParseError::TooDeep);
        }
        let first = match self.parse_unary(chars, fuel - 1) {
            Ok(e) => e,
            Err(e) => {
                return Err(e);
            },
        };
        let mut elements: Vec<Expression> = Vec::new();
        proof {
            lemma_exprs_model_push(elements@, first);
            assert(exprs_model(Seq::<Expression>::empty()) =~= Seq::<MExpr>::empty());
            assert(Seq::<MExpr>::empty().push(expr_model(first)) =~= seq![expr_model(first)]);
        }
        elements.push(first);
        loop
            invariant
                fuel >= 1,
                chars.wf(),
                chars.text == old(chars).text,
                old(chars).pos <= chars.pos,
                elements@.len() >= 1,
                comma_s(old(chars).text@, old(chars).pos as int, fuel as nat) == comma_finish(
                    comma_chain(
                        chars.text@,
                        chars.pos as int,
                        exprs_model(elements@),
                        fuel as nat,
                    ),
                ),
            ensures
                chars.wf(),
                chars.text == old(chars).text,
                old(chars).pos <= chars.pos,
                elements@.len() >= 1,
                comma_s(old(chars).text@, old(chars).pos as int, fuel as nat) == comma_finish(
                    (Ok::<Seq<MExpr>, MParseErr>(exprs_model(elements@)), chars.pos as int),
                ),
            decreases chars.text@.len() - chars.pos,
        {
            let ghost pre = chars.pos as int;
            reveal(crate::grammar::comma_chain);
            reveal(crate::grammar::unary_s);
            self.skip_whitespace(chars);
            if self.at(chars, ',') {
                chars.pos = chars.pos + 1;
                let next = match self.parse_unary(chars, fuel - 1) {
                    Ok(e) => e,
                    Err(e) => {
                        return Err(e);
                    },
                };
                proof {
                    lemma_exprs_model_push(elements@, next);
                }
                elements.push(next);
            } else {
                proof {
                    lemma_skip_ws_idem(chars.text@, pre);
                }
                break;
            }
        }
        proof {
            lemma_exprs_model(elements@);
        }
        if elements.len() == 1 {
            match elements.pop() {
                Some(e) => Ok(e),
                None => Err(ParseError::UnexpectedCharacter),
            }
        } else {
            Ok(Expression::Array { elements })
        }
    }

    /// Parse unary operators (`!`, unary `-`); a minus before a digit
    /// folds into the numeric literal.
    #[verifier::rlimit(100)]
    #[verifier::spinoff_prover]
    fn parse_unary(&self, chars: &mut Cursor, fuel: u64) -> (r: Result<Expression, ParseError>)
        requires
            old(chars).wf(),
        ensures
            final(chars).wf(),
            final(chars).text == old(chars).text,
            old(chars).pos <= final(chars).pos,
            ({
                let (r2, p2) = unary_s(old(chars).text@, old(chars).pos as int, fuel as nat);
                &&& final(chars).pos as int == p2
                &&& pres_model(r) == r2
            }),
        decreases fuel,
    {
        reveal(crate::grammar::unary_s);
        reveal(crate::grammar::primary_s);
        proof {
            assert(expr_model(Expression::Literal(Value::Num(Number::Int(0))))
                == MExpr::Literal(MVal::Num(MNum::Int(0))));
        }
        if fuel == 0 {
            return Err(ParseError::TooDeep);
        }
        self.skip_whitespace(chars);
        if self.at(chars, '!') {
            chars.pos = chars.pos + 1;
            let inner = match self.parse_unary(chars, fuel - 1) {
                Ok(e) => e,
                Err(e) => {
                    return Err(e);
                },
            };
            return Ok(Expression::Not { expr: Box::new(inner) });
        }
        if self.at(chars, '-') {
            let c1 = self.peek_char_at(chars, 1);
            match c1 {
                Some(d) if '0' <= d && d <= '9' => {
                    return self.parse_primary(chars, fuel - 1);
                },
                _ => {},
            }
            chars.pos = chars.pos + 1;
            let inner = match self.parse_unary(chars, fuel - 1) {
                Ok(e) => e,
                Err(e) => {
                    return Err(e);
                },
            };
            return Ok(
                Expression::Subtract {
                    left: Box::new(Expression::Literal(Value::Num(Number::Int(0)))),
                    right: Box::new(inner),
                },
            );
        }
        self.parse_primary(chars, fuel - 1)
    }

    /// Parse primary expressions: dot forms, literals, constructors,
    /// groups, variables and identifiers.
    #[verifier::rlimit(100)]
    #[verifier::spinoff_prover]
    fn parse_primary(&self, chars: &mut Cursor, fuel: u64) -> (r: Result<Expression, ParseError>)
        requires
            old(chars).wf(),
        ensures
            final(chars).wf(),
            final(chars).text == old(chars).text,
            old(chars).pos <= final(chars).pos,
            ({
                let (r2, p2) = primary_s(old(chars).text@, old(chars).pos as int, fuel as nat);
                &&& final(chars).pos as int == p2
                &&& pres_model(r) == r2
            }),
        decreases fuel,
    {
        reveal(crate::grammar::primary_s);
        reveal(crate::grammar::dot_s);
        reveal(crate::grammar::array_ctor_s);
        reveal(crate::grammar::object_ctor_s);
        reveal(crate::grammar::group_s);
        reveal(crate::grammar::identfn_s);
        if fuel == 0 {
            return Err(ParseError::TooDeep);
        }
        self.skip_whitespace(chars);
        match self.peek_char(chars) {
            Some('.') => self.parse_dot_expression(chars, fuel - 1),
            Some('"') => self.parse_string_literal(chars),
            Some('\'') => self.parse_string_literal(chars),
            Some('[') => self.parse_array_constructor(chars, fuel - 1),
            Some('{') => self.parse_object_constructor(chars, fuel - 1),
            Some('(') => self.parse_group(chars, fuel - 1),
            Some('$') => self.parse_variable(chars),
            Some(c) => {
                if '0' <= c && c <= '9' {
                    self.parse_number_literal(chars)
                } else if is_alphabetic(c) || c == '_' {
                    self.parse_identifier_or_function(chars, fuel - 1)
                } else {
                    Err(ParseError::UnexpectedCharacter)
                }
            },
            None => Ok(Expression::Empty),
        }
    }

    /// Parse dot expressions: identity, recursion, field chains and
    /// bracket forms.
    #[verifier::rlimit(100)]
    #[verifier::spinoff_prover]
    fn parse_dot_expression(&self, chars: &mut Cursor, fuel: u64) -> (r: Result<
        Expression,
        ParseError,
    >)
        requires
            old(chars).wf(),
        ensures
            final(chars).wf(),
            final(chars).text == old(chars).text,
            old(chars).pos <= final(chars).pos,
            ({
                let (r2, p2) = dot_s(old(chars).text@, old(chars).pos as int, fuel as nat);
                &&& final(chars).pos as int == p2
                &&& pres_model(r) == r2
            }),
        decreases fuel,
    {
        reveal(crate::grammar::dot_s);
        reveal(crate::grammar::dot_bracket_chain);
        reveal(crate::grammar::dot_field_chain);
        reveal(crate::grammar::bracket_s);
        if fuel == 0 {
            return Err(ParseError::TooDeep);
        }
        if self.at(chars, '.') {
            chars.pos = chars.pos + 1;
        }
        self.skip_whitespace(chars);
        // recursive descent: `..`
        if self.at(chars, '.') {
            chars.pos = chars.pos + 1;
            return Ok(Expression::Recurse);
        }
        // a bare dot is identity
        let stands_alone = match self.peek_char(chars) {
            Some(c) => !is_alphanumeric(c) && c != '_' && c != '[',
            None => true,
        };
        if stands_alone {
            return Ok(Expression::Identity);
        }
        if self.at(chars, '[') {
            let mut expr = match self.parse_bracket_access(Expression::Identity, chars, fuel - 1) {
                Ok(e) => e,
                Err(e) => {
                    return Err(e);
                },
            };
            loop
                invariant
                    fuel >= 1,
                    chars.wf(),
                    chars.text == old(chars).text,
                    old(chars).pos <= chars.pos,
                    dot_s(old(chars).text@, old(chars).pos as int, fuel as nat)
                        == dot_bracket_chain(
                        chars.text@,
                        chars.pos as int,
                        expr_model(expr),
                        fuel as nat,
                    ),
                ensures
                    chars.wf(),
                    chars.text == old(chars).text,
                    old(chars).pos <= chars.pos,
                    dot_s(old(chars).text@, old(chars).pos as int, fuel as nat) == (
                        Ok::<MExpr, MParseErr>(expr_model(expr)),
                        chars.pos as int,
                    ),
                decreases chars.text@.len() - chars.pos,
            {
                let ghost pre = chars.pos as int;
                reveal(crate::grammar::dot_bracket_chain);
                reveal(crate::grammar::bracket_s);
                self.skip_whitespace(chars);
                if self.at(chars, '.') {
                    chars.pos = chars.pos + 1;
                    if self.at(chars, '[') {
                        expr = match self.parse_bracket_access(expr, chars, fuel - 1) {
                            Ok(e) => e,
                            Err(e) => {
                                return Err(e);
                            },
                        };
                    } else {
                        let field = match self.parse_field_name(chars) {
                            Ok(f) => f,
                            Err(e) => {
                                return Err(e);
                            },
                        };
                        expr = Expression::FieldAccess { target: Box::new(expr), field };
                    }
                } else if self.at(chars, '[') {
                    expr = match self.parse_bracket_access(expr, chars, fuel - 1) {
                        Ok(e) => e,
                        Err(e) => {
                            return Err(e);
                        },
                    };
                } else {
                    proof {
                        lemma_skip_ws_idem(chars.text@, pre);
                    }
                    break;
                }
            }
            return Ok(expr);
        }
        let field = match self.parse_field_name(chars) {
            Ok(f) => f,
            Err(e) => {
                return Err(e);
            },
        };
        let mut expr = Expression::FieldAccess { target: Box::new(Expression::Identity), field };
        proof {
            assert(expr_model(Expression::Identity) == MExpr::Identity);
        }
        loop
            invariant
                fuel >= 1,
                chars.wf(),
                chars.text == old(chars).text,
                old(chars).pos <= chars.pos,
                dot_s(old(chars).text@, old(chars).pos as int, fuel as nat) == dot_field_chain(
                    chars.text@,
                    chars.pos as int,
                    expr_model(expr),
                    fuel as nat,
                ),
            ensures
                chars.wf(),
                chars.text == old(chars).text,
                old(chars).pos <= chars.pos,
                dot_s(old(chars).text@, old(chars).pos as int, fuel as nat) == (
                    Ok::<MExpr, MParseErr>(expr_model(expr)),
                    chars.pos as int,
                ),
            decreases chars.text@.len() - chars.pos,
        {
            let ghost pre = chars.pos as int;
            reveal(crate::grammar::dot_field_chain);
            reveal(crate::grammar::bracket_s);
            self.skip_whitespace(chars);
            if self.at(chars, '.') {
                chars.pos = chars.pos + 1;
                let field = match self.parse_field_name(chars) {
                    Ok(f) => f,
                    Err(e) => {
                        return Err(e);
                    },
                };
                expr = Expression::FieldAccess { target: Box::new(expr), field };
            } else if self.at(chars, '[') {
                expr = match self.parse_bracket_access(expr, chars, fuel - 1) {
                    Ok(e) => e,
                    Err(e) => {
                        return Err(e);
                    },
                };
            } else {
                proof {
                    lemma_skip_ws_idem(chars.text@, pre);
                }
                break;
            }
        }
        Ok(expr)
    }

    /// Parse a bracket form after a target: an iterator `[]`, a quoted
    /// key, a slice, or an index.
    #[verifier::rlimit(100)]
    #[verifier::spinoff_prover]
    fn parse_bracket_access(&self, target: Expression, chars: &mut Cursor, fuel: u64) -> (r:
        Result<Expression, ParseError>)
        requires
            old(chars).wf(),
        ensures
            final(chars).wf(),
            final(chars).text == old(chars).text,
            old(chars).pos <= final(chars).pos,
            r is Ok ==> old(chars).pos < final(chars).pos,
            ({
                let (r2, p2) = bracket_s(
                    expr_model(target),
                    old(chars).text@,
                    old(chars).pos as int,
                    fuel as nat,
                );
                &&& final(chars).pos as int == p2
                &&& pres_model(r) == r2
            }),
        decreases fuel,
    {
        reveal(crate::grammar::bracket_s);
        if fuel == 0 {
            return Err(ParseError::TooDeep);
        }
        if self.at(chars, '[') {
            chars.pos = chars.pos + 1;
        }
        self.skip_whitespace(chars);
        if self.at(chars, ']') {
            chars.pos = chars.pos + 1;
            return Ok(Expression::Iterator { target: Box::new(target) });
        }
        match self.peek_char(chars) {
            Some(c) if c == '"' || c == '\'' => {
                let key = match self.parse_string_literal(chars) {
                    Ok(k) => k,
                    Err(e) => {
                        return Err(e);
                    },
                };
                self.skip_whitespace(chars);
                if !self.at(chars, ']') {
                    return Err(ParseError::ExpectedBracketAfterKey);
                }
                chars.pos = chars.pos + 1;
                match key {
                    Expression::Literal(Value::Str(s)) => {
                        return Ok(
                            Expression::FieldAccess { target: Box::new(target), field: s },
                        );
                    },
                    _ => {
                        return Err(ParseError::KeyNotStringLiteral);
                    },
                }
            },
            _ => {},
        }
        if self.at(chars, ':') {
            chars.pos = chars.pos + 1;
            self.skip_whitespace(chars);
            let end = if self.at(chars, ']') {
                None
            } else {
                match self.parse_signed_integer(chars) {
                    Ok(v) => Some(v),
                    Err(e) => {
                        return Err(e);
                    },
                }
            };
            if !self.at(chars, ']') {
                return Err(ParseError::ExpectedBracketAfterSlice);
            }
            chars.pos = chars.pos + 1;
            return Ok(Expression::Slice { target: Box::new(target), start: None, end });
        }
        let start = match self.parse_signed_integer(chars) {
            Ok(v) => v,
            Err(e) => {
                return Err(e);
            },
        };
        self.skip_whitespace(chars);
        if self.at(chars, ':') {
            chars.pos = chars.pos + 1;
            self.skip_whitespace(chars);
            let end = if self.at(chars, ']') {
                None
            } else {
                match self.parse_signed_integer(chars) {
                    Ok(v) => Some(v),
                    Err(e) => {
                        return Err(e);
                    },
                }
            };
            if !self.at(chars, ']') {
                return Err(ParseError::ExpectedBracketAfterSlice);
            }
            chars.pos = chars.pos + 1;
            return Ok(
                Expression::Slice { target: Box::new(target), start: Some(start), end },
            );
        }
        if !self.at(chars, ']') {
            return Err(ParseError::ExpectedBracketAfterIndex);
        }
        chars.pos = chars.pos + 1;
        Ok(Expression::IndexAccess { target: Box::new(target), index: start })
    }

    /// Parse a field name: letters, digits, underscores and hyphens.
    pub fn parse_field_name(&self, chars: &mut Cursor) -> (r: Result<String, ParseError>)
        requires
            old(chars).wf(),
        ensures
            final(chars).wf(),
            final(chars).text == old(chars).text,
            old(chars).pos <= final(chars).pos,
            ({
                let (r2, p2) = field_name_s(old(chars).text@, old(chars).pos as int);
                &&& final(chars).pos as int == p2
                &&& match r {
                    Ok(s) => r2 == Ok::<Seq<char>, MParseErr>(s@),
                    Err(e) => r2 == Err::<Seq<char>, MParseErr>(e@),
                }
            }),
    {
        let mut name = String::new();
        loop
            invariant
                chars.wf(),
                chars.text == old(chars).text,
                old(chars).pos <= chars.pos,
                fname_scan(chars.text@, chars.pos as int, name@) == fname_scan(
                    old(chars).text@,
                    old(chars).pos as int,
                    Seq::empty(),
                ),
            ensures
                chars.wf(),
                chars.text == old(chars).text,
                old(chars).pos <= chars.pos,
                (name@, chars.pos as int) == fname_scan(
                    old(chars).text@,
                    old(chars).pos as int,
                    Seq::empty(),
                ),
            decreases chars.text@.len() - chars.pos,
        {
            match self.peek_char(chars) {
                Some(c) => {
                    if is_alphanumeric(c) || c == '_' || c == '-' {
                        push_char(&mut name, c);
                        chars.pos = chars.pos + 1;
                    } else {
                        break;
                    }
                },
                None => {
                    break;
                },
            }
        }
        if name.as_str().is_empty() {
            return Err(ParseError::ExpectedFieldName);
        }
        Ok(name)
    }

    /// Parse a signed integer: an optional minus and a digit run.
    pub fn parse_signed_integer(&self, chars: &mut Cursor) -> (r: Result<isize, ParseError>)
        requires
            old(chars).wf(),
        ensures
            final(chars).wf(),
            final(chars).text == old(chars).text,
            old(chars).pos <= final(chars).pos,
            ({
                let (r2, p2) = signed_integer_s(old(chars).text@, old(chars).pos as int);
                &&& final(chars).pos as int == p2
                &&& match r {
                    Ok(v) => r2 == Ok::<int, MParseErr>(v as int),
                    Err(e) => r2 == Err::<int, MParseErr>(e@),
                }
            }),
    {
        self.skip_whitespace(chars);
        let negative = if self.at(chars, '-') {
            chars.pos = chars.pos + 1;
            true
        } else {
            false
        };
        let num = match self.parse_integer(chars) {
            Ok(v) => v,
            Err(e) => {
                return Err(e);
            },
        };
        if negative {
            // the digit run fits the machine word, so negation fits too
            Ok((0isize - num) as isize)
        } else {
            Ok(num)
        }
    }

    /// Parse a digit run as a machine integer; a run that does not fit
    /// is an error.
    pub fn parse_integer(&self, chars: &mut Cursor) -> (r: Result<isize, ParseError>)
        requires
            old(chars).wf(),
        ensures
            final(chars).wf(),
            final(chars).text == old(chars).text,
            old(chars).pos <= final(chars).pos,
            r matches Ok(v) ==> v >= 0,
            ({
                let (r2, p2) = int_scan(old(chars).text@, old(chars).pos as int, 0, false);
                &&& final(chars).pos as int == p2
                &&& match r {
                    Ok(v) => r2 == Ok::<int, MParseErr>(v as int),
                    Err(e) => r2 == Err::<int, MParseErr>(e@),
                }
            }),
    {
        let mut num: isize = 0;
        let mut any = false;
        loop
            invariant
                chars.wf(),
                chars.text == old(chars).text,
                old(chars).pos <= chars.pos,
                num >= 0,
                int_scan(chars.text@, chars.pos as int, num as int, any) == int_scan(
                    old(chars).text@,
                    old(chars).pos as int,
                    0,
                    false,
                ),
            ensures
                chars.wf(),
                chars.text == old(chars).text,
                old(chars).pos <= chars.pos,
                num >= 0,
                int_scan(chars.text@, chars.pos as int, num as int, any) == int_scan(
                    old(chars).text@,
                    old(chars).pos as int,
                    0,
                    false,
                ),
                !(chars.pos < chars.text@.len() && digit_char(
                    chars.text@[chars.pos as int],
                )),
            decreases chars.text@.len() - chars.pos,
        {
            match self.peek_char(chars) {
                Some(c) => {
                    if '0' <= c && c <= '9' {
                        let d = ((c as u32) - 48) as isize;
                        num = match num.checked_mul(10) {
                            Some(m) => match m.checked_add(d) {
                                Some(t) => t,
                                None => {
                                    return Err(ParseError::InvalidInteger);
                                },
                            },
                            None => {
                                return Err(ParseError::InvalidInteger);
                            },
                        };
                        any = true;
                        chars.pos = chars.pos + 1;
                    } else {
                        break;
                    }
                },
                None => {
                    break;
                },
            }
        }
        if !any {
            return Err(ParseError::InvalidInteger);
        }
        Ok(num)
    }

    /// Parse a quoted string literal with backslash escapes.
    fn parse_string_literal(&self, chars: &mut Cursor) -> (r: Result<Expression, ParseError>)
        requires
            old(chars).wf(),
        ensures
            final(chars).wf(),
            final(chars).text == old(chars).text,
            old(chars).pos <= final(chars).pos,
            ({
                let (r2, p2) = string_literal_s(old(chars).text@, old(chars).pos as int);
                &&& final(chars).pos as int == p2
                &&& pres_model(r) == r2
            }),
    {
        let quote = match self.peek_char(chars) {
            Some(q) => q,
            None => {
                return Err(ParseError::UnterminatedString);
            },
        };
        chars.pos = chars.pos + 1;
        let mut value = String::new();
        loop
            invariant
                chars.wf(),
                chars.text == old(chars).text,
                old(chars).pos < chars.pos,
                quote == chars.text@[old(chars).pos as int],
                strlit_scan(chars.text@, chars.pos as int, quote, value@) == strlit_scan(
                    old(chars).text@,
                    old(chars).pos + 1,
                    quote,
                    Seq::empty(),
                ),
            decreases chars.text@.len() - chars.pos,
        {
            let c = match self.peek_char(chars) {
                Some(c) => c,
                None => {
                    return Err(ParseError::UnterminatedString);
                },
            };
            chars.pos = chars.pos + 1;
            if c == quote {
                return Ok(Expression::Literal(Value::Str(value)));
            }
            if c == '\\' {
                let e = match self.peek_char(chars) {
                    Some(e) => e,
                    None => {
                        return Err(ParseError::UnterminatedEscape);
                    },
                };
                chars.pos = chars.pos + 1;
                if e == 'n' {
                    push_char(&mut value, '\n');
                } else if e == 't' {
                    push_char(&mut value, '\t');
                } else if e == 'r' {
                    push_char(&mut value, '\r');
                } else {
                    push_char(&mut value, e);
                }
            } else {
                push_char(&mut value, c);
            }
        }
    }

    /// Parse a numeric literal: a digit run with an optional fraction.
    fn parse_number_literal(&self, chars: &mut Cursor) -> (r: Result<Expression, ParseError>)
        requires
            old(chars).wf(),
        ensures
            final(chars).wf(),
            final(chars).text == old(chars).text,
            old(chars).pos <= final(chars).pos,
            ({
                let (r2, p2) = number_literal_s(old(chars).text@, old(chars).pos as int);
                &&& final(chars).pos as int == p2
                &&& pres_model(r) == r2
            }),
    {
        let ghost p0: int = if at_s(old(chars).text@, old(chars).pos as int, '-') {
            old(chars).pos + 1
        } else {
            old(chars).pos as int
        };
        let negative = if self.at(chars, '-') {
            chars.pos = chars.pos + 1;
            true
        } else {
            false
        };
        let mut mant: i64 = 0;
        let mut frac_digits: u32 = 0;
        let mut in_frac = false;
        let mut any = false;
        loop
            invariant
                chars.wf(),
                chars.text == old(chars).text,
                old(chars).pos <= chars.pos,
                mant >= 0,
                frac_digits <= crate::num::MAX_SCALE,
                negative == at_s(old(chars).text@, old(chars).pos as int, '-'),
                p0 == if at_s(old(chars).text@, old(chars).pos as int, '-') {
                    old(chars).pos + 1
                } else {
                    old(chars).pos as int
                },
                numlit_scan(
                    chars.text@,
                    chars.pos as int,
                    mant as int,
                    frac_digits as nat,
                    in_frac,
                    any,
                ) == numlit_scan(old(chars).text@, p0, 0, 0, false, false),
            ensures
                chars.wf(),
                chars.text == old(chars).text,
                old(chars).pos <= chars.pos,
                mant >= 0,
                frac_digits <= crate::num::MAX_SCALE,
                numlit_scan(old(chars).text@, p0, 0, 0, false, false) == (
                    Ok::<(int, nat, bool, bool), MParseErr>(
                        (mant as int, frac_digits as nat, in_frac, any),
                    ),
                    chars.pos as int,
                ),
            decreases chars.text@.len() - chars.pos,
        {
            match self.peek_char(chars) {
                Some(c) => {
                    if '0' <= c && c <= '9' {
                        let d = ((c as u32) - 48) as i64;
                        mant = match mant.checked_mul(10) {
                            Some(m) => match m.checked_add(d) {
                                Some(t) => t,
                                None => {
                                    return Err(
                                        if in_frac {
                                            ParseError::InvalidFloatLiteral
                                        } else {
                                            ParseError::InvalidIntegerLiteral
                                        },
                                    );
                                },
                            },
                            None => {
                                return Err(
                                    if in_frac {
                                        ParseError::InvalidFloatLiteral
                                    } else {
                                        ParseError::InvalidIntegerLiteral
                                    },
                                );
                            },
                        };
                        if in_frac {
                            if frac_digits == crate::num::MAX_SCALE {
                                return Err(ParseError::InvalidFloatLiteral);
                            }
                            frac_digits = frac_digits + 1;
                        }
                        any = true;
                        chars.pos = chars.pos + 1;
                    } else if c == '.' && !in_frac {
                        in_frac = true;
                        chars.pos = chars.pos + 1;
                    } else {
                        break;
                    }
                },
                None => {
                    break;
                },
            }
        }
        if !any {
            return Err(
                if in_frac {
                    ParseError::InvalidFloatLiteral
                } else {
                    ParseError::InvalidIntegerLiteral
                },
            );
        }
        let signed: i64 = if negative {
            // the magnitude is nonnegative and fits, so negation fits
            0i64 - mant
        } else {
            mant
        };
        if in_frac {
            match dec_from_parts(signed, frac_digits) {
                Some(n) => Ok(Expression::Literal(Value::Num(n))),
                None => Err(ParseError::InvalidFloatLiteral),
            }
        } else {
            Ok(Expression::Literal(Value::Num(Number::Int(signed))))
        }
    }

    /// Parse an array constructor.
    #[verifier::rlimit(100)]
    #[verifier::spinoff_prover]
    fn parse_array_constructor(&self, chars: &mut Cursor, fuel: u64) -> (r: Result<
        Expression,
        ParseError,
    >)
        requires
            old(chars).wf(),
        ensures
            final(chars).wf(),
            final(chars).text == old(chars).text,
            old(chars).pos <= final(chars).pos,
            ({
                let (r2, p2) = array_ctor_s(old(chars).text@, old(chars).pos as int, fuel as nat);
                &&& final(chars).pos as int == p2
                &&& pres_model(r) == r2
            }),
        decreases fuel,
    {
        reveal(crate::grammar::array_ctor_s);
        reveal(crate::grammar::array_items);
        reveal(crate::grammar::unary_s);
        if fuel == 0 {
            return Err(ParseError::TooDeep);
        }
        if self.at(chars, '[') {
            chars.pos = chars.pos + 1;
        }
        self.skip_whitespace(chars);
        if self.at(chars, ']') {
            chars.pos = chars.pos + 1;
            proof {
                assert(exprs_model(Seq::<Expression>::empty()) =~= Seq::<MExpr>::empty());
            }
            return Ok(Expression::Array { elements: Vec::new() });
        }
        let mut elements: Vec<Expression> = Vec::new();
        proof {
            assert(exprs_model(elements@) =~= Seq::<MExpr>::empty());
        }
        loop
            invariant_except_break
                array_ctor_s(old(chars).text@, old(chars).pos as int, fuel as nat)
                    == array_finish(
                    chars.text@,
                    array_items(
                        chars.text@,
                        chars.pos as int,
                        exprs_model(elements@),
                        fuel as nat,
                    ),
                ),
            invariant
                fuel >= 1,
                chars.wf(),
                chars.text == old(chars).text,
                old(chars).pos <= chars.pos,
            ensures
                chars.wf(),
                chars.text == old(chars).text,
                old(chars).pos <= chars.pos,
                array_ctor_s(old(chars).text@, old(chars).pos as int, fuel as nat)
                    == array_finish(
                    chars.text@,
                    (Ok::<Seq<MExpr>, MParseErr>(exprs_model(elements@)), chars.pos as int),
                ),
            decreases chars.text@.len() - chars.pos,
        {
            reveal(crate::grammar::array_items);
            reveal(crate::grammar::unary_s);
            let element = match self.parse_unary(chars, fuel - 1) {
                Ok(e) => e,
                Err(e) => {
                    return Err(e);
                },
            };
            proof {
                lemma_exprs_model_push(elements@, element);
            }
            elements.push(element);
            self.skip_whitespace(chars);
            match self.peek_char(chars) {
                Some(',') => {
                    chars.pos = chars.pos + 1;
                    self.skip_whitespace(chars);
                    if self.at(chars, ']') {
                        break;
                    }
                },
                Some(']') => {
                    break;
                },
                _ => {
                    return Err(ParseError::ArrayComma);
                },
            }
        }
        if !self.at(chars, ']') {
            return Err(ParseError::ArrayClose);
        }
        chars.pos = chars.pos + 1;
        Ok(Expression::Array { elements })
    }

    /// Parse an object constructor.
    #[verifier::rlimit(100)]
    #[verifier::spinoff_prover]
    fn parse_object_constructor(&self, chars: &mut Cursor, fuel: u64) -> (r: Result<
        Expression,
        ParseError,
    >)
        requires
            old(chars).wf(),
        ensures
            final(chars).wf(),
            final(chars).text == old(chars).text,
            old(chars).pos <= final(chars).pos,
            ({
                let (r2, p2) = object_ctor_s(old(chars).text@, old(chars).pos as int, fuel as nat);
                &&& final(chars).pos as int == p2
                &&& pres_model(r) == r2
            }),
        decreases fuel,
    {
        reveal(crate::grammar::object_ctor_s);
        reveal(crate::grammar::object_items);
        reveal(crate::grammar::unary_s);
        if fuel == 0 {
            return Err(ParseError::TooDeep);
        }
        if self.at(chars, '{') {
            chars.pos = chars.pos + 1;
        }
        self.skip_whitespace(chars);
        if self.at(chars, '}') {
            chars.pos = chars.pos + 1;
            proof {
                assert(expr_pairs_model(Seq::<(Expression, Expression)>::empty())
                    =~= Seq::<(MExpr, MExpr)>::empty());
            }
            return Ok(Expression::Object { fields: Vec::new() });
        }
        let mut fields: Vec<(Expression, Expression)> = Vec::new();
        proof {
            assert(expr_pairs_model(fields@) =~= Seq::<(MExpr, MExpr)>::empty());
        }
        loop
            invariant_except_break
                object_ctor_s(old(chars).text@, old(chars).pos as int, fuel as nat)
                    == object_finish(
                    chars.text@,
                    object_items(
                        chars.text@,
                        chars.pos as int,
                        expr_pairs_model(fields@),
                        fuel as nat,
                    ),
                ),
            invariant
                fuel >= 1,
                chars.wf(),
                chars.text == old(chars).text,
                old(chars).pos <= chars.pos,
            ensures
                chars.wf(),
                chars.text == old(chars).text,
                old(chars).pos <= chars.pos,
                object_ctor_s(old(chars).text@, old(chars).pos as int, fuel as nat)
                    == object_finish(
                    chars.text@,
                    (
                        Ok::<Seq<(MExpr, MExpr)>, MParseErr>(expr_pairs_model(fields@)),
                        chars.pos as int,
                    ),
                ),
            decreases chars.text@.len() - chars.pos,
        {
            reveal(crate::grammar::object_items);
            reveal(crate::grammar::unary_s);
            let key = match self.parse_unary(chars, fuel - 1) {
                Ok(e) => e,
                Err(e) => {
                    return Err(e);
                },
            };
            self.skip_whitespace(chars);
            if !self.at(chars, ':') {
                return Err(ParseError::ObjectColon);
            }
            chars.pos = chars.pos + 1;
            let value = match self.parse_unary(chars, fuel - 1) {
                Ok(e) => e,
                Err(e) => {
                    return Err(e);
                },
            };
            proof {
                lemma_expr_pairs_model_push(fields@, (key, value));
            }
            fields.push((key, value));
            self.skip_whitespace(chars);
            match self.peek_char(chars) {
                Some(',') => {
                    chars.pos = chars.pos + 1;
                    self.skip_whitespace(chars);
                    if self.at(chars, '}') {
                        break;
                    }
                },
                Some('}') => {
                    break;
                },
                _ => {
                    return Err(ParseError::ObjectComma);
                },
            }
        }
        if !self.at(chars, '}') {
            return Err(ParseError::ObjectClose);
        }
        chars.pos = chars.pos + 1;
        Ok(Expression::Object { fields })
    }

    /// Parse a parenthesized group and any chained access after it.
    #[verifier::rlimit(100)]
    #[verifier::spinoff_prover]
    fn parse_group(&self, chars: &mut Cursor, fuel: u64) -> (r: Result<Expression, ParseError>)
        requires
            old(chars).wf(),
        ensures
            final(chars).wf(),
            final(chars).text == old(chars).text,
            old(chars).pos <= final(chars).pos,
            ({
                let (r2, p2) = group_s(old(chars).text@, old(chars).pos as int, fuel as nat);
                &&& final(chars).pos as int == p2
                &&& pres_model(r) == r2
            }),
        decreases fuel,
    {
        reveal(crate::grammar::group_s);
        reveal(crate::grammar::group_chain);
        reveal(crate::grammar::expression_s);
        if fuel == 0 {
            return Err(ParseError::TooDeep);
        }
        if self.at(chars, '(') {
            chars.pos = chars.pos + 1;
        }
        let inner = match self.parse_expression(chars, fuel - 1) {
            Ok(e) => e,
            Err(e) => {
                return Err(e);
            },
        };
        self.skip_whitespace(chars);
        if !self.at(chars, ')') {
            return Err(ParseError::GroupClose);
        }
        chars.pos = chars.pos + 1;
        let mut result = inner;
        loop
            invariant
                fuel >= 1,
                chars.wf(),
                chars.text == old(chars).text,
                old(chars).pos <= chars.pos,
                group_s(old(chars).text@, old(chars).pos as int, fuel as nat) == group_finish(
                    group_chain(chars.text@, chars.pos as int, expr_model(result), fuel as nat),
                ),
            ensures
                chars.wf(),
                chars.text == old(chars).text,
                old(chars).pos <= chars.pos,
                group_s(old(chars).text@, old(chars).pos as int, fuel as nat) == group_finish(
                    (Ok::<MExpr, MParseErr>(expr_model(result)), chars.pos as int),
                ),
            decreases chars.text@.len() - chars.pos,
        {
            let ghost pre = chars.pos as int;
            reveal(crate::grammar::group_chain);
            reveal(crate::grammar::bracket_s);
            self.skip_whitespace(chars);
            if self.at(chars, '.') {
                chars.pos = chars.pos + 1;
                let field = match self.parse_field_name(chars) {
                    Ok(f) => f,
                    Err(e) => {
                        return Err(e);
                    },
                };
                result = Expression::FieldAccess { target: Box::new(result), field };
            } else if self.at(chars, '[') {
                result = match self.parse_bracket_access(result, chars, fuel - 1) {
                    Ok(e) => e,
                    Err(e) => {
                        return Err(e);
                    },
                };
            } else {
                proof {
                    lemma_skip_ws_idem(chars.text@, pre);
                }
                break;
            }
        }
        Ok(Expression::Group { expr: Box::new(result) })
    }

    /// Parse a variable reference after `$`.
    fn parse_variable(&self, chars: &mut Cursor) -> (r: Result<Expression, ParseError>)
        requires
            old(chars).wf(),
        ensures
            final(chars).wf(),
            final(chars).text == old(chars).text,
            old(chars).pos <= final(chars).pos,
            ({
                let (r2, p2) = variable_s(old(chars).text@, old(chars).pos as int);
                &&& final(chars).pos as int == p2
                &&& pres_model(r) == r2
            }),
    {
        let ghost p0: int = if at_s(old(chars).text@, old(chars).pos as int, '$') {
            old(chars).pos + 1
        } else {
            old(chars).pos as int
        };
        if self.at(chars, '$') {
            chars.pos = chars.pos + 1;
        }
        let mut name = String::new();
        loop
            invariant
                chars.wf(),
                chars.text == old(chars).text,
                old(chars).pos <= chars.pos,
                name_scan(chars.text@, chars.pos as int, name@) == name_scan(
                    old(chars).text@,
                    p0,
                    Seq::empty(),
                ),
            ensures
                chars.wf(),
                chars.text == old(chars).text,
                old(chars).pos <= chars.pos,
                (name@, chars.pos as int) == name_scan(old(chars).text@, p0, Seq::empty()),
            decreases chars.text@.len() - chars.pos,
        {
            match self.peek_char(chars) {
                Some(c) => {
                    if is_alphanumeric(c) || c == '_' {
                        push_char(&mut name, c);
                        chars.pos = chars.pos + 1;
                    } else {
                        break;
                    }
                },
                None => {
                    break;
                },
            }
        }
        if name.as_str().is_empty() {
            return Err(ParseError::ExpectedVariableName);
        }
        Ok(Expression::Variable { name })
    }

    /// Parse an identifier, then decide: a literal keyword, a function
    /// call, a bare built-in, or a field access on identity.
    #[verifier::rlimit(100)]
    #[verifier::spinoff_prover]
    fn parse_identifier_or_function(&self, chars: &mut Cursor, fuel: u64) -> (r: Result<
        Expression,
        ParseError,
    >)
        requires
            old(chars).wf(),
        ensures
            final(chars).wf(),
            final(chars).text == old(chars).text,
            old(chars).pos <= final(chars).pos,
            ({
                let (r2, p2) = identfn_s(old(chars).text@, old(chars).pos as int, fuel as nat);
                &&& final(chars).pos as int == p2
                &&& pres_model(r) == r2
            }),
        decreases fuel,
    {
        reveal(crate::grammar::identfn_s);
        reveal(crate::grammar::call_s);
        proof {
            assert(expr_model(Expression::Identity) == MExpr::Identity);
            assert(expr_model(Expression::Literal(Value::Bool(true))) == MExpr::Literal(
                MVal::Bool(true),
            ));
            assert(expr_model(Expression::Literal(Value::Bool(false))) == MExpr::Literal(
                MVal::Bool(false),
            ));
            assert(expr_model(Expression::Literal(Value::Null)) == MExpr::Literal(MVal::Null));
        }
        if fuel == 0 {
            return Err(ParseError::TooDeep);
        }
        let name = match self.parse_identifier(chars) {
            Ok(n) => n,
            Err(e) => {
                return Err(e);
            },
        };
        if str_is(&name, "true") {
            return Ok(Expression::Literal(Value::Bool(true)));
        }
        if str_is(&name, "false") {
            return Ok(Expression::Literal(Value::Bool(false)));
        }
        if str_is(&name, "null") {
            return Ok(Expression::Literal(Value::Null));
        }
        self.skip_whitespace(chars);
        if self.at(chars, '(') {
            return self.parse_function_call(name, chars, fuel - 1);
        }
        match self.parse_bare_function(&name) {
            Some(e) => Ok(e),
            None => Ok(
                Expression::FieldAccess { target: Box::new(Expression::Identity), field: name },
            ),
        }
    }

    /// Resolve a bare built-in name to its identity-target form.
    pub fn parse_bare_function(&self, name: &String) -> (r: Option<Expression>)
        ensures
            match r {
                Some(e) => bare_builtin_s(name@) == Some(expr_model(e)),
                None => bare_builtin_s(name@) is None,
            },
    {
        proof {
            assert(expr_model(Expression::Identity) == MExpr::Identity);
        }
        if str_is(name, "keys") {
            Some(Expression::Keys { target: Box::new(Expression::Identity) })
        } else if str_is(name, "length") {
            Some(Expression::Length { target: Box::new(Expression::Identity) })
        } else if str_is(name, "type") {
            Some(Expression::Type { target: Box::new(Expression::Identity) })
        } else if str_is(name, "sort") {
            Some(Expression::Sort { target: Box::new(Expression::Identity) })
        } else if str_is(name, "reverse") {
            Some(Expression::Reverse { target: Box::new(Expression::Identity) })
        } else if str_is(name, "unique") {
            Some(Expression::Unique { target: Box::new(Expression::Identity) })
        } else if str_is(name, "flatten") {
            Some(Expression::Flatten { target: Box::new(Expression::Identity) })
        } else if str_is(name, "add") {
            Some(Expression::AddOp)
        } else if str_is(name, "recurse") {
            Some(Expression::Recurse)
        } else {
            None
        }
    }

    /// Parse an identifier: letters, digits and underscores.
    pub fn parse_identifier(&self, chars: &mut Cursor) -> (r: Result<String, ParseError>)
        requires
            old(chars).wf(),
        ensures
            final(chars).wf(),
            final(chars).text == old(chars).text,
            old(chars).pos <= final(chars).pos,
            ({
                let (nm, p2) = name_scan(old(chars).text@, old(chars).pos as int, Seq::empty());
                &&& final(chars).pos as int == p2
                &&& match r {
                    Ok(s) => nm.len() > 0 && s@ == nm,
                    Err(e) => nm.len() == 0 && e@ == MParseErr::ExpectedIdentifier,
                }
            }),
    {
        let mut name = String::new();
        loop
            invariant
                chars.wf(),
                chars.text == old(chars).text,
                old(chars).pos <= chars.pos,
                name_scan(chars.text@, chars.pos as int, name@) == name_scan(
                    old(chars).text@,
                    old(chars).pos as int,
                    Seq::empty(),
                ),
            ensures
                chars.wf(),
                chars.text == old(chars).text,
                old(chars).pos <= chars.pos,
                (name@, chars.pos as int) == name_scan(
                    old(chars).text@,
                    old(chars).pos as int,
                    Seq::empty(),
                ),
            decreases chars.text@.len() - chars.pos,
        {
            match self.peek_char(chars) {
                Some(c) => {
                    if is_alphanumeric(c) || c == '_' {
                        push_char(&mut name, c);
                        chars.pos = chars.pos + 1;
                    } else {
                        break;
                    }
                },
                None => {
                    break;
                },
            }
        }
        if name.as_str().is_empty() {
            return Err(ParseError::ExpectedIdentifier);
        }
        Ok(name)
    }

    /// Parse a parenthesized call of a named built-in, checking arity.
    #[verifier::rlimit(100)]
    #[verifier::spinoff_prover]
    fn parse_function_call(&self, name: String, chars: &mut Cursor, fuel: u64) -> (r: Result<
        Expression,
        ParseError,
    >)
        requires
            old(chars).wf(),
        ensures
            final(chars).wf(),
            final(chars).text == old(chars).text,
            old(chars).pos <= final(chars).pos,
            ({
                let (r2, p2) = call_s(
                    name@,
                    old(chars).text@,
                    old(chars).pos as int,
                    fuel as nat,
                );
                &&& final(chars).pos as int == p2
                &&& pres_model(r) == r2
            }),
        decreases fuel,
    {
        reveal(crate::grammar::call_s);
        reveal(crate::grammar::call_args);
        reveal(crate::grammar::expression_s);
        if fuel == 0 {
            return Err(ParseError::TooDeep);
        }
        if self.at(chars, '(') {
            chars.pos = chars.pos + 1;
        }
        self.skip_whitespace(chars);
        let mut args: Vec<Expression> = Vec::new();
        proof {
            assert(exprs_model(args@) =~= Seq::<MExpr>::empty());
        }
        if !self.at(chars, ')') {
            loop
                invariant_except_break
                    call_s(name@, old(chars).text@, old(chars).pos as int, fuel as nat)
                        == call_finish(
                        name@,
                        chars.text@,
                        call_args(
                            chars.text@,
                            chars.pos as int,
                            exprs_model(args@),
                            fuel as nat,
                        ),
                    ),
                invariant
                    fuel >= 1,
                    chars.wf(),
                    chars.text == old(chars).text,
                    old(chars).pos <= chars.pos,
                ensures
                    chars.wf(),
                    chars.text == old(chars).text,
                    old(chars).pos <= chars.pos,
                    call_s(name@, old(chars).text@, old(chars).pos as int, fuel as nat)
                        == call_finish(
                        name@,
                        chars.text@,
                        (Ok::<Seq<MExpr>, MParseErr>(exprs_model(args@)), chars.pos as int),
                    ),
                decreases chars.text@.len() - chars.pos,
            {
                reveal(crate::grammar::call_args);
                reveal(crate::grammar::expression_s);
                let arg = match self.parse_expression(chars, fuel - 1) {
                    Ok(e) => e,
                    Err(e) => {
                        return Err(e);
                    },
                };
                proof {
                    lemma_exprs_model_push(args@, arg);
                }
                args.push(arg);
                self.skip_whitespace(chars);
                match self.peek_char(chars) {
                    Some(',') => {
                        chars.pos = chars.pos + 1;
                        self.skip_whitespace(chars);
                    },
                    Some(')') => {
                        break;
                    },
                    _ => {
                        return Err(ParseError::CallComma);
                    },
                }
            }
        }
        if !self.at(chars, ')') {
            return Err(ParseError::CallClose);
        }
        chars.pos = chars.pos + 1;
        build_call(name, args)
    }

    /// Skip blank characters between tokens.
    pub fn skip_whitespace(&self, chars: &mut Cursor)
        requires
            old(chars).wf(),
        ensures
            final(chars).wf(),
            final(chars).text == old(chars).text,
            old(chars).pos <= final(chars).pos,
            final(chars).pos as int == skip_ws_s(old(chars).text@, old(chars).pos as int),
    {
        loop
            invariant
                chars.wf(),
                chars.text == old(chars).text,
                old(chars).pos <= chars.pos,
                skip_ws_s(chars.text@, chars.pos as int) == skip_ws_s(
                    old(chars).text@,
                    old(chars).pos as int,
                ),
            ensures
                chars.wf(),
                chars.text == old(chars).text,
                old(chars).pos <= chars.pos,
                chars.pos as int == skip_ws_s(old(chars).text@, old(chars).pos as int),
            decreases chars.text@.len() - chars.pos,
        {
            match self.peek_char(chars) {
                Some(c) => {
                    if is_space(c) {
                        chars.pos = chars.pos + 1;
                    } else {
                        break;
                    }
                },
                None => {
                    break;
                },
            }
        }
    }

    /// Peek at the next character without consuming it.
    pub fn peek_char(&self, chars: &Cursor) -> (r: Option<char>)
        requires
            chars.wf(),
        ensures
            chars.pos < chars.text@.len() ==> r == Some(chars.text@[chars.pos as int]),
            chars.pos >= chars.text@.len() ==> r is None,
            chars.text@.len() <= usize::MAX,
    {
        if chars.pos < chars.text.len() {
            Some(chars.text[chars.pos])
        } else {
            None
        }
    }

    /// Peek at the character a fixed distance ahead.
    pub fn peek_char_at(&self, chars: &Cursor, ahead: usize) -> (r: Option<char>)
        requires
            chars.wf(),
        ensures
            chars.pos + ahead < chars.text@.len() ==> r == Some(
                chars.text@[chars.pos + ahead],
            ),
            chars.pos + ahead >= chars.text@.len() ==> r is None,
    {
        if chars.text.len() - chars.pos > ahead {
            Some(chars.text[chars.pos + ahead])
        } else {
            None
        }
    }

    /// Whether the next character is exactly `c`.
    pub fn at(&self, chars: &Cursor, c: char) -> (r: bool)
        requires
            chars.wf(),
        ensures
            r == (chars.pos < chars.text@.len() && chars.text@[chars.pos as int] == c),
            chars.text@.len() <= usize::MAX,
    {
        if chars.pos < chars.text.len() {
            chars.text[chars.pos] == c
        } else {
            false
        }
    }

    /// Whether the character after the next one is exactly `c`.
    pub fn at1(&self, chars: &Cursor, c: char) -> (r: bool)
        requires
            chars.wf(),
        ensures
            r == (chars.pos + 1 < chars.text@.len() && chars.text@[chars.pos + 1] == c),
            chars.text@.len() <= usize::MAX,
    {
        if chars.text.len() - chars.pos > 1 {
            chars.text[chars.pos + 1] == c
        } else {
            false
        }
    }

    /// Check whether the next characters spell a keyword; a prefix
    /// match, as the grammar uses it.
    pub fn peek_keyword(&self, chars: &Cursor, keyword: &str) -> (r: bool)
        requires
            chars.wf(),
        ensures
            r == (chars.pos + keyword@.len() <= chars.text@.len() && chars.text@.subrange(
                chars.pos as int,
                chars.pos + keyword@.len(),
            ) == keyword@),
    {
        let n = keyword.unicode_len();
        let mut i: usize = 0;
        loop
            invariant
                i <= n,
                n == keyword@.len(),
                chars.wf(),
                chars.pos + i <= chars.text@.len(),
                forall|t: int| 0 <= t < i ==> chars.text@[chars.pos + t] == keyword@[t],
            decreases n - i,
        {
            if i == n {
                proof {
                    assert(chars.text@.subrange(chars.pos as int, chars.pos + keyword@.len())
                        =~= keyword@);
                }
                return true;
            }
            if chars.text.len() - chars.pos <= i {
                proof {
                    if chars.pos + keyword@.len() <= chars.text@.len() {
                        assert(false);
                    }
                }
                return false;
            }
            let c = chars.text[chars.pos + i];
            if c != keyword.get_char(i) {
                proof {
                    if chars.pos + keyword@.len() <= chars.text@.len() && chars.text@.subrange(
                        chars.pos as int,
                        chars.pos + keyword@.len(),
                    ) == keyword@ {
                        assert(chars.text@.subrange(
                            chars.pos as int,
                            chars.pos + keyword@.len(),
                        )[i as int] == keyword@[i as int]);
                    }
                }
                return false;
            }
            i = i + 1;
        }
    }

    /// Consume a keyword, character by character.
    pub fn consume_keyword(&self, chars: &mut Cursor, keyword: &str) -> (r: Result<
        (),
        ParseError,
    >)
        requires
            old(chars).wf(),
        ensures
            final(chars).wf(),
            final(chars).text == old(chars).text,
            old(chars).pos <= final(chars).pos,
            r is Ok ==> final(chars).pos == old(chars).pos + keyword@.len(),
            (old(chars).pos + keyword@.len() <= old(chars).text@.len() && old(
                chars,
            ).text@.subrange(old(chars).pos as int, old(chars).pos + keyword@.len())
                == keyword@) ==> r is Ok,
    {
        let n = keyword.unicode_len();
        let mut i: usize = 0;
        loop
            invariant
                i <= n,
                n == keyword@.len(),
                chars.wf(),
                chars.text == old(chars).text,
                chars.pos == old(chars).pos + i,
            ensures
                chars.wf(),
                chars.text == old(chars).text,
                old(chars).pos <= chars.pos,
                i == n,
                chars.pos == old(chars).pos + i,
            decreases n - i,
        {
            if i == n {
                break;
            }
            if chars.pos >= chars.text.len() {
                return Err(ParseError::ExpectedKeyword { word: keyword.to_owned() });
            }
            let c = chars.text[chars.pos];
            if c != keyword.get_char(i) {
                return Err(ParseError::ExpectedKeyword { word: keyword.to_owned() });
            }
            chars.pos = chars.pos + 1;
            i = i + 1;
        }
        Ok(())
    }
}

impl Default for ExpressionParser {
    fn default() -> ExpressionParser {
        ExpressionParser::new()
    }
}

/// Whether a string equals a literal.
fn str_is(s: &String, lit: &str) -> (r: bool)
    ensures
        r == (s@ == lit@),
{
    let other = lit.to_owned();
    s.eq(&other)
}

/// Turn a recognized built-in call into its node, checking the number
/// of arguments.
fn build_call(name: String, args: Vec<Expression>) -> (r: Result<Expression, ParseError>)
    ensures
        pres_model(r) == build_call_s(name@, exprs_model(args@)),
{
    proof {
        lemma_exprs_model(args@);
    }
    let ghost am = exprs_model(args@);
    let mut args = args;
    if str_is(&name, "select") {
        if args.len() != 1 {
            return Err(
                ParseError::BadArity {
                    message: String::from_str("select requires exactly 1 argument"),
                },
            );
        }
        let a = match args.pop() {
            Some(a) => a,
            None => {
                return Err(ParseError::UnexpectedCharacter);
            },
        };
        return Ok(Expression::Select { condition: Box::new(a) });
    }
    if str_is(&name, "keys") {
        return one_or_identity(args, 0, String::from_str("keys takes 0 or 1 arguments"));
    }
    if str_is(&name, "length") {
        return one_or_identity(args, 1, String::from_str("length takes 0 or 1 arguments"));
    }
    if str_is(&name, "type") {
        return one_or_identity(args, 2, String::from_str("type takes 0 or 1 arguments"));
    }
    if str_is(&name, "sort") {
        return one_or_identity(args, 3, String::from_str("sort takes 0 or 1 arguments"));
    }
    if str_is(&name, "reverse") {
        return one_or_identity(args, 4, String::from_str("reverse takes 0 or 1 arguments"));
    }
    if str_is(&name, "unique") {
        return one_or_identity(args, 5, String::from_str("unique takes 0 or 1 arguments"));
    }
    if str_is(&name, "flatten") {
        return one_or_identity(args, 6, String::from_str("flatten takes 0 or 1 arguments"));
    }
    if str_is(&name, "first") {
        return one_or_identity(args, 7, String::from_str("first takes 0 or 1 arguments"));
    }
    if str_is(&name, "last") {
        return one_or_identity(args, 8, String::from_str("last takes 0 or 1 arguments"));
    }
    if str_is(&name, "has") {
        if args.len() != 2 {
            return Err(
                ParseError::BadArity {
                    message: String::from_str("has requires exactly 2 arguments"),
                },
            );
        }
        let key = match args.pop() {
            Some(a) => a,
            None => {
                return Err(ParseError::UnexpectedCharacter);
            },
        };
        let target = match args.pop() {
            Some(a) => a,
            None => {
                return Err(ParseError::UnexpectedCharacter);
            },
        };
        return Ok(Expression::Has { target: Box::new(target), key: Box::new(key) });
    }
    if str_is(&name, "group_by") {
        if args.len() != 2 {
            return Err(
                ParseError::BadArity {
                    message: String::from_str("group_by requires exactly 2 arguments"),
                },
            );
        }
        let key_expr = match args.pop() {
            Some(a) => a,
            None => {
                return Err(ParseError::UnexpectedCharacter);
            },
        };
        let target = match args.pop() {
            Some(a) => a,
            None => {
                return Err(ParseError::UnexpectedCharacter);
            },
        };
        return Ok(
            Expression::GroupBy { target: Box::new(target), key_expr: Box::new(key_expr) },
        );
    }
    if str_is(&name, "map") {
        if args.len() != 2 {
            return Err(
                ParseError::BadArity {
                    message: String::from_str("map requires exactly 2 arguments"),
                },
            );
        }
        let body = match args.pop() {
            Some(a) => a,
            None => {
                return Err(ParseError::UnexpectedCharacter);
            },
        };
        let target = match args.pop() {
            Some(a) => a,
            None => {
                return Err(ParseError::UnexpectedCharacter);
            },
        };
        return Ok(Expression::MapOp { target: Box::new(target), expr: Box::new(body) });
    }
    if str_is(&name, "filter") {
        if args.len() != 2 {
            return Err(
                ParseError::BadArity {
                    message: String::from_str("filter requires exactly 2 arguments"),
                },
            );
        }
        let body = match args.pop() {
            Some(a) => a,
            None => {
                return Err(ParseError::UnexpectedCharacter);
            },
        };
        let target = match args.pop() {
            Some(a) => a,
            None => {
                return Err(ParseError::UnexpectedCharacter);
            },
        };
        return Ok(Expression::Filter { target: Box::new(target), expr: Box::new(body) });
    }
    if str_is(&name, "add") {
        if args.len() != 0 {
            return Err(
                ParseError::BadArity { message: String::from_str("add takes no arguments") },
            );
        }
        return Ok(Expression::AddOp);
    }
    if str_is(&name, "env") {
        if args.len() != 1 {
            return Err(
                ParseError::BadArity {
                    message: String::from_str("env requires exactly 1 argument"),
                },
            );
        }
        let a = match args.pop() {
            Some(a) => a,
            None => {
                return Err(ParseError::UnexpectedCharacter);
            },
        };
        return Ok(Expression::Env { name: Box::new(a) });
    }
    Err(ParseError::UnknownFunction { name })
}

/// Build the zero-or-one-argument form of a built-in: no argument means
/// the identity target.
fn one_or_identity(args: Vec<Expression>, which: u8, msg: String) -> (r: Result<
    Expression,
    ParseError,
>)
    ensures
        pres_model(r) == one_or_identity_s(exprs_model(args@), which, msg@),
{
    proof {
        lemma_exprs_model(args@);
    }
    let ghost am = exprs_model(args@);
    let mut args = args;
    if args.len() > 1 {
        return Err(ParseError::BadArity { message: msg });
    }
    let ghost n0 = args@.len();
    let target = if args.len() == 1 {
        match args.pop() {
            Some(a) => a,
            None => {
                proof {
                    assert(false);
                }
                return Err(ParseError::UnexpectedCharacter);
            },
        }
    } else {
        Expression::Identity
    };
    proof {
        if n0 == 1 {
            assert(expr_model(target) == am[0]);
        } else {
            assert(expr_model(target) == MExpr::Identity);
        }
    }
    let b = Box::new(target);
    if which == 0 {
        Ok(Expression::Keys { target: b })
    } else if which == 1 {
        Ok(Expression::Length { target: b })
    } else if which == 2 {
        Ok(Expression::Type { target: b })
    } else if which == 3 {
        Ok(Expression::Sort { target: b })
    } else if which == 4 {
        Ok(Expression::Reverse { target: b })
    } else if which == 5 {
        Ok(Expression::Unique { target: b })
    } else if which == 6 {
        Ok(Expression::Flatten { target: b })
    } else if which == 7 {
        Ok(Expression::First { expr: b })
    } else {
        Ok(Expression::Last { expr: b })
    }
}

} // verus!
