//! Numbers of the query language: exact integers and decimal fractions.
//!
//! A `Number` is either an `Int` (a 64-bit integer) or a `Dec`, a decimal
//! fraction `m / 10^e` kept in normalized form. Arithmetic follows the
//! integer-preserving rule: two integers stay on the integer path, any
//! other combination goes through the decimal path, and division always
//! produces a decimal. Results that cannot be represented report an
//! overflow instead of panicking.

use vstd::prelude::*;

verus! {

/// Largest decimal exponent a normalized `Decimal` may carry.
pub const MAX_SCALE: u32 = 18;

/// 10 raised to a natural power.
pub open spec fn p10(e: nat) -> int
    decreases e,
{
    if e == 0 {
        1
    } else {
        10 * p10((e - 1) as nat)
    }
}

pub proof fn lemma_p10_pos(e: nat)
    ensures
        p10(e) >= 1,
    decreases e,
{
    if e > 0 {
        lemma_p10_pos((e - 1) as nat);
    }
}

pub proof fn lemma_p10_mono(a: nat, b: nat)
    requires
        a <= b,
    ensures
        p10(a) <= p10(b),
    decreases b,
{
    if a < b {
        lemma_p10_mono(a, (b - 1) as nat);
        lemma_p10_pos((b - 1) as nat);
    }
}

/// Truncating (round toward zero) division, the semantics of `/` on the
/// machine integers; the divisor must not be zero.
pub open spec fn tdiv(x: int, d: int) -> int {
    if x == 0 {
        0
    } else if x > 0 && d > 0 {
        x / d
    } else if x < 0 && d < 0 {
        ((x * -1) / (d * -1))
    } else if x < 0 {
        ((x * -1) / d) * -1
    } else {
        (x / (d * -1)) * -1
    }
}

/// Truncating remainder, the semantics of `%` on the machine integers.
pub open spec fn trem(x: int, d: int) -> int {
    if x == 0 {
        0
    } else if x > 0 && d > 0 {
        x % d
    } else if x < 0 && d < 0 {
        ((x * -1) % (d * -1)) * -1
    } else if x < 0 {
        ((x * -1) % d) * -1
    } else {
        x % (d * -1)
    }
}

/// Mathematical model of a `Number`.
pub enum MNum {
    Int(int),
    Dec { m: int, e: nat },
}

/// Drop trailing decimal zeros; a zero mantissa collapses to scale zero.
pub open spec fn trim(m: int, e: nat) -> (int, nat)
    decreases e,
{
    if m == 0 {
        (0, 0)
    } else if e == 0 || trem(m, 10) != 0 {
        (m, e)
    } else {
        trim(tdiv(m, 10), (e - 1) as nat)
    }
}

/// Cut least-significant digits until the scale fits `MAX_SCALE`.
pub open spec fn squeeze(m: int, e: nat) -> (int, nat)
    decreases e,
{
    if e <= MAX_SCALE {
        (m, e)
    } else {
        squeeze(tdiv(m, 10), (e - 1) as nat)
    }
}

/// Normalize a raw decimal pair into a representable number, if it fits.
pub open spec fn dfin(m: int, e: nat) -> Option<MNum> {
    let t0 = trim(m, e);
    let s = squeeze(t0.0, t0.1);
    let t = trim(s.0, s.1);
    if -0x8000_0000_0000_0000 <= t.0 <= 0x7fff_ffff_ffff_ffff {
        Some(MNum::Dec { m: t.0, e: t.1 })
    } else {
        None
    }
}

/// The decimal pair a number stands for: `Int(i)` is `i / 10^0`.
pub open spec fn num_pair(n: MNum) -> (int, nat) {
    match n {
        MNum::Int(i) => (i, 0),
        MNum::Dec { m, e } => (m, e),
    }
}

/// Whether a number is numerically zero.
pub open spec fn num_is_zero_s(n: MNum) -> bool {
    num_pair(n).0 == 0
}

/// Three-way comparison result.
#[derive(Clone, Copy, Debug, PartialEq, Eq, Structural)]
pub enum Cmp {
    Lt,
    Eq,
    Gt,
}

/// Numeric order of two numbers, by cross-multiplied mantissas.
pub open spec fn num_cmp_s(a: MNum, b: MNum) -> Cmp {
    let pa = num_pair(a);
    let pb = num_pair(b);
    let x = pa.0 * p10(pb.1);
    let y = pb.0 * p10(pa.1);
    if x < y {
        Cmp::Lt
    } else if x == y {
        Cmp::Eq
    } else {
        Cmp::Gt
    }
}

/// Sum of two numbers: the integer path if both are integers and the sum
/// fits, otherwise the decimal path; `None` reports overflow.
pub open spec fn num_add_s(a: MNum, b: MNum) -> Option<MNum> {
    match (a, b) {
        (MNum::Int(x), MNum::Int(y)) => if -0x8000_0000_0000_0000 <= x + y
            <= 0x7fff_ffff_ffff_ffff {
            Some(MNum::Int(x + y))
        } else {
            None
        },
        _ => {
            let pa = num_pair(a);
            let pb = num_pair(b);
            let e = if pa.1 >= pb.1 {
                pa.1
            } else {
                pb.1
            };
            dfin(pa.0 * p10((e - pa.1) as nat) + pb.0 * p10((e - pb.1) as nat), e)
        },
    }
}

/// Difference of two numbers, with the same paths as `num_add_s`.
pub open spec fn num_sub_s(a: MNum, b: MNum) -> Option<MNum> {
    match (a, b) {
        (MNum::Int(x), MNum::Int(y)) => if -0x8000_0000_0000_0000 <= x - y
            <= 0x7fff_ffff_ffff_ffff {
            Some(MNum::Int(x - y))
        } else {
            None
        },
        _ => {
            let pa = num_pair(a);
            let pb = num_pair(b);
            let e = if pa.1 >= pb.1 {
                pa.1
            } else {
                pb.1
            };
            dfin(pa.0 * p10((e - pa.1) as nat) - pb.0 * p10((e - pb.1) as nat), e)
        },
    }
}

/// Product of two numbers, with the same paths as `num_add_s`.
pub open spec fn num_mul_s(a: MNum, b: MNum) -> Option<MNum> {
    match (a, b) {
        (MNum::Int(x), MNum::Int(y)) => if -0x8000_0000_0000_0000 <= x * y
            <= 0x7fff_ffff_ffff_ffff {
            Some(MNum::Int(x * y))
        } else {
            None
        },
        _ => {
            let pa = num_pair(a);
            let pb = num_pair(b);
            dfin(pa.0 * pb.0, (pa.1 + pb.1) as nat)
        },
    }
}

/// Quotient of two numbers, always on the decimal path, computed to
/// `MAX_SCALE` fractional digits and truncated toward zero. The divisor
/// must not be zero; `None` reports overflow.
pub open spec fn num_div_s(a: MNum, b: MNum) -> Option<MNum> {
    let pa = num_pair(a);
    let pb = num_pair(b);
    let shift = (MAX_SCALE + pb.1 - pa.1) as nat;
    let n = pa.0 * p10(shift);
    if -0x8000_0000_0000_0000_0000_0000_0000_0000 <= n
        <= 0x7fff_ffff_ffff_ffff_ffff_ffff_ffff_ffff {
        dfin(tdiv(n, pb.0), MAX_SCALE as nat)
    } else {
        None
    }
}

/// Remainder of two numbers: the integer path if both are integers,
/// otherwise the truncating decimal remainder at the common scale.
/// The divisor must not be zero; `None` reports overflow.
pub open spec fn num_rem_s(a: MNum, b: MNum) -> Option<MNum> {
    match (a, b) {
        (MNum::Int(x), MNum::Int(y)) => if x == -0x8000_0000_0000_0000 && y == -1 {
            None
        } else {
            Some(MNum::Int(trem(x, y)))
        },
        _ => {
            let pa = num_pair(a);
            let pb = num_pair(b);
            let e = if pa.1 >= pb.1 {
                pa.1
            } else {
                pb.1
            };
            dfin(trem(pa.0 * p10((e - pa.1) as nat), pb.0 * p10((e - pb.1) as nat)), e)
        },
    }
}

/// A normalized decimal fraction `m / 10^e`.
#[derive(Clone, Copy, Debug, PartialEq)]
pub struct Decimal {
    m: i64,
    e: u32,
}

impl Decimal {
    /// Normal form: bounded scale, no trailing zeros, zero has scale zero.
    #[verifier::type_invariant]
    pub closed spec fn inv(self) -> bool {
        &&& self.e <= MAX_SCALE
        &&& (self.m == 0 ==> self.e == 0)
        &&& (self.e > 0 ==> trem(self.m as int, 10) != 0)
    }

    pub closed spec fn m_spec(self) -> int {
        self.m as int
    }

    pub closed spec fn e_spec(self) -> nat {
        self.e as nat
    }

    pub fn mantissa(&self) -> (r: i64)
        ensures
            r == self.m_spec(),
    {
        self.m
    }

    pub fn scale(&self) -> (r: u32)
        ensures
            r == self.e_spec(),
    {
        self.e
    }
}

/// A number: an exact integer or a decimal fraction.
#[derive(Clone, Copy, Debug, PartialEq)]
pub enum Number {
    Int(i64),
    Dec(Decimal),
}

impl Number {
    /// The mathematical number this value stands for.
    pub open spec fn model(self) -> MNum {
        match self {
            Number::Int(i) => MNum::Int(i as int),
            Number::Dec(d) => MNum::Dec { m: d.m_spec(), e: d.e_spec() },
        }
    }

    /// Whether the value is on the integer path.
    pub fn is_int(&self) -> (r: bool)
        ensures
            r == (self.model() is Int),
    {
        match self {
            Number::Int(_) => true,
            Number::Dec(_) => false,
        }
    }
}

/// Model of an optional number, for overflow-reporting results.
pub open spec fn num_opt_model(r: Option<Number>) -> Option<MNum> {
    match r {
        Some(n) => Some(n.model()),
        None => None,
    }
}

pub proof fn lemma_p10_vals()
    ensures
        p10(18) == 1_000_000_000_000_000_000,
        p10(36) == 1_000_000_000_000_000_000_000_000_000_000_000_000,
{
    reveal_with_fuel(p10, 40);
}

pub proof fn lemma_trim_props(m: int, e: nat)
    ensures
        trim(m, e).1 <= e,
        trim(m, e).0 == 0 ==> trim(m, e).1 == 0,
        trim(m, e).1 > 0 ==> trem(trim(m, e).0, 10) != 0,
    decreases e,
{
    if m != 0 && e > 0 && trem(m, 10) == 0 {
        lemma_trim_props(tdiv(m, 10), (e - 1) as nat);
    }
}

pub proof fn lemma_squeeze_props(m: int, e: nat)
    ensures
        squeeze(m, e).1 <= MAX_SCALE,
        squeeze(m, e).1 <= e || squeeze(m, e).1 <= MAX_SCALE,
    decreases e,
{
    if e > MAX_SCALE {
        lemma_squeeze_props(tdiv(m, 10), (e - 1) as nat);
    }
}

fn pow10x(e: u32) -> (r: i128)
    requires
        e <= 36,
    ensures
        r == p10(e as nat),
        1 <= r,
{
    proof {
        lemma_p10_vals();
    }
    let mut r: i128 = 1;
    let mut i: u32 = 0;
    while i < e
        invariant
            i <= e,
            e <= 36,
            r == p10(i as nat),
            1 <= r,
        decreases e - i,
    {
        proof {
            lemma_p10_vals();
            lemma_p10_mono((i + 1) as nat, 36);
            lemma_p10_pos(i as nat);
        }
        r = r * 10;
        i = i + 1;
    }
    r
}

fn trim128(m0: i128, e0: u32) -> (t: (i128, u32))
    ensures
        (t.0 as int, t.1 as nat) == trim(m0 as int, e0 as nat),
        t.1 <= e0,
{
    let mut m: i128 = m0;
    let mut e: u32 = e0;
    loop
        invariant
            trim(m as int, e as nat) == trim(m0 as int, e0 as nat),
            e <= e0,
        ensures
            e <= e0,
            (m as int, e as nat) == trim(m0 as int, e0 as nat),
        decreases e,
    {
        if m == 0 {
            return (0, 0);
        }
        if e == 0 {
            break;
        }
        let q = match m.checked_rem(10) {
            Some(q) => q,
            None => {
                proof {
                    assert(false);
                }
                0
            },
        };
        if q != 0 {
            break;
        }
        let d = match m.checked_div(10) {
            Some(d) => d,
            None => {
                proof {
                    assert(false);
                }
                0
            },
        };
        m = d;
        e = e - 1;
    }
    (m, e)
}

fn squeeze128(m0: i128, e0: u32) -> (t: (i128, u32))
    ensures
        (t.0 as int, t.1 as nat) == squeeze(m0 as int, e0 as nat),
        t.1 <= e0 || t.1 <= MAX_SCALE,
    decreases e0,
{
    let mut m: i128 = m0;
    let mut e: u32 = e0;
    while e > MAX_SCALE
        invariant
            squeeze(m as int, e as nat) == squeeze(m0 as int, e0 as nat),
            e <= e0 || e <= MAX_SCALE,
        decreases e,
    {
        let d = match m.checked_div(10) {
            Some(d) => d,
            None => {
                proof {
                    assert(false);
                }
                0
            },
        };
        m = d;
        e = e - 1;
    }
    (m, e)
}

/// Model of an optional decimal.
pub open spec fn dec_opt_model(r: Option<Decimal>) -> Option<MNum> {
    match r {
        Some(d) => Some(MNum::Dec { m: d.m_spec(), e: d.e_spec() }),
        None => None,
    }
}

fn dfin_make(m: i128, e: u32) -> (r: Option<Decimal>)
    requires
        e <= 36,
    ensures
        dec_opt_model(r) == dfin(m as int, e as nat),
{
    let t0 = trim128(m, e);
    let s = squeeze128(t0.0, t0.1);
    let t = trim128(s.0, s.1);
    proof {
        lemma_trim_props(s.0 as int, s.1 as nat);
        lemma_squeeze_props(t0.0 as int, t0.1 as nat);
    }
    if -0x8000_0000_0000_0000i128 <= t.0 && t.0 <= 0x7fff_ffff_ffff_ffffi128 {
        Some(Decimal { m: t.0 as i64, e: t.1 })
    } else {
        None
    }
}

fn num_parts(n: &Number) -> (t: (i64, u32))
    ensures
        (t.0 as int, t.1 as nat) == num_pair(n.model()),
        t.1 <= MAX_SCALE,
{
    match n {
        Number::Int(i) => (*i, 0),
        Number::Dec(d) => {
            proof {
                use_type_invariant(d);
            }
            (d.m, d.e)
        },
    }
}

/// Whether a number is numerically zero.
pub fn num_is_zero(n: &Number) -> (r: bool)
    ensures
        r == num_is_zero_s(n.model()),
{
    let p = num_parts(n);
    p.0 == 0
}

proof fn lemma_prod_bound(m: int, p: int)
    requires
        -0x8000_0000_0000_0000 <= m <= 0x7fff_ffff_ffff_ffff,
        1 <= p <= 1_000_000_000_000_000_000,
    ensures
        -0x4000_0000_0000_0000_0000_0000_0000_0000 <= m * p
            <= 0x4000_0000_0000_0000_0000_0000_0000_0000,
{
    assert(-0x4000_0000_0000_0000_0000_0000_0000_0000 <= m * p
        <= 0x4000_0000_0000_0000_0000_0000_0000_0000) by (nonlinear_arith)
        requires
            -0x8000_0000_0000_0000 <= m <= 0x7fff_ffff_ffff_ffff,
            1 <= p <= 1_000_000_000_000_000_000,
    ;
}

/// Numeric order of two numbers.
pub fn num_cmp(a: &Number, b: &Number) -> (r: Cmp)
    ensures
        r == num_cmp_s(a.model(), b.model()),
{
    let pa = num_parts(a);
    let pb = num_parts(b);
    let qa = pow10x(pb.1);
    let qb = pow10x(pa.1);
    proof {
        lemma_p10_vals();
        lemma_p10_mono(pb.1 as nat, 18);
        lemma_p10_mono(pa.1 as nat, 18);
        lemma_prod_bound(pa.0 as int, qa as int);
        lemma_prod_bound(pb.0 as int, qb as int);
    }
    let x = (pa.0 as i128) * qa;
    let y = (pb.0 as i128) * qb;
    if x < y {
        Cmp::Lt
    } else if x == y {
        Cmp::Eq
    } else {
        Cmp::Gt
    }
}

/// Sum of two numbers; `None` reports overflow.
pub fn num_add(a: &Number, b: &Number) -> (r: Option<Number>)
    ensures
        num_opt_model(r) == num_add_s(a.model(), b.model()),
{
    match (a, b) {
        (Number::Int(x), Number::Int(y)) => match x.checked_add(*y) {
            Some(s) => Some(Number::Int(s)),
            None => None,
        },
        _ => {
            let pa = num_parts(a);
            let pb = num_parts(b);
            let e = if pa.1 >= pb.1 {
                pa.1
            } else {
                pb.1
            };
            let qa = pow10x(e - pa.1);
            let qb = pow10x(e - pb.1);
            proof {
                lemma_p10_vals();
                lemma_p10_mono((e - pa.1) as nat, 18);
                lemma_p10_mono((e - pb.1) as nat, 18);
                lemma_prod_bound(pa.0 as int, qa as int);
                lemma_prod_bound(pb.0 as int, qb as int);
            }
            let m1 = (pa.0 as i128) * qa;
            let m2 = (pb.0 as i128) * qb;
            match dfin_make(m1 + m2, e) {
                Some(d) => Some(Number::Dec(d)),
                None => None,
            }
        },
    }
}

/// Difference of two numbers; `None` reports overflow.
pub fn num_sub(a: &Number, b: &Number) -> (r: Option<Number>)
    ensures
        num_opt_model(r) == num_sub_s(a.model(), b.model()),
{
    match (a, b) {
        (Number::Int(x), Number::Int(y)) => match x.checked_sub(*y) {
            Some(s) => Some(Number::Int(s)),
            None => None,
        },
        _ => {
            let pa = num_parts(a);
            let pb = num_parts(b);
            let e = if pa.1 >= pb.1 {
                pa.1
            } else {
                pb.1
            };
            let qa = pow10x(e - pa.1);
            let qb = pow10x(e - pb.1);
            proof {
                lemma_p10_vals();
                lemma_p10_mono((e - pa.1) as nat, 18);
                lemma_p10_mono((e - pb.1) as nat, 18);
                lemma_prod_bound(pa.0 as int, qa as int);
                lemma_prod_bound(pb.0 as int, qb as int);
            }
            let m1 = (pa.0 as i128) * qa;
            let m2 = (pb.0 as i128) * qb;
            match dfin_make(m1 - m2, e) {
                Some(d) => Some(Number::Dec(d)),
                None => None,
            }
        },
    }
}

/// Product of two numbers; `None` reports overflow.
pub fn num_mul(a: &Number, b: &Number) -> (r: Option<Number>)
    ensures
        num_opt_model(r) == num_mul_s(a.model(), b.model()),
{
    match (a, b) {
        (Number::Int(x), Number::Int(y)) => match x.checked_mul(*y) {
            Some(s) => Some(Number::Int(s)),
            None => None,
        },
        _ => {
            let pa = num_parts(a);
            let pb = num_parts(b);
            proof {
                assert((pa.0 as int) * (pb.0 as int)
                    <= 0x4000_0000_0000_0000_0000_0000_0000_0000 && (pa.0 as int) * (pb.0 as int)
                    >= -0x4000_0000_0000_0000_0000_0000_0000_0000) by (nonlinear_arith)
                    requires
                        -0x8000_0000_0000_0000 <= pa.0 as int <= 0x7fff_ffff_ffff_ffff,
                        -0x8000_0000_0000_0000 <= pb.0 as int <= 0x7fff_ffff_ffff_ffff,
                ;
            }
            let m = (pa.0 as i128) * (pb.0 as i128);
            match dfin_make(m, pa.1 + pb.1) {
                Some(d) => Some(Number::Dec(d)),
                None => None,
            }
        },
    }
}

/// Quotient of two numbers, always decimal; the divisor must be nonzero.
pub fn num_div(a: &Number, b: &Number) -> (r: Option<Number>)
    requires
        !num_is_zero_s(b.model()),
    ensures
        num_opt_model(r) == num_div_s(a.model(), b.model()),
{
    let pa = num_parts(a);
    let pb = num_parts(b);
    let shift = MAX_SCALE + pb.1 - pa.1;
    let q = pow10x(shift);
    let n = match (pa.0 as i128).checked_mul(q) {
        Some(n) => n,
        None => {
            return None;
        },
    };
    let m = match n.checked_div(pb.0 as i128) {
        Some(m) => m,
        None => {
            // The quotient of the two extreme mantissas has far more digits
            // than a 64-bit mantissa can hold, so normalization rejects it.
            proof {
                assert(trem(
                    0x8000_0000_0000_0000_0000_0000_0000_0000,
                    10,
                ) != 0);
            }
            return None;
        },
    };
    match dfin_make(m, MAX_SCALE) {
        Some(d) => Some(Number::Dec(d)),
        None => None,
    }
}

/// Remainder of two numbers; the divisor must be nonzero.
pub fn num_rem(a: &Number, b: &Number) -> (r: Option<Number>)
    requires
        !num_is_zero_s(b.model()),
    ensures
        num_opt_model(r) == num_rem_s(a.model(), b.model()),
{
    match (a, b) {
        (Number::Int(x), Number::Int(y)) => {
            if *x == -0x8000_0000_0000_0000i64 && *y == -1i64 {
                None
            } else {
                match x.checked_rem(*y) {
                    Some(s) => Some(Number::Int(s)),
                    None => {
                        proof {
                            assert(false);
                        }
                        None
                    },
                }
            }
        },
        _ => {
            let pa = num_parts(a);
            let pb = num_parts(b);
            let e = if pa.1 >= pb.1 {
                pa.1
            } else {
                pb.1
            };
            let qa = pow10x(e - pa.1);
            let qb = pow10x(e - pb.1);
            proof {
                lemma_p10_vals();
                lemma_p10_mono((e - pa.1) as nat, 18);
                lemma_p10_mono((e - pb.1) as nat, 18);
                lemma_prod_bound(pa.0 as int, qa as int);
                lemma_prod_bound(pb.0 as int, qb as int);
            }
            let a1 = (pa.0 as i128) * qa;
            let b1 = (pb.0 as i128) * qb;
            let m: i128 = if b1 == 1 || b1 == -1 {
                0
            } else {
                proof {
                    assert(b1 as int != 0) by (nonlinear_arith)
                        requires
                            pb.0 as int != 0,
                            qb as int >= 1,
                            b1 as int == (pb.0 as int) * (qb as int),
                    ;
                }
                match a1.checked_rem(b1) {
                    Some(m) => m,
                    None => {
                        proof {
                            assert(false);
                        }
                        0
                    },
                }
            };
            match dfin_make(m, e) {
                Some(d) => Some(Number::Dec(d)),
                None => None,
            }
        },
    }
}

/// Build a decimal number from a mantissa and a scale, normalizing it.
pub fn dec_from_parts(m: i64, e: u32) -> (r: Option<Number>)
    requires
        e <= MAX_SCALE,
    ensures
        num_opt_model(r) == dfin(m as int, e as nat),
{
    match dfin_make(m as i128, e) {
        Some(d) => Some(Number::Dec(d)),
        None => None,
    }
}

} // verus!
