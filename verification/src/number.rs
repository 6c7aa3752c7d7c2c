//! Numbers as text: plain decimal integers, and quotients of two integers
//! rendered as a single-precision value with six decimals.
//!
//! A single-precision value keeps 24 significant bits. Everything here is
//! exact integer arithmetic: a value is held as a fraction whose denominator
//! is a power of two.

use vstd::prelude::*;
use vstd::string::*;

verus! {

/// 2^23: the least 24-bit significand.
pub const SIGNIFICAND_MIN: u64 = 8388608;

/// 2^24: the bound of a 24-bit significand.
pub const SIGNIFICAND_BOUND: u64 = 16777216;

/// The number of units of the sixth decimal in one.
pub const MILLION: u64 = 1000000;

/// The character of one decimal digit.
pub open spec fn digit_char(d: int) -> char {
    if d == 0 {
        '0'
    } else if d == 1 {
        '1'
    } else if d == 2 {
        '2'
    } else if d == 3 {
        '3'
    } else if d == 4 {
        '4'
    } else if d == 5 {
        '5'
    } else if d == 6 {
        '6'
    } else if d == 7 {
        '7'
    } else if d == 8 {
        '8'
    } else {
        '9'
    }
}

/// `n` in decimal, without sign, padding or leading zeros.
pub open spec fn decimal(n: nat) -> Seq<char>
    decreases n,
{
    if n < 10 {
        seq![digit_char(n as int)]
    } else {
        decimal(n / 10).push(digit_char((n % 10) as int))
    }
}

/// The last `width` decimal digits of `n`, with leading zeros.
pub open spec fn padded(n: nat, width: nat) -> Seq<char>
    decreases width,
{
    if width == 0 {
        Seq::<char>::empty()
    } else {
        padded(n / 10, (width - 1) as nat).push(digit_char((n % 10) as int))
    }
}

/// `micro` millionths in fixed-point notation: the whole part, a point, and
/// exactly six decimals.
pub open spec fn fixed_six(micro: nat) -> Seq<char> {
    decimal(micro / 1000000).push('.') + padded(micro % 1000000, 6)
}

/// The integer nearest to `n / d`; of two equally near, the even one.
pub open spec fn round_half_even(n: nat, d: nat) -> nat {
    let q = n / d;
    let r = n % d;
    if 2 * r < d || (2 * r == d && q % 2 == 0) {
        q
    } else {
        q + 1
    }
}

/// How far `n / d` is from having a 24-bit integer part, counted so that
/// halving or doubling towards it makes the count smaller.
pub open spec fn single_distance(n: nat, d: nat) -> nat {
    if n < 8388608 * d {
        (8388608 * d - n) as nat
    } else if n >= 16777216 * d {
        (n - 16777216 * d + 1) as nat
    } else {
        0
    }
}

/// The single-precision value nearest to `n / d`, as a fraction: the
/// quotient is scaled by a power of two until its integer part has 24 bits,
/// rounded to an integer (ties to even), and scaled back. Zero for `n == 0`;
/// `d == 0` has no value and gives zero too.
pub open spec fn single(n: nat, d: nat) -> (nat, nat)
    decreases single_distance(n, d),
{
    if n == 0 || d == 0 {
        (0, 1)
    } else if n < 8388608 * d {
        let (p, q) = single(2 * n, d);
        (p, 2 * q)
    } else if n >= 16777216 * d {
        let (p, q) = single(n, 2 * d);
        (2 * p, q)
    } else {
        (round_half_even(n, d), 1)
    }
}

/// The single-precision value nearest to the integer `x`. Up to 2^24 that
/// is `x` itself.
pub open spec fn single_of_int(x: nat) -> nat {
    if x < 16777216 {
        x
    } else {
        single(x, 1).0
    }
}

/// What the single-precision division of `x` by `y` gives, each first taken
/// to single precision itself.
pub open spec fn single_quotient(x: nat, y: nat) -> (nat, nat) {
    single(single_of_int(x), single_of_int(y))
}

/// The fraction `p / q` in millionths, rounded to the nearest (ties to even).
pub open spec fn millionths(value: (nat, nat)) -> nat {
    round_half_even(value.0 * 1000000, value.1)
}

/// A number held as the quotient of two integers. Its value is the
/// single-precision quotient of the two.
#[derive(Debug, PartialEq, Eq, Clone, Copy, Structural)]
pub struct Scalar {
    pub numerator: u32,
    pub denominator: u32,
}

/// The text of a scalar: six decimals in fixed-point notation. A zero
/// denominator gives `inf`, or `NaN` for zero by zero.
pub open spec fn scalar_text(s: Scalar) -> Seq<char> {
    if s.denominator == 0 {
        if s.numerator == 0 {
            "NaN"@
        } else {
            "inf"@
        }
    } else {
        fixed_six(millionths(single_quotient(s.numerator as nat, s.denominator as nat)))
    }
}

/// One decimal digit as a string.
fn digit_str(d: u64) -> (s: &'static str)
    requires
        d < 10,
    ensures
        s@ == seq![digit_char(d as int)],
{
    proof {
        reveal_strlit("0");
        reveal_strlit("1");
        reveal_strlit("2");
        reveal_strlit("3");
        reveal_strlit("4");
        reveal_strlit("5");
        reveal_strlit("6");
        reveal_strlit("7");
        reveal_strlit("8");
        reveal_strlit("9");
    }
    let s = if d == 0 {
        "0"
    } else if d == 1 {
        "1"
    } else if d == 2 {
        "2"
    } else if d == 3 {
        "3"
    } else if d == 4 {
        "4"
    } else if d == 5 {
        "5"
    } else if d == 6 {
        "6"
    } else if d == 7 {
        "7"
    } else if d == 8 {
        "8"
    } else {
        "9"
    };
    assert(s@ =~= seq![digit_char(d as int)]);
    s
}

/// Appends `n` in decimal to `out`.
pub fn append_decimal(out: &mut String, n: u64)
    ensures
        final(out)@ == old(out)@ + decimal(n as nat),
    decreases n,
{
    if n >= 10 {
        append_decimal(out, n / 10);
    }
    out.append(digit_str(n % 10));
    assert(out@ =~= old(out)@ + decimal(n as nat));
}

/// Appends the last `width` decimal digits of `n` to `out`.
pub fn append_padded(out: &mut String, n: u64, width: u8)
    ensures
        final(out)@ == old(out)@ + padded(n as nat, width as nat),
    decreases width,
{
    if width > 0 {
        append_padded(out, n / 10, width - 1);
        out.append(digit_str(n % 10));
    }
    assert(out@ =~= old(out)@ + padded(n as nat, width as nat));
}

/// Appends `micro` millionths in fixed-point notation to `out`.
pub fn append_fixed_six(out: &mut String, micro: u64)
    ensures
        final(out)@ == old(out)@ + fixed_six(micro as nat),
{
    append_decimal(out, micro / MILLION);
    out.append(".");
    proof {
        reveal_strlit(".");
        assert("."@ =~= seq!['.']);
    }
    append_padded(out, micro % MILLION, 6);
    assert(out@ =~= old(out)@ + fixed_six(micro as nat));
}

/// `n / d` rounded to the nearest integer, ties to even.
fn rounded_quotient(n: u64, d: u64) -> (r: u64)
    requires
        0 < d,
        d <= 0x4000_0000_0000_0000,
        n < 0x8000_0000_0000_0000,
    ensures
        r == round_half_even(n as nat, d as nat),
        r <= n,
{
    let q: u64 = n / d;
    let rest: u64 = n % d;
    assert(q <= n) by (nonlinear_arith)
        requires
            q == n / d,
            d > 0,
    ;
    if 2 * rest < d || (2 * rest == d && q % 2 == 0) {
        q
    } else {
        assert(q + 1 <= n) by (nonlinear_arith)
            requires
                q == n / d,
                rest == n % d,
                2 * rest >= d,
                d > 0,
        ;
        q + 1
    }
}

/// The single-precision value nearest to `n / d`, as a fraction.
fn nearest_single(n: u64, d: u64) -> (value: (u64, u64))
    requires
        0 < n < 0x10_0000_0000,
        0 < d < 0x10_0000_0000,
    ensures
        (value.0 as nat, value.1 as nat) == single(n as nat, d as nat),
        0 < value.0,
        value.0 <= 2 * n || value.0 <= 16777216,
        0 < value.1 < 0x1000_0000_0000_0000,
{
    if n < SIGNIFICAND_MIN * d {
        let mut num: u64 = n;
        let mut scale: u64 = 1;
        while num < SIGNIFICAND_MIN * d
            invariant
                0 < d < 0x10_0000_0000,
                0 < scale <= num,
                num < 16777216 * d,
                single(n as nat, d as nat).0 == single(num as nat, d as nat).0,
                single(n as nat, d as nat).1 == single(num as nat, d as nat).1 * scale,
            decreases single_distance(num as nat, d as nat),
        {
            proof {
                let q = single((2 * num) as nat, d as nat).1;
                assert(single(num as nat, d as nat).1 == 2 * q);
                assert((2 * q) * scale == q * (2 * scale)) by (nonlinear_arith);
            }
            num = 2 * num;
            scale = 2 * scale;
        }
        let m: u64 = rounded_quotient(num, d);
        proof {
            lemma_rounded_significand(num as nat, d as nat);
        }
        (m, scale)
    } else {
        let mut den: u64 = d;
        let mut scale: u64 = 1;
        while n >= SIGNIFICAND_BOUND * den
            invariant
                0 < n < 0x10_0000_0000,
                0 < scale <= den,
                8388608 * den <= n,
                single(n as nat, d as nat).0 == single(n as nat, den as nat).0 * scale,
                single(n as nat, d as nat).1 == single(n as nat, den as nat).1,
            decreases single_distance(n as nat, den as nat),
        {
            proof {
                let p = single(n as nat, (2 * den) as nat).0;
                assert(single(n as nat, den as nat).0 == 2 * p);
                assert((2 * p) * scale == p * (2 * scale)) by (nonlinear_arith);
            }
            den = 2 * den;
            scale = 2 * scale;
        }
        let m: u64 = rounded_quotient(n, den);
        proof {
            lemma_rounded_significand(n as nat, den as nat);
            assert(m * scale <= 2 * n) by (nonlinear_arith)
                requires
                    m <= 16777216,
                    0 < scale <= den,
                    8388608 * den <= n,
            ;
            assert(m * scale > 0) by (nonlinear_arith)
                requires
                    m >= 8388608,
                    0 < scale,
            ;
        }
        (m * scale, 1)
    }
}

/// A quotient with a 24-bit integer part rounds to a 24-bit significand, or
/// to 2^24 itself.
pub proof fn lemma_rounded_significand(n: nat, d: nat)
    requires
        0 < d,
        8388608 * d <= n < 16777216 * d,
    ensures
        8388608 <= round_half_even(n, d) <= 16777216,
{
    assert(8388608 <= n / d < 16777216) by (nonlinear_arith)
        requires
            0 < d,
            8388608 * d <= n < 16777216 * d,
    ;
}

/// The single-precision value nearest to `x`.
fn single_of_u32(x: u32) -> (v: u64)
    ensures
        v == single_of_int(x as nat),
        v <= 0x2_0000_0000,
        x > 0 ==> v > 0,
{
    if x < 16777216 {
        x as u64
    } else {
        let (p, _q) = nearest_single(x as u64, 1);
        p
    }
}

impl Scalar {
    /// The quotient of `numerator` and `denominator`.
    pub fn new(numerator: u32, denominator: u32) -> (s: Scalar)
        ensures
            s == (Scalar { numerator, denominator }),
    {
        Scalar { numerator, denominator }
    }

    /// The value in millionths, rounded to the nearest (ties to even); none
    /// for a zero denominator.
    pub fn millionths(&self) -> (micro: Option<u64>)
        ensures
            micro is Some <==> self.denominator != 0,
            micro matches Some(m) ==> m == millionths(
                single_quotient(self.numerator as nat, self.denominator as nat),
            ),
    {
        if self.denominator == 0 {
            None
        } else if self.numerator == 0 {
            Some(0)
        } else {
            let a: u64 = single_of_u32(self.numerator);
            let b: u64 = single_of_u32(self.denominator);
            let (p, q) = nearest_single(a, b);
            assert(p * 1000000 < 0x8000_0000_0000_0000) by (nonlinear_arith)
                requires
                    p <= 0x4_0000_0000,
            ;
            Some(rounded_quotient(p * MILLION, q))
        }
    }

    /// The text of the scalar.
    pub fn to_string(&self) -> (text: String)
        ensures
            text@ == scalar_text(*self),
    {
        let mut text = String::new();
        append_scalar(&mut text, *self);
        assert(text@ =~= scalar_text(*self));
        text
    }
}

/// Appends the text of `s` to `out`.
pub fn append_scalar(out: &mut String, s: Scalar)
    ensures
        final(out)@ == old(out)@ + scalar_text(s),
{
    match s.millionths() {
        Some(micro) => append_fixed_six(out, micro),
        None => {
            if s.numerator == 0 {
                out.append("NaN");
            } else {
                out.append("inf");
            }
        },
    }
}

impl Scalar {
    /// The value of the scalar as a fraction: the single-precision quotient
    /// of the numerator and the denominator.
    pub open spec fn value(self) -> (nat, nat) {
        single_quotient(self.numerator as nat, self.denominator as nat)
    }

    /// The value is at most one.
    pub open spec fn at_most_one(self) -> bool {
        self.value().0 <= self.value().1
    }

    /// The value is greater than zero.
    pub open spec fn is_positive(self) -> bool {
        self.value().0 > 0 && self.value().1 > 0
    }
}

/// A quotient that is at most `c` rounds to at most `c`.
pub proof fn lemma_round_at_most(n: nat, d: nat, c: nat)
    requires
        0 < d,
        n <= c * d,
    ensures
        round_half_even(n, d) <= c,
{
    let q = n / d;
    let r = n % d;
    assert(n == q * d + r && 0 <= r < d) by (nonlinear_arith)
        requires
            q == n / d,
            r == n % d,
            0 < d,
    ;
    assert(q < c || (q == c && r == 0)) by (nonlinear_arith)
        requires
            n == q * d + r,
            0 <= r < d,
            n <= c * d,
            0 <= q,
    ;
}

/// Rounding keeps the order of two quotients with one denominator.
pub proof fn lemma_round_monotone(n1: nat, n2: nat, d: nat)
    requires
        0 < d,
        n1 <= n2,
    ensures
        round_half_even(n1, d) <= round_half_even(n2, d),
{
    let q1 = n1 / d;
    let r1 = n1 % d;
    let q2 = n2 / d;
    let r2 = n2 % d;
    assert(n1 == q1 * d + r1 && 0 <= r1 < d) by (nonlinear_arith)
        requires
            q1 == n1 / d,
            r1 == n1 % d,
            0 < d,
    ;
    assert(n2 == q2 * d + r2 && 0 <= r2 < d) by (nonlinear_arith)
        requires
            q2 == n2 / d,
            r2 == n2 % d,
            0 < d,
    ;
    assert(q1 < q2 || (q1 == q2 && r1 <= r2)) by (nonlinear_arith)
        requires
            n1 == q1 * d + r1,
            n2 == q2 * d + r2,
            0 <= r1 < d,
            0 <= r2 < d,
            n1 <= n2,
            0 <= q1,
            0 <= q2,
    ;
}

/// The single-precision value of a positive quotient is positive.
pub proof fn lemma_single_positive(n: nat, d: nat)
    requires
        0 < n,
        0 < d,
    ensures
        single(n, d).0 > 0,
        single(n, d).1 > 0,
    decreases single_distance(n, d),
{
    if n < 8388608 * d {
        lemma_single_positive(2 * n, d);
    } else if n >= 16777216 * d {
        lemma_single_positive(n, 2 * d);
    } else {
        lemma_rounded_significand(n, d);
    }
}

/// The single-precision value of a quotient of at least 2^23 is a whole
/// number of at least 2^23.
pub proof fn lemma_single_whole(n: nat, d: nat)
    requires
        0 < d,
        8388608 * d <= n,
    ensures
        single(n, d).1 == 1,
        single(n, d).0 >= 8388608,
    decreases single_distance(n, d),
{
    if n >= 16777216 * d {
        lemma_single_whole(n, 2 * d);
    } else {
        lemma_rounded_significand(n, d);
    }
}

/// Single precision keeps the order of two quotients of at least 2^23 with
/// one denominator.
pub proof fn lemma_single_monotone(n1: nat, n2: nat, d: nat)
    requires
        0 < d,
        8388608 * d <= n1 <= n2,
    ensures
        single(n1, d).0 <= single(n2, d).0,
    decreases single_distance(n2, d),
{
    if n2 >= 16777216 * d {
        if n1 >= 16777216 * d {
            lemma_single_monotone(n1, n2, 2 * d);
        } else {
            lemma_rounded_significand(n1, d);
            lemma_single_whole(n2, 2 * d);
        }
    } else {
        lemma_round_monotone(n1, n2, d);
    }
}

/// Taking integers to single precision keeps their order.
pub proof fn lemma_single_of_int_monotone(x: nat, y: nat)
    requires
        x <= y,
    ensures
        single_of_int(x) <= single_of_int(y),
{
    if y >= 16777216 {
        if x >= 16777216 {
            lemma_single_monotone(x, y, 1);
        } else {
            lemma_single_whole(y, 2);
        }
    }
}

/// A quotient below 2^24 that is at most `c` has a single-precision value
/// of at most `c`.
pub proof fn lemma_single_at_most(n: nat, d: nat, c: nat)
    requires
        0 < n,
        0 < d,
        n < 16777216 * d,
        n <= c * d,
    ensures
        single(n, d).0 <= c * single(n, d).1,
    decreases single_distance(n, d),
{
    if n < 8388608 * d {
        assert(2 * n <= (2 * c) * d) by (nonlinear_arith)
            requires
                n <= c * d,
        ;
        lemma_single_at_most(2 * n, d, 2 * c);
        let q = single(2 * n, d).1;
        assert((2 * c) * q == c * (2 * q)) by (nonlinear_arith);
    } else {
        lemma_round_at_most(n, d, c);
    }
}

/// A scalar whose numerator is at most its denominator has a value of at
/// most one, and its text shows at most one.
pub proof fn lemma_scalar_at_most_one(s: Scalar)
    requires
        0 < s.denominator,
        s.numerator <= s.denominator,
    ensures
        s.at_most_one(),
        millionths(s.value()) <= 1000000,
{
    let a = single_of_int(s.numerator as nat);
    let b = single_of_int(s.denominator as nat);
    lemma_single_of_int_monotone(s.numerator as nat, s.denominator as nat);
    lemma_single_of_int_monotone(1, s.denominator as nat);
    if a > 0 {
        lemma_single_at_most(a, b, 1);
        lemma_single_positive(a, b);
        let v = single(a, b);
        assert(v.0 * 1000000 <= 1000000 * v.1) by (nonlinear_arith)
            requires
                v.0 <= v.1,
        ;
        lemma_round_at_most(v.0 * 1000000, v.1, 1000000);
    }
}

/// A scalar with a positive numerator and denominator has a positive
/// value.
pub proof fn lemma_scalar_positive(s: Scalar)
    requires
        0 < s.numerator,
        0 < s.denominator,
    ensures
        s.is_positive(),
{
    lemma_single_of_int_monotone(1, s.numerator as nat);
    lemma_single_of_int_monotone(1, s.denominator as nat);
    lemma_single_positive(
        single_of_int(s.numerator as nat),
        single_of_int(s.denominator as nat),
    );
}

} // verus!
