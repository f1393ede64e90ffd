//! Double-precision numbers by their bit pattern.
//!
//! Probabilities and thresholds reach the rules as IEEE 754 doubles. The
//! rules only compare them and print them, and both are functions of the bit
//! pattern: a double is kept as the `u64` that holds its bits.
use vstd::arithmetic::div_mod::lemma_fundamental_div_mod;
use vstd::arithmetic::div_mod::lemma_fundamental_div_mod_converse;
use vstd::arithmetic::power2::lemma2_to64;
use vstd::arithmetic::power2::lemma_pow2_adds;
use vstd::arithmetic::power2::lemma_pow2_pos;
use vstd::arithmetic::power2::lemma_pow2_strictly_increases;
use vstd::arithmetic::power2::lemma_pow2_unfold;
use vstd::arithmetic::power2::pow2;
use vstd::prelude::*;

use crate::text::{concat2, decimal_text};

verus! {

/// The weight of the sign bit.
pub const SIGN: u64 = 0x8000_0000_0000_0000;

/// The bit pattern of positive infinity; every larger magnitude is a NaN.
pub const INFINITE: u64 = 0x7ff0_0000_0000_0000;

/// The weight of the lowest exponent bit.
pub const HIDDEN: u64 = 0x10_0000_0000_0000;

/// A double by its bit pattern.
#[derive(Clone, Copy, Debug, PartialEq, Eq, Structural)]
pub struct Double {
    pub bits: u64,
}

impl Double {
    /// Whether the sign bit is set.
    pub open spec fn negative(self) -> bool {
        self.bits >= SIGN
    }

    /// The pattern without its sign bit.
    pub open spec fn magnitude(self) -> nat {
        if self.bits >= SIGN {
            (self.bits - SIGN) as nat
        } else {
            self.bits as nat
        }
    }

    pub open spec fn nan(self) -> bool {
        self.magnitude() > INFINITE
    }

    pub open spec fn finite(self) -> bool {
        self.magnitude() < INFINITE
    }

    /// The place of a number in the order of doubles; both zeros have place
    /// 0.
    pub open spec fn rank(self) -> int {
        if self.negative() {
            -(self.magnitude() as int)
        } else {
            self.magnitude() as int
        }
    }

    /// `<` on doubles: false when either side is a NaN.
    pub open spec fn lt(self, other: Double) -> bool {
        !self.nan() && !other.nan() && self.rank() < other.rank()
    }

    /// `<=` on doubles: false when either side is a NaN.
    pub open spec fn le(self, other: Double) -> bool {
        !self.nan() && !other.nan() && self.rank() <= other.rank()
    }

    /// The biased exponent.
    pub open spec fn exponent(self) -> nat {
        self.magnitude() / (HIDDEN as nat)
    }

    /// The significand with its hidden bit.
    pub open spec fn significand(self) -> nat {
        let fraction = self.magnitude() % (HIDDEN as nat);
        if self.exponent() == 0 {
            fraction
        } else {
            HIDDEN as nat + fraction
        }
    }

    /// How often the significand is doubled to give the value in the
    /// smallest unit.
    pub open spec fn shift(self) -> nat {
        if self.exponent() == 0 {
            0
        } else {
            (self.exponent() - 1) as nat
        }
    }

    /// The absolute value of a finite number, counted in the smallest
    /// positive double (2 to the power -1074).
    pub open spec fn units(self) -> nat {
        self.significand() * pow2(self.shift())
    }

    /// The value of a finite number, counted in the smallest positive double.
    pub open spec fn value(self) -> int {
        if self.negative() {
            -(self.units() as int)
        } else {
            self.units() as int
        }
    }

    /// `self < other`.
    pub fn less(self, other: Double) -> (r: bool)
        ensures
            r == self.lt(other),
    {
        let a = self.split();
        let b = other.split();
        if a.1 > INFINITE || b.1 > INFINITE {
            return false;
        }
        if a.0 {
            if b.0 {
                a.1 > b.1
            } else {
                a.1 > 0 || b.1 > 0
            }
        } else {
            if b.0 {
                false
            } else {
                a.1 < b.1
            }
        }
    }

    /// `self >= other`.
    pub fn at_least(self, other: Double) -> (r: bool)
        ensures
            r == other.le(self),
    {
        let a = self.split();
        let b = other.split();
        if a.1 > INFINITE || b.1 > INFINITE {
            return false;
        }
        !self.less(other)
    }

    /// The sign bit and the rest of the pattern.
    fn split(self) -> (r: (bool, u64))
        ensures
            r.0 == self.negative(),
            r.1 == self.magnitude(),
    {
        if self.bits >= SIGN {
            (true, self.bits - SIGN)
        } else {
            (false, self.bits)
        }
    }

    /// The smaller of two numbers. A NaN loses to a number.
    pub open spec fn min_of(self, other: Double) -> Double {
        if self.nan() {
            other
        } else if other.lt(self) {
            other
        } else {
            self
        }
    }

    /// The smaller of two numbers. A NaN loses to a number.
    pub fn min(self, other: Double) -> (r: Double)
        ensures
            r == self.min_of(other),
    {
        if self.split().1 > INFINITE {
            other
        } else if other.less(self) {
            other
        } else {
            self
        }
    }

    /// Whether the number lies in the closed interval from 0 to 1.
    pub open spec fn unit(self) -> bool {
        zero().le(self) && self.le(one())
    }

    /// Whether the number lies in the closed interval from 0 to 1.
    pub fn is_unit(self) -> (r: bool)
        ensures
            r == self.unit(),
    {
        self.at_least(Double { bits: 0 }) && Double { bits: ONE }.at_least(self)
    }
}

/// The bit pattern of 1.
pub const ONE: u64 = 0x3ff0_0000_0000_0000;

/// The number 0.
pub open spec fn zero() -> Double {
    Double { bits: 0 }
}

/// The number 1.
pub open spec fn one() -> Double {
    Double { bits: ONE }
}

/// The order by bit pattern is the order by value: of two finite doubles the
/// one that compares less has the smaller value.
pub proof fn law_order_is_numeric(a: Double, b: Double)
    requires
        a.finite(),
        b.finite(),
    ensures
        a.lt(b) <==> a.value() < b.value(),
        a.le(b) <==> a.value() <= b.value(),
{
    if a.magnitude() < b.magnitude() {
        lemma_units_increase(a, b);
    } else if b.magnitude() < a.magnitude() {
        lemma_units_increase(b, a);
    }
    lemma_units_zero(a);
    lemma_units_zero(b);
}

/// Only the two zeros have no units.
proof fn lemma_units_zero(a: Double)
    ensures
        a.units() == 0 <==> a.magnitude() == 0,
{
    lemma_pow2_pos(a.shift());
    let m = a.significand();
    let p = pow2(a.shift());
    assert(m * p == 0 <==> m == 0) by (nonlinear_arith)
        requires
            p > 0,
    ;
}

/// A larger magnitude means more units.
proof fn lemma_units_increase(a: Double, b: Double)
    requires
        a.magnitude() < b.magnitude(),
    ensures
        a.units() < b.units(),
{
    let h = HIDDEN as nat;
    let m = a.significand();
    let n = b.significand();
    lemma_pow2_pos(a.shift());
    lemma_pow2_pos(b.shift());
    let p = pow2(a.shift());
    let q = pow2(b.shift());
    assert(a.exponent() <= b.exponent());
    if a.shift() == b.shift() {
        assert(m < n);
        assert(m * p < n * q) by (nonlinear_arith)
            requires
                m < n,
                p == q,
                p > 0,
        ;
    } else {
        assert(m < 2 * h);
        assert(n >= h);
        if a.shift() + 1 < b.shift() {
            lemma_pow2_strictly_increases((a.shift() + 1) as nat, b.shift());
        }
        lemma_pow2_unfold((a.shift() + 1) as nat);
        assert(2 * p <= q);
        assert(m * p < n * q) by (nonlinear_arith)
            requires
                m < 2 * h,
                n >= h,
                2 * p <= q,
                p > 0,
                h > 0,
        ;
    }
}

/// `a / b` rounded to the nearest whole number, ties to the even one.
pub open spec fn rounded(a: nat, b: nat) -> nat {
    let q = a / b;
    let r = a % b;
    if 2 * r < b {
        q
    } else if 2 * r > b {
        q + 1
    } else {
        q + q % 2
    }
}

/// A common factor does not change the rounded quotient.
proof fn lemma_rounded_scales(a: nat, b: nat, c: nat)
    requires
        b > 0,
        c > 0,
    ensures
        b * c > 0,
        rounded(a * c, b * c) == rounded(a, b),
{
    let q = a / b;
    let r = a % b;
    lemma_fundamental_div_mod(a as int, b as int);
    assert(b * c > 0) by (nonlinear_arith)
        requires
            b > 0,
            c > 0,
    ;
    assert(a * c == q * (b * c) + r * c) by (nonlinear_arith)
        requires
            a == b * q + r,
    ;
    assert(0 <= r * c < b * c) by (nonlinear_arith)
        requires
            0 <= r < b,
            c > 0,
    ;
    lemma_fundamental_div_mod_converse((a * c) as int, (b * c) as int, q as int, (r * c) as int);
    assert(2 * r < b <==> 2 * (r * c) < b * c) by (nonlinear_arith)
        requires
            c > 0,
    ;
    assert(2 * r > b <==> 2 * (r * c) > b * c) by (nonlinear_arith)
        requires
            c > 0,
    ;
}

/// The value of decimal digits, lowest first.
pub open spec fn digits_value(d: Seq<u8>) -> nat
    decreases d.len(),
{
    if d.len() == 0 {
        0
    } else {
        d[0] as nat + 10 * digits_value(d.drop_first())
    }
}

/// The characters of decimal digits, highest first.
pub open spec fn digits_text(d: Seq<u8>) -> Seq<char>
    decreases d.len(),
{
    if d.len() == 0 {
        Seq::empty()
    } else {
        digits_text(d.drop_first()).push(crate::text::digit(d[0] as nat))
    }
}

/// Digits as `decimal` writes them: at least one, each below 10, the highest
/// not 0 unless it is the only one.
pub open spec fn proper(d: Seq<u8>) -> bool {
    &&& d.len() > 0
    &&& forall|i: int| 0 <= i < d.len() ==> #[trigger] d[i] < 10
    &&& d.len() > 1 ==> d.last() > 0
}

proof fn lemma_digits_positive(d: Seq<u8>)
    requires
        d.len() > 0,
        d.last() > 0,
    ensures
        digits_value(d) > 0,
    decreases d.len(),
{
    if d.len() > 1 {
        lemma_digits_positive(d.drop_first());
    }
}

proof fn lemma_digits_text(d: Seq<u8>)
    requires
        proper(d),
    ensures
        digits_text(d) == crate::text::decimal(digits_value(d)),
    decreases d.len(),
{
    let t = d.drop_first();
    if d.len() == 1 {
        assert(digits_value(t) == 0);
        assert(digits_text(t) == Seq::<char>::empty());
        assert(digits_text(d) =~= seq![crate::text::digit(d[0] as nat)]);
    } else {
        lemma_digits_positive(t);
        assert forall|i: int| 0 <= i < t.len() implies #[trigger] t[i] < 10 by {
            assert(t[i] == d[i + 1]);
        }
        lemma_digits_text(t);
        let v = digits_value(d);
        assert(v / 10 == digits_value(t) && v % 10 == d[0] as nat);
    }
}

/// The decimal digits of `n`, lowest first.
fn digits_of(n: u64) -> (d: Vec<u8>)
    ensures
        proper(d@),
        digits_value(d@) == n,
    decreases n,
{
    let mut d: Vec<u8> = Vec::new();
    let low: u8 = (n % 10) as u8;
    d.push(low);
    if n < 10 {
        assert(d@.drop_first() =~= Seq::<u8>::empty());
        assert(digits_value(d@.drop_first()) == 0);
        return d;
    }
    let mut high = digits_of(n / 10);
    let ghost top = high@;
    d.append(&mut high);
    proof {
        assert(d@.drop_first() =~= top);
        if digits_value(top) > 0 && top.len() == 1 {
            assert(top.drop_first() =~= Seq::<u8>::empty());
            assert(digits_value(top.drop_first()) == 0);
        }
        assert(d@.last() == top.last());
    }
    d
}

/// Doubles the number written in `d[from..]` and adds `carry`.
fn double_digits(d: &mut Vec<u8>, from: usize, carry: u8)
    requires
        from <= old(d)@.len(),
        carry <= 1,
        forall|i: int| 0 <= i < old(d)@.len() ==> #[trigger] old(d)@[i] < 10,
        old(d)@.len() > 1 ==> old(d)@.last() > 0 || (from == old(d)@.len() && carry > 0),
    ensures
        final(d)@.take(from as int) == old(d)@.take(from as int),
        final(d)@.len() >= old(d)@.len(),
        forall|i: int| 0 <= i < final(d)@.len() ==> #[trigger] final(d)@[i] < 10,
        final(d)@.len() > 1 ==> final(d)@.last() > 0,
        digits_value(final(d)@.skip(from as int)) == 2 * digits_value(old(d)@.skip(from as int))
            + carry,
    decreases old(d)@.len() - from,
{
    let ghost before = d@;
    if from == d.len() {
        assert(before.skip(from as int) =~= Seq::<u8>::empty());
        if carry > 0 {
            d.push(carry);
            assert(d@.skip(from as int) =~= seq![carry]);
            assert(seq![carry].drop_first() =~= Seq::<u8>::empty());
            assert(digits_value(seq![carry].drop_first()) == 0);
            assert(d@.take(from as int) =~= before.take(from as int));
        }
        return ;
    }
    let x: u8 = 2 * d[from] + carry;
    d.set(from, x % 10);
    let ghost mid = d@;
    double_digits(d, from + 1, x / 10);
    proof {
        assert(before.skip(from as int).drop_first() =~= before.skip(from + 1));
        assert(mid.skip(from + 1) =~= before.skip(from + 1));
        assert(d@.skip(from as int).drop_first() =~= d@.skip(from + 1));
        assert(d@[from as int] == d@.take(from + 1)[from as int]);
        assert(mid[from as int] == mid.take(from + 1)[from as int]);
        assert(d@.take(from as int) =~= d@.take(from + 1).take(from as int));
        assert(mid.take(from as int) =~= mid.take(from + 1).take(from as int));
        assert(before.take(from as int) =~= mid.take(from as int));
    }
}

/// The text of decimal digits, highest first.
fn digits_string(d: &Vec<u8>) -> (r: String)
    requires
        proper(d@),
    ensures
        r@ == crate::text::decimal(digits_value(d@)),
{
    let mut out = String::new();
    let mut i: usize = d.len();
    while i > 0
        invariant
            i <= d@.len(),
            proper(d@),
            out@ == digits_text(d@.skip(i as int)),
        decreases i,
    {
        i = i - 1;
        assert(d@.skip(i as int).drop_first() =~= d@.skip(i + 1));
        out.push((48u8 + d[i]) as char);
    }
    proof {
        assert(d@.skip(0) =~= d@);
        lemma_digits_text(d@);
    }
    out
}

/// `m` doubled `k` times, in decimal.
fn shifted_text(m: u64, k: u64) -> (r: String)
    ensures
        r@ == crate::text::decimal(m as nat * pow2(k as nat)),
{
    let mut d = digits_of(m);
    let mut i: u64 = 0;
    proof {
        lemma2_to64();
    }
    while i < k
        invariant
            i <= k,
            proper(d@),
            digits_value(d@) == m as nat * pow2(i as nat),
        decreases k - i,
    {
        let ghost before = d@;
        double_digits(&mut d, 0, 0);
        proof {
            assert(before.skip(0) =~= before);
            assert(d@.skip(0) =~= d@);
            lemma_pow2_unfold((i + 1) as nat);
            let p = pow2(i as nat);
            assert(2 * (m as nat * p) == m as nat * (2 * p)) by (nonlinear_arith);
        }
        i = i + 1;
    }
    digits_string(&d)
}

/// 2 to the power `k`.
fn power(k: u64) -> (p: u64)
    requires
        k < 64,
    ensures
        p == pow2(k as nat),
{
    let mut p: u64 = 1;
    let mut i: u64 = 0;
    proof {
        lemma2_to64();
    }
    while i < k
        invariant
            i <= k < 64,
            p == pow2(i as nat),
        decreases k - i,
    {
        proof {
            lemma_pow2_unfold((i + 1) as nat);
            if i + 1 < 63 {
                lemma_pow2_strictly_increases((i + 1) as nat, 63);
            }
            lemma_power_63();
        }
        p = p * 2;
        i = i + 1;
    }
    p
}

proof fn lemma_power_63()
    ensures
        pow2(63) == 0x8000_0000_0000_0000,
{
    lemma2_to64();
    lemma_pow2_adds(32, 31);
}

/// The two digits after the point.
pub open spec fn two_digits(n: nat) -> Seq<char> {
    seq![crate::text::digit((n / 10) % 10), crate::text::digit(n % 10)]
}

impl Double {
    /// The absolute value in hundredths, rounded half to even.
    pub open spec fn hundredths(self) -> nat {
        rounded(100 * self.units(), pow2(1074))
    }

    /// The number with two decimals, as `{:.2}` prints it.
    pub open spec fn two_decimals(self) -> Seq<char> {
        if self.nan() {
            "NaN"@
        } else {
            let sign = if self.negative() {
                "-"@
            } else {
                ""@
            };
            if self.finite() {
                let n = self.hundredths();
                sign + (crate::text::decimal(n / 100) + "."@ + two_digits(n))
            } else {
                sign + "inf"@
            }
        }
    }

    /// The number with two decimals, rounded half to even.
    pub fn shown(self) -> (r: String)
        ensures
            r@ == self.two_decimals(),
    {
        let (negative, magnitude) = self.split();
        if magnitude > INFINITE {
            return "NaN".to_string();
        }
        let sign = if negative {
            "-"
        } else {
            ""
        };
        if magnitude == INFINITE {
            return concat2(sign, "inf");
        }
        let exponent: u64 = magnitude / HIDDEN;
        let fraction: u64 = magnitude % HIDDEN;
        let m: u64 = if exponent == 0 {
            fraction
        } else {
            HIDDEN + fraction
        };
        let shift: u64 = if exponent == 0 {
            0
        } else {
            exponent - 1
        };
        assert(m == self.significand() && shift == self.shift());
        if shift >= 1074 {
            let k: u64 = shift - 1074;
            let whole = shifted_text(m, k);
            proof {
                lemma_pow2_adds(k as nat, 1074);
                lemma_pow2_pos(1074);
                let w = m as nat * pow2(k as nat);
                let p = pow2(1074);
                assert(100 * (m as nat * (pow2(k as nat) * p)) == (100 * w) * p
                    + 0) by (nonlinear_arith)
                    requires
                        w == m as nat * pow2(k as nat),
                ;
                lemma_fundamental_div_mod_converse(
                    100 * self.units() as int,
                    p as int,
                    100 * w as int,
                    0,
                );
                assert(self.hundredths() == 100 * w);
                assert((100 * w) as nat / 100 == w && (100 * w) as nat % 10 == 0 && ((100
                    * w) as nat / 10) % 10 == 0);
                reveal_strlit(".00");
                reveal_strlit(".");
                assert(".00"@ =~= "."@ + two_digits(100 * w));
                assert(crate::text::decimal(w) + ".00"@ =~= crate::text::decimal(w) + "."@
                    + two_digits(100 * w));
            }
            let body = concat2(whole.as_str(), ".00");
            return concat2(sign, body.as_str());
        }
        let s: u64 = 1074 - shift;
        let n: u64 = if s >= 62 {
            0
        } else {
            let p = power(s);
            proof {
                lemma_pow2_pos(s as nat);
            }
            let q: u64 = 100 * m / p;
            let r: u64 = 100 * m % p;
            proof {
                if s < 61 {
                    lemma_pow2_strictly_increases(s as nat, 61);
                }
                lemma2_to64();
                lemma_pow2_adds(32, 29);
            }
            if 2 * r < p {
                q
            } else if 2 * r > p {
                q + 1
            } else {
                q + q % 2
            }
        };
        proof {
            lemma_pow2_adds(s as nat, shift as nat);
            lemma_pow2_pos(s as nat);
            lemma_pow2_pos(shift as nat);
            let b = pow2(s as nat);
            let c = pow2(shift as nat);
            assert(100 * (m as nat * c) == (100 * m as nat) * c) by (nonlinear_arith);
            lemma_rounded_scales(100 * m as nat, b, c);
            if s >= 62 {
                lemma2_to64();
                lemma_pow2_adds(32, 30);
                if s > 62 {
                    lemma_pow2_strictly_increases(62, s as nat);
                }
                lemma_fundamental_div_mod_converse(
                    100 * m as int,
                    b as int,
                    0,
                    100 * m as int,
                );
            }
            assert(n == self.hundredths());
        }
        let whole = decimal_text(n / 100);
        let mut body = concat2(whole.as_str(), ".");
        let tens: u8 = ((n / 10) % 10) as u8;
        let ones: u8 = (n % 10) as u8;
        body.push((48u8 + tens) as char);
        body.push((48u8 + ones) as char);
        assert(body@ =~= crate::text::decimal(n as nat / 100) + "."@ + two_digits(n as nat));
        concat2(sign, body.as_str())
    }
}

/// The smaller of two numbers is one of them and above neither.
pub proof fn law_the_smaller_is_above_neither(a: Double, b: Double)
    ensures
        a.min_of(b) == a || a.min_of(b) == b,
        !a.lt(a.min_of(b)),
        !b.lt(a.min_of(b)),
        a.nan() ==> a.min_of(b) == b,
        b.nan() ==> a.min_of(b) == a || a.nan(),
{
}

} // verus!
