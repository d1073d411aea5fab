//! Single-precision numbers held as their bit pattern.
//!
//! The library never computes with a floating-point unit. It needs to know
//! whether a value is finite, how two values compare, how far a value is from
//! an integer, and whether a product is below zero; all of these are exact
//! functions of the bits.

use vstd::arithmetic::div_mod::lemma_fundamental_div_mod_converse;
use vstd::arithmetic::power2::{
    lemma2_to64, lemma2_to64_rest, lemma_pow2_adds, lemma_pow2_pos, lemma_pow2_unfold, pow2,
};
use vstd::prelude::*;

verus! {

/// A single-precision value, by its IEEE-754 bit pattern.
#[derive(Clone, Copy, Debug, PartialEq, Eq, Structural)]
pub struct Single {
    pub bits: u32,
}

pub const SIGN: u32 = 0x8000_0000;

pub const INFINITE: u32 = 0x7f80_0000;

pub const QUIET_NAN: u32 = 0x7fc0_0000;

pub const ONE: u32 = 0x3f80_0000;

impl Single {
    /// The bits without the sign.
    pub open spec fn magnitude(self) -> int {
        if self.bits >= SIGN {
            self.bits - SIGN
        } else {
            self.bits as int
        }
    }

    pub open spec fn negative(self) -> bool {
        self.bits >= SIGN
    }

    pub open spec fn nan(self) -> bool {
        self.magnitude() > INFINITE
    }

    pub open spec fn finite(self) -> bool {
        self.magnitude() < INFINITE
    }

    /// Position on the number line: of two values that are not NaN, the one
    /// with the smaller position is the smaller number, and equal positions
    /// mean equal numbers (both zeros have position 0).
    pub open spec fn position(self) -> int {
        if self.negative() {
            -self.magnitude()
        } else {
            self.magnitude()
        }
    }

    /// `self < other` as numbers: false as soon as one of them is NaN.
    pub open spec fn less(self, other: Single) -> bool {
        !self.nan() && !other.nan() && self.position() < other.position()
    }

    /// `self <= other` as numbers.
    pub open spec fn at_most(self, other: Single) -> bool {
        !self.nan() && !other.nan() && self.position() <= other.position()
    }

    /// `self == other` as numbers: both zeros are equal, and NaN is equal to
    /// nothing.
    pub open spec fn equals(self, other: Single) -> bool {
        !self.nan() && !other.nan() && self.position() == other.position()
    }

    /// The biased exponent of a value, with subnormals taken at exponent 1.
    pub open spec fn exponent(self) -> int {
        if self.magnitude() / 0x80_0000 == 0 {
            1
        } else {
            self.magnitude() / 0x80_0000
        }
    }

    /// The 24-bit significand, hidden bit included.
    pub open spec fn significand(self) -> int {
        if self.magnitude() / 0x80_0000 == 0 {
            self.magnitude() % 0x80_0000
        } else {
            0x80_0000 + self.magnitude() % 0x80_0000
        }
    }

    /// The absolute value in units of 2^-149, the smallest subnormal: every
    /// finite value is a whole number of these.
    pub open spec fn units(self) -> int {
        self.significand() * pow2((self.exponent() - 1) as nat)
    }

    pub fn is_negative(self) -> (yes: bool)
        ensures
            yes == self.negative(),
    {
        self.bits >= SIGN
    }

    fn magnitude_bits(self) -> (m: u32)
        ensures
            m == self.magnitude(),
    {
        if self.bits >= SIGN {
            self.bits - SIGN
        } else {
            self.bits
        }
    }

    pub fn is_nan(self) -> (yes: bool)
        ensures
            yes == self.nan(),
    {
        self.magnitude_bits() > INFINITE
    }

    pub fn is_finite(self) -> (yes: bool)
        ensures
            yes == self.finite(),
    {
        self.magnitude_bits() < INFINITE
    }

    fn signed_position(self) -> (p: i64)
        ensures
            p == self.position(),
    {
        let m: i64 = self.magnitude_bits() as i64;
        if self.bits >= SIGN {
            -m
        } else {
            m
        }
    }

    pub fn is_less(self, other: Single) -> (yes: bool)
        ensures
            yes == self.less(other),
    {
        !self.is_nan() && !other.is_nan() && self.signed_position() < other.signed_position()
    }

    pub fn is_at_most(self, other: Single) -> (yes: bool)
        ensures
            yes == self.at_most(other),
    {
        !self.is_nan() && !other.is_nan() && self.signed_position() <= other.signed_position()
    }
}

impl Single {
    pub fn is_equal(self, other: Single) -> (yes: bool)
        ensures
            yes == self.equals(other),
    {
        !self.is_nan() && !other.is_nan() && self.signed_position() == other.signed_position()
    }

    /// The value with its sign changed.
    pub open spec fn opposite(self) -> Single {
        Single {
            bits: if self.bits >= SIGN {
                (self.bits - SIGN) as u32
            } else {
                (self.bits + SIGN) as u32
            },
        }
    }

    pub fn negated(self) -> (out: Single)
        ensures
            out == self.opposite(),
            out.nan() == self.nan(),
            out.position() == -self.position(),
    {
        if self.bits >= SIGN {
            Single { bits: self.bits - SIGN }
        } else {
            Single { bits: self.bits + SIGN }
        }
    }
}

/// One in units of 2^-149.
pub open spec fn whole() -> int {
    pow2(149) as int
}

impl Single {
    /// The nearest integer of the absolute value, halves upwards.
    pub open spec fn nearest(self) -> int {
        (2 * self.units() + whole()) / (2 * whole())
    }

    /// How far the absolute value is from that integer, in units.
    pub open spec fn distance(self) -> int {
        let d = self.units() - self.nearest() * whole();
        if d < 0 {
            -d
        } else {
            d
        }
    }
}

/// The single-precision value of 0.0001: a code may be off by less than this.
pub const CODE_TOLERANCE: u32 = 0x38d1_b717;

/// What a value says as a category code.
#[derive(Clone, Copy, Debug, PartialEq, Eq, Structural)]
pub enum CodeCheck {
    NotInteger,
    OutOfRange,
    Code(usize),
}

/// The code that a finite value stands for, if it is a whole number (up to
/// the tolerance) from 0 to `cardinality - 1`.
pub open spec fn code_check(v: Single, cardinality: usize) -> CodeCheck {
    if v.distance() >= (Single { bits: CODE_TOLERANCE }).units() {
        CodeCheck::NotInteger
    } else if v.nearest() >= cardinality || (v.negative() && v.nearest() > 0) {
        CodeCheck::OutOfRange
    } else {
        CodeCheck::Code(v.nearest() as usize)
    }
}

fn power_of_two(k: u32) -> (p: u64)
    requires
        k < 64,
    ensures
        p == pow2(k as nat),
{
    let mut p: u64 = 1;
    let mut j: u32 = 0;
    proof {
        lemma2_to64();
    }
    while j < k
        invariant
            j <= k < 64,
            p == pow2(j as nat),
        decreases k - j,
    {
        proof {
            lemma_pow2_unfold((j + 1) as nat);
            lemma_pow2_below_64((j + 1) as nat);
        }
        p = p * 2;
        j += 1;
    }
    p
}

proof fn lemma_pow2_below_64(k: nat)
    requires
        k < 64,
    ensures
        pow2(k) <= 0x8000_0000_0000_0000,
    decreases 64 - k,
{
    lemma2_to64();
    if k < 63 {
        lemma_pow2_below_64(k + 1);
        lemma_pow2_unfold(k + 1);
    } else {
        lemma_pow2_adds(31, 32);
        assert(pow2(31) * pow2(32) == 0x8000_0000_0000_0000) by {
            lemma2_to64();
        }
    }
}

/// The nearest integer and the distance of `q * w + part`, where `w` is a
/// whole and `part` less than it.
proof fn lemma_nearest(q: int, part: int, w: int)
    requires
        0 <= q,
        0 <= part < w,
    ensures
        2 * part < w ==> (2 * (q * w + part) + w) / (2 * w) == q,
        2 * part >= w ==> (2 * (q * w + part) + w) / (2 * w) == q + 1,
{
    let n = 2 * (q * w + part) + w;
    if 2 * part < w {
        assert(n == q * (2 * w) + (2 * part + w)) by (nonlinear_arith)
            requires
                n == 2 * (q * w + part) + w,
        ;
        lemma_fundamental_div_mod_converse(n, 2 * w, q, 2 * part + w);
    } else {
        assert(n == (q + 1) * (2 * w) + (2 * part - w)) by (nonlinear_arith)
            requires
                n == 2 * (q * w + part) + w,
        ;
        lemma_fundamental_div_mod_converse(n, 2 * w, q + 1, 2 * part - w);
    }
}

proof fn lemma_tolerance()
    ensures
        (Single { bits: CODE_TOLERANCE }).units() == 13743895 * pow2(112),
{
    let t = Single { bits: CODE_TOLERANCE };
    assert(t.magnitude() == 0x38d1_b717);
    assert(t.magnitude() / 0x80_0000 == 113);
    assert(t.magnitude() % 0x80_0000 == 0x51b717);
}

/// A value of exponent 150 or more is a whole number.
proof fn lemma_large(v: Single)
    requires
        v.exponent() >= 150,
    ensures
        v.nearest() == v.significand() * pow2((v.exponent() - 150) as nat),
        v.distance() == 0,
{
    let m = v.significand();
    let e = v.exponent();
    let r = m * pow2((e - 150) as nat);
    lemma_pow2_adds((e - 150) as nat, 149);
    lemma_pow2_pos(149);
    lemma_pow2_pos((e - 150) as nat);
    assert(v.units() == r * whole()) by (nonlinear_arith)
        requires
            v.units() == m * pow2((e - 1) as nat),
            pow2((e - 1) as nat) == pow2((e - 150) as nat) * pow2(149),
            r == m * pow2((e - 150) as nat),
            whole() == pow2(149),
    ;
    assert(r >= 0) by (nonlinear_arith)
        requires
            r == m * pow2((e - 150) as nat),
            m >= 0,
    ;
    lemma_nearest(r, 0, whole());
}

/// A value of exponent `150 - k`, as a multiple of 2^-k.
proof fn lemma_small(v: Single, k: nat, q: int, rem: int)
    requires
        1 <= k <= 149,
        v.exponent() == 150 - k,
        v.significand() == q * pow2(k) + rem,
        0 <= rem < pow2(k),
        0 <= q,
    ensures
        2 * rem < pow2(k) ==> v.nearest() == q && v.distance() == rem * pow2((149 - k) as nat),
        2 * rem >= pow2(k) ==> v.nearest() == q + 1 && v.distance() == (pow2(k) - rem) * pow2(
            (149 - k) as nat,
        ),
{
    let m = v.significand();
    let a = pow2((149 - k) as nat) as int;
    let p = pow2(k) as int;
    lemma_pow2_adds(k, (149 - k) as nat);
    lemma_pow2_pos((149 - k) as nat);
    assert(whole() == p * a);
    let part = rem * a;
    assert(v.units() == q * whole() + part) by (nonlinear_arith)
        requires
            v.units() == m * a,
            m == q * p + rem,
            part == rem * a,
            whole() == p * a,
    ;
    assert(0 <= part < whole()) by (nonlinear_arith)
        requires
            part == rem * a,
            whole() == p * a,
            0 <= rem < p,
            a > 0,
    ;
    assert((2 * part < whole()) == (2 * rem < p)) by (nonlinear_arith)
        requires
            part == rem * a,
            whole() == p * a,
            a > 0,
    ;
    lemma_nearest(q, part, whole());
    if 2 * rem >= p {
        assert(v.units() - (q + 1) * whole() == -((p - rem) * a)) by (nonlinear_arith)
            requires
                v.units() == q * whole() + part,
                part == rem * a,
                whole() == p * a,
        ;
        assert((p - rem) * a > 0) by (nonlinear_arith)
            requires
                rem < p,
                a > 0,
        ;
    }
}

impl Single {
    /// Reads a finite value as a category code.
    pub fn category_code(self, cardinality: usize) -> (code: CodeCheck)
        requires
            self.finite(),
        ensures
            code == code_check(self, cardinality),
    {
        let magnitude: u32 = self.magnitude_bits();
        let raw: u32 = magnitude / 0x80_0000;
        let fraction: u32 = magnitude % 0x80_0000;
        let exponent: u32 = if raw == 0 {
            1
        } else {
            raw
        };
        let significand: u64 = if raw == 0 {
            fraction as u64
        } else {
            0x80_0000 + fraction as u64
        };
        proof {
            lemma_tolerance();
            lemma_pow2_pos(112);
            assert(exponent == self.exponent() && significand == self.significand());
        }
        if exponent >= 150 {
            proof {
                lemma_large(self);
            }
            let mut value: u64 = significand;
            let mut j: u32 = 150;
            proof {
                lemma2_to64();
                assert(pow2((j - 150) as nat) == 1);
            }
            while j < exponent
                invariant
                    150 <= j <= exponent,
                    exponent == self.exponent(),
                    self.nearest() == significand * pow2((exponent - 150) as nat),
                    self.distance() == 0,
                    (Single { bits: CODE_TOLERANCE }).units() > 0,
                    value == significand * pow2((j - 150) as nat),
                decreases exponent - j,
            {
                proof {
                    lemma_pow2_unfold((j + 1 - 150) as nat);
                    assert(value * 2 == significand * pow2((j + 1 - 150) as nat))
                        by (nonlinear_arith)
                        requires
                            value == significand * pow2((j - 150) as nat),
                            pow2((j + 1 - 150) as nat) == 2 * pow2((j - 150) as nat),
                    ;
                    lemma_grows(
                        significand as int,
                        (j + 1 - 150) as nat,
                        (exponent - 150) as nat,
                    );
                }
                match value.checked_mul(2) {
                    Some(doubled) => {
                        value = doubled;
                    },
                    None => {
                        return CodeCheck::OutOfRange;
                    },
                }
                j += 1;
            }
            if value >= cardinality as u64 || (self.is_negative() && value > 0) {
                return CodeCheck::OutOfRange;
            }
            return CodeCheck::Code(value as usize);
        }
        let k: u32 = 150 - exponent;
        if k > 37 {
            proof {
                lemma_tiny(self, k as nat);
            }
            if cardinality == 0 {
                return CodeCheck::OutOfRange;
            }
            return CodeCheck::Code(0);
        }
        let p: u64 = power_of_two(k);
        proof {
            lemma_pow2_pos(k as nat);
        }
        let q: u64 = significand / p;
        let rem: u64 = significand % p;
        proof {
            assert(significand == q * p + rem) by (nonlinear_arith)
                requires
                    q == significand / p,
                    rem == significand % p,
                    p > 0,
            ;
            lemma_small(self, k as nat, q as int, rem as int);
            lemma_pow2_at_most_37(k as nat);
        }
        let up: bool = 2 * rem >= p;
        let off: u64 = if up {
            p - rem
        } else {
            rem
        };
        let scale: u64 = power_of_two(37 - k);
        proof {
            lemma_pow2_adds(112, (37 - k) as nat);
            lemma_pow2_adds(k as nat, (37 - k) as nat);
            lemma_pow2_at_most_37(37);
            assert(p * scale == pow2(37));
            assert(off * scale <= p * scale) by (nonlinear_arith)
                requires
                    off <= p,
            ;
            assert((off * scale >= 13743895) == (off * (pow2(112) * scale) >= 13743895 * pow2(
                112,
            ))) by (nonlinear_arith)
                requires
                    pow2(112) > 0,
            ;
        }
        if off * scale >= 13743895 {
            return CodeCheck::NotInteger;
        }
        let value: u64 = if up {
            q + 1
        } else {
            q
        };
        if value >= cardinality as u64 || (self.is_negative() && value > 0) {
            return CodeCheck::OutOfRange;
        }
        CodeCheck::Code(value as usize)
    }
}

proof fn lemma_pow2_at_most_37(k: nat)
    requires
        k <= 37,
    ensures
        pow2(k) <= 0x20_0000_0000,
    decreases 37 - k,
{
    if k < 37 {
        lemma_pow2_at_most_37(k + 1);
        lemma_pow2_unfold(k + 1);
    } else {
        lemma2_to64();
        lemma_pow2_adds(32, 5);
    }
}

proof fn lemma_grows(m: int, a: nat, b: nat)
    requires
        m >= 0,
        a <= b,
    ensures
        m * pow2(a) <= m * pow2(b),
    decreases b - a,
{
    if a < b {
        lemma_grows(m, a, (b - 1) as nat);
        lemma_pow2_unfold(b);
        assert(m * pow2((b - 1) as nat) <= m * pow2(b)) by (nonlinear_arith)
            requires
                m >= 0,
                pow2(b) == 2 * pow2((b - 1) as nat),
        ;
    }
}

/// A value below 2^-14 rounds to 0 and is within the tolerance of it.
proof fn lemma_tiny(v: Single, k: nat)
    requires
        38 <= k <= 149,
        v.exponent() == 150 - k,
        v.finite(),
    ensures
        v.nearest() == 0,
        v.distance() < (Single { bits: CODE_TOLERANCE }).units(),
{
    let m = v.significand();
    let a = pow2((149 - k) as nat) as int;
    lemma_tolerance();
    lemma_pow2_pos((149 - k) as nat);
    lemma_grows(1, (149 - k) as nat, 111);
    lemma_pow2_unfold(112);
    lemma_pow2_adds(37, 112);
    lemma2_to64();
    lemma_pow2_adds(32, 5);
    assert(0 <= m < 0x100_0000);
    assert(0 <= m * a <= 0x100_0000 * pow2(111)) by (nonlinear_arith)
        requires
            0 <= m < 0x100_0000,
            0 < a <= pow2(111),
    ;
    assert(whole() == 0x20_0000_0000 * pow2(112));
    lemma_nearest(0, v.units(), whole());
}

impl Single {
    /// Whether the product of two values, in single precision, is below zero.
    /// Where both are finite, the product is `units * units` in units of
    /// 2^-298, and it becomes zero up to 2^-150, half the smallest subnormal.
    pub open spec fn opposes(self, other: Single) -> bool {
        &&& !self.nan() && !other.nan()
        &&& self.negative() != other.negative()
        &&& self.magnitude() != 0 && other.magnitude() != 0
        &&& !self.finite() || !other.finite() || self.units() * other.units() > pow2(148)
    }

    fn parts(self) -> (parts: (u32, u64))
        requires
            self.finite(),
        ensures
            parts.0 == self.exponent(),
            parts.1 == self.significand(),
            1 <= parts.0 <= 254,
            parts.1 < 0x100_0000,
            self.magnitude() != 0 ==> parts.1 > 0,
    {
        let magnitude: u32 = self.magnitude_bits();
        let raw: u32 = magnitude / 0x80_0000;
        let fraction: u32 = magnitude % 0x80_0000;
        if raw == 0 {
            (1, fraction as u64)
        } else {
            (raw, 0x80_0000 + fraction as u64)
        }
    }

    pub fn is_opposed(self, other: Single) -> (yes: bool)
        ensures
            yes == self.opposes(other),
    {
        if self.is_nan() || other.is_nan() || self.is_negative() == other.is_negative()
            || self.magnitude_bits() == 0 || other.magnitude_bits() == 0 {
            return false;
        }
        if !self.is_finite() || !other.is_finite() {
            return true;
        }
        let (e1, s1) = self.parts();
        let (e2, s2) = other.parts();
        assert(0 < s1 * s2 < 0x1_0000_0000_0000) by (nonlinear_arith)
            requires
                0 < s1 < 0x100_0000,
                0 < s2 < 0x100_0000,
        ;
        let m: u64 = s1 * s2;
        let e: u32 = (e1 - 1) + (e2 - 1);
        proof {
            lemma_product(self, other);
            lemma_pow2_pos(e as nat);
            if e >= 148 {
                lemma_grows(1, 148, e as nat);
                if e > 148 {
                    lemma_pow2_unfold(149);
                    lemma_pow2_pos(148);
                    lemma_grows(1, 149, e as nat);
                }
            } else {
                lemma_pow2_adds((148 - e) as nat, e as nat);
            }
        }
        if e > 148 {
            assert(m * pow2(e as nat) >= pow2(e as nat)) by (nonlinear_arith)
                requires
                    m >= 1,
                    pow2(e as nat) > 0,
            ;
            return true;
        }
        if e == 148 {
            assert((m * pow2(148) > pow2(148)) == (m > 1)) by (nonlinear_arith)
                requires
                    m >= 1,
                    pow2(148) > 0,
            ;
            return m > 1;
        }
        let k: u32 = 148 - e;
        let ghost p = pow2(k as nat);
        assert((m * pow2(e as nat) > p * pow2(e as nat)) == (m > p)) by (nonlinear_arith)
            requires
                pow2(e as nat) > 0,
        ;
        if k >= 48 {
            proof {
                lemma2_to64_rest();
                lemma_grows(1, 48, k as nat);
            }
            return false;
        }
        m > power_of_two(k)
    }
}

proof fn lemma_product(a: Single, b: Single)
    requires
        a.finite(),
        b.finite(),
    ensures
        a.units() * b.units() == (a.significand() * b.significand()) * pow2(
            ((a.exponent() - 1) + (b.exponent() - 1)) as nat,
        ),
{
    let p = pow2((a.exponent() - 1) as nat);
    let q = pow2((b.exponent() - 1) as nat);
    lemma_pow2_adds((a.exponent() - 1) as nat, (b.exponent() - 1) as nat);
    let s = a.significand();
    let t = b.significand();
    assert((s * p) * (t * q) == (s * t) * (p * q)) by (nonlinear_arith);
}

pub open spec fn zero() -> Single {
    Single { bits: 0 }
}

pub open spec fn one() -> Single {
    Single { bits: ONE }
}

/// Of any two numbers exactly one of "less", "equal position" and "greater"
/// holds, and NaN compares with nothing.
pub proof fn law_order_is_total(a: Single, b: Single)
    ensures
        !a.nan() && !b.nan() ==> (a.less(b) || b.less(a) || a.position() == b.position()),
        !(a.less(b) && b.less(a)),
        a.nan() ==> !a.less(b) && !b.less(a) && !a.at_most(b) && !b.at_most(a),
        !a.nan() && !b.nan() ==> a.at_most(b) == !b.less(a),
{
}

/// How bit patterns compare as numbers. Of two patterns without the sign bit the
/// smaller one is the smaller number, of two with it the larger one, and a
/// pattern with the sign bit is below one without it, but both zeros are equal.
/// Infinity is the pattern with all bits of the exponent and no others; a
/// pattern beyond it is not a number and compares with nothing.
pub proof fn law_patterns_compare_as_numbers(a: Single, b: Single)
    ensures
        a.nan() <==> 0x7f80_0000 < a.bits < 0x8000_0000 || 0xff80_0000 < a.bits,
        a.finite() <==> a.bits < 0x7f80_0000 || 0x8000_0000 <= a.bits < 0xff80_0000,
        a.nan() || b.nan() ==> !a.less(b) && !a.at_most(b) && !a.equals(b),
        !a.nan() && !b.nan() && a.bits < 0x8000_0000 && b.bits < 0x8000_0000 ==> {
            &&& a.less(b) <==> a.bits < b.bits
            &&& a.at_most(b) <==> a.bits <= b.bits
            &&& a.equals(b) <==> a.bits == b.bits
        },
        !a.nan() && !b.nan() && a.bits >= 0x8000_0000 && b.bits >= 0x8000_0000 ==> {
            &&& a.less(b) <==> a.bits > b.bits
            &&& a.at_most(b) <==> a.bits >= b.bits
            &&& a.equals(b) <==> a.bits == b.bits
        },
        !a.nan() && !b.nan() && a.bits >= 0x8000_0000 && b.bits < 0x8000_0000 ==> {
            &&& a.at_most(b)
            &&& a.less(b) <==> !(a.bits == 0x8000_0000 && b.bits == 0)
            &&& a.equals(b) <==> a.bits == 0x8000_0000 && b.bits == 0
            &&& b.equals(a) <==> a.bits == 0x8000_0000 && b.bits == 0
            &&& !b.less(a)
        },
{
}

/// A category code is the whole number that the value is next to: closer than
/// the tolerance of 0.0001, not negative and below the number of categories. A
/// value that no whole number is that close to is no code.
pub proof fn law_a_code_is_the_number_next_to_the_value(v: Single, cardinality: usize, m: int)
    requires
        v.finite(),
        0 <= m,
    ensures
        ({
            let gap = v.units() - m * pow2(149);
            let near = -13743895 * pow2(112) < gap && gap < 13743895 * pow2(112);
            match code_check(v, cardinality) {
                CodeCheck::Code(c) => {
                    &&& c < cardinality
                    &&& near <==> m == c
                    &&& v.bits < 0x8000_0000 || c == 0
                },
                CodeCheck::NotInteger => !near,
                CodeCheck::OutOfRange => near ==> m >= cardinality || (v.bits >= 0x8000_0000 && m
                    > 0),
            }
        }),
{
    lemma_tolerance();
    lemma_nearest_is_next(v, m);
}

/// Of all whole numbers only the nearest one can be within the tolerance.
proof fn lemma_nearest_is_next(v: Single, m: int)
    requires
        v.finite(),
        0 <= m,
    ensures
        ({
            let gap = v.units() - m * pow2(149);
            let near = -13743895 * pow2(112) < gap && gap < 13743895 * pow2(112);
            near <==> m == v.nearest() && v.distance() < 13743895 * pow2(112)
        }),
        v.nearest() >= 0,
{
    let w = whole();
    let u = v.units();
    let t = 13743895 * pow2(112) as int;
    lemma_pow2_pos(149);
    lemma_pow2_pos(112);
    lemma_pow2_pos((v.exponent() - 1) as nat);
    lemma_pow2_adds(37, 112);
    lemma2_to64();
    lemma_pow2_adds(32, 5);
    assert(w == 0x20_0000_0000 * pow2(112));
    assert(2 * t < w);
    assert(u >= 0) by (nonlinear_arith)
        requires
            u == v.significand() * pow2((v.exponent() - 1) as nat),
            v.significand() >= 0,
    ;
    let q = u / w;
    let part = u % w;
    vstd::arithmetic::div_mod::lemma_fundamental_div_mod(u, w);
    vstd::arithmetic::div_mod::lemma_div_pos_is_pos(u, w);
    vstd::arithmetic::div_mod::lemma_mod_bound(u, w);
    assert(u == q * w + part) by (nonlinear_arith)
        requires
            u == w * q + part,
    ;
    lemma_nearest(q, part, w);
    let n = v.nearest();
    let gap = u - m * w;
    assert(m > q + 1 ==> gap <= -w) by (nonlinear_arith)
        requires
            u == q * w + part,
            part < w,
            gap == u - m * w,
            w > 0,
    ;
    assert(m < q ==> gap >= w) by (nonlinear_arith)
        requires
            u == q * w + part,
            part >= 0,
            gap == u - m * w,
            w > 0,
    ;
    assert(m == q ==> gap == part) by (nonlinear_arith)
        requires
            u == q * w + part,
            gap == u - m * w,
    ;
    assert(m == q + 1 ==> gap == part - w) by (nonlinear_arith)
        requires
            u == q * w + part,
            gap == u - m * w,
    ;
    assert(n == q ==> u - n * w == part) by (nonlinear_arith)
        requires
            u == q * w + part,
    ;
    assert(n == q + 1 ==> u - n * w == part - w) by (nonlinear_arith)
        requires
            u == q * w + part,
    ;
}

/// Two values oppose each other only if one is below zero and the other above
/// it, whichever comes first, and any two such numbers do that are not tiny.
pub proof fn law_opposed_values_have_different_signs(a: Single, b: Single)
    ensures
        a.opposes(b) == b.opposes(a),
        a.opposes(b) ==> (a.less(zero()) && zero().less(b)) || (zero().less(a) && b.less(zero())),
        a.less(Single { bits: 0x9a00_0000 }) && (Single { bits: 0x1a00_0000 }).less(b)
            ==> a.opposes(b),
{
    assert(a.units() * b.units() == b.units() * a.units()) by (nonlinear_arith);
    if a.less(Single { bits: 0x9a00_0000 }) && (Single { bits: 0x1a00_0000 }).less(b) && a.finite()
        && b.finite() {
        assert(a.magnitude() > 0x1a00_0000 && b.magnitude() > 0x1a00_0000);
        lemma_large_units(a);
        lemma_large_units(b);
        lemma_pow2_adds(74, 74);
        lemma_pow2_pos(74);
        assert(a.units() * b.units() > pow2(148)) by (nonlinear_arith)
            requires
                a.units() > pow2(74),
                b.units() > pow2(74),
                pow2(148) == pow2(74) * pow2(74),
                pow2(74) > 0,
        ;
    }
}

/// From 2^-75 on a value has at least 2^74 units.
proof fn lemma_large_units(v: Single)
    requires
        v.magnitude() > 0x1a00_0000,
    ensures
        v.units() > pow2(74),
{
    let e = v.exponent();
    let m = v.significand();
    assert(v.magnitude() / 0x80_0000 >= 52);
    assert(e >= 52);
    assert(m >= 0x80_0000);
    lemma2_to64();
    lemma_pow2_adds(23, 51);
    lemma_grows(m, 51, (e - 1) as nat);
    lemma_pow2_pos(51);
    if m == 0x80_0000 {
        assert(e >= 53);
        lemma_pow2_unfold(52);
        lemma_grows(m, 52, (e - 1) as nat);
        assert(m * pow2(52) == 2 * (m * pow2(51))) by (nonlinear_arith)
            requires
                pow2(52) == 2 * pow2(51),
        ;
        assert(m * pow2(51) == pow2(74));
        lemma_pow2_pos(74);
    } else {
        assert(m * pow2(51) > 0x80_0000 * pow2(51)) by (nonlinear_arith)
            requires
                m > 0x80_0000,
                pow2(51) > 0,
        ;
    }
}

/// What a pattern is worth: below two to the power of 24 the pattern itself,
/// and beyond that a step of the exponent doubles it. The sign does not change
/// the absolute value.
pub proof fn law_a_step_of_the_exponent_doubles(bits: u32)
    requires
        bits < 0x7f80_0000,
    ensures
        bits < 0x100_0000 ==> (Single { bits }).units() == bits,
        0x80_0000 <= bits < 0x7f00_0000 ==> (Single { bits: (bits + 0x80_0000) as u32 }).units()
            == 2 * (Single { bits }).units(),
        (Single { bits: (bits + 0x8000_0000) as u32 }).units() == (Single { bits }).units(),
{
    let v = Single { bits };
    vstd::arithmetic::power2::lemma2_to64();
    if bits < 0x100_0000 {
        assert(v.exponent() == 1);
        assert(pow2(0) == 1);
        assert(v.significand() == bits);
        assert(v.units() == v.significand() * 1);
    }
    if 0x80_0000 <= bits < 0x7f00_0000 {
        let w = Single { bits: (bits + 0x80_0000) as u32 };
        assert(w.exponent() == v.exponent() + 1);
        assert(w.significand() == v.significand());
        let e = (v.exponent() - 1) as nat;
        vstd::arithmetic::power2::lemma_pow2_unfold(e + 1);
        assert(pow2(e + 1) == 2 * pow2(e));
        assert(v.significand() * (2 * pow2(e)) == 2 * (v.significand() * pow2(e)))
            by (nonlinear_arith);
    }
}

} // verus!
