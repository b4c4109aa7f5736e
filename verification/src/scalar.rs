//! Measured values.
//!
//! A [`Scalar`] is an IEEE-754 binary64 number held by its bit pattern. Order
//! is decided on the pattern alone, by the [ordinal](Scalar::ord) of the
//! number: a signed integer that grows with the number it stands for.
//! Subtraction, multiplication and division are carried out by a software
//! implementation of the IEEE operations; contracts know their results by
//! name only.

use rustc_apfloat::Float;
use vstd::prelude::*;

verus! {

/// The pattern of the sign bit: the smallest pattern of a negative number.
pub const SIGN_BIT: u64 = 0x8000_0000_0000_0000;

/// The pattern of the number two.
pub const TWO: u64 = 0x4000_0000_0000_0000;

/// A binary64 number, by its bit pattern.
#[derive(Clone, Copy, Debug, PartialEq, Eq, Structural)]
pub struct Scalar {
    pub bits: u64,
}

/// The pattern of the rounded difference `a - b`.
pub uninterp spec fn ieee_sub(a: u64, b: u64) -> u64;

/// The pattern of the rounded product `a * b`.
pub uninterp spec fn ieee_mul(a: u64, b: u64) -> u64;

/// The pattern of the rounded quotient `a / b`.
pub uninterp spec fn ieee_div(a: u64, b: u64) -> u64;

/// `rustc_apfloat`'s `Sub` on `ieee::Double`, between `from_bits` and
/// `to_bits`: the difference, rounded to nearest with ties to even, depends
/// on the two patterns alone. Nothing is claimed of its value.
#[verifier::external_body]
fn soft_sub(a: u64, b: u64) -> (r: u64)
    ensures
        r == ieee_sub(a, b),
{
    let x = rustc_apfloat::ieee::Double::from_bits(u128::from(a));
    let y = rustc_apfloat::ieee::Double::from_bits(u128::from(b));
    (x - y).value.to_bits() as u64
}

/// `rustc_apfloat`'s `Mul` on `ieee::Double`, between `from_bits` and
/// `to_bits`: the product, rounded to nearest with ties to even, depends on
/// the two patterns alone. Nothing is claimed of its value.
#[verifier::external_body]
fn soft_mul(a: u64, b: u64) -> (r: u64)
    ensures
        r == ieee_mul(a, b),
{
    let x = rustc_apfloat::ieee::Double::from_bits(u128::from(a));
    let y = rustc_apfloat::ieee::Double::from_bits(u128::from(b));
    (x * y).value.to_bits() as u64
}

/// `rustc_apfloat`'s `Div` on `ieee::Double`, between `from_bits` and
/// `to_bits`: the quotient, rounded to nearest with ties to even, depends on
/// the two patterns alone. Nothing is claimed of its value.
#[verifier::external_body]
fn soft_div(a: u64, b: u64) -> (r: u64)
    ensures
        r == ieee_div(a, b),
{
    let x = rustc_apfloat::ieee::Double::from_bits(u128::from(a));
    let y = rustc_apfloat::ieee::Double::from_bits(u128::from(b));
    (x / y).value.to_bits() as u64
}

impl Scalar {
    /// Whether the sign bit is set.
    pub open spec fn negative(self) -> bool {
        self.bits >= SIGN_BIT
    }

    /// The pattern without its sign bit.
    pub open spec fn magnitude(self) -> int {
        if self.bits >= SIGN_BIT {
            self.bits - SIGN_BIT
        } else {
            self.bits as int
        }
    }

    /// The place of the number on the number line. Of two numbers the smaller
    /// has the smaller ordinal, and both zeros have ordinal 0. A NaN lies
    /// beyond the infinity of its sign.
    pub open spec fn ord(self) -> int {
        if self.negative() {
            -self.magnitude()
        } else {
            self.magnitude()
        }
    }

    /// The number without its sign.
    pub open spec fn spec_abs(self) -> Scalar {
        if self.bits >= SIGN_BIT {
            Scalar { bits: (self.bits - SIGN_BIT) as u64 }
        } else {
            self
        }
    }

    pub fn from_bits(bits: u64) -> (s: Scalar)
        ensures
            s.bits == bits,
    {
        Scalar { bits }
    }

    pub fn to_bits(self) -> (bits: u64)
        ensures
            bits == self.bits,
    {
        self.bits
    }

    /// Positive zero.
    pub fn zero() -> (s: Scalar)
        ensures
            s.bits == 0,
            s.ord() == 0,
    {
        Scalar { bits: 0 }
    }

    /// The number two.
    pub fn two() -> (s: Scalar)
        ensures
            s.bits == TWO,
    {
        Scalar { bits: TWO }
    }

    /// The ordinal as a machine integer.
    pub fn key(self) -> (k: i64)
        ensures
            k == self.ord(),
    {
        if self.bits >= SIGN_BIT {
            let m: u64 = self.bits - SIGN_BIT;
            -(m as i64)
        } else {
            self.bits as i64
        }
    }

    /// `self < other`.
    pub fn lt(self, other: Scalar) -> (b: bool)
        ensures
            b == (self.ord() < other.ord()),
    {
        self.key() < other.key()
    }

    /// `self > other`.
    pub fn gt(self, other: Scalar) -> (b: bool)
        ensures
            b == (self.ord() > other.ord()),
    {
        self.key() > other.key()
    }

    /// The larger of two numbers, the first where they are equal.
    pub fn max(self, other: Scalar) -> (m: Scalar)
        ensures
            m == if self.ord() < other.ord() { other } else { self },
    {
        if self.lt(other) {
            other
        } else {
            self
        }
    }

    /// The smaller of two numbers, the first where they are equal.
    pub fn min(self, other: Scalar) -> (m: Scalar)
        ensures
            m == if other.ord() < self.ord() { other } else { self },
    {
        if other.lt(self) {
            other
        } else {
            self
        }
    }

    /// The number without its sign.
    pub fn abs(self) -> (a: Scalar)
        ensures
            a == self.spec_abs(),
            a.ord() == self.magnitude(),
    {
        if self.bits >= SIGN_BIT {
            Scalar { bits: self.bits - SIGN_BIT }
        } else {
            self
        }
    }

    /// `self - rhs`, rounded to nearest.
    pub fn minus(self, rhs: Scalar) -> (d: Scalar)
        ensures
            d.bits == ieee_sub(self.bits, rhs.bits),
    {
        Scalar { bits: soft_sub(self.bits, rhs.bits) }
    }

    /// `self * rhs`, rounded to nearest.
    pub fn times(self, rhs: Scalar) -> (p: Scalar)
        ensures
            p.bits == ieee_mul(self.bits, rhs.bits),
    {
        Scalar { bits: soft_mul(self.bits, rhs.bits) }
    }

    /// `self / rhs`, rounded to nearest.
    pub fn over(self, rhs: Scalar) -> (q: Scalar)
        ensures
            q.bits == ieee_div(self.bits, rhs.bits),
    {
        Scalar { bits: soft_div(self.bits, rhs.bits) }
    }
}

} // verus!
