//! Pixel quantities.
//!
//! A quantity is kept as the bit pattern of an IEEE 754 single-precision
//! number. Comparing two of them is decided here, on the bits; adding and
//! scaling them is left to a [`PixelMath`].

use vstd::prelude::*;

verus! {

/// A pixel quantity: the bits of a single-precision number.
#[derive(Clone, Copy, PartialEq, Eq, Structural, Debug)]
pub struct Px {
    /// Sign, exponent and fraction.
    pub bits: u32,
}

impl Px {
    /// Whether the bits are no number at all.
    pub open spec fn is_nan(self) -> bool {
        (if self.bits >= 0x8000_0000u32 {
            self.bits - 0x8000_0000u32
        } else {
            self.bits as int
        }) > 0x7f80_0000
    }

    /// Where the number stands in the order of all numbers; both zeros are at 0.
    pub open spec fn rank(self) -> int {
        if self.bits >= 0x8000_0000u32 {
            -(self.bits - 0x8000_0000u32)
        } else {
            self.bits as int
        }
    }

    /// `self < other`.
    pub open spec fn lt(self, other: Px) -> bool {
        !self.is_nan() && !other.is_nan() && self.rank() < other.rank()
    }

    /// `self <= other`.
    pub open spec fn le(self, other: Px) -> bool {
        !self.is_nan() && !other.is_nan() && self.rank() <= other.rank()
    }

    /// `self == other`.
    pub open spec fn same(self, other: Px) -> bool {
        !self.is_nan() && !other.is_nan() && self.rank() == other.rank()
    }

    /// The number with the opposite sign.
    pub open spec fn negated(self) -> Px {
        Px {
            bits: if self.bits >= 0x8000_0000u32 {
                (self.bits - 0x8000_0000u32) as u32
            } else {
                (self.bits + 0x8000_0000u32) as u32
            },
        }
    }

    /// The larger of the number and zero; zero for no number.
    pub open spec fn clamped(self) -> Px {
        if zero().lt(self) {
            self
        } else {
            zero()
        }
    }

    /// The smaller of two numbers; the other one if one is no number.
    pub open spec fn smaller(self, other: Px) -> Px {
        if self.is_nan() || other.lt(self) {
            other
        } else {
            self
        }
    }

    /// The larger of two numbers; the other one if one is no number.
    pub open spec fn larger(self, other: Px) -> Px {
        if self.is_nan() || self.lt(other) {
            other
        } else {
            self
        }
    }

    /// The smaller of two numbers.
    pub fn min_with(self, other: Px) -> (r: Px)
        ensures
            r == self.smaller(other),
    {
        if self.nan() || other.less(self) {
            other
        } else {
            self
        }
    }

    /// The larger of two numbers.
    pub fn max_with(self, other: Px) -> (r: Px)
        ensures
            r == self.larger(other),
    {
        if self.nan() || self.less(other) {
            other
        } else {
            self
        }
    }

    /// The quantity zero.
    pub fn nothing() -> (r: Px)
        ensures
            r == zero(),
    {
        Px { bits: 0 }
    }

    fn nan(self) -> (r: bool)
        ensures
            r == self.is_nan(),
    {
        if self.bits >= 0x8000_0000 {
            self.bits - 0x8000_0000 > 0x7f80_0000
        } else {
            self.bits > 0x7f80_0000
        }
    }

    fn order(self) -> (r: i64)
        ensures
            r == self.rank(),
    {
        if self.bits >= 0x8000_0000 {
            -((self.bits - 0x8000_0000) as i64)
        } else {
            self.bits as i64
        }
    }

    /// `self < other`.
    pub fn less(self, other: Px) -> (r: bool)
        ensures
            r == self.lt(other),
    {
        !self.nan() && !other.nan() && self.order() < other.order()
    }

    /// `self <= other`.
    pub fn at_most(self, other: Px) -> (r: bool)
        ensures
            r == self.le(other),
    {
        !self.nan() && !other.nan() && self.order() <= other.order()
    }

    /// `self == other`.
    pub fn equals(self, other: Px) -> (r: bool)
        ensures
            r == self.same(other),
    {
        !self.nan() && !other.nan() && self.order() == other.order()
    }

    /// The number with the opposite sign.
    pub fn negate(self) -> (r: Px)
        ensures
            r == self.negated(),
    {
        if self.bits >= 0x8000_0000 {
            Px { bits: self.bits - 0x8000_0000 }
        } else {
            Px { bits: self.bits + 0x8000_0000 }
        }
    }

    /// The larger of the number and zero; zero for no number.
    pub fn clamp_to_zero(self) -> (r: Px)
        ensures
            r == self.clamped(),
    {
        if Px::nothing().less(self) {
            self
        } else {
            Px::nothing()
        }
    }
}

/// The quantity zero.
pub open spec fn zero() -> Px {
    Px { bits: 0 }
}

/// The quantity two.
pub open spec fn two() -> Px {
    Px { bits: 0x4000_0000 }
}

/// Equality of optional quantities.
pub open spec fn same_opt(a: Option<Px>, b: Option<Px>) -> bool {
    match (a, b) {
        (Some(x), Some(y)) => x.same(y),
        (None, None) => true,
        _ => false,
    }
}

/// Tells whether two optional quantities are equal.
pub fn equal_opt(a: Option<Px>, b: Option<Px>) -> (r: bool)
    ensures
        r == same_opt(a, b),
{
    match (a, b) {
        (Some(x), Some(y)) => x.equals(y),
        (None, None) => true,
        _ => false,
    }
}

/// Arithmetic on pixel quantities. Each operation is a function of its
/// operands; nothing else is presumed of it, not even that adding zero changes
/// nothing.
pub trait PixelMath {
    /// `a + b`.
    spec fn sum(a: Px, b: Px) -> Px;

    /// `a - b`.
    spec fn difference(a: Px, b: Px) -> Px;

    /// `a * b`.
    spec fn product(a: Px, b: Px) -> Px;

    /// `a / b`.
    spec fn quotient(a: Px, b: Px) -> Px;

    /// The quantity that stands for the number `n`.
    spec fn counted(n: usize) -> Px;

    /// The quantity with its fraction cut off.
    spec fn truncated(a: Px) -> i32;

    /// Computes `a + b`.
    fn plus(a: Px, b: Px) -> (r: Px)
        ensures
            r == Self::sum(a, b),
    ;

    /// Computes `a - b`.
    fn minus(a: Px, b: Px) -> (r: Px)
        ensures
            r == Self::difference(a, b),
    ;

    /// Computes `a * b`.
    fn times(a: Px, b: Px) -> (r: Px)
        ensures
            r == Self::product(a, b),
    ;

    /// Computes `a / b`.
    fn over(a: Px, b: Px) -> (r: Px)
        ensures
            r == Self::quotient(a, b),
    ;

    /// Turns the number `n` into a quantity.
    fn count(n: usize) -> (r: Px)
        ensures
            r == Self::counted(n),
    ;

    /// Cuts off the fraction.
    fn truncate(a: Px) -> (r: i32)
        ensures
            r == Self::truncated(a),
    ;
}

/// Size of the text of a buffer.
#[derive(Clone, Copy, PartialEq, Eq, Structural, Debug)]
pub struct Metrics {
    /// Font size in pixels.
    pub font_size: Px,
    /// Line height in pixels.
    pub line_height: Px,
}

impl Default for Metrics {
    fn default() -> (r: Metrics)
        ensures
            r == (Metrics { font_size: zero(), line_height: zero() }),
    {
        Metrics { font_size: Px::nothing(), line_height: Px::nothing() }
    }
}

impl Metrics {
    /// Equality of both quantities.
    pub open spec fn same(self, other: Metrics) -> bool {
        self.font_size.same(other.font_size) && self.line_height.same(other.line_height)
    }

    /// Metrics with the given font size and line height.
    pub fn new(font_size: Px, line_height: Px) -> (r: Metrics)
        ensures
            r.font_size == font_size,
            r.line_height == line_height,
    {
        Metrics { font_size, line_height }
    }

    /// Metrics whose line height is the font size times `line_height_scale`.
    pub fn relative<M: PixelMath>(font_size: Px, line_height_scale: Px) -> (r: Metrics)
        ensures
            r.font_size == font_size,
            r.line_height == M::product(font_size, line_height_scale),
    {
        Metrics { font_size, line_height: M::times(font_size, line_height_scale) }
    }

    /// Metrics scaled in both quantities.
    pub fn scale<M: PixelMath>(self, scale: Px) -> (r: Metrics)
        ensures
            r.font_size == M::product(self.font_size, scale),
            r.line_height == M::product(self.line_height, scale),
    {
        Metrics {
            font_size: M::times(self.font_size, scale),
            line_height: M::times(self.line_height, scale),
        }
    }

    /// Tells whether both quantities are equal.
    pub fn equals(self, other: Metrics) -> (r: bool)
        ensures
            r == self.same(other),
    {
        self.font_size.equals(other.font_size) && self.line_height.equals(other.line_height)
    }
}

} // verus!
