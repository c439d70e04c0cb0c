//! Arithmetic on whole pixels.
//!
//! A quantity is rounded towards zero to a number of pixels, and numbers that
//! single precision does not hold exactly are held at the largest one that it
//! does. Between such numbers the arithmetic is that of integers.

use vstd::prelude::*;

use crate::motion::{divide, ratio};
use crate::pixel::Px;

verus! {

/// The largest number of pixels.
pub const LARGEST: i64 = 0xff_ffff;

/// `v`, halved `k` times.
pub open spec fn halved(v: int, k: int) -> int
    decreases k,
{
    if k <= 0 {
        v
    } else {
        halved(v / 2, k - 1)
    }
}

/// The number of pixels of a quantity without its sign, by its bits.
pub open spec fn magnitude(bits: int) -> int {
    let exponent = bits / 0x80_0000;
    if bits > 0x7f80_0000 || exponent < 127 {
        0
    } else if exponent > 150 {
        LARGEST as int
    } else {
        halved(0x80_0000 + bits % 0x80_0000, 150 - exponent)
    }
}

/// The number of pixels of a quantity.
pub open spec fn whole(p: Px) -> int {
    if p.bits >= 0x8000_0000u32 {
        -magnitude(p.bits - 0x8000_0000u32)
    } else {
        magnitude(p.bits as int)
    }
}

/// A number of pixels, held at the largest one.
pub open spec fn held(n: int) -> int {
    if n > LARGEST {
        LARGEST as int
    } else if n < -LARGEST {
        -LARGEST
    } else {
        n
    }
}

/// The bits of the number `m` times two to the power of `exponent - 150`.
pub open spec fn normal(m: int, exponent: int) -> int
    decreases 0x100_0000 - m,
{
    if m <= 0 {
        0
    } else if m >= 0x80_0000 {
        exponent * 0x80_0000 + (m - 0x80_0000)
    } else {
        normal(2 * m, exponent - 1)
    }
}

/// The quantity of `n` pixels.
pub open spec fn pixels(n: int) -> Px {
    if held(n) < 0 {
        Px { bits: (normal(-held(n), 150) + 0x8000_0000) as u32 }
    } else {
        Px { bits: normal(held(n), 150) as u32 }
    }
}

/// Halves `v` `k` times.
fn halve(v: u32, k: u32) -> (r: u32)
    ensures
        r == halved(v as int, k as int),
        r <= v,
{
    let mut r: u32 = v;
    let mut left: u32 = k;
    while left > 0
        invariant
            r <= v,
            halved(r as int, left as int) == halved(v as int, k as int),
        decreases left,
    {
        r = r / 2;
        left = left - 1;
    }
    r
}

fn find_magnitude(bits: u32) -> (r: i64)
    ensures
        r == magnitude(bits as int),
        0 <= r <= LARGEST,
{
    let exponent = bits / 0x80_0000;
    if bits > 0x7f80_0000 || exponent < 127 {
        0
    } else if exponent > 150 {
        LARGEST
    } else {
        let r = halve(0x80_0000 + bits % 0x80_0000, 150 - exponent);
        r as i64
    }
}

/// Rounds a quantity towards zero.
pub fn to_whole(p: Px) -> (r: i64)
    ensures
        r == whole(p),
        -LARGEST <= r <= LARGEST,
{
    if p.bits >= 0x8000_0000 {
        -find_magnitude(p.bits - 0x8000_0000)
    } else {
        find_magnitude(p.bits)
    }
}

/// Holds a number of pixels at the largest one.
pub fn hold(n: i64) -> (r: i64)
    ensures
        r == held(n as int),
        -LARGEST <= r <= LARGEST,
{
    if n > LARGEST {
        LARGEST
    } else if n < -LARGEST {
        -LARGEST
    } else {
        n
    }
}

fn find_bits(n: i64) -> (r: i64)
    requires
        0 <= n <= LARGEST,
    ensures
        r == normal(n as int, 150),
        -0x2000_0000_0000_0000 <= r <= 0x2000_0000_0000_0000,
{
    if n == 0 {
        return 0;
    }
    let mut m: i64 = n;
    let mut exponent: i64 = 150;
    while m < 0x80_0000
        invariant
            1 <= m <= LARGEST,
            151 - LARGEST <= exponent <= 150,
            exponent + m >= 151,
            normal(m as int, exponent as int) == normal(n as int, 150),
        decreases 0x100_0000 - m,
    {
        m = 2 * m;
        exponent = exponent - 1;
    }
    exponent * 0x80_0000 + (m - 0x80_0000)
}

/// Makes a quantity of a number of pixels.
pub fn from_whole(n: i64) -> (r: Px)
    ensures
        r == pixels(n as int),
{
    let n = hold(n);
    if n < 0 {
        let bits = find_bits(-n);
        Px { bits: (bits + 0x8000_0000) as u32 }
    } else {
        let bits = find_bits(n);
        Px { bits: bits as u32 }
    }
}

/// The quotient of two numbers of pixels, rounded towards zero; zero if the
/// second is zero.
pub open spec fn quotient_of(a: int, b: int) -> int {
    if b == 0 {
        0
    } else {
        ratio(a, b)
    }
}

/// Divides a number of pixels by another one.
pub fn divide_whole(a: i64, b: i64) -> (r: i64)
    requires
        -LARGEST <= a <= LARGEST,
        -LARGEST <= b <= LARGEST,
    ensures
        r == quotient_of(a as int, b as int),
{
    if b == 0 {
        return 0;
    }
    let q = divide(a as i32, b as i32);
    q as i64
}

/// Halving once more halves the result.
proof fn lemma_halved_again(v: int, k: int)
    requires
        k >= 0,
    ensures
        halved(v, k + 1) == halved(v, k) / 2,
    decreases k,
{
    if k > 0 {
        lemma_halved_again(v / 2, k - 1);
    } else {
        reveal_with_fuel(halved, 2);
    }
}

/// Nothing is left of a number that has been halved too often.
proof fn lemma_halved_away(v: int, k: int)
    requires
        0 <= v < 0x100_0000,
        k >= 24,
    ensures
        halved(v, k) == 0,
    decreases k,
{
    if k == 24 {
        reveal_with_fuel(halved, 25);
    } else {
        lemma_halved_away(v, k - 1);
        lemma_halved_again(v, k - 1);
    }
}

/// The bits of a number hold its exponent and, scaled by it, the number.
proof fn lemma_normal(m: int, exponent: int)
    requires
        1 <= m <= LARGEST,
    ensures
        ({
            let b = normal(m, exponent);
            let q = b / 0x80_0000;
            &&& q <= exponent
            &&& halved(0x80_0000 + b % 0x80_0000, exponent - q) == m
            &&& b < (exponent + 1) * 0x80_0000
        }),
    decreases 0x100_0000 - m,
{
    if m >= 0x80_0000 {
        let b = normal(m, exponent);
        assert(b == exponent * 0x80_0000 + (m - 0x80_0000));
        assert(b / 0x80_0000 == exponent);
        assert(b % 0x80_0000 == m - 0x80_0000);
    } else {
        lemma_normal(2 * m, exponent - 1);
        let b = normal(m, exponent);
        let q = b / 0x80_0000;
        lemma_halved_again(0x80_0000 + b % 0x80_0000, exponent - 1 - q);
    }
}

/// The bits of numbers are in the order of the numbers.
proof fn lemma_normal_order(a: int, b: int, exponent: int)
    requires
        1 <= a < b <= LARGEST,
    ensures
        normal(a, exponent) < normal(b, exponent),
    decreases 0x100_0000 - a,
{
    if b < 0x80_0000 {
        lemma_normal_order(2 * a, 2 * b, exponent - 1);
    } else if a < 0x80_0000 {
        lemma_normal(2 * a, exponent - 1);
    }
}

/// The bits of a number of pixels, without its sign.
proof fn lemma_bits(n: int)
    requires
        1 <= n <= LARGEST,
    ensures
        127 * 0x80_0000 <= normal(n, 150) < 151 * 0x80_0000,
        magnitude(normal(n, 150)) == n,
{
    lemma_normal(n, 150);
    let b = normal(n, 150);
    let q = b / 0x80_0000;
    if q < 127 {
        lemma_halved_away(0x80_0000 + b % 0x80_0000, 150 - q);
    }
}

/// A number of pixels is what is left of it once it has been made a quantity.
pub proof fn law_whole_undoes_pixels(n: int)
    ensures
        whole(pixels(n)) == held(n),
{
    let h = held(n);
    if h > 0 {
        lemma_bits(h);
    } else if h < 0 {
        lemma_bits(-h);
    }
}

/// Quantities are in the order of the numbers of pixels that they are made of.
pub proof fn law_pixels_keep_the_order(a: int, b: int)
    requires
        -LARGEST <= a <= LARGEST,
        -LARGEST <= b <= LARGEST,
    ensures
        pixels(a).lt(pixels(b)) <==> a < b,
        pixels(a).le(pixels(b)) <==> a <= b,
        pixels(a).same(pixels(b)) <==> a == b,
{
    if a != 0 {
        lemma_bits(if a > 0 { a } else { -a });
    }
    if b != 0 {
        lemma_bits(if b > 0 { b } else { -b });
    }
    if 0 < a < b {
        lemma_normal_order(a, b, 150);
    } else if 0 < b < a {
        lemma_normal_order(b, a, 150);
    } else if a < b < 0 {
        lemma_normal_order(-b, -a, 150);
    } else if b < a < 0 {
        lemma_normal_order(-a, -b, 150);
    }
}

} // verus!
