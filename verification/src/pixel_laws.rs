//! What holds of the order of lengths.

use vstd::prelude::*;

use crate::pixel::Px;

verus! {

/// Of two lengths that are numbers one is less, or they are equal, and never two
/// of these at once; what is no number is neither less than, nor equal to,
/// anything.
pub proof fn law_lengths_are_ordered(a: Px, b: Px, c: Px)
    ensures
        !(a.lt(b) && b.lt(a)),
        !(a.lt(b) && a.same(b)),
        a.same(a) && b.same(b) ==> a.lt(b) || b.lt(a) || a.same(b),
        !a.same(a) ==> !a.lt(b) && !b.lt(a) && !a.same(b) && !a.le(b) && !b.le(a),
        a.le(b) <==> a.lt(b) || a.same(b),
        a.same(b) <==> b.same(a),
        a.lt(b) && b.lt(c) ==> a.lt(c),
        a.same(b) && b.same(c) ==> a.same(c),
        a.same(b) && b.lt(c) ==> a.lt(c),
        a.lt(b) && b.same(c) ==> a.lt(c),
{
}

/// A length is above zero if its bits are those of a number and the first of
/// them, the sign, is not set; among these, more bits are a greater length.
pub proof fn law_lengths_above_zero(a: Px, b: Px)
    ensures
        (Px { bits: 0 }).lt(a) <==> 0 < a.bits <= 0x7f80_0000u32,
        a.lt(Px { bits: 0 }) <==> 0x8000_0000u32 < a.bits <= 0xff80_0000u32,
        (Px { bits: 0 }).lt(a) && (Px { bits: 0 }).lt(b) ==> (a.lt(b) <==> a.bits < b.bits),
{
}

/// Changing the sign turns the order around, and doing so twice changes nothing.
pub proof fn law_the_sign_turns_the_order(a: Px, b: Px)
    ensures
        a.lt(b) <==> b.negated().lt(a.negated()),
        a.same(b) <==> b.negated().same(a.negated()),
        a.negated().negated() == a,
        a.negated() != a,
        (Px { bits: 0 }).lt(a) ==> a.negated().lt(Px { bits: 0 }),
{
}

/// The smaller of two lengths is one of them and is not above the other, the
/// larger one is the one that is left, and what is no number gives way.
pub proof fn law_the_smaller_and_the_larger(a: Px, b: Px)
    ensures
        a.smaller(b) == a || a.smaller(b) == b,
        a.larger(b) == a || a.larger(b) == b,
        a.same(a) && b.same(b) ==> a.smaller(b).le(a) && a.smaller(b).le(b) && a.le(a.larger(b))
            && b.le(a.larger(b)),
        !a.same(a) ==> a.smaller(b) == b && a.larger(b) == b,
        a.same(a) && !b.same(b) ==> a.smaller(b) == a && a.larger(b) == a,
{
}

/// A length that is held at zero is never below zero, and stays as it is above.
pub proof fn law_lengths_are_held_at_zero(a: Px)
    ensures
        !a.clamped().lt(Px { bits: 0 }),
        a.clamped().same(a.clamped()),
        (Px { bits: 0 }).lt(a) ==> a.clamped() == a,
        !(Px { bits: 0 }).lt(a) ==> a.clamped().same(Px { bits: 0 }),
{
}

} // verus!
