//! Strings seen as sequences of UTF-8 bytes.
//!
//! Cursor positions, line starts and span ranges are byte offsets, so the
//! contracts of this crate speak of a text by its bytes, `encode_utf8(s@)`.

use vstd::prelude::*;
use vstd::string::*;
use vstd::utf8::*;

verus! {

/// Whether `i` is a position between two characters of the bytes `b`.
pub open spec fn at_boundary(b: Seq<u8>, i: int) -> bool {
    0 <= i <= b.len() && (i < b.len() ==> !is_continuation_byte(b[i]))
}

/// A position of valid UTF-8 is a character boundary exactly when the byte
/// behind it does not continue a character.
pub proof fn lemma_boundary(b: Seq<u8>, i: int)
    requires
        valid_utf8(b),
        0 <= i <= b.len(),
    ensures
        is_char_boundary(b, i) <==> at_boundary(b, i),
{
    if i < b.len() {
        is_char_boundary_iff_not_is_continuation_byte(b, i);
    } else {
        is_char_boundary_start_end_of_seq(b);
    }
}

/// Cutting valid UTF-8 at a character boundary leaves two valid halves.
pub proof fn lemma_split(b: Seq<u8>, i: int)
    requires
        valid_utf8(b),
        at_boundary(b, i),
    ensures
        valid_utf8(b.subrange(0, i)),
        valid_utf8(b.subrange(i, b.len() as int)),
{
    lemma_boundary(b, i);
    valid_utf8_split(b, i);
}

/// The bytes between two character boundaries are valid UTF-8.
pub proof fn lemma_subrange(b: Seq<u8>, from: int, to: int)
    requires
        valid_utf8(b),
        from <= to,
        at_boundary(b, from),
        at_boundary(b, to),
    ensures
        valid_utf8(b.subrange(from, to)),
{
    lemma_split(b, from);
    let tail = b.subrange(from, b.len() as int);
    assert(at_boundary(tail, to - from));
    lemma_split(tail, to - from);
    assert(tail.subrange(0, to - from) =~= b.subrange(from, to));
}

/// Valid UTF-8 does not start with a continuation byte.
pub proof fn lemma_first_byte(b: Seq<u8>)
    requires
        valid_utf8(b),
    ensures
        at_boundary(b, 0),
{
    if b.len() > 0 {
        is_char_boundary_iff_not_is_continuation_byte(b, 0);
    }
}

/// The position behind the character that starts at a boundary is a boundary.
pub proof fn lemma_next_boundary(b: Seq<u8>, i: int)
    requires
        valid_utf8(b),
        at_boundary(b, i),
        i < b.len(),
    ensures
        ({
            let n = length_of_first_scalar(b.subrange(i, b.len() as int));
            &&& 1 <= n <= 4
            &&& at_boundary(b, i + n)
            &&& n == 1 <==> b[i] < 0x80
            &&& n == 2 <==> 0xc0 <= b[i] <= 0xdf
            &&& n == 3 <==> 0xe0 <= b[i] <= 0xef
        }),
{
    lemma_split(b, i);
    let tail = b.subrange(i, b.len() as int);
    let n = length_of_first_scalar(tail);
    assert(valid_first_scalar(tail));
    assert(tail[0] == b[i]);
    assert(valid_utf8(pop_first_scalar(tail)));
    lemma_first_byte(pop_first_scalar(tail));
    assert(i + n < b.len() ==> pop_first_scalar(tail)[0] == b[i + n]);
}

/// The position behind an ASCII byte is a boundary.
pub proof fn lemma_after_ascii(b: Seq<u8>, i: int)
    requires
        valid_utf8(b),
        0 <= i < b.len(),
        b[i] < 0x80,
    ensures
        at_boundary(b, i),
        at_boundary(b, i + 1),
{
    lemma_next_boundary(b, i);
}

/// Encoding is a homomorphism: the bytes of a concatenation are the
/// concatenation of the bytes.
pub proof fn lemma_encode_concat(a: Seq<char>, b: Seq<char>)
    ensures
        encode_utf8(a + b) == encode_utf8(a) + encode_utf8(b),
    decreases a.len(),
{
    if a.len() == 0 {
        assert(a + b =~= b);
        assert(encode_utf8(a) + encode_utf8(b) =~= encode_utf8(b));
    } else {
        lemma_encode_concat(a.drop_first(), b);
        assert((a + b).drop_first() =~= a.drop_first() + b);
        assert(encode_utf8(a + b) =~= encode_utf8(a) + encode_utf8(b));
    }
}

/// Two texts with the same bytes hold the same characters.
pub proof fn lemma_encode_injective(a: Seq<char>, b: Seq<char>)
    requires
        encode_utf8(a) == encode_utf8(b),
    ensures
        a == b,
{
    encode_utf8_decode_utf8(a);
    encode_utf8_decode_utf8(b);
}

/// Number of bytes of `s`.
pub fn byte_len(s: &str) -> (n: usize)
    ensures
        n == encode_utf8(s@).len(),
{
    s.as_bytes().len()
}

/// The part of `s` between the byte positions `from` and `to`.
pub fn slice_str<'a>(s: &'a str, from: usize, to: usize) -> (r: &'a str)
    requires
        from <= to,
        at_boundary(encode_utf8(s@), from as int),
        at_boundary(encode_utf8(s@), to as int),
    ensures
        encode_utf8(r@) == encode_utf8(s@).subrange(from as int, to as int),
{
    let ghost b = encode_utf8(s@);
    proof {
        encode_utf8_valid_utf8(s@);
        lemma_boundary(b, to as int);
        lemma_split(b, to as int);
    }
    let (head, _tail) = s.split_at(to);
    proof {
        let h = encode_utf8(head@);
        assert(h == b.subrange(0, to as int));
        assert(at_boundary(h, from as int));
        lemma_boundary(h, from as int);
    }
    let (_skip, part) = head.split_at(from);
    assert(encode_utf8(part@) =~= b.subrange(from as int, to as int));
    part
}

/// An owned copy of `s`.
pub fn own(s: &str) -> (r: String)
    ensures
        r@ == s@,
{
    s.to_owned()
}

/// Appends `s` to `out`.
pub fn push_str(out: &mut String, s: &str)
    ensures
        final(out)@ == old(out)@ + s@,
        encode_utf8(final(out)@) == encode_utf8(old(out)@) + encode_utf8(s@),
{
    proof {
        lemma_encode_concat(out@, s@);
    }
    out.append(s);
}

/// The tab character.
pub const TAB: u8 = 0x09;

/// Whether a text holds a tab.
pub open spec fn has_tab(text: Seq<u8>) -> bool {
    exists|i: int| 0 <= i < text.len() && #[trigger] text[i] == TAB
}

/// Tells whether a text holds a tab.
pub fn contains_tab(text: &str) -> (r: bool)
    ensures
        r == has_tab(encode_utf8(text@)),
{
    let bytes = text.as_bytes();
    let mut i: usize = 0;
    while i < bytes.len()
        invariant
            bytes@ == encode_utf8(text@),
            i <= bytes@.len(),
            forall|j: int| 0 <= j < i ==> #[trigger] bytes@[j] != TAB,
        decreases bytes@.len() - i,
    {
        if bytes[i] == TAB {
            assert(encode_utf8(text@)[i as int] == TAB);
            return true;
        }
        i = i + 1;
    }
    false
}

} // verus!
