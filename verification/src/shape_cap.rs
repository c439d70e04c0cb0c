//! The part of a line that is shaped.
//!
//! Shaping takes time in the length of a line, so that of a very long line only
//! the first part is shaped. The line itself stays as it is.

use vstd::prelude::*;
use vstd::utf8::*;

use crate::layout::{layout_fits, line_fits, shape_fits, FontSystem, LayoutLineView, ShapeLineView};
use crate::line::{LineView, Settings};
use crate::text::{at_boundary, byte_len, has_tab, lemma_first_byte, lemma_split, slice_str};

verus! {

/// How many bytes of a line are shaped at most.
pub const MAX_SHAPE_BYTES: usize = 0x8000;

/// The last position between two characters at or in front of `n`.
pub open spec fn last_boundary(b: Seq<u8>, n: int) -> int
    decreases n,
{
    if n <= 0 {
        0
    } else if at_boundary(b, n) {
        n
    } else {
        last_boundary(b, n - 1)
    }
}

/// The part of a text that is shaped: as many whole characters as fit.
pub open spec fn shaped_part(b: Seq<u8>) -> Seq<u8> {
    if b.len() <= MAX_SHAPE_BYTES {
        b
    } else {
        b.take(last_boundary(b, MAX_SHAPE_BYTES as int))
    }
}

proof fn lemma_last_boundary(b: Seq<u8>, n: int)
    requires
        at_boundary(b, 0),
        0 <= n <= b.len(),
    ensures
        0 <= last_boundary(b, n) <= n,
        at_boundary(b, last_boundary(b, n)),
    decreases n,
{
    if n > 0 && !at_boundary(b, n) {
        lemma_last_boundary(b, n - 1);
    }
}

/// What is shaped is the front of the text, cut between two characters, and no
/// longer than it may be.
pub proof fn lemma_shaped_part(b: Seq<u8>)
    requires
        valid_utf8(b),
    ensures
        valid_utf8(shaped_part(b)),
        shaped_part(b).len() <= MAX_SHAPE_BYTES,
        shaped_part(b).len() <= b.len(),
        shaped_part(b) == b.take(shaped_part(b).len() as int),
        forall|i: int| at_boundary(shaped_part(b), i) ==> #[trigger] at_boundary(b, i),
        !has_tab(b) ==> !has_tab(shaped_part(b)),
{
    if b.len() <= MAX_SHAPE_BYTES {
        assert(b.take(b.len() as int) =~= b);
    } else {
        let n = last_boundary(b, MAX_SHAPE_BYTES as int);
        lemma_first_byte(b);
        lemma_last_boundary(b, MAX_SHAPE_BYTES as int);
        lemma_split(b, n);
        assert(b.take(n) =~= b.subrange(0, n));
        assert forall|i: int| at_boundary(shaped_part(b), i) implies #[trigger] at_boundary(b, i) by {
            if i < n {
                assert(b.take(n)[i] == b[i]);
            }
        }
        if has_tab(shaped_part(b)) {
            let i = choose|i: int|
                0 <= i < shaped_part(b).len() && #[trigger] shaped_part(b)[i] == crate::text::TAB;
            assert(b[i] == shaped_part(b)[i]);
        }
    }
}

/// What fits into the part of a text that is shaped fits into the text.
pub proof fn lemma_part_fits(b: Seq<u8>, shape: ShapeLineView)
    requires
        valid_utf8(b),
        shape_fits(shaped_part(b), shape),
    ensures
        shape_fits(b, shape),
{
    lemma_shaped_part(b);
    assert forall|i: int| 0 <= i < shape.glyphs.len() implies (#[trigger] shape.glyphs[i]).start
        <= shape.glyphs[i].end && at_boundary(b, shape.glyphs[i].start as int) && at_boundary(
        b,
        shape.glyphs[i].end as int,
    ) by {
        assert(at_boundary(shaped_part(b), shape.glyphs[i].start as int));
        assert(at_boundary(shaped_part(b), shape.glyphs[i].end as int));
    }
}

/// The part of `s` that is shaped.
pub fn shaped_str(s: &str) -> (r: &str)
    ensures
        encode_utf8(r@) == shaped_part(encode_utf8(s@)),
{
    let ghost b = encode_utf8(s@);
    if byte_len(s) <= MAX_SHAPE_BYTES {
        return s;
    }
    proof {
        encode_utf8_valid_utf8(s@);
        lemma_first_byte(b);
    }
    let bytes = s.as_bytes();
    let mut n: usize = MAX_SHAPE_BYTES;
    while n > 0 && 0x80 <= bytes[n] && bytes[n] < 0xc0
        invariant
            bytes@ == b,
            MAX_SHAPE_BYTES < b.len(),
            n <= MAX_SHAPE_BYTES,
            last_boundary(b, MAX_SHAPE_BYTES as int) == last_boundary(b, n as int),
        decreases n,
    {
        n = n - 1;
    }
    proof {
        lemma_last_boundary(b, MAX_SHAPE_BYTES as int);
    }
    let part = slice_str(s, 0, n);
    assert(b.subrange(0, n as int) =~= b.take(n as int));
    part
}

/// However long a line is, no glyph of it stands for more than the part that is
/// shaped.
pub proof fn law_shaping_is_capped<F: FontSystem>(
    line: LineView,
    fonts: int,
    settings: Settings,
    k: int,
    g: int,
)
    requires
        valid_utf8(line.text),
        0 <= k < line.fresh_layout::<F>(fonts, settings).len(),
        0 <= g < line.fresh_layout::<F>(fonts, settings)[k].glyphs.len(),
    ensures
        line.fresh_layout::<F>(fonts, settings)[k].glyphs[g].end <= MAX_SHAPE_BYTES,
        line.with_layout::<F>(fonts, settings).text == line.text,
{
    let part = shaped_part(line.text);
    lemma_shaped_part(line.text);
    F::law_shape_fits(
        fonts,
        part,
        line.attrs,
        line.shaping,
        settings.tab_width,
        settings.direction,
    );
    let shape = line.fresh_shape::<F>(fonts, settings);
    F::law_layout_fits(fonts, part, shape, settings.params(line.align));
    let rows: Seq<LayoutLineView> = line.fresh_layout::<F>(fonts, settings);
    assert(layout_fits(part, rows));
    assert(line_fits(part, rows[k].glyphs));
    assert(at_boundary(part, rows[k].glyphs[g].end as int));
}

} // verus!
