//! Where motions lead.
//!
//! The rules are stated over a [`Page`]: what each line shows once it is laid
//! out.

use vstd::prelude::*;
use vstd::utf8::*;

use crate::buffer::Page;
use crate::cursor::{Affinity, Cursor, LayoutCursor, Motion};
use crate::layout::{LayoutGlyph, LayoutLineView};
use crate::pixel::{PixelMath, Px};
use crate::segmentation::{
    cluster_indices, clusters, meets, tiles, word_indices, word_indices_back, word_starts_back,
    words,
};
use crate::text::{at_boundary, byte_len, lemma_first_byte, lemma_next_boundary};

verus! {

/// Which side of a glyph a cursor is at: 0 for the left one, 1 for the right
/// one.
pub open spec fn side_of(glyph: LayoutGlyph, cursor: Cursor) -> Option<int> {
    let at_start = cursor.index == glyph.start && cursor.affinity == Affinity::After;
    let at_end = cursor.index == glyph.end && cursor.affinity == Affinity::Before;
    if (!glyph.rtl && at_start) || (glyph.rtl && at_end) {
        Some(0)
    } else if at_start || at_end {
        Some(1)
    } else {
        None
    }
}

/// The glyph boundary of a visual line at which a cursor is, looked for from
/// glyph `g` on.
pub open spec fn boundary_in(glyphs: Seq<LayoutGlyph>, cursor: Cursor, g: int) -> Option<int>
    decreases glyphs.len() - g,
{
    if g < 0 || g >= glyphs.len() {
        None
    } else {
        match side_of(glyphs[g], cursor) {
            Some(side) => Some(g + side),
            None => boundary_in(glyphs, cursor, g + 1),
        }
    }
}

/// The visual line and the glyph boundary at which a cursor is, looked for
/// from visual line `k` on.
pub open spec fn boundary_from(lines: Seq<LayoutLineView>, cursor: Cursor, k: int) -> Option<(int, int)>
    decreases lines.len() - k,
{
    if k < 0 || k >= lines.len() {
        None
    } else {
        match boundary_in(lines[k].glyphs, cursor, 0) {
            Some(g) => Some((k, g)),
            None => boundary_from(lines, cursor, k + 1),
        }
    }
}

/// The position in the layout of a cursor on a line with the given layout; the
/// start of the line if the cursor is at no glyph.
pub open spec fn place_in(lines: Seq<LayoutLineView>, cursor: Cursor) -> LayoutCursor {
    match boundary_from(lines, cursor, 0) {
        Some((k, g)) => LayoutCursor { line: cursor.line, layout: k as usize, glyph: g as usize },
        None => LayoutCursor { line: cursor.line, layout: 0, glyph: 0 },
    }
}

/// The index and the affinity at a glyph of a visual line; behind the last
/// glyph if there are not as many.
pub open spec fn at_glyph(line: LayoutLineView, glyph: int) -> (usize, Affinity) {
    if glyph < line.glyphs.len() {
        (line.glyphs[glyph].start, Affinity::After)
    } else if line.glyphs.len() > 0 {
        (line.glyphs.last().end, Affinity::Before)
    } else {
        (0, Affinity::After)
    }
}

/// The cursor at a position in the layout; on the last visual line if there
/// are not as many.
pub open spec fn at_place(lines: Seq<LayoutLineView>, place: LayoutCursor) -> Option<Cursor> {
    if lines.len() == 0 {
        None
    } else {
        let line = lines[if place.layout < lines.len() {
            place.layout as int
        } else {
            lines.len() - 1
        }];
        let (index, affinity) = at_glyph(line, place.glyph as int);
        Some(Cursor { line: place.line, index, affinity })
    }
}

/// The cursor at a position in the layout of a page.
pub open spec fn at_place_on(page: Page, place: LayoutCursor) -> Option<Cursor> {
    if place.line < page.texts.len() {
        at_place(page.layouts[place.line as int], place)
    } else {
        None
    }
}

/// The last start among `pieces` in front of `limit`; 0 if there is none.
pub open spec fn last_start(pieces: Seq<(usize, usize)>, limit: int) -> usize
    decreases pieces.len(),
{
    if pieces.len() == 0 {
        0
    } else if pieces.last().0 < limit {
        pieces.last().0
    } else {
        last_start(pieces.drop_last(), limit)
    }
}

/// The end of the first piece from `k` on that starts at `index`.
pub open spec fn end_of_piece(pieces: Seq<(usize, usize)>, index: int, k: int) -> Option<int>
    decreases pieces.len() - k,
{
    if k < 0 || k >= pieces.len() {
        None
    } else if pieces[k].0 == index {
        Some(pieces[k].0 + pieces[k].1)
    } else {
        end_of_piece(pieces, index, k + 1)
    }
}

/// The first end of a piece, from `k` on, that is behind `index`.
pub open spec fn first_end(pieces: Seq<(usize, usize)>, index: int, k: int) -> Option<int>
    decreases pieces.len() - k,
{
    if k < 0 || k >= pieces.len() {
        None
    } else if pieces[k].0 + pieces[k].1 > index {
        Some(pieces[k].0 + pieces[k].1)
    } else {
        first_end(pieces, index, k + 1)
    }
}

/// The first of `starts`, from `k` on, that is in front of `limit`; 0 if there
/// is none.
pub open spec fn first_below(starts: Seq<usize>, limit: int, k: int) -> usize
    decreases starts.len() - k,
{
    if k < 0 || k >= starts.len() {
        0
    } else if starts[k] < limit {
        starts[k]
    } else {
        first_below(starts, limit, k + 1)
    }
}

/// Number of bytes of the white space character at position `i` of `b`; 0 if
/// there is none.
pub open spec fn blank_at(b: Seq<u8>, i: int) -> int {
    if i < 0 || i >= b.len() {
        0
    } else if 0x09 <= b[i] <= 0x0d || b[i] == 0x20 {
        1
    } else if i + 1 < b.len() && b[i] == 0xc2 && (b[i + 1] == 0x85 || b[i + 1] == 0xa0) {
        2
    } else if i + 2 < b.len() && ((b[i] == 0xe1 && b[i + 1] == 0x9a && b[i + 2] == 0x80) || (b[i]
        == 0xe2 && b[i + 1] == 0x80 && (0x80 <= b[i + 2] <= 0x8a || b[i + 2] == 0xa8 || b[i + 2]
        == 0xa9 || b[i + 2] == 0xaf)) || (b[i] == 0xe2 && b[i + 1] == 0x81 && b[i + 2] == 0x9f) || (b[i]
        == 0xe3 && b[i + 1] == 0x80 && b[i + 2] == 0x80)) {
        3
    } else {
        0
    }
}

/// The first position, from `i` on, at which there is no white space; 0 if
/// there is white space up to the end.
pub open spec fn first_ink(b: Seq<u8>, i: int) -> int
    decreases b.len() - i,
{
    if i < 0 || i >= b.len() {
        0
    } else if blank_at(b, i) > 0 {
        first_ink(b, i + blank_at(b, i))
    } else {
        i
    }
}

/// The nearest line in front of `line` that is not hidden.
pub open spec fn shown_above(page: Page, line: int) -> Option<int>
    decreases line,
{
    if line <= 0 {
        None
    } else if !page.hidden[line - 1] {
        Some(line - 1)
    } else {
        shown_above(page, line - 1)
    }
}

/// The nearest line behind `line` that is not hidden.
pub open spec fn shown_below(page: Page, line: int) -> Option<int>
    decreases page.texts.len() - line,
{
    if line + 1 >= page.texts.len() {
        None
    } else if !page.hidden[line + 1] {
        Some(line + 1)
    } else {
        shown_below(page, line + 1)
    }
}

/// A cursor, and the column that vertical motions keep to.
pub type Moved = Option<(Cursor, Option<i32>)>;

/// The end of the line in front of a cursor, if there is one.
pub open spec fn line_back(page: Page, cursor: Cursor, affinity: Affinity) -> Cursor {
    if cursor.line > 0 {
        Cursor {
            line: (cursor.line - 1) as usize,
            index: page.texts[cursor.line - 1].len() as usize,
            affinity,
        }
    } else {
        cursor
    }
}

/// The start of the line behind a cursor, if there is one.
pub open spec fn line_forth(page: Page, cursor: Cursor, affinity: Affinity) -> Cursor {
    if cursor.line + 1 < page.texts.len() {
        Cursor { line: (cursor.line + 1) as usize, index: 0, affinity }
    } else {
        cursor
    }
}

/// One cluster back.
pub open spec fn previous(page: Page, cursor: Cursor) -> Cursor {
    if cursor.index > 0 {
        Cursor {
            index: last_start(clusters(page.texts[cursor.line as int]), cursor.index as int),
            affinity: Affinity::After,
            ..cursor
        }
    } else {
        line_back(page, cursor, Affinity::After)
    }
}

/// One cluster forth.
pub open spec fn next(page: Page, cursor: Cursor) -> Cursor {
    let text = page.texts[cursor.line as int];
    if cursor.index < text.len() {
        match end_of_piece(clusters(text), cursor.index as int, 0) {
            Some(end) => Cursor { index: end as usize, affinity: Affinity::Before, ..cursor },
            None => cursor,
        }
    } else {
        line_forth(page, cursor, Affinity::Before)
    }
}

/// One word back.
pub open spec fn previous_word(page: Page, cursor: Cursor) -> Cursor {
    if cursor.index > 0 {
        Cursor {
            index: first_below(
                word_starts_back(page.texts[cursor.line as int]),
                cursor.index as int,
                0,
            ),
            ..cursor
        }
    } else {
        line_back(page, cursor, cursor.affinity)
    }
}

/// One word forth.
pub open spec fn next_word(page: Page, cursor: Cursor) -> Cursor {
    let text = page.texts[cursor.line as int];
    if cursor.index < text.len() {
        Cursor {
            index: match first_end(words(text), cursor.index as int, 0) {
                Some(end) => end as usize,
                None => text.len() as usize,
            },
            ..cursor
        }
    } else {
        line_forth(page, cursor, cursor.affinity)
    }
}

/// The column that a vertical motion keeps to.
pub open spec fn column(x_opt: Option<i32>, place: LayoutCursor) -> i32 {
    match x_opt {
        Some(x) => x,
        None => place.glyph as i32,
    }
}

/// The place one visual line above that of a cursor, in the column that is kept
/// to. The last visual line of a line is at a layout index that is too large.
pub open spec fn place_above(page: Page, cursor: Cursor, x_opt: Option<i32>) -> LayoutCursor {
    let place = place_in(page.layouts[cursor.line as int], cursor);
    let above = if place.layout > 0 {
        LayoutCursor { layout: (place.layout - 1) as usize, ..place }
    } else {
        match shown_above(page, place.line as int) {
            Some(line) => LayoutCursor { line: line as usize, layout: usize::MAX, ..place },
            None => place,
        }
    };
    LayoutCursor { glyph: column(x_opt, place) as usize, ..above }
}

/// The place one visual line below that of a cursor, in the column that is kept
/// to.
pub open spec fn place_below(page: Page, cursor: Cursor, x_opt: Option<i32>) -> LayoutCursor {
    let place = place_in(page.layouts[cursor.line as int], cursor);
    let below = if place.layout + 1 < page.layouts[cursor.line as int].len() {
        LayoutCursor { layout: (place.layout + 1) as usize, ..place }
    } else {
        match shown_below(page, place.line as int) {
            Some(line) => LayoutCursor { line: line as usize, layout: 0, ..place },
            None => place,
        }
    };
    LayoutCursor { glyph: column(x_opt, place) as usize, ..below }
}

/// The column that a vertical motion from a cursor keeps to.
pub open spec fn column_at(page: Page, cursor: Cursor, x_opt: Option<i32>) -> i32 {
    column(x_opt, place_in(page.layouts[cursor.line as int], cursor))
}

/// The cursor at a place of a page, and the column that is kept to.
pub open spec fn landed(page: Page, place: LayoutCursor, x: i32) -> Moved {
    match at_place_on(page, place) {
        Some(moved) => Some((moved, Some(x))),
        None => None,
    }
}

/// One visual line up.
pub open spec fn up(page: Page, cursor: Cursor, x_opt: Option<i32>) -> Moved {
    if cursor.line >= page.texts.len() {
        None
    } else {
        landed(page, place_above(page, cursor, x_opt), column_at(page, cursor, x_opt))
    }
}

/// One visual line down.
pub open spec fn down(page: Page, cursor: Cursor, x_opt: Option<i32>) -> Moved {
    if cursor.line >= page.texts.len() {
        None
    } else {
        landed(page, place_below(page, cursor, x_opt), column_at(page, cursor, x_opt))
    }
}

/// `n` visual lines up.
pub open spec fn up_by(page: Page, cursor: Cursor, x_opt: Option<i32>, n: nat) -> Moved
    decreases n,
{
    if n == 0 {
        Some((cursor, x_opt))
    } else {
        match up(page, cursor, x_opt) {
            Some((moved, x)) => up_by(page, moved, x, (n - 1) as nat),
            None => None,
        }
    }
}

/// `n` visual lines down.
pub open spec fn down_by(page: Page, cursor: Cursor, x_opt: Option<i32>, n: nat) -> Moved
    decreases n,
{
    if n == 0 {
        Some((cursor, x_opt))
    } else {
        match down(page, cursor, x_opt) {
            Some((moved, x)) => down_by(page, moved, x, (n - 1) as nat),
            None => None,
        }
    }
}

/// `a / b`, its fraction cut off.
pub open spec fn ratio(a: int, b: int) -> int {
    let x = if a < 0 {
        -a
    } else {
        a
    };
    let y = if b < 0 {
        -b
    } else {
        b
    };
    if (a < 0) == (b < 0) {
        x / y
    } else {
        -(x / y)
    }
}

/// Up or down by a number of pixels, of which `line_px` make a line.
pub open spec fn vertical(page: Page, cursor: Cursor, x_opt: Option<i32>, px: int, line_px: int) -> Moved {
    let lines = ratio(px, line_px);
    if lines < 0 {
        up_by(page, cursor, x_opt, (-lines) as nat)
    } else {
        down_by(page, cursor, x_opt, lines as nat)
    }
}

/// The pixels that a motion goes up or down.
pub open spec fn pixels<M: PixelMath>(motion: Motion, height_opt: Option<Px>) -> Option<int> {
    match (motion, height_opt) {
        (Motion::PageUp, Some(height)) => Some(M::truncated(height.negated()) as int),
        (Motion::PageDown, Some(height)) => Some(M::truncated(height) as int),
        (Motion::Vertical(px), _) => Some(px as int),
        _ => None,
    }
}

/// The start or the end of the line of a cursor, or of the text.
pub open spec fn to_end(page: Page, cursor: Cursor, motion: Motion) -> Option<Cursor> {
    let line = cursor.line as int;
    match motion {
        Motion::Home | Motion::ParagraphStart => Some(Cursor { index: 0, ..cursor }),
        Motion::SoftHome => if line < page.texts.len() {
            Some(Cursor { index: first_ink(page.texts[line], 0) as usize, ..cursor })
        } else {
            None
        },
        Motion::End | Motion::ParagraphEnd => if line < page.texts.len() {
            Some(Cursor { index: page.texts[line].len() as usize, ..cursor })
        } else {
            None
        },
        Motion::BufferStart => Some(Cursor { line: 0, index: 0, ..cursor }),
        _ => if page.texts.len() > 0 {
            Some(
                Cursor {
                    line: (page.texts.len() - 1) as usize,
                    index: page.texts.last().len() as usize,
                    ..cursor
                },
            )
        } else {
            None
        },
    }
}

/// Where a motion leads, and the column that is kept to from there on. A line
/// that does not exist leads nowhere.
pub open spec fn moved<M: PixelMath>(
    page: Page,
    height_opt: Option<Px>,
    line_height: Px,
    cursor: Cursor,
    x_opt: Option<i32>,
    motion: Motion,
) -> Moved {
    let line = cursor.line as int;
    let exists_line = line < page.texts.len();
    match motion {
        Motion::LayoutCursor(place) => match at_place_on(page, place) {
            Some(cursor) => Some((cursor, x_opt)),
            None => None,
        },
        Motion::Previous => if exists_line {
            Some((previous(page, cursor), None))
        } else {
            None
        },
        Motion::Next => if exists_line {
            Some((next(page, cursor), None))
        } else {
            None
        },
        Motion::Left => if !exists_line {
            Some((cursor, x_opt))
        } else if page.rtl[line] {
            Some((next(page, cursor), None))
        } else {
            Some((previous(page, cursor), None))
        },
        Motion::Right => if !exists_line {
            Some((cursor, x_opt))
        } else if page.rtl[line] {
            Some((previous(page, cursor), None))
        } else {
            Some((next(page, cursor), None))
        },
        Motion::Up => up(page, cursor, x_opt),
        Motion::Down => down(page, cursor, x_opt),
        Motion::PageUp | Motion::PageDown | Motion::Vertical(_) => match pixels::<M>(
            motion,
            height_opt,
        ) {
            Some(px) => vertical(page, cursor, x_opt, px, M::truncated(line_height) as int),
            None => Some((cursor, x_opt)),
        },
        Motion::PreviousWord => if exists_line {
            Some((previous_word(page, cursor), None))
        } else {
            None
        },
        Motion::NextWord => if exists_line {
            Some((next_word(page, cursor), None))
        } else {
            None
        },
        Motion::LeftWord => if !exists_line {
            Some((cursor, x_opt))
        } else if page.rtl[line] {
            Some((next_word(page, cursor), None))
        } else {
            Some((previous_word(page, cursor), None))
        },
        Motion::RightWord => if !exists_line {
            Some((cursor, x_opt))
        } else if page.rtl[line] {
            Some((previous_word(page, cursor), None))
        } else {
            Some((next_word(page, cursor), None))
        },
        Motion::GotoLine(to) => if exists_line {
            match at_place_on(
                page,
                LayoutCursor { line: to, ..place_in(page.layouts[line], cursor) },
            ) {
                Some(cursor) => Some((cursor, x_opt)),
                None => None,
            }
        } else {
            None
        },
        _ => match to_end(page, cursor, motion) {
            Some(cursor) => Some((cursor, None)),
            None => None,
        },
    }
}

/// Finds the last cluster that starts in front of `limit`.
pub(crate) fn find_previous_cluster(text: &str, limit: usize) -> (r: usize)
    ensures
        r == last_start(clusters(encode_utf8(text@)), limit as int),
        at_boundary(encode_utf8(text@), r as int),
{
    proof {
        encode_utf8_valid_utf8(text@);
        lemma_first_byte(encode_utf8(text@));
    }
    let pieces = cluster_indices(text);
    let mut i: usize = 0;
    let mut found: usize = 0;
    while i < pieces.len() && pieces[i].0 < limit
        invariant
            i <= pieces@.len(),
            tiles(pieces@, encode_utf8(text@).len() as int),
            found == last_start(pieces@.take(i as int), limit as int),
            forall|k: int|
                0 <= k < pieces@.len() ==> at_boundary(
                    encode_utf8(text@),
                    (#[trigger] pieces@[k]).0 as int,
                ),
            at_boundary(encode_utf8(text@), found as int),
        decreases pieces@.len() - i,
    {
        found = pieces[i].0;
        i = i + 1;
        assert(pieces@.take(i as int).last() == pieces@[i - 1]);
    }
    proof {
        lemma_starts_grow(pieces@, encode_utf8(text@).len() as int);
        lemma_last_start(pieces@, limit as int, i as int, pieces@.len() as int);
        assert(pieces@.take(pieces@.len() as int) =~= pieces@);
    }
    found
}

/// Pieces without a gap start one behind the other.
pub proof fn lemma_starts_grow(pieces: Seq<(usize, usize)>, n: int)
    requires
        tiles(pieces, n),
    ensures
        forall|i: int, j: int|
            0 <= i < j < pieces.len() ==> (#[trigger] pieces[i]).0 + pieces[i].1 <= (
            #[trigger] pieces[j]).0,
{
    assert forall|i: int, j: int| 0 <= i < j < pieces.len() implies (#[trigger] pieces[i]).0
        + pieces[i].1 <= (#[trigger] pieces[j]).0 by {
        lemma_starts_between(pieces, n, i, j);
    }
}

proof fn lemma_starts_between(pieces: Seq<(usize, usize)>, n: int, i: int, j: int)
    requires
        tiles(pieces, n),
        0 <= i < j < pieces.len(),
    ensures
        pieces[i].0 + pieces[i].1 <= pieces[j].0,
    decreases j - i,
{
    assert(meets(pieces, i));
    if i + 1 < j {
        lemma_starts_between(pieces, n, i + 1, j);
    }
}

/// Pieces at or behind the limit do not matter.
proof fn lemma_last_start(pieces: Seq<(usize, usize)>, limit: int, i: int, j: int)
    requires
        0 <= i <= j <= pieces.len(),
        forall|a: int, b: int|
            0 <= a < b < pieces.len() ==> (#[trigger] pieces[a]).0 + pieces[a].1 <= (
            #[trigger] pieces[b]).0,
        i < pieces.len() ==> pieces[i].0 >= limit,
    ensures
        last_start(pieces.take(j), limit) == last_start(pieces.take(i), limit),
    decreases j,
{
    if i < j {
        assert(pieces.take(j).drop_last() =~= pieces.take(j - 1));
        assert(pieces.take(j).last() == pieces[j - 1]);
        if i < j - 1 {
            assert(pieces[i].0 + pieces[i].1 <= pieces[j - 1].0);
        }
        lemma_last_start(pieces, limit, i, j - 1);
    }
}

/// Finds the end of the cluster that starts at `index`.
pub(crate) fn find_cluster_end(text: &str, index: usize) -> (r: Option<usize>)
    ensures
        match r {
            Some(end) => end_of_piece(clusters(encode_utf8(text@)), index as int, 0) == Some(
                end as int,
            ) && at_boundary(encode_utf8(text@), end as int),
            None => end_of_piece(clusters(encode_utf8(text@)), index as int, 0) is None,
        },
{
    let pieces = cluster_indices(text);
    let len = byte_len(text);
    let mut i: usize = 0;
    while i < pieces.len()
        invariant
            i <= pieces@.len(),
            pieces@ == clusters(encode_utf8(text@)),
            tiles(pieces@, encode_utf8(text@).len() as int),
            len == encode_utf8(text@).len(),
            end_of_piece(pieces@, index as int, 0) == end_of_piece(pieces@, index as int, i as int),
            forall|k: int|
                0 <= k < pieces@.len() ==> at_boundary(
                    encode_utf8(text@),
                    (#[trigger] pieces@[k]).0 as int,
                ),
        decreases pieces@.len() - i,
    {
        if pieces[i].0 == index {
            assert(pieces@[i as int].0 + pieces@[i as int].1 <= len);
            proof {
                if i + 1 < pieces@.len() {
                    assert(meets(pieces@, i as int));
                    assert(at_boundary(encode_utf8(text@), pieces@[i + 1].0 as int));
                }
            }
            return Some(pieces[i].0 + pieces[i].1);
        }
        i = i + 1;
    }
    None
}

/// Finds the first word that starts in front of `limit`, from the back.
pub(crate) fn find_previous_word(text: &str, limit: usize) -> (r: usize)
    ensures
        r == first_below(word_starts_back(encode_utf8(text@)), limit as int, 0),
        at_boundary(encode_utf8(text@), r as int),
{
    proof {
        encode_utf8_valid_utf8(text@);
        lemma_first_byte(encode_utf8(text@));
    }
    let starts = word_indices_back(text);
    let mut i: usize = 0;
    while i < starts.len()
        invariant
            i <= starts@.len(),
            starts@ == word_starts_back(encode_utf8(text@)),
            first_below(starts@, limit as int, 0) == first_below(starts@, limit as int, i as int),
            forall|k: int|
                0 <= k < starts@.len() ==> at_boundary(
                    encode_utf8(text@),
                    (#[trigger] starts@[k]) as int,
                ),
        decreases starts@.len() - i,
    {
        if starts[i] < limit {
            return starts[i];
        }
        i = i + 1;
    }
    0
}

/// Finds the first word that ends behind `index`.
pub(crate) fn find_word_end(text: &str, index: usize) -> (r: Option<usize>)
    ensures
        match r {
            Some(end) => first_end(words(encode_utf8(text@)), index as int, 0) == Some(end as int)
                && at_boundary(encode_utf8(text@), end as int),
            None => first_end(words(encode_utf8(text@)), index as int, 0) is None,
        },
{
    let pieces = word_indices(text);
    let len = byte_len(text);
    let mut i: usize = 0;
    while i < pieces.len()
        invariant
            i <= pieces@.len(),
            pieces@ == words(encode_utf8(text@)),
            len == encode_utf8(text@).len(),
            forall|k: int|
                0 <= k < pieces@.len() ==> at_boundary(
                    encode_utf8(text@),
                    (#[trigger] pieces@[k]).0 + pieces@[k].1,
                ),
            first_end(pieces@, index as int, 0) == first_end(pieces@, index as int, i as int),
        decreases pieces@.len() - i,
    {
        assert(pieces@[i as int].0 + pieces@[i as int].1 <= len);
        let end = pieces[i].0 + pieces[i].1;
        if end > index {
            return Some(end);
        }
        i = i + 1;
    }
    None
}

/// Number of bytes of the white space character at position `i`.
fn blank_len(bytes: &[u8], i: usize) -> (r: usize)
    requires
        i < bytes@.len(),
    ensures
        r == blank_at(bytes@, i as int),
        i + r <= bytes@.len(),
{
    let a = bytes[i];
    if (0x09 <= a && a <= 0x0d) || a == 0x20 {
        return 1;
    }
    if bytes.len() - i >= 2 {
        let b = bytes[i + 1];
        if a == 0xc2 && (b == 0x85 || b == 0xa0) {
            return 2;
        }
        if bytes.len() - i >= 3 {
            let c = bytes[i + 2];
            if (a == 0xe1 && b == 0x9a && c == 0x80) || (a == 0xe2 && b == 0x80 && ((0x80 <= c && c
                <= 0x8a) || c == 0xa8 || c == 0xa9 || c == 0xaf)) || (a == 0xe2 && b == 0x81 && c
                == 0x9f) || (a == 0xe3 && b == 0x80 && c == 0x80) {
                return 3;
            }
        }
    }
    0
}

/// Finds the first character that is not white space.
pub(crate) fn find_ink(text: &str) -> (r: usize)
    ensures
        r == first_ink(encode_utf8(text@), 0),
        at_boundary(encode_utf8(text@), r as int),
{
    let bytes = text.as_bytes();
    proof {
        encode_utf8_valid_utf8(text@);
        lemma_first_byte(encode_utf8(text@));
    }
    let mut i: usize = 0;
    while i < bytes.len()
        invariant
            bytes@ == encode_utf8(text@),
            i <= bytes@.len(),
            first_ink(bytes@, 0) == first_ink(bytes@, i as int),
            valid_utf8(bytes@),
            at_boundary(bytes@, 0),
            at_boundary(bytes@, i as int),
        decreases bytes@.len() - i,
    {
        let n = blank_len(bytes, i);
        if n == 0 {
            return i;
        }
        proof {
            lemma_next_boundary(bytes@, i as int);
        }
        i = i + n;
    }
    0
}

/// `a / b`, its fraction cut off.
pub(crate) fn divide(a: i32, b: i32) -> (r: i32)
    requires
        b != 0,
        -0x7fff_ffff <= ratio(a as int, b as int) <= 0x7fff_ffff,
    ensures
        r == ratio(a as int, b as int),
{
    let x: u32 = if a < 0 {
        (-(a as i64)) as u32
    } else {
        a as u32
    };
    let y: u32 = if b < 0 {
        (-(b as i64)) as u32
    } else {
        b as u32
    };
    let q = x / y;
    if (a < 0) == (b < 0) {
        q as i32
    } else {
        -(q as i32)
    }
}

} // verus!
