//! What a view shows once it has been moved to a cursor.

use vstd::prelude::*;

use crate::buffer::{Buffer, LineStore, Page};
use crate::cell_font::CellFont;
use crate::cursor::{Cursor, Scroll};
use crate::dirty::DirtyFlags;
use crate::layout::LayoutLineView;
use crate::motion::{boundary_from, place_in};
use crate::pixel::{zero, PixelMath, Px};
use crate::resolve::resolved;
use crate::scrolling::{
    edges, height_of, lowered, on_page, reached, row_span, settled, sideways, walked_up, Window,
    SCROLL_PASSES,
};
use crate::settle_laws::{
    at_rest, is_whole, law_views_come_to_rest, lemma_rows_px, lemma_stacked, lemma_tops, line_px,
    measured, place_px, rows_px, top_px, whole_rows,
};
use crate::whole_pixels::{
    law_pixels_keep_the_order, law_whole_undoes_pixels, pixels, whole, LARGEST,
};

verus! {

/// Whether a view of the given height that begins at a scroll position shows
/// the whole of visual line `k` of line `line`.
pub open spec fn shows_row(
    page: Page,
    line_height: Px,
    height: Px,
    scroll: Scroll,
    line: int,
    k: int,
) -> bool {
    let rows = page.layouts[line];
    let top = top_px(page, line_height, line);
    let place = place_px(page, line_height, scroll);
    &&& place <= top + rows_px(rows.take(k), line_height)
    &&& top + rows_px(rows.take(k + 1), line_height) <= place + whole(height)
}

/// The first visual lines are no higher than all of them.
proof fn lemma_rows_take(rows: Seq<LayoutLineView>, line_height: Px, k: int)
    requires
        whole_rows(rows, line_height),
        0 <= k <= rows.len(),
    ensures
        whole_rows(rows.take(k), line_height),
        0 <= rows_px(rows.take(k), line_height) <= rows_px(rows, line_height),
        k < rows.len() ==> rows_px(rows.take(k + 1), line_height) == rows_px(
            rows.take(k),
            line_height,
        ) + whole(height_of(rows[k], line_height)),
    decreases rows.len() - k,
{
    assert forall|j: int| 0 <= j < rows.take(k).len() implies is_whole(
        height_of(#[trigger] rows.take(k)[j], line_height),
    ) && whole(height_of(rows.take(k)[j], line_height)) >= 0 by {
        assert(rows.take(k)[j] == rows[j]);
    }
    lemma_rows_px(rows.take(k), line_height);
    if k < rows.len() {
        lemma_rows_take(rows, line_height, k + 1);
        assert(rows.take(k + 1).drop_last() =~= rows.take(k));
        assert(rows.take(k + 1).last() == rows[k]);
    } else {
        assert(rows.take(k) =~= rows);
    }
}

/// Walking up leads to where the view ends with the visual line, unless it is
/// shown already.
proof fn lemma_up(page: Page, line_height: Px, height: Px, scroll: Scroll, i: int, total: int)
    requires
        measured(page, line_height),
        at_rest(page, line_height, scroll),
        is_whole(height),
        whole(height) >= 0,
        scroll.line <= i < page.texts.len(),
        0 <= total,
        top_px(page, line_height, i) + total <= top_px(page, line_height, page.texts.len() as int),
        2 * top_px(page, line_height, page.texts.len() as int) + whole(height) <= LARGEST,
        scroll.line == i ==> total <= whole(height) + whole(scroll.vertical),
    ensures
        ({
            let r = walked_up::<CellFont>(page, line_height, height, scroll, i, pixels(total));
            let bottom = top_px(page, line_height, i) + total;
            ||| r == scroll && bottom <= place_px(page, line_height, scroll) + whole(height)
            ||| {
                &&& r.line < i
                &&& is_whole(r.vertical)
                &&& 0 < whole(r.vertical) <= top_px(page, line_height, page.texts.len() as int)
                &&& place_px(page, line_height, r) == bottom - whole(height)
                &&& bottom > place_px(page, line_height, scroll) + whole(height)
            }
        }),
    decreases i,
{
    if scroll.line < i {
        let n = page.texts.len() as int;
        let h = whole(height);
        let v = whole(scroll.vertical);
        lemma_tops(page, line_height, 0, i - 1);
        lemma_tops(page, line_height, i, n);
        lemma_tops(page, line_height, scroll.line as int, n);
        lemma_tops(page, line_height, scroll.line + 1, n);
        let sum = total + line_px(page, line_height, i - 1);
        if !page.hidden[i - 1] {
            lemma_rows_px(page.layouts[i - 1], line_height);
            lemma_stacked(total, page.layouts[i - 1], line_height);
        }
        law_whole_undoes_pixels(h);
        law_whole_undoes_pixels(v);
        law_whole_undoes_pixels(sum);
        law_pixels_keep_the_order(h + v, sum);
        let next = lowered::<CellFont>(scroll, height, i - 1, pixels(sum));
        lemma_tops(page, line_height, scroll.line as int, i - 1);
        if h + v < sum {
            law_whole_undoes_pixels(sum - h);
            assert(walked_up::<CellFont>(page, line_height, height, next, i - 1, pixels(sum)) == next);
        } else {
            lemma_up(page, line_height, height, scroll, i - 1, sum);
        }
    }
}

/// Moving a view that is at rest to a visual line shows the visual line, as
/// long as it is no higher than the view. All heights are taken to be whole
/// numbers of pixels that can be told exactly.
pub proof fn law_reaching_shows_the_row(
    page: Page,
    line_height: Px,
    height: Px,
    scroll: Scroll,
    line: int,
    k: int,
)
    requires
        measured(page, line_height),
        at_rest(page, line_height, scroll),
        is_whole(height),
        0 <= line < page.texts.len(),
        !page.hidden[line],
        0 <= k < page.layouts[line].len(),
        whole(height_of(page.layouts[line][k], line_height)) <= whole(height),
        2 * top_px(page, line_height, page.texts.len() as int) + whole(height) <= LARGEST,
    ensures
        ({
            let (y, bottom) = row_span::<CellFont>(page.layouts[line], line_height, k);
            let r = reached::<CellFont>(
                page,
                line_height,
                Some(height),
                scroll,
                line,
                y,
                bottom,
            );
            &&& shows_row(page, line_height, height, r, line, k)
            &&& r.line <= line
            &&& is_whole(r.vertical)
            &&& 0 <= whole(r.vertical) <= top_px(page, line_height, page.texts.len() as int)
        }),
{
    let n = page.texts.len() as int;
    let rows = page.layouts[line];
    let h = whole(height);
    let v = whole(scroll.vertical);
    let above = rows_px(rows.take(k), line_height);
    let below = rows_px(rows.take(k + 1), line_height);
    lemma_rows_take(rows, line_height, k);
    lemma_rows_take(rows, line_height, k + 1);
    lemma_tops(page, line_height, 0, line);
    lemma_tops(page, line_height, line, n);
    lemma_tops(page, line_height, line + 1, n);
    assert(pixels(0) == zero());
    lemma_stacked(0, rows.take(k), line_height);
    law_whole_undoes_pixels(above);
    law_whole_undoes_pixels(below);
    law_whole_undoes_pixels(h);
    law_whole_undoes_pixels(v);
    let (y, bottom) = row_span::<CellFont>(rows, line_height, k);
    assert(y == pixels(above));
    assert(bottom == pixels(below));
    law_pixels_keep_the_order(above, v);
    if scroll.line > line || (scroll.line == line && above < v) {
    } else if scroll.line == line {
        law_pixels_keep_the_order(h + v, below);
        law_whole_undoes_pixels(below - h);
    } else {
        lemma_tops(page, line_height, scroll.line as int, line);
        lemma_tops(page, line_height, scroll.line + 1, line);
        lemma_up(page, line_height, height, scroll, line, below);
    }
}

/// Moving a view that is at rest to a visual line that is no higher than the
/// view moves it no further than it takes to show the visual line: up to its
/// top, or down to its bottom, or not at all. All heights are taken to be whole
/// numbers of pixels that can be told exactly.
pub proof fn law_reaching_moves_no_further(
    page: Page,
    line_height: Px,
    height: Px,
    scroll: Scroll,
    line: int,
    k: int,
)
    requires
        measured(page, line_height),
        at_rest(page, line_height, scroll),
        is_whole(height),
        0 <= line < page.texts.len(),
        !page.hidden[line],
        0 <= k < page.layouts[line].len(),
        whole(height_of(page.layouts[line][k], line_height)) <= whole(height),
        2 * top_px(page, line_height, page.texts.len() as int) + whole(height) <= LARGEST,
    ensures
        ({
            let (y, bottom) = row_span::<CellFont>(page.layouts[line], line_height, k);
            let r = reached::<CellFont>(
                page,
                line_height,
                Some(height),
                scroll,
                line,
                y,
                bottom,
            );
            let place = place_px(page, line_height, scroll);
            let row_top = top_px(page, line_height, line) + rows_px(
                page.layouts[line].take(k),
                line_height,
            );
            let row_bottom = top_px(page, line_height, line) + rows_px(
                page.layouts[line].take(k + 1),
                line_height,
            );
            place_px(page, line_height, r) == if row_top <= place {
                row_top
            } else if row_bottom > place + whole(height) {
                row_bottom - whole(height)
            } else {
                place
            }
        }),
{
    let n = page.texts.len() as int;
    let rows = page.layouts[line];
    let h = whole(height);
    let v = whole(scroll.vertical);
    let above = rows_px(rows.take(k), line_height);
    let below = rows_px(rows.take(k + 1), line_height);
    lemma_rows_take(rows, line_height, k);
    lemma_rows_take(rows, line_height, k + 1);
    lemma_tops(page, line_height, 0, line);
    lemma_tops(page, line_height, line, n);
    lemma_tops(page, line_height, line + 1, n);
    assert(pixels(0) == zero());
    lemma_stacked(0, rows.take(k), line_height);
    law_whole_undoes_pixels(above);
    law_whole_undoes_pixels(below);
    law_whole_undoes_pixels(h);
    law_whole_undoes_pixels(v);
    let (y, bottom) = row_span::<CellFont>(rows, line_height, k);
    assert(y == pixels(above));
    assert(bottom == pixels(below));
    law_pixels_keep_the_order(above, v);
    if scroll.line > line {
        lemma_tops(page, line_height, line + 1, scroll.line as int);
    } else if above < v && scroll.line == line {
    } else if scroll.line == line {
        law_pixels_keep_the_order(h + v, below);
        law_whole_undoes_pixels(below - h);
    } else {
        lemma_tops(page, line_height, scroll.line as int, line);
        lemma_tops(page, line_height, scroll.line + 1, line);
        lemma_up(page, line_height, height, scroll, line, below);
    }
}

/// A position that was found in the layout is there.
proof fn lemma_found(rows: Seq<LayoutLineView>, cursor: Cursor, k: int)
    requires
        0 <= k,
    ensures
        boundary_from(rows, cursor, k) matches Some(found) ==> k <= found.0 < rows.len(),
    decreases rows.len() - k,
{
    if k < rows.len() {
        lemma_found(rows, cursor, k + 1);
    }
}

/// Lines whose results are all up to date show the same once results have been
/// dropped for no reason but that the view has moved.
proof fn lemma_nothing_dropped(store: &LineStore, fonts: int, buffer: &Buffer)
    requires
        buffer.store == *store,
        buffer.dirty == (DirtyFlags { scroll: buffer.dirty.scroll, ..DirtyFlags::none() }),
    ensures
        buffer.resolved_page::<CellFont>(fonts) == buffer.page::<CellFont>(fonts),
        store.current::<CellFont>(fonts, buffer.settings()) ==> buffer.tracks::<CellFont>(fonts),
        buffer.tracks::<CellFont>(fonts) ==> store.current::<CellFont>(fonts, buffer.settings()),
{
    let p = buffer.resolved_page::<CellFont>(fonts);
    let q = buffer.page::<CellFont>(fonts);
    assert(p.texts =~= q.texts);
    assert(p.hidden =~= q.hidden);
    assert(p.rtl =~= q.rtl);
    assert(p.layouts =~= q.layouts);
    match store {
        LineStore::Full(lines) => {
            assert forall|i: int| 0 <= i < lines@.len() implies #[trigger] resolved(
                lines@[i]@,
                buffer.dirty,
            ) == lines@[i]@ by {}
        },
        LineStore::Rope(_) => {},
    }
}

/// A view that is brought up to date shows a visual line that it showed before.
proof fn lemma_still_shown(page: Page, window: Window, height: Px, scroll: Scroll, line: int, k: int)
    requires
        measured(page, window.line_height),
        window.height_opt == Some(height),
        is_whole(height),
        0 <= line < page.texts.len(),
        !page.hidden[line],
        0 <= k < page.layouts[line].len(),
        whole(height_of(page.layouts[line][k], window.line_height)) <= whole(height),
        3 * top_px(page, window.line_height, page.texts.len() as int) + whole(height) <= LARGEST,
        shows_row(page, window.line_height, height, scroll, line, k),
        scroll.line <= line,
        is_whole(scroll.vertical),
        0 <= whole(scroll.vertical) <= top_px(page, window.line_height, page.texts.len() as int),
    ensures
        shows_row(
            page,
            window.line_height,
            height,
            settled::<CellFont>(page, window, scroll, SCROLL_PASSES as nat).scroll,
            line,
            k,
        ),
{
    let lh = window.line_height;
    let n = page.texts.len() as int;
    lemma_rows_take(page.layouts[line], lh, k);
    lemma_rows_take(page.layouts[line], lh, k + 1);
    lemma_tops(page, lh, 0, scroll.line as int);
    lemma_tops(page, lh, line + 1, n);
    law_views_come_to_rest(page, window, scroll, height, SCROLL_PASSES as nat);
}

/// Bringing a cursor into view shows the whole of the visual line that the
/// cursor is on, as long as it is no higher than the view and its line is not
/// hidden. All heights are taken to be whole numbers of pixels that can be told
/// exactly; a view that needs not be brought up to date is taken to be at rest.
#[verifier::rlimit(40)]
pub proof fn law_cursor_comes_into_view(
    before: &Buffer,
    after: &Buffer,
    fonts: int,
    cursor: Cursor,
    prune: bool,
    height: Px,
)
    requires
        before.tracks::<CellFont>(fonts),
        before.brings_into_view::<CellFont>(after, fonts, cursor, prune),
        before.height_opt == Some(height),
        is_whole(height),
        ({
            let page = before.resolved_page::<CellFont>(fonts);
            let lh = before.metrics.line_height;
            let rows = page.layouts[cursor.line as int];
            let end = top_px(page, lh, page.texts.len() as int);
            &&& measured(page, lh)
            &&& cursor.line < page.texts.len()
            &&& !page.hidden[cursor.line as int]
            &&& rows.len() <= usize::MAX
            &&& whole(height_of(rows[place_in(rows, cursor).layout as int], lh)) <= whole(height)
            &&& 3 * end + whole(height) <= LARGEST
            &&& if before.stale() {
                is_whole(before.scroll.vertical) && 2 * end + whole(height) + whole(
                    before.scroll.vertical,
                ) <= LARGEST
            } else {
                at_rest(page, lh, before.scroll)
            }
        }),
    ensures
        ({
            let page = before.resolved_page::<CellFont>(fonts);
            shows_row(
                page,
                before.metrics.line_height,
                height,
                after.scroll,
                cursor.line as int,
                place_in(page.layouts[cursor.line as int], cursor).layout as int,
            )
        }),
{
    let page = before.resolved_page::<CellFont>(fonts);
    let lh = before.metrics.line_height;
    let line = cursor.line as int;
    let rows = page.layouts[line];
    let k = place_in(rows, cursor).layout as int;
    let n = page.texts.len() as int;
    lemma_found(rows, cursor, 0);
    assert(rows.len() > 0);
    lemma_rows_take(rows, lh, k);
    lemma_tops(page, lh, 0, n);
    let (a, b, c) = choose|a: Buffer, b: Buffer, c: Buffer|
        {
            &&& #[trigger] before.refreshes::<CellFont>(&a, fonts, prune)
            &&& #[trigger] a.scrolls_to::<CellFont>(&b, fonts, cursor)
            &&& b.refreshes::<CellFont>(&c, fonts, prune)
            &&& #[trigger] c.scrolls_sideways_to::<CellFont>(after, fonts, cursor)
        };
    if before.stale() {
        let start = on_page(before.count(), before.scroll);
        law_whole_undoes_pixels(0);
        assert(pixels(0) == zero());
        law_views_come_to_rest(page, before.window(), start, height, SCROLL_PASSES as nat);
    } else {
        lemma_nothing_dropped(&before.store, fonts, before);
    }
    assert(at_rest(page, lh, a.scroll));
    assert(a.page::<CellFont>(fonts) == page);
    assert(a.store.current::<CellFont>(fonts, a.settings()));
    assert(a.store.steady::<CellFont>(fonts, a.settings()));
    law_reaching_shows_the_row(page, lh, height, a.scroll, line, k);
    assert(b.settings() == before.settings());
    assert(shows_row(page, lh, height, b.scroll, line, k));
    if b.stale() {
        lemma_nothing_dropped(&b.store, fonts, &b);
        assert(b.page::<CellFont>(fonts) == page);
        assert(on_page(b.count(), b.scroll) == b.scroll);
        lemma_still_shown(page, b.window(), height, b.scroll, line, k);
    }
    assert(shows_row(page, lh, height, c.scroll, line, k));
}

/// Scrolling sideways to a glyph shows the whole of it, as long as it is no
/// wider than the view, and moves the view no further than that takes. All widths are taken to be whole numbers of pixels that
/// can be told exactly.
pub proof fn law_sideways_shows_the_glyph(horizontal: Px, width: Px, left: Px, right: Px)
    requires
        is_whole(horizontal),
        is_whole(width),
        is_whole(left),
        is_whole(right),
        0 <= whole(right) - whole(left) <= whole(width),
        whole(horizontal) + whole(width) <= LARGEST,
        -LARGEST <= whole(left),
        -LARGEST <= whole(right) - whole(width),
        -LARGEST <= whole(horizontal),
        whole(left) + whole(width) <= LARGEST,
    ensures
        whole(sideways::<CellFont>(horizontal, Some(width), left, right)) <= whole(left),
        whole(right) <= whole(sideways::<CellFont>(horizontal, Some(width), left, right)) + whole(
            width,
        ),
        whole(sideways::<CellFont>(horizontal, Some(width), left, right)) == if whole(left) < whole(
            horizontal,
        ) {
            whole(left)
        } else if whole(right) > whole(horizontal) + whole(width) {
            whole(right) - whole(width)
        } else {
            whole(horizontal)
        },
{
    let h = whole(horizontal);
    let w = whole(width);
    let l = whole(left);
    let r = whole(right);
    law_whole_undoes_pixels(h);
    law_whole_undoes_pixels(l);
    law_whole_undoes_pixels(r);
    law_whole_undoes_pixels(w);
    law_pixels_keep_the_order(l, h);
    let at = if l < h {
        l
    } else {
        h
    };
    law_pixels_keep_the_order(at + w, r);
    law_whole_undoes_pixels(r - w);
}

/// The edges of a glyph are those that it has, or those of the last glyph if
/// there are not as many; of a visual line without glyphs both are at the left.
pub proof fn law_edges_of_a_glyph<M: PixelMath>(row: LayoutLineView, g: int)
    requires
        0 <= g,
    ensures
        row.glyphs.len() == 0 ==> edges::<M>(row, g) == (zero(), zero()),
        forall|k: int|
            0 <= k < row.glyphs.len() && (k == g || (g >= row.glyphs.len() && k == row.glyphs.len()
                - 1)) && (#[trigger] row.glyphs[k]).x.le(M::sum(row.glyphs[k].x, row.glyphs[k].w))
                ==> edges::<M>(row, g).0 == row.glyphs[k].x && edges::<M>(row, g).1.same(
                M::sum(row.glyphs[k].x, row.glyphs[k].w),
            ),
{
}

} // verus!
