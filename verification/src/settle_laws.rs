//! When a view comes to rest.
//!
//! Where heights are added up without loss, one correction is enough to put
//! the end of the text at the bottom of the view, and a second one finds
//! nothing left to do.

use vstd::prelude::*;

use crate::buffer::Page;
use crate::cell_font::CellFont;
use crate::cursor::Scroll;
use crate::layout::LayoutLineView;
use crate::motion_laws::whole_page;
use crate::pixel::{zero, PixelMath, Px};
use crate::scrolling::{
    corrected, height_of, lemma_walked, passed_by, passed_hidden, row_span, settled, stacked,
    walked, walked_back, Pass, Window,
};
use crate::whole_pixels::{
    held, law_pixels_keep_the_order, law_whole_undoes_pixels, pixels, whole, LARGEST,
};

verus! {

/// Whether a view that is corrected from `scroll` is filled, or begins at the
/// first line, or is one of a rope whose height is not known.
pub open spec fn rests<M: PixelMath>(page: Page, window: Window, scroll: Scroll) -> bool {
    let back = walked_back::<M>(page, window.line_height, scroll);
    let limit = window.limit_at::<M>(back);
    let walk = walked::<M>(page, window.line_height, limit, back.line as int, back, zero());
    !walk.total.lt(limit) || walk.scroll.line == 0 || (window.rope && window.height_opt is None)
}

/// A view that needs no further correction is filled with text, or begins at
/// the first line, or is one of a rope whose height is not known.
pub proof fn law_settled_views_rest<M: PixelMath>(
    page: Page,
    window: Window,
    scroll: Scroll,
    passes: nat,
)
    ensures
        settled::<M>(page, window, scroll, passes).done ==> exists|at: Scroll|
            {
                &&& #[trigger] corrected::<M>(page, window, at) == settled::<M>(
                    page,
                    window,
                    scroll,
                    passes,
                )
                &&& rests::<M>(page, window, at)
            },
    decreases passes,
{
    let pass = corrected::<M>(page, window, scroll);
    if pass.done || passes <= 1 {
        assert(corrected::<M>(page, window, scroll) == settled::<M>(page, window, scroll, passes));
    } else {
        law_settled_views_rest::<M>(page, window, pass.scroll, (passes - 1) as nat);
    }
}

/// Whether a quantity is a whole number of pixels.
pub open spec fn is_whole(p: Px) -> bool {
    p == pixels(whole(p))
}

/// Height of visual lines in pixels. Each has its own height, or else
/// `line_height`.
pub open spec fn rows_px(rows: Seq<LayoutLineView>, line_height: Px) -> int
    decreases rows.len(),
{
    if rows.len() == 0 {
        0
    } else {
        rows_px(rows.drop_last(), line_height) + match rows.last().line_height_opt {
            Some(own) => whole(own),
            None => whole(line_height),
        }
    }
}

/// Height of line `i` in pixels; a hidden line has none.
pub open spec fn line_px(page: Page, line_height: Px, i: int) -> int {
    if page.hidden[i] {
        0
    } else {
        rows_px(page.layouts[i], line_height)
    }
}

/// Height of the first `i` lines in pixels.
pub open spec fn top_px(page: Page, line_height: Px, i: int) -> int
    decreases i,
{
    if i <= 0 {
        0
    } else {
        top_px(page, line_height, i - 1) + line_px(page, line_height, i - 1)
    }
}

/// Whether all visual lines are a whole number of pixels high.
pub open spec fn whole_rows(rows: Seq<LayoutLineView>, line_height: Px) -> bool {
    forall|k: int|
        0 <= k < rows.len() ==> match (#[trigger] rows[k]).line_height_opt {
            Some(own) => is_whole(own) && whole(own) >= 0,
            None => is_whole(line_height) && whole(line_height) >= 0,
        }
}

/// Whether all lines that are not hidden are a whole number of pixels high, and
/// at least one.
pub open spec fn measured(page: Page, line_height: Px) -> bool {
    &&& whole_page(page)
    &&& forall|i: int|
        0 <= i < page.texts.len() && !(#[trigger] page.hidden[i]) ==> whole_rows(
            page.layouts[i],
            line_height,
        ) && rows_px(page.layouts[i], line_height) >= 1
}

/// Where a scroll position is, in pixels from the top of the text.
pub open spec fn place_px(page: Page, line_height: Px, scroll: Scroll) -> int {
    top_px(page, line_height, scroll.line as int) + whole(scroll.vertical)
}

/// Whether a scroll position is on its line: at its top, or above its bottom,
/// or behind the last line.
pub open spec fn stands(page: Page, line_height: Px, scroll: Scroll) -> bool {
    ||| whole(scroll.vertical) == 0
    ||| scroll.line >= page.texts.len()
    ||| whole(scroll.vertical) < line_px(page, line_height, scroll.line as int)
}

/// Whether a scroll position is one at which a view can rest: a whole number of
/// pixels below the top of the line that it is on.
pub open spec fn at_rest(page: Page, line_height: Px, scroll: Scroll) -> bool {
    &&& scroll.line <= page.texts.len()
    &&& is_whole(scroll.vertical)
    &&& whole(scroll.vertical) >= 0
    &&& stands(page, line_height, scroll)
}

/// A number, or zero if it is below that.
pub open spec fn at_least_zero(n: int) -> int {
    if n < 0 {
        0
    } else {
        n
    }
}

/// Visual lines have no height below zero.
pub proof fn lemma_rows_px(rows: Seq<LayoutLineView>, line_height: Px)
    requires
        whole_rows(rows, line_height),
    ensures
        rows_px(rows, line_height) >= 0,
    decreases rows.len(),
{
    if rows.len() > 0 {
        assert forall|k: int| 0 <= k < rows.drop_last().len() implies is_whole(
            height_of(#[trigger] rows.drop_last()[k], line_height),
        ) && whole(height_of(rows.drop_last()[k], line_height)) >= 0 by {
            assert(rows.drop_last()[k] == rows[k]);
        }
        lemma_rows_px(rows.drop_last(), line_height);
        assert(rows.last() == rows[rows.len() - 1]);
    }
}

/// Heights add up without loss.
pub proof fn lemma_stacked(base: int, rows: Seq<LayoutLineView>, line_height: Px)
    requires
        whole_rows(rows, line_height),
        0 <= base,
        base + rows_px(rows, line_height) <= LARGEST,
    ensures
        stacked::<CellFont>(pixels(base), rows, line_height) == pixels(
            base + rows_px(rows, line_height),
        ),
    decreases rows.len(),
{
    if rows.len() > 0 {
        let rest = rows.drop_last();
        assert forall|k: int| 0 <= k < rest.len() implies is_whole(
            height_of(#[trigger] rest[k], line_height),
        ) && whole(height_of(rest[k], line_height)) >= 0 by {
            assert(rest[k] == rows[k]);
        }
        assert(rows.last() == rows[rows.len() - 1]);
        lemma_rows_px(rest, line_height);
        lemma_stacked(base, rest, line_height);
        law_whole_undoes_pixels(base + rows_px(rest, line_height));
    }
}

/// Lines are stacked on top of each other.
pub proof fn lemma_tops(page: Page, line_height: Px, i: int, k: int)
    requires
        measured(page, line_height),
        0 <= i <= k <= page.texts.len(),
    ensures
        0 <= top_px(page, line_height, i) <= top_px(page, line_height, k),
    decreases k,
{
    if i < k {
        lemma_tops(page, line_height, i, k - 1);
        assert(page.hidden[k - 1] || !page.hidden[k - 1]);
    } else if k > 0 {
        lemma_tops(page, line_height, i - 1, k - 1);
        assert(page.hidden[k - 1] || !page.hidden[k - 1]);
    }
}

/// Moving back keeps the place, unless it is above the first line; then it
/// leads to the very top.
proof fn lemma_back(page: Page, line_height: Px, scroll: Scroll)
    requires
        measured(page, line_height),
        scroll.line <= page.texts.len(),
        is_whole(scroll.vertical),
        -LARGEST <= whole(scroll.vertical),
        top_px(page, line_height, page.texts.len() as int) <= LARGEST,
    ensures
        ({
            let r = walked_back::<CellFont>(page, line_height, scroll);
            let at = top_px(page, line_height, scroll.line as int) + whole(scroll.vertical);
            &&& r.line <= scroll.line
            &&& is_whole(r.vertical)
            &&& whole(r.vertical) >= 0
            &&& whole(scroll.vertical) >= 0 ==> r == scroll
            &&& whole(scroll.vertical) < 0 ==> whole(r.vertical) <= top_px(
                page,
                line_height,
                page.texts.len() as int,
            )
            &&& if at >= 0 {
                top_px(page, line_height, r.line as int) + whole(r.vertical) == at
            } else {
                r.line == 0 && r.vertical == zero()
            }
        }),
    decreases scroll.line,
{
    let v = whole(scroll.vertical);
    let n = page.texts.len() as int;
    assert(pixels(0) == zero());
    law_whole_undoes_pixels(v);
    law_whole_undoes_pixels(0);
    assert(held(v) == v);
    law_pixels_keep_the_order(v, 0);
    lemma_tops(page, line_height, scroll.line as int, n);
    if v < 0 && scroll.line > 0 {
        let i = scroll.line - 1;
        lemma_tops(page, line_height, i, n);
        let next = if page.hidden[i] {
            scroll.vertical
        } else {
            CellFont::sum(
                scroll.vertical,
                stacked::<CellFont>(zero(), page.layouts[i], line_height),
            )
        };
        if !page.hidden[i] {
            let h = rows_px(page.layouts[i], line_height);
            lemma_stacked(0, page.layouts[i], line_height);
            law_whole_undoes_pixels(h);
            law_whole_undoes_pixels(v + h);
        }
        lemma_back(page, line_height, Scroll { line: i as usize, vertical: next, ..scroll });
    }
}

/// A walk keeps the place and leads to a line that it is on. If the walk does
/// not come to its limit it comes to the end of the text.
proof fn lemma_walk(page: Page, line_height: Px, limit: int, i: int, scroll: Scroll, total: int)
    requires
        measured(page, line_height),
        0 <= i <= page.texts.len(),
        scroll.line <= i,
        is_whole(scroll.vertical),
        whole(scroll.vertical) >= 0,
        0 <= limit <= LARGEST,
        0 <= total,
        if scroll.line == i {
            total + whole(scroll.vertical) <= limit
        } else {
            stands(page, line_height, scroll)
        },
        total + top_px(page, line_height, page.texts.len() as int) - top_px(page, line_height, i)
            <= LARGEST,
    ensures
        ({
            let w = walked::<CellFont>(page, line_height, pixels(limit), i, scroll, pixels(total));
            &&& is_whole(w.scroll.vertical)
            &&& 0 <= whole(w.scroll.vertical) <= whole(scroll.vertical)
            &&& top_px(page, line_height, w.scroll.line as int) + whole(w.scroll.vertical)
                == top_px(page, line_height, scroll.line as int) + whole(scroll.vertical)
            &&& whole(scroll.vertical) == 0 ==> w.scroll == scroll
            &&& stands(page, line_height, w.scroll)
            &&& w.total.lt(pixels(limit)) ==> w.total == pixels(
                total + top_px(page, line_height, page.texts.len() as int) - top_px(
                    page,
                    line_height,
                    i,
                ),
            )
            &&& total + top_px(page, line_height, page.texts.len() as int) - top_px(
                page,
                line_height,
                i,
            ) < limit ==> w.total.lt(pixels(limit))
        }),
    decreases page.texts.len() - i,
{
    let n = page.texts.len() as int;
    lemma_tops(page, line_height, i, n);
    law_pixels_keep_the_order(limit, total);
    law_pixels_keep_the_order(total, limit);
    if i < n && total <= limit {
        lemma_tops(page, line_height, i + 1, n);
        if page.hidden[i] {
            let v = whole(scroll.vertical);
            assert(top_px(page, line_height, i + 1) == top_px(page, line_height, i));
            assert(pixels(0) == zero());
            law_whole_undoes_pixels(v);
            law_pixels_keep_the_order(0, v);
            lemma_walk(page, line_height, limit, i + 1, passed_hidden(scroll, i), total);
        } else {
            let h = rows_px(page.layouts[i], line_height);
            let v = whole(scroll.vertical);
            lemma_tops(page, line_height, 0, i);
            assert(pixels(0) == zero());
            lemma_stacked(0, page.layouts[i], line_height);
            lemma_stacked(total, page.layouts[i], line_height);
            law_whole_undoes_pixels(h);
            law_whole_undoes_pixels(v);
            law_whole_undoes_pixels(v - h);
            law_pixels_keep_the_order(h, v);
            let moved = passed_by::<CellFont>(scroll, i, pixels(h));
            lemma_walk(page, line_height, limit, i + 1, moved, total + h);
        }
    }
}

/// A view over lines that are a whole number of pixels high, and at least one,
/// is at rest after two corrections at most, as long as all heights together
/// can be told exactly. In particular the view comes to rest where lines are
/// hidden, be it all of them. It rests where it was asked for; where the text
/// would end above the bottom of the view, it may rest where the text ends at
/// the bottom instead. It never rests above the top of the text.
pub proof fn law_views_come_to_rest(
    page: Page,
    window: Window,
    scroll: Scroll,
    height: Px,
    passes: nat,
)
    requires
        passes >= 2,
        measured(page, window.line_height),
        window.height_opt == Some(height),
        is_whole(height),
        whole(height) >= 0,
        scroll.line <= page.texts.len(),
        is_whole(scroll.vertical),
        2 * top_px(page, window.line_height, page.texts.len() as int) + whole(height) + whole(
            scroll.vertical,
        ) <= LARGEST,
        2 * top_px(page, window.line_height, page.texts.len() as int) + whole(height) <= LARGEST,
    ensures
        ({
            let pass = settled::<CellFont>(page, window, scroll, passes);
            let place = place_px(page, window.line_height, pass.scroll);
            let asked = at_least_zero(place_px(page, window.line_height, scroll));
            let end = top_px(page, window.line_height, page.texts.len() as int);
            &&& pass.done
            &&& at_rest(page, window.line_height, pass.scroll)
            &&& place == asked || (end < asked + whole(height) && place == at_least_zero(
                end - whole(height),
            ))
        }),
{
    reveal_with_fuel(settled, 2);
    lemma_first(page, window, scroll, height);
    let first = corrected::<CellFont>(page, window, scroll);
    if !first.done {
        lemma_second(page, window, first.scroll, height);
    }
}

/// A view that would begin below the first line, and would go on below the end
/// of the text, comes to rest where the text ends at its bottom, or at the top
/// of the text. All heights are taken to be whole numbers of pixels that can be
/// told exactly.
pub proof fn law_views_end_with_the_text(
    page: Page,
    window: Window,
    scroll: Scroll,
    height: Px,
    passes: nat,
)
    requires
        passes >= 2,
        measured(page, window.line_height),
        window.height_opt == Some(height),
        is_whole(height),
        whole(height) >= 0,
        scroll.line <= page.texts.len(),
        is_whole(scroll.vertical),
        2 * top_px(page, window.line_height, page.texts.len() as int) + whole(height) + whole(
            scroll.vertical,
        ) <= LARGEST,
        2 * top_px(page, window.line_height, page.texts.len() as int) + whole(height) <= LARGEST,
    ensures
        ({
            let pass = settled::<CellFont>(page, window, scroll, passes);
            let place = place_px(page, window.line_height, pass.scroll);
            let asked = at_least_zero(place_px(page, window.line_height, scroll));
            let end = top_px(page, window.line_height, page.texts.len() as int);
            page.texts.len() > 0 && end < asked + whole(height) && asked > top_px(
                page,
                window.line_height,
                1,
            ) ==> place == at_least_zero(end - whole(height))
        }),
{
    reveal_with_fuel(settled, 2);
    lemma_first(page, window, scroll, height);
    let first = corrected::<CellFont>(page, window, scroll);
    if !first.done {
        lemma_second(page, window, first.scroll, height);
    }
}

/// One correction leads to where the view was asked for, or to where the text
/// ends at the bottom of the view.
proof fn lemma_first(page: Page, window: Window, scroll: Scroll, height: Px)
    requires
        measured(page, window.line_height),
        window.height_opt == Some(height),
        is_whole(height),
        whole(height) >= 0,
        scroll.line <= page.texts.len(),
        is_whole(scroll.vertical),
        2 * top_px(page, window.line_height, page.texts.len() as int) + whole(height) + whole(
            scroll.vertical,
        ) <= LARGEST,
        2 * top_px(page, window.line_height, page.texts.len() as int) + whole(height) <= LARGEST,
    ensures
        ({
            let pass = corrected::<CellFont>(page, window, scroll);
            let place = place_px(page, window.line_height, pass.scroll);
            let asked = at_least_zero(place_px(page, window.line_height, scroll));
            let end = top_px(page, window.line_height, page.texts.len() as int);
            if pass.done {
                &&& at_rest(page, window.line_height, pass.scroll)
                &&& place == asked
                &&& page.texts.len() > 0 && asked > top_px(page, window.line_height, 1) ==> end
                    >= asked + whole(height)
            } else {
                &&& pass.scroll.line <= page.texts.len()
                &&& is_whole(pass.scroll.vertical)
                &&& place == end - whole(height)
                &&& end < asked + whole(height)
            }
        }),
{
    let lh = window.line_height;
    let n = page.texts.len() as int;
    let end = top_px(page, lh, n);
    let h = whole(height);
    lemma_tops(page, lh, scroll.line as int, n);
    law_whole_undoes_pixels(h);
    law_whole_undoes_pixels(whole(scroll.vertical));
    lemma_whole_bounds(scroll.vertical);
    lemma_back(page, lh, scroll);
    let back = walked_back::<CellFont>(page, lh, scroll);
    let b = whole(back.vertical);
    lemma_tops(page, lh, back.line as int, n);
    law_whole_undoes_pixels(b);
    law_whole_undoes_pixels(0);
    assert(pixels(0) == zero());
    assert(window.limit_at::<CellFont>(back) == pixels(b + h));
    lemma_walk(page, lh, b + h, back.line as int, back, 0);
    let walk = walked::<CellFont>(page, lh, pixels(b + h), back.line as int, back, zero());
    let first = corrected::<CellFont>(page, window, scroll);
    lemma_walked::<CellFont>(page, lh, pixels(b + h), back.line as int, back, zero());
    if n > 0 {
        lemma_tops(page, lh, 1, n);
    }
    if !first.done {
        let t = end - top_px(page, lh, back.line as int);
        law_whole_undoes_pixels(t);
        law_whole_undoes_pixels(b + h);
        law_whole_undoes_pixels(b + h - t);
        let v = whole(walk.scroll.vertical);
        law_whole_undoes_pixels(v - (b + h - t));
        law_pixels_keep_the_order(t, b + h);
        assert(whole(first.scroll.vertical) == v - (b + h - t));
        assert(top_px(page, lh, first.scroll.line as int) + whole(first.scroll.vertical) == end - h);
    }
}

/// No number of pixels is larger than the largest.
proof fn lemma_whole_bounds(p: Px)
    requires
        is_whole(p),
    ensures
        -LARGEST <= whole(p) <= LARGEST,
{
    law_whole_undoes_pixels(whole(p));
}

/// A view that ends where the text does is at rest.
proof fn lemma_second(page: Page, window: Window, scroll: Scroll, height: Px)
    requires
        measured(page, window.line_height),
        window.height_opt == Some(height),
        is_whole(height),
        whole(height) >= 0,
        scroll.line <= page.texts.len(),
        is_whole(scroll.vertical),
        top_px(page, window.line_height, scroll.line as int) + whole(scroll.vertical) == top_px(
            page,
            window.line_height,
            page.texts.len() as int,
        ) - whole(height),
        2 * top_px(page, window.line_height, page.texts.len() as int) + whole(height) <= LARGEST,
    ensures
        ({
            let pass = corrected::<CellFont>(page, window, scroll);
            &&& pass.done
            &&& at_rest(page, window.line_height, pass.scroll)
            &&& place_px(page, window.line_height, pass.scroll) == at_least_zero(
                place_px(page, window.line_height, scroll),
            )
        }),
{
    let lh = window.line_height;
    let n = page.texts.len() as int;
    let end = top_px(page, lh, n);
    let h = whole(height);
    lemma_tops(page, lh, scroll.line as int, n);
    law_whole_undoes_pixels(h);
    lemma_whole_bounds(scroll.vertical);
    lemma_back(page, lh, scroll);
    let back = walked_back::<CellFont>(page, lh, scroll);
    let b = whole(back.vertical);
    lemma_tops(page, lh, back.line as int, n);
    law_whole_undoes_pixels(b);
    law_whole_undoes_pixels(0);
    assert(pixels(0) == zero());
    assert(window.limit_at::<CellFont>(back) == pixels(b + h));
    lemma_walk(page, lh, b + h, back.line as int, back, 0);
    law_pixels_keep_the_order(end - top_px(page, lh, back.line as int), b + h);
    lemma_walked::<CellFont>(page, lh, pixels(b + h), back.line as int, back, zero());
}

/// A walk does not move a position that it has left behind.
proof fn lemma_left_behind(page: Page, line_height: Px, limit: Px, i: int, scroll: Scroll, total: Px)
    requires
        scroll.line < i,
    ensures
        walked::<CellFont>(page, line_height, limit, i, scroll, total).scroll == scroll,
    decreases page.texts.len() - i,
{
    if i < page.texts.len() && !limit.lt(total) {
        if page.hidden[i] {
            lemma_left_behind(page, line_height, limit, i + 1, scroll, total);
        } else {
            let sum = stacked::<CellFont>(total, page.layouts[i], line_height);
            lemma_left_behind(page, line_height, limit, i + 1, scroll, sum);
        }
    }
}

/// A walk does not move a position that is on its line.
proof fn lemma_stays(page: Page, line_height: Px, limit: Px, scroll: Scroll)
    requires
        measured(page, line_height),
        at_rest(page, line_height, scroll),
        top_px(page, line_height, page.texts.len() as int) <= LARGEST,
    ensures
        walked::<CellFont>(
            page,
            line_height,
            limit,
            scroll.line as int,
            scroll,
            zero(),
        ).scroll == scroll,
{
    let i = scroll.line as int;
    let n = page.texts.len() as int;
    if i < n && !limit.lt(zero()) {
        let v = whole(scroll.vertical);
        law_whole_undoes_pixels(v);
        assert(pixels(0) == zero());
        if page.hidden[i] {
            law_pixels_keep_the_order(0, v);
            lemma_left_behind(page, line_height, limit, i + 1, scroll, zero());
        } else {
            lemma_tops(page, line_height, 0, i);
            lemma_tops(page, line_height, i + 1, n);
            lemma_stacked(0, page.layouts[i], line_height);
            law_pixels_keep_the_order(rows_px(page.layouts[i], line_height), v);
            let sum = stacked::<CellFont>(zero(), page.layouts[i], line_height);
            lemma_left_behind(page, line_height, limit, i + 1, scroll, sum);
        }
    }
}

/// Correcting a position once more that needed no further correction leaves it
/// where it is.
proof fn lemma_corrected_again(page: Page, window: Window, scroll: Scroll, height: Px)
    requires
        measured(page, window.line_height),
        window.height_opt == Some(height),
        is_whole(height),
        whole(height) >= 0,
        scroll.line <= page.texts.len(),
        is_whole(scroll.vertical),
        whole(height) + whole(scroll.vertical) <= LARGEST,
        2 * top_px(page, window.line_height, page.texts.len() as int) + whole(height) <= LARGEST,
        corrected::<CellFont>(page, window, scroll).done,
    ensures
        ({
            let at = corrected::<CellFont>(page, window, scroll).scroll;
            let pass = corrected::<CellFont>(page, window, at);
            pass.done && pass.scroll == at
        }),
{
    let lh = window.line_height;
    let n = page.texts.len() as int;
    let h = whole(height);
    lemma_tops(page, lh, scroll.line as int, n);
    law_whole_undoes_pixels(h);
    law_whole_undoes_pixels(whole(scroll.vertical));
    lemma_whole_bounds(scroll.vertical);
    lemma_back(page, lh, scroll);
    let back = walked_back::<CellFont>(page, lh, scroll);
    let b = whole(back.vertical);
    lemma_tops(page, lh, back.line as int, n);
    law_whole_undoes_pixels(b);
    law_whole_undoes_pixels(0);
    assert(pixels(0) == zero());
    lemma_walk(page, lh, b + h, back.line as int, back, 0);
    lemma_walked::<CellFont>(page, lh, pixels(b + h), back.line as int, back, zero());
    let at = corrected::<CellFont>(page, window, scroll).scroll;
    let v = whole(at.vertical);
    lemma_tops(page, lh, at.line as int, n);
    law_whole_undoes_pixels(v);
    lemma_back(page, lh, at);
    assert(window.limit_at::<CellFont>(at) == pixels(v + h));
    lemma_walk(page, lh, v + h, at.line as int, at, 0);
    lemma_stays(page, lh, pixels(v + h), at);
    law_pixels_keep_the_order(top_px(page, lh, n) - top_px(page, lh, at.line as int), v + h);
}

/// A view that has come to rest stays where it is, however often it is brought
/// up to date. All heights are taken to be whole numbers of pixels that can be
/// told exactly.
pub proof fn law_views_stay_at_rest(
    page: Page,
    window: Window,
    scroll: Scroll,
    height: Px,
    passes: nat,
)
    requires
        passes >= 2,
        measured(page, window.line_height),
        window.height_opt == Some(height),
        is_whole(height),
        whole(height) >= 0,
        scroll.line <= page.texts.len(),
        is_whole(scroll.vertical),
        2 * top_px(page, window.line_height, page.texts.len() as int) + whole(height) + whole(
            scroll.vertical,
        ) <= LARGEST,
        2 * top_px(page, window.line_height, page.texts.len() as int) + whole(height) <= LARGEST,
    ensures
        ({
            let at = settled::<CellFont>(page, window, scroll, passes).scroll;
            settled::<CellFont>(page, window, at, passes).scroll == at
        }),
{
    reveal_with_fuel(settled, 2);
    law_views_come_to_rest(page, window, scroll, height, passes);
    let first = corrected::<CellFont>(page, window, scroll);
    lemma_tops(page, window.line_height, 0, page.texts.len() as int);
    if first.done {
        lemma_corrected_again(page, window, scroll, height);
    } else {
        lemma_first(page, window, scroll, height);
        lemma_second(page, window, first.scroll, height);
        lemma_tops(page, window.line_height, 0, first.scroll.line as int);
        lemma_corrected_again(page, window, first.scroll, height);
        assert(settled::<CellFont>(page, window, scroll, passes) == corrected::<CellFont>(
            page,
            window,
            first.scroll,
        ));
    }
}

/// Visual lines are as high together as all but the last of them and the last
/// one, which has its own height or else `line_height`.
pub proof fn law_heights_are_added_up<M: PixelMath>(
    base: Px,
    rows: Seq<LayoutLineView>,
    row: LayoutLineView,
    line_height: Px,
)
    ensures
        stacked::<M>(base, seq![], line_height) == base,
        row.line_height_opt matches Some(own) ==> stacked::<M>(base, rows.push(row), line_height)
            == M::sum(stacked::<M>(base, rows, line_height), own),
        row.line_height_opt is None ==> stacked::<M>(base, rows.push(row), line_height) == M::sum(
            stacked::<M>(base, rows, line_height),
            line_height,
        ),
{
    assert(rows.push(row).drop_last() =~= rows);
}

/// The first visual line of a line begins at its top, each ends below its top by
/// its own height or else by `line_height`, and the next one begins there.
pub proof fn law_rows_stand_on_each_other<M: PixelMath>(
    rows: Seq<LayoutLineView>,
    line_height: Px,
    k: int,
)
    requires
        0 <= k < rows.len(),
    ensures
        ({
            let (top, bottom) = row_span::<M>(rows, line_height, k);
            &&& k == 0 ==> top == zero()
            &&& rows[k].line_height_opt matches Some(own) ==> bottom == M::sum(top, own)
            &&& rows[k].line_height_opt is None ==> bottom == M::sum(top, line_height)
            &&& k + 1 < rows.len() ==> row_span::<M>(rows, line_height, k + 1).0 == bottom
        }),
{
    assert(rows.take(k + 1).drop_last() =~= rows.take(k));
    assert(rows.take(k + 1).last() == rows[k]);
    assert(rows.take(0) =~= seq![]);
}

/// A walk ends at the first line that begins below its limit, or at the end of
/// the text.
proof fn lemma_walk_stop(page: Page, line_height: Px, limit: int, i: int, scroll: Scroll, total: int)
    requires
        measured(page, line_height),
        0 <= i <= page.texts.len(),
        0 <= limit <= LARGEST,
        0 <= total,
        total + top_px(page, line_height, page.texts.len() as int) - top_px(page, line_height, i)
            <= LARGEST,
    ensures
        ({
            let w = walked::<CellFont>(page, line_height, pixels(limit), i, scroll, pixels(total));
            let above = total - top_px(page, line_height, i);
            &&& i <= w.stop <= page.texts.len()
            &&& w.stop < page.texts.len() ==> above + top_px(page, line_height, w.stop) > limit
            &&& w.stop > i ==> above + top_px(page, line_height, w.stop - 1) <= limit
        }),
    decreases page.texts.len() - i,
{
    let n = page.texts.len() as int;
    lemma_tops(page, line_height, i, n);
    law_pixels_keep_the_order(limit, total);
    if i < n && total <= limit {
        lemma_tops(page, line_height, i + 1, n);
        if page.hidden[i] {
            assert(top_px(page, line_height, i + 1) == top_px(page, line_height, i));
            lemma_walk_stop(page, line_height, limit, i + 1, passed_hidden(scroll, i), total);
        } else {
            let h = rows_px(page.layouts[i], line_height);
            lemma_tops(page, line_height, 0, i);
            assert(pixels(0) == zero());
            lemma_stacked(0, page.layouts[i], line_height);
            lemma_stacked(total, page.layouts[i], line_height);
            let moved = passed_by::<CellFont>(scroll, i, pixels(h));
            lemma_walk_stop(page, line_height, limit, i + 1, moved, total + h);
        }
    }
}

/// A correction that leaves nothing to do fills the view.
proof fn lemma_filled(page: Page, window: Window, scroll: Scroll, height: Px)
    requires
        measured(page, window.line_height),
        window.height_opt == Some(height),
        is_whole(height),
        whole(height) >= 0,
        scroll.line <= page.texts.len(),
        is_whole(scroll.vertical),
        2 * top_px(page, window.line_height, page.texts.len() as int) + whole(height) + whole(
            scroll.vertical,
        ) <= LARGEST || whole(scroll.vertical) <= top_px(
            page,
            window.line_height,
            page.texts.len() as int,
        ),
        2 * top_px(page, window.line_height, page.texts.len() as int) + whole(height) <= LARGEST,
        corrected::<CellFont>(page, window, scroll).done,
    ensures
        is_filled(page, window.line_height, corrected::<CellFont>(page, window, scroll), height),
{
    let lh = window.line_height;
    let n = page.texts.len() as int;
    let h = whole(height);
    lemma_tops(page, lh, 0, n);
    lemma_tops(page, lh, scroll.line as int, n);
    law_whole_undoes_pixels(h);
    law_whole_undoes_pixels(whole(scroll.vertical));
    lemma_whole_bounds(scroll.vertical);
    lemma_back(page, lh, scroll);
    let back = walked_back::<CellFont>(page, lh, scroll);
    let b = whole(back.vertical);
    lemma_tops(page, lh, back.line as int, n);
    law_whole_undoes_pixels(b);
    law_whole_undoes_pixels(0);
    assert(pixels(0) == zero());
    assert(window.limit_at::<CellFont>(back) == pixels(b + h));
    lemma_walk(page, lh, b + h, back.line as int, back, 0);
    lemma_walk_stop(page, lh, b + h, back.line as int, back, 0);
    lemma_walked::<CellFont>(page, lh, pixels(b + h), back.line as int, back, zero());
}

/// Whether the lines that a correction goes over fill a view: they begin at or
/// in front of the line at which it begins, and go on until one begins below
/// it, or to the end of the text.
pub open spec fn is_filled(page: Page, line_height: Px, pass: Pass, height: Px) -> bool {
    let bottom = place_px(page, line_height, pass.scroll) + whole(height);
    &&& 0 <= pass.from <= pass.scroll.line
    &&& pass.stop <= page.texts.len()
    &&& pass.stop < page.texts.len() ==> top_px(page, line_height, pass.stop) > bottom
    &&& pass.stop > pass.from ==> top_px(page, line_height, pass.stop - 1) <= bottom
}

/// The lines of a view that has come to rest fill it: nothing that begins in the
/// view is left out, and nothing is taken in that begins below it.
pub proof fn law_views_are_filled(
    page: Page,
    window: Window,
    scroll: Scroll,
    height: Px,
    passes: nat,
)
    requires
        passes >= 2,
        measured(page, window.line_height),
        window.height_opt == Some(height),
        is_whole(height),
        whole(height) >= 0,
        scroll.line <= page.texts.len(),
        is_whole(scroll.vertical),
        2 * top_px(page, window.line_height, page.texts.len() as int) + whole(height) + whole(
            scroll.vertical,
        ) <= LARGEST,
        2 * top_px(page, window.line_height, page.texts.len() as int) + whole(height) <= LARGEST,
    ensures
        is_filled(
            page,
            window.line_height,
            settled::<CellFont>(page, window, scroll, passes),
            height,
        ),
{
    reveal_with_fuel(settled, 2);
    lemma_first(page, window, scroll, height);
    let first = corrected::<CellFont>(page, window, scroll);
    if first.done {
        lemma_filled(page, window, scroll, height);
    } else {
        lemma_second(page, window, first.scroll, height);
        lemma_tops(page, window.line_height, 0, first.scroll.line as int);
        lemma_filled(page, window, first.scroll, height);
    }
}

} // verus!
