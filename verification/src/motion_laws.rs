//! What holds of motions whatever the text.

use vstd::prelude::*;

use crate::buffer::{Buffer, LineStore, Page};
use crate::cursor::{Cursor, Motion};
use crate::layout::FontSystem;
use crate::motion::{
    down, down_by, end_of_piece, last_start, moved, next, previous, ratio, shown_above,
    shown_below, up, up_by, Moved,
};
use crate::pixel::{PixelMath, Px};
use crate::segmentation::{clusters, meets, tiles};

verus! {

/// Whether a cursor is at the start of a cluster or at the end of its line.
pub open spec fn between_clusters(page: Page, cursor: Cursor) -> bool {
    let text = page.texts[cursor.line as int];
    &&& cursor.line < page.texts.len()
    &&& cursor.index == text.len() || starts_piece(clusters(text), cursor.index as int)
}

/// Whether a piece starts at `index`.
pub open spec fn starts_piece(pieces: Seq<(usize, usize)>, index: int) -> bool {
    exists|k: int| 0 <= k < pieces.len() && (#[trigger] pieces[k]).0 == index
}

/// Pieces without gaps start in order.
proof fn lemma_starts_ascend(pieces: Seq<(usize, usize)>, n: int, i: int, k: int)
    requires
        tiles(pieces, n),
        0 <= i < k < pieces.len(),
    ensures
        pieces[i].0 + pieces[i].1 <= pieces[k].0,
    decreases k - i,
{
    assert(meets(pieces, i));
    if i + 1 < k {
        lemma_starts_ascend(pieces, n, i + 1, k);
        assert(pieces[i + 1].1 > 0);
    }
}

/// The end of the piece that starts at an index is the end of that piece.
proof fn lemma_end_of_piece(pieces: Seq<(usize, usize)>, n: int, k: int, from: int)
    requires
        tiles(pieces, n),
        0 <= from <= k < pieces.len(),
    ensures
        end_of_piece(pieces, pieces[k].0 as int, from) == Some(pieces[k].0 + pieces[k].1),
    decreases k - from,
{
    if from < k {
        lemma_starts_ascend(pieces, n, from, k);
        assert(pieces[from].1 > 0);
        lemma_end_of_piece(pieces, n, k, from + 1);
    }
}

/// The last start in front of the end of a piece is the start of that piece.
proof fn lemma_last_start(pieces: Seq<(usize, usize)>, n: int, k: int, count: int)
    requires
        tiles(pieces, n),
        0 <= k < count <= pieces.len(),
    ensures
        last_start(pieces.take(count), pieces[k].0 + pieces[k].1) == pieces[k].0,
    decreases count,
{
    let upto = pieces.take(count);
    assert(upto.drop_last() =~= pieces.take(count - 1));
    assert(pieces[k].1 > 0);
    if k < count - 1 {
        lemma_starts_ascend(pieces, n, k, count - 1);
        lemma_last_start(pieces, n, k, count - 1);
    }
}

/// Going one cluster back undoes going one cluster forth, but for the affinity,
/// unless the cursor is at the very end. The clusters of the line are without
/// gaps.
pub proof fn law_previous_undoes_next(page: Page, cursor: Cursor)
    requires
        between_clusters(page, cursor),
        tiles(clusters(page.texts[cursor.line as int]), page.texts[cursor.line as int].len() as int),
        page.texts[cursor.line as int].len() <= usize::MAX,
        page.texts.len() <= usize::MAX,
        cursor.line + 1 < page.texts.len() || cursor.index < page.texts[cursor.line as int].len(),
    ensures
        previous(page, next(page, cursor)).line == cursor.line,
        previous(page, next(page, cursor)).index == cursor.index,
{
    let text = page.texts[cursor.line as int];
    let pieces = clusters(text);
    if cursor.index < text.len() {
        let k = choose|k: int| 0 <= k < pieces.len() && (#[trigger] pieces[k]).0 == cursor.index;
        lemma_end_of_piece(pieces, text.len() as int, k, 0);
        lemma_last_start(pieces, text.len() as int, k, pieces.len() as int);
        assert(pieces.take(pieces.len() as int) =~= pieces);
        assert(pieces[k].1 > 0);
    }
}

/// The last start in front of the start of a piece is the start of the piece
/// before.
proof fn lemma_start_before(pieces: Seq<(usize, usize)>, n: int, k: int, count: int)
    requires
        tiles(pieces, n),
        0 < k <= count <= pieces.len(),
    ensures
        last_start(pieces.take(count), pieces[k - 1].0 + pieces[k - 1].1) == pieces[k - 1].0,
{
    lemma_last_start(pieces, n, k - 1, count);
}

/// Going one cluster forth undoes going one cluster back, but for the affinity,
/// unless the cursor is at the very start. The clusters of the line are without
/// gaps.
pub proof fn law_next_undoes_previous(page: Page, cursor: Cursor)
    requires
        between_clusters(page, cursor),
        tiles(clusters(page.texts[cursor.line as int]), page.texts[cursor.line as int].len() as int),
        cursor.line > 0 ==> page.texts[cursor.line - 1].len() <= usize::MAX,
        cursor.line > 0 || cursor.index > 0,
    ensures
        next(page, previous(page, cursor)).line == cursor.line,
        next(page, previous(page, cursor)).index == cursor.index,
{
    let text = page.texts[cursor.line as int];
    let pieces = clusters(text);
    if cursor.index > 0 {
        let k = if cursor.index == text.len() {
            pieces.len() as int
        } else {
            choose|k: int| 0 <= k < pieces.len() && (#[trigger] pieces[k]).0 == cursor.index
        };
        assert(k > 0);
        assert(pieces[k - 1].0 + pieces[k - 1].1 == cursor.index) by {
            if k < pieces.len() {
                assert(meets(pieces, k - 1));
            }
        }
        lemma_start_before(pieces, text.len() as int, k, pieces.len() as int);
        assert(pieces.take(pieces.len() as int) =~= pieces);
        assert(pieces[k - 1].1 > 0);
        lemma_end_of_piece(pieces, text.len() as int, k - 1, 0);
    }
}

/// What is said of each line of a page is said of all of them.
pub open spec fn whole_page(page: Page) -> bool {
    &&& page.hidden.len() == page.texts.len()
    &&& page.rtl.len() == page.texts.len()
    &&& page.layouts.len() == page.texts.len()
    &&& page.texts.len() <= usize::MAX
}

/// The line found above is the nearest one that is not hidden.
pub proof fn lemma_shown_above(page: Page, line: int)
    requires
        0 <= line < page.texts.len(),
    ensures
        match shown_above(page, line) {
            Some(above) => {
                &&& 0 <= above < line
                &&& !page.hidden[above]
                &&& forall|l: int| above < l < line ==> #[trigger] page.hidden[l]
            },
            None => forall|l: int| 0 <= l < line ==> #[trigger] page.hidden[l],
        },
    decreases line,
{
    if line > 0 && page.hidden[line - 1] {
        lemma_shown_above(page, line - 1);
    }
}

/// The line found below is the nearest one that is not hidden.
pub proof fn lemma_shown_below(page: Page, line: int)
    requires
        0 <= line < page.texts.len(),
    ensures
        match shown_below(page, line) {
            Some(below) => {
                &&& line < below < page.texts.len()
                &&& !page.hidden[below]
                &&& forall|l: int| line < l < below ==> #[trigger] page.hidden[l]
            },
            None => forall|l: int| line < l < page.texts.len() ==> #[trigger] page.hidden[l],
        },
    decreases page.texts.len() - line,
{
    if line + 1 < page.texts.len() && page.hidden[line + 1] {
        lemma_shown_below(page, line + 1);
    }
}

/// Whether line `to` is not hidden, and all lines between it and line `from`
/// are.
pub open spec fn nearest_shown(page: Page, to: int, from: int) -> bool {
    &&& !page.hidden[to]
    &&& forall|l: int| to < l < from || from < l < to ==> #[trigger] page.hidden[l]
}

/// Going up stays on the line or leads to the nearest line above that is not
/// hidden. If there is none the cursor stays on its line.
pub proof fn law_up_leads_to_the_nearest_shown_line(page: Page, cursor: Cursor, x_opt: Option<i32>)
    requires
        whole_page(page),
        cursor.line < page.texts.len(),
    ensures
        up(page, cursor, x_opt) matches Some((moved, _)) ==> {
            ||| moved.line == cursor.line
            ||| moved.line < cursor.line && nearest_shown(
                page,
                moved.line as int,
                cursor.line as int,
            )
        },
{
    lemma_shown_above(page, cursor.line as int);
}

/// Going down stays on the line or leads to the nearest line below that is not
/// hidden. If there is none the cursor stays on its line.
pub proof fn law_down_leads_to_the_nearest_shown_line(page: Page, cursor: Cursor, x_opt: Option<i32>)
    requires
        whole_page(page),
        cursor.line < page.texts.len(),
    ensures
        down(page, cursor, x_opt) matches Some((moved, _)) ==> {
            ||| moved.line == cursor.line
            ||| cursor.line < moved.line < page.texts.len() && nearest_shown(
                page,
                moved.line as int,
                cursor.line as int,
            )
        },
{
    lemma_shown_below(page, cursor.line as int);
}

/// However far a cursor goes up from a line that is not hidden, it ends on one
/// that is not hidden, and not further down.
pub proof fn law_going_up_avoids_hidden_lines(page: Page, cursor: Cursor, x_opt: Option<i32>, n: nat)
    requires
        whole_page(page),
        cursor.line < page.texts.len(),
        !page.hidden[cursor.line as int],
    ensures
        up_by(page, cursor, x_opt, n) matches Some((moved, _)) ==> moved.line <= cursor.line
            && !page.hidden[moved.line as int],
    decreases n,
{
    if n > 0 {
        law_up_leads_to_the_nearest_shown_line(page, cursor, x_opt);
        if let Some((moved, x)) = up(page, cursor, x_opt) {
            law_going_up_avoids_hidden_lines(page, moved, x, (n - 1) as nat);
        }
    }
}

/// However far a cursor goes down from a line that is not hidden, it ends on
/// one that is not hidden, and not further up.
pub proof fn law_going_down_avoids_hidden_lines(
    page: Page,
    cursor: Cursor,
    x_opt: Option<i32>,
    n: nat,
)
    requires
        whole_page(page),
        cursor.line < page.texts.len(),
        !page.hidden[cursor.line as int],
    ensures
        down_by(page, cursor, x_opt, n) matches Some((moved, _)) ==> cursor.line <= moved.line
            < page.texts.len() && !page.hidden[moved.line as int],
    decreases n,
{
    if n > 0 {
        law_down_leads_to_the_nearest_shown_line(page, cursor, x_opt);
        if let Some((moved, x)) = down(page, cursor, x_opt) {
            law_going_down_avoids_hidden_lines(page, moved, x, (n - 1) as nat);
        }
    }
}

/// The motion in the order of the text that a motion to the left or to the
/// right is on a line of the given direction.
pub open spec fn in_text_order(motion: Motion, rtl: bool) -> Motion {
    match motion {
        Motion::Left => if rtl {
            Motion::Next
        } else {
            Motion::Previous
        },
        Motion::Right => if rtl {
            Motion::Previous
        } else {
            Motion::Next
        },
        Motion::LeftWord => if rtl {
            Motion::NextWord
        } else {
            Motion::PreviousWord
        },
        Motion::RightWord => if rtl {
            Motion::PreviousWord
        } else {
            Motion::NextWord
        },
        _ => motion,
    }
}

/// A motion to the left or to the right is one in the order of the text, back
/// or forth by the direction of the line. Without a line nothing changes.
pub proof fn law_sideways_follows_the_direction<M: PixelMath>(
    page: Page,
    height_opt: Option<Px>,
    line_height: Px,
    cursor: Cursor,
    x_opt: Option<i32>,
    motion: Motion,
)
    requires
        motion is Left || motion is Right || motion is LeftWord || motion is RightWord,
    ensures
        moved::<M>(page, height_opt, line_height, cursor, x_opt, motion) == if cursor.line
            < page.texts.len() {
            moved::<M>(
                page,
                height_opt,
                line_height,
                cursor,
                x_opt,
                in_text_order(motion, page.rtl[cursor.line as int]),
            )
        } else {
            Some((cursor, x_opt))
        },
{
}

/// A motion of a buffer to the left or to the right leads where the one in the
/// order of the text leads, back or forth by the direction of the line. Without
/// a line nothing changes.
pub proof fn law_sideways_motions_lead_there<F: FontSystem>(
    before: &Buffer,
    after: &Buffer,
    other: &Buffer,
    fonts: int,
    cursor: Cursor,
    x_opt: Option<i32>,
    motion: Motion,
    r: Moved,
    there: Moved,
)
    requires
        motion is Left || motion is Right || motion is LeftWord || motion is RightWord,
        before.moves::<F>(after, fonts, cursor, x_opt, motion, r),
        cursor.line < before.count() ==> before.moves::<F>(
            other,
            fonts,
            cursor,
            x_opt,
            in_text_order(motion, before.page::<F>(fonts).rtl[cursor.line as int]),
            there,
        ),
    ensures
        cursor.line < before.count() ==> r == there,
        cursor.line >= before.count() ==> r == Some((cursor, x_opt)) && *after == *before,
{
    law_sideways_follows_the_direction::<F>(
        before.page::<F>(fonts),
        before.height_opt,
        before.metrics.line_height,
        cursor,
        x_opt,
        motion,
    );
}

/// Where a motion leads that is made `n` times, each time from where the one
/// before it has led.
pub open spec fn repeated<M: PixelMath>(
    page: Page,
    height_opt: Option<Px>,
    line_height: Px,
    cursor: Cursor,
    x_opt: Option<i32>,
    motion: Motion,
    n: nat,
) -> Moved
    decreases n,
{
    if n == 0 {
        Some((cursor, x_opt))
    } else {
        match moved::<M>(page, height_opt, line_height, cursor, x_opt, motion) {
            Some((there, x)) => repeated::<M>(
                page,
                height_opt,
                line_height,
                there,
                x,
                motion,
                (n - 1) as nat,
            ),
            None => None,
        }
    }
}

proof fn lemma_up_repeated<M: PixelMath>(
    page: Page,
    height_opt: Option<Px>,
    line_height: Px,
    cursor: Cursor,
    x_opt: Option<i32>,
    n: nat,
)
    ensures
        up_by(page, cursor, x_opt, n) == repeated::<M>(
            page,
            height_opt,
            line_height,
            cursor,
            x_opt,
            Motion::Up,
            n,
        ),
    decreases n,
{
    if n > 0 {
        if let Some((there, x)) = up(page, cursor, x_opt) {
            lemma_up_repeated::<M>(page, height_opt, line_height, there, x, (n - 1) as nat);
        }
    }
}

proof fn lemma_down_repeated<M: PixelMath>(
    page: Page,
    height_opt: Option<Px>,
    line_height: Px,
    cursor: Cursor,
    x_opt: Option<i32>,
    n: nat,
)
    ensures
        down_by(page, cursor, x_opt, n) == repeated::<M>(
            page,
            height_opt,
            line_height,
            cursor,
            x_opt,
            Motion::Down,
            n,
        ),
    decreases n,
{
    if n > 0 {
        if let Some((there, x)) = down(page, cursor, x_opt) {
            lemma_down_repeated::<M>(page, height_opt, line_height, there, x, (n - 1) as nat);
        }
    }
}

/// The motion up or down by one visual line that goes the way of `n` lines.
pub open spec fn one_line(n: int) -> Motion {
    if n < 0 {
        Motion::Up
    } else {
        Motion::Down
    }
}

/// A number of steps, without the direction.
pub open spec fn steps_of(n: int) -> nat {
    if n < 0 {
        (-n) as nat
    } else {
        n as nat
    }
}

/// A motion by a number of pixels is as many motions up or down as there are
/// whole lines in them. By less than a line nothing changes.
pub proof fn law_vertical_is_line_by_line<M: PixelMath>(
    page: Page,
    height_opt: Option<Px>,
    line_height: Px,
    cursor: Cursor,
    x_opt: Option<i32>,
    px: i32,
)
    ensures
        ({
            let n = ratio(px as int, M::truncated(line_height) as int);
            let there = moved::<M>(
                page,
                height_opt,
                line_height,
                cursor,
                x_opt,
                Motion::Vertical(px),
            );
            &&& there == repeated::<M>(
                page,
                height_opt,
                line_height,
                cursor,
                x_opt,
                one_line(n),
                steps_of(n),
            )
            &&& n == 0 ==> there == Some((cursor, x_opt))
        }),
{
    let n = ratio(px as int, M::truncated(line_height) as int);
    lemma_up_repeated::<M>(page, height_opt, line_height, cursor, x_opt, steps_of(n));
    lemma_down_repeated::<M>(page, height_opt, line_height, cursor, x_opt, steps_of(n));
}

/// The motion by pixels that a motion by a page is in a view of the given
/// height.
pub open spec fn page_in_pixels<M: PixelMath>(motion: Motion, height: Px) -> Motion {
    if motion is PageUp {
        Motion::Vertical(M::truncated(height.negated()))
    } else {
        Motion::Vertical(M::truncated(height))
    }
}

/// A motion by a page is one by the height of the view. Where the view has no
/// height nothing changes.
pub proof fn law_pages_are_vertical<M: PixelMath>(
    page: Page,
    height_opt: Option<Px>,
    line_height: Px,
    cursor: Cursor,
    x_opt: Option<i32>,
    motion: Motion,
)
    requires
        motion is PageUp || motion is PageDown,
    ensures
        moved::<M>(page, height_opt, line_height, cursor, x_opt, motion) == match height_opt {
            Some(height) => moved::<M>(
                page,
                height_opt,
                line_height,
                cursor,
                x_opt,
                page_in_pixels::<M>(motion, height),
            ),
            None => Some((cursor, x_opt)),
        },
{
}

/// Whether a motion that is made `n` times, each time from where the one before
/// it has led, leads to `r` and turns `before` into `after`.
pub open spec fn repeats<F: FontSystem>(
    before: &Buffer,
    after: &Buffer,
    fonts: int,
    cursor: Cursor,
    x_opt: Option<i32>,
    motion: Motion,
    n: nat,
    r: Moved,
) -> bool
    decreases n,
{
    if n == 0 {
        r == Some((cursor, x_opt)) && *after == *before
    } else {
        exists|mid: Buffer, step: Moved|
            {
                &&& #[trigger] before.moves::<F>(&mid, fonts, cursor, x_opt, motion, step)
                &&& mid.same_frame(before)
                &&& match step {
                    Some((there, x)) => repeats::<F>(
                        &mid,
                        after,
                        fonts,
                        there,
                        x,
                        motion,
                        (n - 1) as nat,
                        r,
                    ),
                    None => r is None && *after == mid,
                }
            }
    }
}

proof fn lemma_goes_repeats<F: FontSystem>(
    before: &Buffer,
    after: &Buffer,
    fonts: int,
    cursor: Cursor,
    x_opt: Option<i32>,
    up: bool,
    n: nat,
    r: Moved,
)
    requires
        before.store.goes::<F>(&after.store, fonts, before.settings(), cursor, x_opt, up, n, r),
        after.same_frame(before),
    ensures
        repeats::<F>(
            before,
            after,
            fonts,
            cursor,
            x_opt,
            if up {
                Motion::Up
            } else {
                Motion::Down
            },
            n,
            r,
        ),
    decreases n,
{
    reveal(LineStore::goes);
    if n > 0 {
        let settings = before.settings();
        let (mid, step) = choose|mid: LineStore, step: Moved|
            {
                &&& #[trigger] before.store.steps::<F>(
                    &mid,
                    fonts,
                    settings,
                    cursor,
                    x_opt,
                    up,
                    step,
                )
                &&& match step {
                    Some((there, x)) => mid.goes::<F>(
                        &after.store,
                        fonts,
                        settings,
                        there,
                        x,
                        up,
                        (n - 1) as nat,
                        r,
                    ),
                    None => r is None && after.store == mid,
                }
            };
        let on = Buffer { store: mid, ..*before };
        let motion = if up {
            Motion::Up
        } else {
            Motion::Down
        };
        assert(before.moves::<F>(&on, fonts, cursor, x_opt, motion, step));
        if let Some((there, x)) = step {
            lemma_goes_repeats::<F>(&on, after, fonts, there, x, up, (n - 1) as nat, r);
        }
    }
}

/// A motion of a buffer by a number of pixels does what as many motions up or
/// down do as there are whole lines in them. By less than a line nothing
/// changes.
pub proof fn law_vertical_motions_are_repeated<F: FontSystem>(
    before: &Buffer,
    after: &Buffer,
    fonts: int,
    cursor: Cursor,
    x_opt: Option<i32>,
    px: i32,
    r: Moved,
)
    requires
        before.moves::<F>(after, fonts, cursor, x_opt, Motion::Vertical(px), r),
        after.same_frame(before),
    ensures
        ({
            let n = ratio(px as int, F::truncated(before.metrics.line_height) as int);
            &&& repeats::<F>(before, after, fonts, cursor, x_opt, one_line(n), steps_of(n), r)
            &&& n == 0 ==> r == Some((cursor, x_opt)) && *after == *before
        }),
{
    let n = ratio(px as int, F::truncated(before.metrics.line_height) as int);
    lemma_goes_repeats::<F>(before, after, fonts, cursor, x_opt, n < 0, steps_of(n), r);
}

/// A motion of a buffer by a page does what one by the height of its view does.
/// Where the view has no height nothing changes.
pub proof fn law_page_motions_are_vertical<F: FontSystem>(
    before: &Buffer,
    after: &Buffer,
    fonts: int,
    cursor: Cursor,
    x_opt: Option<i32>,
    motion: Motion,
    r: Moved,
)
    requires
        motion is PageUp || motion is PageDown,
    ensures
        before.moves::<F>(after, fonts, cursor, x_opt, motion, r) == match before.height_opt {
            Some(height) => before.moves::<F>(
                after,
                fonts,
                cursor,
                x_opt,
                page_in_pixels::<F>(motion, height),
                r,
            ),
            None => r == Some((cursor, x_opt)) && *after == *before,
        },
{
}

} // verus!
