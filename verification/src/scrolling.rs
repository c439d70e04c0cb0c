//! Where a view begins, and which lines it shows.
//!
//! The rules are stated over a [`Page`]: what each line shows once it is laid
//! out. A hidden line has no height, and a view moves on past one only where it
//! begins below it.

use vstd::prelude::*;

use crate::buffer::Page;
use crate::cursor::Scroll;
use crate::layout::{layout_view, LayoutLine, LayoutLineView};
use crate::pixel::{zero, PixelMath, Px};

verus! {

/// How often a scroll position is corrected at most. One correction puts the
/// end of the text at the bottom of the view, and a few more make up for what
/// was lost to rounding.
pub const SCROLL_PASSES: usize = 64;

/// The size of a view, as far as scrolling depends on it.
#[derive(Clone, Copy, PartialEq, Eq, Structural, Debug)]
pub struct Window {
    /// Height of a visual line that has none of its own.
    pub line_height: Px,
    /// Height of the view.
    pub height_opt: Option<Px>,
    /// Whether the lines are made from a rope, so that not all of them may be
    /// shaped at once.
    pub rope: bool,
}

impl Window {
    /// Height of the part that is shaped. A rope of which no height is known
    /// is shaped for fifty lines.
    pub open spec fn extent<M: PixelMath>(self) -> Px {
        match self.height_opt {
            Some(height) => height,
            None => if self.rope {
                M::product(self.line_height, Px { bits: 0x4248_0000 })
            } else {
                Px { bits: 0x7f80_0000 }
            },
        }
    }

    /// The bottom of the view, from the top of the line at which it begins.
    pub open spec fn limit_at<M: PixelMath>(self, scroll: Scroll) -> Px {
        M::sum(scroll.vertical, self.extent::<M>())
    }

    /// Height of the part that is shaped.
    pub fn shaped_height<M: PixelMath>(self) -> (r: Px)
        ensures
            r == self.extent::<M>(),
    {
        match self.height_opt {
            Some(height) => height,
            None => if self.rope {
                M::times(self.line_height, Px { bits: 0x4248_0000 })
            } else {
                Px { bits: 0x7f80_0000 }
            },
        }
    }
}

/// Height of a visual line.
pub open spec fn height_of(line: LayoutLineView, line_height: Px) -> Px {
    match line.line_height_opt {
        Some(height) => height,
        None => line_height,
    }
}

/// The heights of visual lines added to `base`, one after the other.
pub open spec fn stacked<M: PixelMath>(base: Px, lines: Seq<LayoutLineView>, line_height: Px) -> Px
    decreases lines.len(),
{
    if lines.len() == 0 {
        base
    } else {
        M::sum(stacked::<M>(base, lines.drop_last(), line_height), height_of(lines.last(), line_height))
    }
}

/// Adds the heights of the first `n` visual lines to `base`.
pub fn stack_heights<M: PixelMath>(
    base: Px,
    lines: &[LayoutLine],
    n: usize,
    line_height: Px,
) -> (r: Px)
    requires
        n <= lines@.len(),
    ensures
        r == stacked::<M>(base, layout_view(lines@).take(n as int), line_height),
        n == lines@.len() ==> r == stacked::<M>(base, layout_view(lines@), line_height),
{
    let ghost v = layout_view(lines@);
    let mut total = base;
    let mut i: usize = 0;
    while i < n
        invariant
            i <= n <= lines@.len(),
            v == layout_view(lines@),
            total == stacked::<M>(base, v.take(i as int), line_height),
        decreases n - i,
    {
        let height = match lines[i].line_height_opt {
            Some(height) => height,
            None => line_height,
        };
        proof {
            assert(v[i as int] == lines@[i as int]@);
            assert(v.take(i + 1).drop_last() =~= v.take(i as int));
            assert(v.take(i + 1).last() == v[i as int]);
        }
        total = M::plus(total, height);
        i = i + 1;
    }
    assert(n == lines@.len() ==> v.take(n as int) =~= v);
    total
}

/// A scroll position that is not above the top of its line: one that is moves
/// back line by line, or to the very top.
pub open spec fn walked_back<M: PixelMath>(page: Page, line_height: Px, scroll: Scroll) -> Scroll
    decreases scroll.line,
{
    if !scroll.vertical.lt(zero()) {
        scroll
    } else if scroll.line == 0 {
        Scroll { vertical: zero(), ..scroll }
    } else {
        let i = scroll.line - 1;
        let vertical = if page.hidden[i] {
            scroll.vertical
        } else {
            M::sum(scroll.vertical, stacked::<M>(zero(), page.layouts[i], line_height))
        };
        walked_back::<M>(page, line_height, Scroll { line: i as usize, vertical, ..scroll })
    }
}

/// What a walk from line `i` on comes to.
pub struct Walk {
    /// The scroll position, moved on past the lines that are above the view.
    pub scroll: Scroll,
    /// The height of the lines that were walked over.
    pub total: Px,
    /// The line at which the walk ended.
    pub stop: int,
}

/// A scroll position, moved on past line `i` of the given height if the line is
/// above it.
pub open spec fn passed_by<M: PixelMath>(scroll: Scroll, i: int, height: Px) -> Scroll {
    if i == scroll.line && height.le(scroll.vertical) {
        Scroll {
            line: (scroll.line + 1) as usize,
            vertical: M::difference(scroll.vertical, height),
            ..scroll
        }
    } else {
        scroll
    }
}

/// A scroll position, moved on past line `i` if the line is hidden and above it.
pub open spec fn passed_hidden(scroll: Scroll, i: int) -> Scroll {
    if i == scroll.line && zero().lt(scroll.vertical) {
        Scroll { line: (scroll.line + 1) as usize, ..scroll }
    } else {
        scroll
    }
}

/// The walk from line `i` on, until more than `limit` has been walked over.
pub open spec fn walked<M: PixelMath>(
    page: Page,
    line_height: Px,
    limit: Px,
    i: int,
    scroll: Scroll,
    total: Px,
) -> Walk
    decreases page.texts.len() - i,
{
    if i >= page.texts.len() || limit.lt(total) {
        Walk { scroll, total, stop: i }
    } else if page.hidden[i] {
        walked::<M>(page, line_height, limit, i + 1, passed_hidden(scroll, i), total)
    } else {
        walked::<M>(
            page,
            line_height,
            limit,
            i + 1,
            passed_by::<M>(scroll, i, stacked::<M>(zero(), page.layouts[i], line_height)),
            stacked::<M>(total, page.layouts[i], line_height),
        )
    }
}

/// What one correction of a scroll position comes to.
pub struct Pass {
    /// The corrected position.
    pub scroll: Scroll,
    /// Whether it needs no further correction.
    pub done: bool,
    /// The first line of the view.
    pub from: int,
    /// The line behind the last one of the view.
    pub stop: int,
}

/// What a walk from line `from` on over `limit` comes to. If the text ends
/// above the bottom of the view, the position is moved up by what is missing.
pub open spec fn pass_of<M: PixelMath>(window: Window, limit: Px, from: int, walk: Walk) -> Pass {
    let short = walk.total.lt(limit) && walk.scroll.line > 0 && (!window.rope
        || window.height_opt is Some);
    Pass {
        scroll: if short {
            Scroll {
                vertical: M::difference(walk.scroll.vertical, M::difference(limit, walk.total)),
                ..walk.scroll
            }
        } else {
            walk.scroll
        },
        done: !short,
        from,
        stop: walk.stop,
    }
}

/// One correction of a scroll position: it is moved back to a line that it is
/// not above of and on to a line that it is not below of. If the text ends
/// above the bottom of the view, the position is moved up by what is missing.
pub open spec fn corrected<M: PixelMath>(page: Page, window: Window, scroll: Scroll) -> Pass {
    let back = walked_back::<M>(page, window.line_height, scroll);
    let limit = window.limit_at::<M>(back);
    let walk = walked::<M>(
        page,
        window.line_height,
        limit,
        back.line as int,
        back,
        zero(),
    );
    pass_of::<M>(window, limit, back.line as int, walk)
}

/// The last of at most `passes` corrections of a scroll position.
pub open spec fn settled<M: PixelMath>(page: Page, window: Window, scroll: Scroll, passes: nat) -> Pass
    decreases passes,
{
    let pass = corrected::<M>(page, window, scroll);
    if pass.done || passes <= 1 {
        pass
    } else {
        settled::<M>(page, window, pass.scroll, (passes - 1) as nat)
    }
}

/// A scroll position on a line that exists.
pub open spec fn on_page(count: nat, scroll: Scroll) -> Scroll {
    if scroll.line >= count {
        Scroll {
            line: if count == 0 {
                0
            } else {
                (count - 1) as usize
            },
            vertical: zero(),
            ..scroll
        }
    } else {
        scroll
    }
}

/// A walk ends within the page, and the position moves on no further than the
/// walk.
pub proof fn lemma_walked<M: PixelMath>(
    page: Page,
    line_height: Px,
    limit: Px,
    i: int,
    scroll: Scroll,
    total: Px,
)
    requires
        page.texts.len() <= usize::MAX,
        0 <= i <= page.texts.len(),
        scroll.line <= i,
    ensures
        ({
            let w = walked::<M>(page, line_height, limit, i, scroll, total);
            &&& i <= w.stop <= page.texts.len()
            &&& scroll.line <= w.scroll.line <= w.stop
            &&& w.scroll.horizontal == scroll.horizontal
        }),
    decreases page.texts.len() - i,
{
    if i < page.texts.len() && !limit.lt(total) {
        if page.hidden[i] {
            lemma_walked::<M>(page, line_height, limit, i + 1, passed_hidden(scroll, i), total);
        } else {
            let moved = passed_by::<M>(
                scroll,
                i,
                stacked::<M>(zero(), page.layouts[i], line_height),
            );
            lemma_walked::<M>(
                page,
                line_height,
                limit,
                i + 1,
                moved,
                stacked::<M>(total, page.layouts[i], line_height),
            );
        }
    }
}

/// A scroll position, moved down to where the view ends `total` below the top
/// of line `i`, if it ends above that.
pub open spec fn lowered<M: PixelMath>(scroll: Scroll, height: Px, i: int, total: Px) -> Scroll {
    if M::sum(height, scroll.vertical).lt(total) {
        Scroll { line: i as usize, vertical: M::difference(total, height), ..scroll }
    } else {
        scroll
    }
}

/// The scroll position that shows a visual line of line `i` whose bottom is
/// `total` below the top of the line, looked for by walking up from the line.
pub open spec fn walked_up<M: PixelMath>(
    page: Page,
    line_height: Px,
    height: Px,
    scroll: Scroll,
    i: int,
    total: Px,
) -> Scroll
    decreases i,
{
    if i <= scroll.line || i <= 0 {
        scroll
    } else {
        let sum = if page.hidden[i - 1] {
            total
        } else {
            stacked::<M>(total, page.layouts[i - 1], line_height)
        };
        walked_up::<M>(
            page,
            line_height,
            height,
            lowered::<M>(scroll, height, i - 1, sum),
            i - 1,
            sum,
        )
    }
}

/// Where visual line `k` of `rows` begins and ends, from the top of the first.
pub open spec fn row_span<M: PixelMath>(
    rows: Seq<LayoutLineView>,
    line_height: Px,
    k: int,
) -> (Px, Px) {
    let y = stacked::<M>(zero(), rows.take(k), line_height);
    (y, M::sum(y, height_of(rows[k], line_height)))
}

/// The scroll position that shows a visual line of line `line` that begins `y`
/// and ends `bottom` below the top of the line: moved up if the visual line
/// begins above the view, moved down if it ends below.
pub open spec fn reached<M: PixelMath>(
    page: Page,
    line_height: Px,
    height_opt: Option<Px>,
    scroll: Scroll,
    line: int,
    y: Px,
    bottom: Px,
) -> Scroll {
    if scroll.line > line || (scroll.line == line && y.lt(scroll.vertical)) {
        Scroll { line: line as usize, vertical: y, ..scroll }
    } else if let Some(height) = height_opt {
        if line <= scroll.line {
            if M::sum(height, scroll.vertical).lt(bottom) {
                Scroll { vertical: M::difference(bottom, height), ..scroll }
            } else {
                scroll
            }
        } else {
            walked_up::<M>(page, line_height, height, scroll, line, bottom)
        }
    } else {
        scroll
    }
}

/// The left and the right edge of the glyph at index `g` of a visual line; of
/// the last one if there are not as many.
pub open spec fn edges<M: PixelMath>(row: LayoutLineView, g: int) -> (Px, Px) {
    if row.glyphs.len() == 0 {
        (zero(), zero())
    } else {
        let glyph = row.glyphs[if g < row.glyphs.len() {
            g
        } else {
            row.glyphs.len() - 1
        }];
        let right = M::sum(glyph.x, glyph.w);
        (glyph.x.smaller(right), glyph.x.larger(right))
    }
}

/// The horizontal scroll position that shows what is between two edges.
pub open spec fn sideways<M: PixelMath>(horizontal: Px, width_opt: Option<Px>, left: Px, right: Px) -> Px {
    let h = if left.lt(horizontal) {
        left
    } else {
        horizontal
    };
    match width_opt {
        Some(width) => if M::sum(h, width).lt(right) {
            M::difference(right, width)
        } else {
            h
        },
        None => h,
    }
}

} // verus!
