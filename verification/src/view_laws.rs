//! What a view shows once it has been brought up to date.

use vstd::prelude::*;
use vstd::utf8::*;

use crate::buffer::{Buffer, LineStore, Page};
use crate::cursor::Scroll;
use crate::layout::{layout_view, FontSystem, LayoutLine};
use crate::line::{lemma_line_results, lines_view, BufferLine};
use crate::line_cache::LINE_CACHE_CAPACITY;
use crate::pixel::{PixelMath, Px};
use crate::rope_store::{lemma_results_now, RopeStore};
use crate::run_iter::RunLine;
use crate::runs::LayoutRun;
use crate::scrolling::{
    corrected, lemma_walked, on_page, settled, stacked, walked_back, Window, SCROLL_PASSES,
};
use crate::view::lemma_run_is_ready;

verus! {

/// No line of a view that has been brought up to date is missing: each one is
/// found when the visual lines are walked over. A rope keeps no more lines than
/// it has room for.
pub proof fn law_lines_of_the_view_are_found(
    buffer: &Buffer,
    from: int,
    stop: int,
    prune: bool,
    i: int,
)
    requires
        buffer.wf(),
        buffer.shows(from, stop, prune),
        0 <= from <= i < stop <= buffer.count(),
        buffer.store is Rope ==> stop - from <= LINE_CACHE_CAPACITY,
    ensures
        buffer.found_lines()[i] is Some,
{
    if !buffer.store.line_at(i).hidden {
        lemma_run_is_ready(&buffer.store, from, stop, i);
    }
}

/// Where all kept results are up to date, a line is shown as it would be if it
/// were shaped and laid out anew: nothing of an earlier text or of earlier
/// settings is left.
pub proof fn law_lines_are_shown_as_they_stand<F: FontSystem>(
    buffer: &Buffer,
    fonts: int,
    i: int,
    line: RunLine,
)
    requires
        buffer.wf(),
        buffer.store.current::<F>(fonts, buffer.settings()),
        0 <= i < buffer.count(),
        !buffer.store.line_at(i).hidden,
        buffer.found_lines()[i] == Some(line),
    ensures
        line.text == buffer.store.line_at(i).text,
        line.rtl == buffer.store.line_at(i).fresh_shape::<F>(fonts, buffer.settings()).rtl,
        line.layout == buffer.store.line_at(i).fresh_layout::<F>(fonts, buffer.settings()),
{
    match &buffer.store {
        LineStore::Full(lines) => {
            assert(buffer.store == LineStore::Full(*lines));
            assert(lines@[i]@.current::<F>(fonts, buffer.settings()));
        },
        LineStore::Rope(store) => {
            assert(buffer.store == LineStore::Rope(*store));
            lemma_results_now::<F>(store, fonts, buffer.settings(), i);
        },
    }
}

/// Once all results have been dropped, every line is shaped and laid out anew,
/// whatever the fonts have become: nothing that was shaped before is known to
/// be up to date by mistake, and the view has to be brought up to date.
pub proof fn law_reset_lines_are_shaped_anew<F: FontSystem>(
    before: &Buffer,
    after: &Buffer,
    fonts: int,
    i: int,
)
    requires
        before.wf(),
        after.wf(),
        before.resets(after),
        0 <= i < before.count(),
    ensures
        after.stale(),
        after.tracks::<F>(fonts),
        after.count() == before.count(),
        after.store.line_at(i).text == before.store.line_at(i).text,
        after.resolved_page::<F>(fonts).layouts[i] == before.store.line_at(i).fresh_layout::<F>(
            fonts,
            before.settings(),
        ),
        after.resolved_page::<F>(fonts).rtl[i] == before.store.line_at(i).fresh_shape::<F>(
            fonts,
            before.settings(),
        ).rtl,
{
    match (&before.store, &after.store) {
        (LineStore::Full(a), LineStore::Full(b)) => {
            assert(before.store == LineStore::Full(*a));
            assert(after.store == LineStore::Full(*b));
            assert(b@[i]@ == a@[i]@.without_results());
        },
        (LineStore::Rope(a), LineStore::Rope(b)) => {
            assert(before.store == LineStore::Rope(*a));
            assert(after.store == LineStore::Rope(*b));
            assert(b.cache.shape_at(i) is None);
            assert(b.cache.layout_at(i) is None);
            assert(b.warm(i) is Some ==> b.line_now(i) == b.line_view(i));
        },
        _ => {},
    }
}

/// Turning a rope into lines changes nothing that they show, as long as all
/// kept results were up to date.
pub proof fn law_thawing_shows_the_same<F: FontSystem>(before: &Buffer, after: &Buffer, fonts: int)
    requires
        before.wf(),
        before.store is Rope,
        before.store.current::<F>(fonts, before.settings()),
        before.thaws(after),
    ensures
        after.count() == before.count(),
        after.store.current::<F>(fonts, after.settings()),
        after.page::<F>(fonts) == before.page::<F>(fonts),
{
    let store = before.store->Rope_0;
    let lines = after.store->Full_0;
    let settings = before.settings();
    assert(before.store == LineStore::Rope(store));
    assert(after.store == LineStore::Full(lines));
    assert(lines_view(lines@).len() == lines@.len());
    assert forall|i: int| 0 <= i < lines@.len() implies (#[trigger] lines@[i])@ == store.line_view(
        i,
    ) by {
        assert(lines_view(lines@)[i] == lines@[i]@);
    }
    let p = before.page::<F>(fonts);
    let q = after.page::<F>(fonts);
    assert forall|i: int| 0 <= i < lines@.len() implies p.rtl[i] == q.rtl[i] && p.layouts[i]
        == q.layouts[i] && p.texts[i] == q.texts[i] && p.hidden[i] == q.hidden[i] by {
        assert(lines@[i]@ == store.line_view(i));
        lemma_results_now::<F>(&store, fonts, settings, i);
    }
    assert(p.texts =~= q.texts);
    assert(p.hidden =~= q.hidden);
    assert(p.rtl =~= q.rtl);
    assert(p.layouts =~= q.layouts);
}

/// The page of a buffer shows each line as it stands: its text, whether it is
/// hidden, and, where all kept results are up to date, the direction and the
/// visual lines that it has when it is shaped and laid out anew.
pub proof fn law_pages_show_the_lines<F: FontSystem>(buffer: &Buffer, fonts: int, i: int)
    requires
        buffer.wf(),
        buffer.store.current::<F>(fonts, buffer.settings()),
        0 <= i < buffer.count(),
    ensures
        ({
            let page = buffer.page::<F>(fonts);
            let line = buffer.store.line_at(i);
            &&& page.texts.len() == buffer.count()
            &&& page.hidden.len() == buffer.count()
            &&& page.rtl.len() == buffer.count()
            &&& page.layouts.len() == buffer.count()
            &&& page.texts[i] == line.text
            &&& page.hidden[i] == line.hidden
            &&& page.rtl[i] == line.fresh_shape::<F>(fonts, buffer.settings()).rtl
            &&& page.layouts[i] == line.fresh_layout::<F>(fonts, buffer.settings())
        }),
{
    match &buffer.store {
        LineStore::Full(lines) => {
            assert(buffer.store == LineStore::Full(*lines));
            assert(lines@[i]@.current::<F>(fonts, buffer.settings()));
            assert(lines@[i]@.fits());
            lemma_line_results::<F>(lines@[i]@, fonts, buffer.settings());
        },
        LineStore::Rope(store) => {
            assert(buffer.store == LineStore::Rope(*store));
            lemma_results_now::<F>(store, fonts, buffer.settings(), i);
        },
    }
}

/// A line that is kept is found when the visual lines are walked over if it is
/// shaped and laid out, with its visual lines, and if it is hidden, without any.
/// It is not found otherwise.
pub proof fn law_kept_lines_are_found(buffer: &Buffer, i: int)
    requires
        buffer.store is Full,
        0 <= i < buffer.count(),
    ensures
        ({
            let line = buffer.store.line_at(i);
            let found = buffer.found_lines()[i];
            &&& buffer.found_lines().len() == buffer.count()
            &&& line.hidden ==> (found matches Some(f) && f.text == line.text && f.layout.len() == 0)
            &&& !line.hidden && line.shape is Some && line.layout is Some ==> (found matches Some(f)
                && f.text == line.text && f.rtl == line.shape.unwrap().rtl && f.layout
                == line.layout.unwrap())
            &&& !line.hidden && (line.shape is None || line.layout is None) ==> found is None
        }),
{
}

/// A line of a rope is found when the visual lines are walked over if it is
/// materialized and its results are kept, and not otherwise.
pub proof fn law_rope_lines_are_found(buffer: &Buffer, store: RopeStore, i: int)
    requires
        buffer.store == LineStore::Rope(store),
        0 <= i < buffer.count(),
    ensures
        ({
            let found = buffer.found_lines()[i];
            &&& buffer.found_lines().len() == buffer.count()
            &&& found is Some <==> store.warm(i) is Some && store.cache.shape_at(i) is Some
                && store.cache.layout_at(i) is Some
            &&& found matches Some(f) ==> f.text == store.warm(i).unwrap()@.text && f.rtl
                == store.cache.shape_at(i).unwrap().rtl && f.layout == store.cache.layout_at(
                i,
            ).unwrap()
        }),
{
}

/// Bringing a view up to date leaves the text and the settings as they are, asks
/// for the view to be drawn and leaves no change to be looked at.
pub proof fn law_views_are_brought_up_to_date<F: FontSystem>(
    before: &Buffer,
    after: &Buffer,
    fonts: int,
    prune: bool,
    i: int,
)
    requires
        before.wf(),
        before.brings_up_to_date::<F>(after, fonts, prune),
        0 <= i < before.count(),
    ensures
        after.redraw,
        !after.dirty.relayout && !after.dirty.tab_shape && !after.dirty.text_set
            && !after.dirty.scroll && !after.dirty.direction,
        after.settings() == before.settings(),
        after.metrics == before.metrics,
        after.height_opt == before.height_opt,
        after.max_thaw_bytes == before.max_thaw_bytes,
        after.count() == before.count(),
        after.store is Full ==> after.store.line_at(i).text == before.store.line_at(i).text
            && after.store.line_at(i).hidden == before.store.line_at(i).hidden,
{
}

proof fn lemma_walked_back<M: PixelMath>(page: Page, line_height: Px, scroll: Scroll)
    ensures
        walked_back::<M>(page, line_height, scroll).line <= scroll.line,
    decreases scroll.line,
{
    if scroll.vertical.lt(Px { bits: 0 }) && scroll.line > 0 {
        let i = scroll.line - 1;
        let vertical = if page.hidden[i] {
            scroll.vertical
        } else {
            M::sum(
                scroll.vertical,
                stacked::<M>(Px { bits: 0 }, page.layouts[i], line_height),
            )
        };
        lemma_walked_back::<M>(page, line_height, Scroll { line: i as usize, vertical, ..scroll });
    }
}

proof fn lemma_view_holds_the_top<M: PixelMath>(
    page: Page,
    window: Window,
    scroll: Scroll,
    passes: nat,
)
    requires
        page.texts.len() <= usize::MAX,
        scroll.line <= page.texts.len(),
    ensures
        ({
            let pass = settled::<M>(page, window, scroll, passes);
            0 <= pass.from <= pass.scroll.line <= pass.stop <= page.texts.len()
        }),
    decreases passes,
{
    let back = walked_back::<M>(page, window.line_height, scroll);
    lemma_walked_back::<M>(page, window.line_height, scroll);
    lemma_walked::<M>(
        page,
        window.line_height,
        window.limit_at::<M>(back),
        back.line as int,
        back,
        Px { bits: 0 },
    );
    let pass = corrected::<M>(page, window, scroll);
    if !pass.done && passes > 1 {
        lemma_view_holds_the_top::<M>(page, window, pass.scroll, (passes - 1) as nat);
    }
}

/// Where results are pruned, no line but those of the view keeps any: none in
/// front of the first one that was looked at, which is not below the top of the
/// view, and none behind the last one, which is not above it.
pub proof fn law_pruned_views_keep_no_other_results<F: FontSystem>(
    before: &Buffer,
    after: &Buffer,
    fonts: int,
    i: int,
)
    requires
        before.wf(),
        before.store is Full,
        before.tracks::<F>(fonts),
        before.brings_up_to_date::<F>(after, fonts, true),
        0 <= i < before.count(),
        i < before.scrolled::<F>(fonts).from || before.scrolled::<F>(fonts).stop <= i,
    ensures
        after.store.line_at(i).shape is None,
        after.store.line_at(i).layout is None,
        0 <= before.scrolled::<F>(fonts).from <= after.scroll.line,
        after.scroll.line <= before.scrolled::<F>(fonts).stop <= before.count(),
{
    assert(after.store.bare(i));
    assert(before.count() <= usize::MAX) by {
        assert(before.store->Full_0.len() == before.store->Full_0@.len());
    }
    lemma_view_holds_the_top::<F>(
        before.resolved_page::<F>(fonts),
        before.window(),
        on_page(before.count(), before.scroll),
        SCROLL_PASSES as nat,
    );
}

/// A view that begins behind the last line begins at the top of the last line
/// instead; one that begins on a line that there is stays where it is.
pub proof fn law_views_begin_on_a_line(count: nat, scroll: Scroll)
    requires
        count <= usize::MAX,
    ensures
        scroll.line < count ==> on_page(count, scroll) == scroll,
        scroll.line >= count && count > 0 ==> on_page(count, scroll).line == count - 1 && on_page(
            count,
            scroll,
        ).vertical.bits == 0,
        count == 0 ==> on_page(count, scroll).line == 0 && on_page(count, scroll).vertical.bits == 0,
        on_page(count, scroll).horizontal == scroll.horizontal,
{
}

/// Contracts speak of a visual line as it is.
pub proof fn law_rows_are_viewed_as_they_are(row: &LayoutLine, rows: Seq<LayoutLine>, k: int)
    requires
        0 <= k < rows.len(),
    ensures
        row@.w == row.w,
        row@.max_ascent == row.max_ascent,
        row@.max_descent == row.max_descent,
        row@.line_height_opt == row.line_height_opt,
        row@.glyphs == row.glyphs@,
        row@.decorations == row.decorations@,
        layout_view(rows).len() == rows.len(),
        layout_view(rows)[k] == rows[k]@,
{
}

/// Contracts speak of a visual line in the view as it is.
pub proof fn law_runs_are_viewed_as_they_are(run: &LayoutRun)
    ensures
        run@.line_i == run.line_i,
        run@.text == encode_utf8(run.text@),
        run@.rtl == run.rtl,
        run@.glyphs == run.glyphs@,
        run@.decorations == run.decorations@,
        run@.line_y == run.line_y,
        run@.line_top == run.line_top,
        run@.line_height == run.line_height,
        run@.line_w == run.line_w,
{
}

/// Contracts speak of a line as it is.
pub proof fn law_lines_are_viewed_as_they_are(line: &BufferLine)
    ensures
        line@.text == encode_utf8(line.text@),
        line@.ending == line.ending,
        line@.attrs.defaults == line.attrs_list.defaults,
        line@.attrs.spans == line.attrs_list.spans@,
        line@.align == line.align,
        line@.shaping == line.shaping,
        line@.hidden == line.hidden,
        line@.metadata == line.metadata,
        line@.shape is Some <==> line.shape_cache.value is Some,
        line@.layout is Some <==> line.layout_cache.value is Some,
        line@.shape_dropped == line.shape_cache.dropped,
        line@.layout_dropped == line.layout_cache.dropped,
{
}

} // verus!
