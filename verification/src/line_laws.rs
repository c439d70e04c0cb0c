//! What holds of the lines of a text, and of how they are shaped.

use vstd::prelude::*;
use vstd::utf8::*;

use crate::attrs::{attrs_at, Attrs, AttrsListView, AttrsSpan};
use crate::breaks::{
    break_end, breaks, content_of, ending_of, lemma_line_at, lemma_line_of, lemma_starts, line_end,
    line_start, line_total,
};
use crate::buffer::Buffer;
use crate::ending::{ending_bytes, LineEnding, CR, LF};
use crate::layout::{Align, FontSystem, Shaping};
use crate::line::{fresh_line, lines_view, LineView, Settings};
use crate::line_iter::{cuts, ending_at, lemma_next_break, next_break, Cut};
use crate::paragraphs::{lemma_next_separator, next_separator, paragraphs, separator_at};
use crate::rich_text::{rich_lines, span_text};
use crate::rope_store::position;
use crate::set_text::text_lines;
use crate::shape_cap::{last_boundary, shaped_part, MAX_SHAPE_BYTES};
use crate::text::{at_boundary, lemma_first_byte};

verus! {

/// What lines are laid out for is what the buffer is set to.
pub proof fn law_layout_follows_the_buffer(buffer: &Buffer, align: Option<Align>)
    ensures
        ({
            let params = buffer.settings().params(align);
            &&& params.font_size == buffer.metrics.font_size
            &&& params.width_opt == buffer.width_opt
            &&& params.wrap == buffer.wrap
            &&& params.ellipsize == buffer.ellipsize
            &&& params.align == align
            &&& params.monospace_width == buffer.monospace_width
            &&& params.hinting == buffer.hinting
            &&& buffer.settings().tab_width == buffer.tab_width
            &&& buffer.settings().direction == buffer.direction
        }),
{
}

/// A line that is not too long is shaped as a whole, with its own attributes,
/// and laid out with its own alignment, by what is set.
pub proof fn law_lines_are_shaped_as_a_whole<F: FontSystem>(
    line: LineView,
    fonts: int,
    settings: Settings,
)
    requires
        line.text.len() <= MAX_SHAPE_BYTES,
    ensures
        line.fresh_shape::<F>(fonts, settings) == F::shaped(
            fonts,
            line.text,
            line.attrs,
            line.shaping,
            settings.tab_width,
            settings.direction,
        ),
        line.fresh_layout::<F>(fonts, settings) == F::laid_out(
            fonts,
            F::shaped(
                fonts,
                line.text,
                line.attrs,
                line.shaping,
                settings.tab_width,
                settings.direction,
            ),
            settings.params(line.align),
        ),
{
}

/// A line of which no result is kept is shaped and laid out anew; one of which
/// results are kept keeps them. Nothing else of it changes.
pub proof fn law_laying_out_changes_no_line<F: FontSystem>(
    line: LineView,
    fonts: int,
    settings: Settings,
)
    ensures
        ({
            let after = line.with_layout::<F>(fonts, settings);
            &&& after.text == line.text
            &&& after.ending == line.ending
            &&& after.attrs == line.attrs
            &&& after.align == line.align
            &&& after.shaping == line.shaping
            &&& after.hidden == line.hidden
            &&& after.metadata == line.metadata
            &&& after.layout is Some
            &&& line.layout is Some ==> after == line
            &&& line.layout is None ==> after.shape is Some
            &&& line.layout is None && line.shape is None ==> after.shape == Some(
                line.fresh_shape::<F>(fonts, settings),
            ) && after.layout == Some(line.fresh_layout::<F>(fonts, settings))
            &&& line.layout is None ==> (line.shape matches Some(shape) ==> after.shape == Some(shape)
                && after.layout == Some(F::laid_out(fonts, shape, settings.params(line.align))))
        }),
{
}

/// Dropping results drops the layout with the shape, remembers what was there
/// and changes nothing else of the line; only dropping all of them drops the
/// metadata too.
pub proof fn law_dropping_results_changes_no_line(line: LineView)
    ensures
        ({
            let relaid = line.without_layout();
            let reshaped = line.without_shape();
            let reset = line.without_results();
            &&& relaid.layout is None
            &&& relaid.shape == line.shape
            &&& relaid.shape_dropped == line.shape_dropped
            &&& reshaped.layout is None && reshaped.shape is None
            &&& reset.layout is None && reset.shape is None && reset.metadata is None
            &&& line.layout is Some ==> relaid.layout_dropped && reshaped.layout_dropped
                && reset.layout_dropped
            &&& line.shape is Some ==> reshaped.shape_dropped && reset.shape_dropped
            &&& line.layout is None ==> relaid == line
            &&& line.layout is None && line.shape is None ==> reshaped == line
            &&& relaid.metadata == line.metadata && reshaped.metadata == line.metadata
            &&& relaid.text == line.text && reshaped.text == line.text && reset.text == line.text
            &&& relaid.ending == line.ending && reshaped.ending == line.ending && reset.ending
                == line.ending
            &&& relaid.attrs == line.attrs && reshaped.attrs == line.attrs && reset.attrs
                == line.attrs
            &&& relaid.align == line.align && reshaped.align == line.align && reset.align
                == line.align
            &&& relaid.shaping == line.shaping && reshaped.shaping == line.shaping && reset.shaping
                == line.shaping
            &&& relaid.hidden == line.hidden && reshaped.hidden == line.hidden && reset.hidden
                == line.hidden
        }),
{
}

/// A line that is put in place of another is what a new line is, shown, not
/// aligned and without results; all that is left of the other line is that its
/// results were dropped.
pub proof fn law_replaced_lines_are_new(
    line: LineView,
    text: Seq<u8>,
    ending: LineEnding,
    attrs: AttrsListView,
    shaping: Shaping,
)
    ensures
        ({
            let fresh = fresh_line(text, ending, attrs, shaping);
            let placed = line.replaced(text, ending, attrs, shaping);
            &&& is_set_to(fresh, text, ending, shaping, None)
            &&& is_set_to(placed, text, ending, shaping, None)
            &&& fresh.attrs == attrs && placed.attrs == attrs
            &&& !fresh.shape_dropped && !fresh.layout_dropped
            &&& placed.shape_dropped == (line.shape_dropped || line.shape is Some)
            &&& placed.layout_dropped == (line.layout_dropped || line.layout is Some)
        }),
{
}

proof fn lemma_last_boundary(b: Seq<u8>, n: int, k: int)
    requires
        0 <= k <= n,
        at_boundary(b, k),
        at_boundary(b, 0),
    ensures
        k <= last_boundary(b, n) <= n,
        at_boundary(b, last_boundary(b, n)),
    decreases n,
{
    if n > 0 && !at_boundary(b, n) {
        lemma_last_boundary(b, n - 1, k);
    }
}

/// What is shaped of a text is its front, up to the last position between two
/// characters that is within the limit; all of it if it is within the limit.
pub proof fn law_as_much_is_shaped_as_fits(b: Seq<u8>)
    requires
        valid_utf8(b),
    ensures
        b.len() <= MAX_SHAPE_BYTES ==> shaped_part(b) == b,
        b.len() > MAX_SHAPE_BYTES ==> shaped_part(b).len() <= MAX_SHAPE_BYTES,
        at_boundary(b, shaped_part(b).len() as int),
        shaped_part(b) == b.take(shaped_part(b).len() as int),
        forall|n: int|
            0 <= n <= MAX_SHAPE_BYTES && #[trigger] at_boundary(b, n) ==> n <= shaped_part(b).len(),
{
    lemma_first_byte(b);
    if b.len() <= MAX_SHAPE_BYTES {
        assert(b.take(b.len() as int) =~= b);
    } else {
        lemma_last_boundary(b, MAX_SHAPE_BYTES as int, 0);
        assert forall|n: int| 0 <= n <= MAX_SHAPE_BYTES && #[trigger] at_boundary(b, n) implies n
            <= shaped_part(b).len() by {
            lemma_last_boundary(b, MAX_SHAPE_BYTES as int, n);
        }
    }
}

/// CR and LF that follow one another directly, in either order, end one line and
/// not two.
pub proof fn law_breaks_are_taken_in_pairs(b: Seq<u8>, i: int, k: int)
    requires
        0 <= i <= b.len(),
        0 <= k < cuts(b, i).len() - 1,
        cuts(b, i)[k + 1].text.len() == 0,
    ensures
        cuts(b, i)[k].ending == LineEnding::Cr ==> cuts(b, i)[k + 1].ending != LineEnding::Lf
            && cuts(b, i)[k + 1].ending != LineEnding::LfCr,
        cuts(b, i)[k].ending == LineEnding::Lf ==> cuts(b, i)[k + 1].ending != LineEnding::Cr
            && cuts(b, i)[k + 1].ending != LineEnding::CrLf,
    decreases b.len() - i,
{
    let j = next_break(b, i);
    lemma_next_break(b, i);
    let all = cuts(b, i);
    if j < b.len() {
        let ending = ending_at(b, j);
        let n = ending_bytes(ending).len() as int;
        let rest = cuts(b, j + n);
        if k > 0 {
            assert(all[k] == rest[k - 1]);
            assert(all[k + 1] == rest[k]);
            law_breaks_are_taken_in_pairs(b, j + n, k - 1);
        } else {
            assert(all[1] == rest[0]);
            lemma_next_break(b, j + n);
        }
    }
}

/// Whether a line holds the given text, with nothing else set on it and no
/// result kept.
pub open spec fn is_set_to(
    line: LineView,
    text: Seq<u8>,
    ending: LineEnding,
    shaping: Shaping,
    align: Option<Align>,
) -> bool {
    &&& line.text == text
    &&& line.ending == ending
    &&& line.shaping == shaping
    &&& line.align == align
    &&& !line.hidden
    &&& line.metadata is None
    &&& line.shape is None
    &&& line.layout is None
}

/// A text that is set has a line for each of the lines that it is cut into, with
/// the given attributes for all of its bytes. Nothing that was set on an old
/// line is left.
pub proof fn law_set_lines_are_new(
    old_lines: Seq<LineView>,
    lines: Seq<Cut>,
    attrs: Attrs,
    shaping: Shaping,
    align: Option<Align>,
    i: int,
    p: int,
)
    requires
        0 <= i < lines.len(),
    ensures
        ({
            let set = text_lines(old_lines, lines, attrs, shaping, align);
            &&& set.len() == lines.len()
            &&& is_set_to(set[i], lines[i].text, lines[i].ending, shaping, align)
            &&& attrs_at(set[i].attrs, p) == attrs
        }),
{
}

/// A buffer whose text has been replaced begins at the start of the text, has to
/// be brought up to date and to be drawn again, and has kept all settings.
pub proof fn law_new_text_is_shown_from_the_start(
    before: &Buffer,
    lines: Seq<LineView>,
    after: &Buffer,
)
    requires
        before.retexted(lines, after),
    ensures
        after.store is Full,
        after.count() == lines.len(),
        forall|i: int| 0 <= i < lines.len() ==> #[trigger] after.store.line_at(i) == lines[i],
        after.scroll.line == 0,
        after.scroll.vertical.bits == 0,
        after.scroll.horizontal.bits == 0,
        after.redraw,
        after.stale(),
        after.settings() == before.settings(),
        after.metrics == before.metrics,
        after.height_opt == before.height_opt,
        after.max_thaw_bytes == before.max_thaw_bytes,
{
    let set = after.store->Full_0@;
    assert(lines_view(set).len() == set.len());
    assert forall|i: int| 0 <= i < lines.len() implies #[trigger] after.store.line_at(i) == lines[i] by {
        assert(lines_view(set)[i] == set[i]@);
    }
}

/// Whether a character that separates paragraphs, of `n` bytes, is at position
/// `i`: LF, CR, FS, GS, RS, NEL or PS.
pub open spec fn is_separator(b: Seq<u8>, i: int, n: int) -> bool {
    &&& 0 <= i
    &&& i + n <= b.len()
    &&& {
        ||| n == 1 && (b[i] == 0x0a || b[i] == 0x0d || b[i] == 0x1c || b[i] == 0x1d || b[i] == 0x1e)
        ||| n == 2 && b[i] == 0xc2 && b[i + 1] == 0x85
        ||| n == 3 && b[i] == 0xe2 && b[i + 1] == 0x80 && b[i + 2] == 0xa9
    }
}

/// A separator is found where there is one, and nowhere else.
proof fn lemma_separator(b: Seq<u8>, i: int)
    requires
        0 <= i < b.len(),
    ensures
        separator_at(b, i) > 0 ==> is_separator(b, i, separator_at(b, i)),
        forall|n: int| #[trigger] is_separator(b, i, n) ==> separator_at(b, i) > 0,
{
}

/// The first paragraph of a text begins at its start. There is none in an empty
/// text.
pub proof fn law_paragraphs_begin_at_the_start(b: Seq<u8>, i: int)
    requires
        0 <= i <= b.len(),
    ensures
        i < b.len() ==> paragraphs(b, i).len() > 0 && paragraphs(b, i)[0].0 == i,
        i == b.len() ==> paragraphs(b, i).len() == 0,
{
}

/// No separator is within a paragraph.
pub proof fn law_paragraphs_hold_no_separator(b: Seq<u8>, i: int, k: int, p: int, n: int)
    requires
        0 <= i <= b.len(),
        0 <= k < paragraphs(b, i).len(),
        paragraphs(b, i)[k].0 <= p < paragraphs(b, i)[k].1,
    ensures
        0 <= p < b.len(),
        !is_separator(b, p, n),
    decreases b.len() - i,
{
    let j = next_separator(b, i);
    lemma_next_separator(b, i);
    if k == 0 {
        assert(separator_at(b, p) == 0);
        lemma_separator(b, p);
    } else {
        let rest = paragraphs(b, j + separator_at(b, j));
        assert(paragraphs(b, i)[k] == rest[k - 1]);
        law_paragraphs_hold_no_separator(b, j + separator_at(b, j), k - 1, p, n);
    }
}

/// A paragraph ends at a separator, and the next one begins behind that; the
/// last one ends at the end of the text or at a separator there. Returns how
/// many bytes the separator has, which is none only at the end of the text.
pub proof fn law_paragraphs_end_at_separators(b: Seq<u8>, i: int, k: int) -> (n: int)
    requires
        0 <= i <= b.len(),
        0 <= k < paragraphs(b, i).len(),
    ensures
        n > 0 ==> is_separator(b, paragraphs(b, i)[k].1, n),
        n == 0 ==> paragraphs(b, i)[k].1 == b.len(),
        n >= 0,
        k + 1 < paragraphs(b, i).len() ==> n > 0 && paragraphs(b, i)[k + 1].0 == paragraphs(
            b,
            i,
        )[k].1 + n,
        k + 1 == paragraphs(b, i).len() ==> paragraphs(b, i)[k].1 + n == b.len(),
    decreases b.len() - i,
{
    let all = paragraphs(b, i);
    let j = next_separator(b, i);
    lemma_next_separator(b, i);
    if j >= b.len() {
        0
    } else {
        let n = separator_at(b, j);
        let rest = paragraphs(b, j + n);
        lemma_separator(b, j);
        law_paragraphs_begin_at_the_start(b, j + n);
        assert(all == seq![(i, j)] + rest);
        if k == 0 {
            n
        } else {
            assert(all[k] == rest[k - 1]);
            if k + 1 < all.len() {
                assert(all[k + 1] == rest[k]);
            }
            law_paragraphs_end_at_separators(b, j + n, k - 1)
        }
    }
}

/// Spans of text that are set give a line for each paragraph of what they are
/// together, and a single empty one if there is none. Each ends with an LF, and
/// nothing that was set on an old line is left.
pub proof fn law_rich_lines_are_paragraphs(
    old_lines: Seq<LineView>,
    spans: Seq<(&str, Attrs)>,
    defaults: Attrs,
    shaping: Shaping,
    align: Option<Align>,
    i: int,
)
    ensures
        ({
            let b = span_text(spans, spans.len() as int);
            let parts = paragraphs(b, 0);
            let set = rich_lines(old_lines, spans, defaults, shaping, align);
            &&& parts.len() > 0 ==> set.len() == parts.len()
            &&& parts.len() == 0 ==> set.len() == 1 && is_set_to(
                set[0],
                seq![],
                LineEnding::Lf,
                shaping,
                align,
            )
            &&& 0 <= i < parts.len() ==> is_set_to(
                set[i],
                b.subrange(parts[i].0, parts[i].1),
                LineEnding::Lf,
                shaping,
                align,
            )
        }),
{
}

/// The text of spans is that of all but the last one and that of the last one.
pub proof fn law_spans_are_put_in_a_row(spans: Seq<(&str, Attrs)>, k: int)
    requires
        0 <= k,
    ensures
        span_text(spans, 0).len() == 0,
        span_text(spans, k + 1) == span_text(spans, k) + encode_utf8(spans[k].0@),
{
}

/// A byte has the attributes of the last span that covers it, and the default
/// ones if none does.
pub proof fn law_the_last_span_counts(list: AttrsListView, span: AttrsSpan, i: int)
    ensures
        ({
            let more = AttrsListView { defaults: list.defaults, spans: list.spans.push(span) };
            &&& span.start <= i < span.end ==> attrs_at(more, i) == span.attrs
            &&& !(span.start <= i < span.end) ==> attrs_at(more, i) == attrs_at(list, i)
            &&& list.spans.len() == 0 ==> attrs_at(list, i) == list.defaults
        }),
{
    let more = AttrsListView { defaults: list.defaults, spans: list.spans.push(span) };
    assert(more.spans.drop_last() =~= list.spans);
}

/// Whether a line of a rope ends directly in front of position `j`: behind LF,
/// VT, FF, NEL, LS or PS, and behind a CR that no LF follows.
pub open spec fn ends_a_line(b: Seq<u8>, j: int) -> bool {
    &&& 0 < j <= b.len()
    &&& {
        ||| b[j - 1] == LF || b[j - 1] == 0x0b || b[j - 1] == 0x0c
        ||| b[j - 1] == CR && (j == b.len() || b[j] != LF)
        ||| j >= 2 && b[j - 2] == 0xc2 && b[j - 1] == 0x85
        ||| j >= 3 && b[j - 3] == 0xe2 && b[j - 2] == 0x80 && b[j - 1] == 0xa8
        ||| j >= 3 && b[j - 3] == 0xe2 && b[j - 2] == 0x80 && b[j - 1] == 0xa9
    }
}

/// The lines of a rope are what lies between its line breaks: the first begins
/// at the start, each but the last one ends with a break, where the next one
/// begins, and none has a break inside.
pub proof fn law_rope_lines_lie_between_breaks(b: Seq<u8>, k: int)
    requires
        0 <= k < line_total(b),
    ensures
        line_start(b, 0) == 0,
        k + 1 < line_total(b) ==> line_end(b, k) == line_start(b, k + 1) && ends_a_line(
            b,
            line_end(b, k),
        ),
        k + 1 == line_total(b) ==> line_end(b, k) == b.len(),
        line_start(b, k) <= line_end(b, k),
        forall|j: int| line_start(b, k) < j < line_end(b, k) ==> !#[trigger] ends_a_line(b, j),
{
    lemma_starts(b);
    assert forall|j: int| line_start(b, k) < j < line_end(b, k) implies !#[trigger] ends_a_line(b, j) by {
        if ends_a_line(b, j) {
            assert(break_end(b, j));
            assert(line_start(b, breaks(b, j) as int) == j);
            lemma_line_of(b, j, k);
        }
    }
    if k + 1 == line_total(b) && k > 0 {
        assert(line_start(b, k) <= b.len());
    }
}

/// What a line of a rope shows is its bytes without the terminator, and a
/// terminator is CR and LF, LF, or CR.
pub proof fn law_rope_lines_show_their_content(l: Seq<u8>)
    ensures
        content_of(l) + ending_bytes(ending_of(l)) == l,
        ending_of(l) == LineEnding::CrLf <==> l.len() >= 2 && l[l.len() - 2] == CR && l[l.len() - 1]
            == LF,
        ending_of(l) == LineEnding::Lf <==> l.len() >= 1 && l[l.len() - 1] == LF && !(l.len() >= 2
            && l[l.len() - 2] == CR),
        ending_of(l) == LineEnding::Cr <==> l.len() >= 1 && l[l.len() - 1] == CR,
        ending_of(l) == LineEnding::NoEnding <==> l.len() == 0 || (l[l.len() - 1] != LF && l[l.len()
            - 1] != CR),
{
    assert(content_of(l) + ending_bytes(ending_of(l)) =~= l);
}

/// A position of a rope is on the line that begins at it or last in front of it,
/// as many bytes behind its start as it is.
pub proof fn law_positions_are_on_lines(b: Seq<u8>, p: int)
    requires
        0 <= p <= b.len(),
    ensures
        ({
            let (line, index) = position(b, p);
            &&& 0 <= line < line_total(b)
            &&& 0 <= index
            &&& line_start(b, line) + index == p
            &&& line + 1 < line_total(b) ==> p < line_start(b, line + 1)
        }),
{
    lemma_line_at(b, p);
    lemma_line_of(b, p, breaks(b, p) as int);
}

} // verus!
