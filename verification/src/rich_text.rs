//! Replacing the text of a buffer by spans with attributes of their own.

use vstd::prelude::*;
use vstd::utf8::*;

use crate::attrs::{only, Attrs, AttrsList, AttrsListView, AttrsSpan};
use crate::buffer::Buffer;
use crate::cursor::Scroll;
use crate::ending::LineEnding;
use crate::layout::{Align, Shaping};
use crate::line::{lines_view, BufferLine, LineView};
use crate::paragraphs::{find_paragraphs, lemma_paragraphs, paragraphs};
use crate::set_text::{align_lines, placed, put_line};
use crate::text::{at_boundary, byte_len, lemma_first_byte, lemma_subrange, push_str, slice_str};

verus! {

/// The bytes of the first `k` spans, one behind the other.
pub open spec fn span_text(spans: Seq<(&str, Attrs)>, k: int) -> Seq<u8>
    decreases k,
{
    if k <= 0 {
        Seq::empty()
    } else {
        span_text(spans, k - 1) + encode_utf8(spans[k - 1].0@)
    }
}

/// The place of each span in the text of all spans.
pub open spec fn span_places(spans: Seq<(&str, Attrs)>) -> Seq<AttrsSpan> {
    Seq::new(
        spans.len(),
        |k: int|
            AttrsSpan {
                start: span_text(spans, k).len() as usize,
                end: span_text(spans, k + 1).len() as usize,
                attrs: spans[k].1,
            },
    )
}

/// The first of `places`, from `k` on, that ends at or behind `x`.
pub open spec fn reaching(places: Seq<AttrsSpan>, x: int, k: int) -> int
    decreases places.len() - k,
{
    if k < 0 || k >= places.len() || places[k].end >= x {
        k
    } else {
        reaching(places, x, k + 1)
    }
}

/// The attributes of the paragraph from `start` to `end` once one more span
/// has been taken in. A span that covers a part of the paragraph is added
/// unless it has the default attributes. One that covers none of it, with
/// metrics of its own, gives a paragraph that is still empty its attributes.
pub open spec fn taken_in(list: AttrsListView, span: AttrsSpan, start: int, end: int) -> AttrsListView {
    let from = if span.start > start {
        span.start as int
    } else {
        start
    };
    let to = if span.end < end {
        span.end as int
    } else {
        end
    };
    if from < to {
        if span.attrs != list.defaults {
            AttrsListView {
                defaults: list.defaults,
                spans: list.spans.push(
                    AttrsSpan {
                        start: (from - start) as usize,
                        end: (to - start) as usize,
                        attrs: span.attrs,
                    },
                ),
            }
        } else {
            list
        }
    } else if span.start <= start && span.attrs.metrics_opt is Some {
        only(span.attrs)
    } else {
        list
    }
}

/// The attributes of the paragraph from `start` to `end` by the spans from
/// `first` up to `k`.
pub open spec fn attrs_by(
    places: Seq<AttrsSpan>,
    defaults: Attrs,
    start: int,
    end: int,
    first: int,
    k: int,
) -> AttrsListView
    decreases k - first,
{
    if k <= first {
        only(defaults)
    } else {
        taken_in(attrs_by(places, defaults, start, end, first, k - 1), places[k - 1], start, end)
    }
}

/// The first span that is looked at for paragraph `i`: the one in which the
/// paragraph in front of it ends.
pub open spec fn first_span(places: Seq<AttrsSpan>, parts: Seq<(int, int)>, i: int) -> int {
    if i <= 0 {
        0
    } else {
        reaching(places, parts[i - 1].1, 0)
    }
}

/// The attributes of paragraph `i`: by the spans from the one in which the
/// paragraph in front of it ends up to the one in which it ends itself.
pub open spec fn paragraph_attrs(
    places: Seq<AttrsSpan>,
    parts: Seq<(int, int)>,
    defaults: Attrs,
    i: int,
) -> AttrsListView {
    attrs_by(
        places,
        defaults,
        parts[i].0,
        parts[i].1,
        first_span(places, parts, i),
        reaching(places, parts[i].1, 0) + 1,
    )
}

/// The lines of a buffer whose text has been replaced by spans: one for each
/// paragraph, or a single empty one.
pub open spec fn rich_lines(
    old_lines: Seq<LineView>,
    spans: Seq<(&str, Attrs)>,
    defaults: Attrs,
    shaping: Shaping,
    align: Option<Align>,
) -> Seq<LineView> {
    let b = span_text(spans, spans.len() as int);
    let places = span_places(spans);
    let parts = paragraphs(b, 0);
    if parts.len() == 0 {
        seq![
            LineView {
                align,
                ..placed(old_lines, 0, seq![], LineEnding::Lf, only(defaults), shaping)
            },
        ]
    } else {
        Seq::new(
            parts.len(),
            |i: int|
                LineView {
                    align,
                    ..placed(
                        old_lines,
                        i,
                        b.subrange(parts[i].0, parts[i].1),
                        LineEnding::Lf,
                        paragraph_attrs(places, parts, defaults, i),
                        shaping,
                    )
                },
        )
    }
}

/// Whether the places follow one another without a gap, from 0 to `n`.
pub open spec fn in_a_row(places: Seq<AttrsSpan>, n: int) -> bool {
    &&& places.len() == 0 ==> n == 0
    &&& places.len() > 0 ==> places[0].start == 0 && places.last().end == n
    &&& forall|k: int| 0 <= k < places.len() ==> (#[trigger] places[k]).start <= places[k].end <= n
    &&& forall|k: int| 0 <= k < places.len() - 1 ==> #[trigger] adjoins(places, k)
}

/// Whether place `k` ends where the next one starts.
pub open spec fn adjoins(places: Seq<AttrsSpan>, k: int) -> bool {
    places[k].end == places[k + 1].start
}

/// One more place behind places in a row makes a longer row.
proof fn lemma_row_grows(places: Seq<AttrsSpan>, n: int, place: AttrsSpan)
    requires
        in_a_row(places, n),
        place.start == n,
        place.start <= place.end,
    ensures
        in_a_row(places.push(place), place.end as int),
{
    let more = places.push(place);
    assert forall|k: int| 0 <= k < more.len() - 1 implies #[trigger] adjoins(more, k) by {
        if k < places.len() - 1 {
            assert(adjoins(places, k));
        }
    }
    assert forall|k: int| 0 <= k < more.len() implies (#[trigger] more[k]).start <= more[k].end
        <= place.end by {
        if k < places.len() {
            assert(more[k] == places[k]);
        }
    }
}

/// The first span that ends at or behind `x` starts in front of `x`, or is the
/// first one.
proof fn lemma_reaching(places: Seq<AttrsSpan>, n: int, x: int, k: int)
    requires
        in_a_row(places, n),
        x <= n,
        0 <= k < places.len(),
        k == 0 || places[k - 1].end < x,
    ensures
        k <= reaching(places, x, k) < places.len(),
        places[reaching(places, x, k)].end >= x,
        reaching(places, x, k) == 0 || places[reaching(places, x, k) - 1].end < x,
        reaching(places, x, k) == 0 || places[reaching(places, x, k)].start < x,
        reaching(places, x, 0) == reaching(places, x, k),
    decreases places.len() - k,
{
    if k > 0 {
        assert(adjoins(places, k - 1));
        lemma_reaching_skips(places, n, x, k);
    }
    if places[k].end < x {
        assert(k < places.len() - 1);
        lemma_reaching(places, n, x, k + 1);
    }
}

proof fn lemma_reaching_skips(places: Seq<AttrsSpan>, n: int, x: int, k: int)
    requires
        in_a_row(places, n),
        0 <= k <= places.len(),
        k == 0 || places[k - 1].end < x,
    ensures
        reaching(places, x, 0) == reaching(places, x, k),
    decreases k,
{
    if k > 0 {
        if k > 1 {
            assert(adjoins(places, k - 2));
        }
        lemma_reaching_skips(places, n, x, k - 1);
    }
}

/// The part of a paragraph in front of position `p`.
pub open spec fn part_before(b: Seq<u8>, start: int, end: int, p: int) -> Seq<u8> {
    b.subrange(start, if p < start {
        start
    } else if p < end {
        p
    } else {
        end
    })
}

/// Takes a span into the paragraph from `start` to `end` of `string`.
fn take_span(
    string: &str,
    start: usize,
    end: usize,
    span: AttrsSpan,
    line_string: &mut String,
    attrs_list: &mut AttrsList,
)
    requires
        start <= end <= encode_utf8(string@).len(),
        span.start <= span.end <= encode_utf8(string@).len(),
        at_boundary(encode_utf8(string@), start as int),
        at_boundary(encode_utf8(string@), end as int),
        at_boundary(encode_utf8(string@), span.start as int),
        at_boundary(encode_utf8(string@), span.end as int),
        span.start <= end || span.start == 0,
        start == end ==> span.start <= start,
        encode_utf8(old(line_string)@) == part_before(
            encode_utf8(string@),
            start as int,
            end as int,
            span.start as int,
        ),
    ensures
        encode_utf8(final(line_string)@) == part_before(
            encode_utf8(string@),
            start as int,
            end as int,
            span.end as int,
        ),
        final(attrs_list)@ == taken_in(old(attrs_list)@, span, start as int, end as int),
{
    let ghost b = encode_utf8(string@);
    let from = if span.start > start {
        span.start
    } else {
        start
    };
    let to = if span.end < end {
        span.end
    } else {
        end
    };
    if from < to {
        let text = slice_str(string, from, to);
        let text_start = byte_len(line_string.as_str());
        push_str(line_string, text);
        let text_end = byte_len(line_string.as_str());
        proof {
            assert(encode_utf8(line_string@) =~= part_before(
                b,
                start as int,
                end as int,
                span.end as int,
            ));
        }
        if span.attrs != attrs_list.defaults() {
            attrs_list.add_span(text_start, text_end, &span.attrs);
        }
    } else {
        if byte_len(line_string.as_str()) == 0 && span.attrs.metrics_opt.is_some() {
            // An empty line gets the height of the span that it is in.
            *attrs_list = AttrsList::new(&span.attrs);
        }
        proof {
            assert(part_before(b, start as int, end as int, span.start as int) =~= part_before(
                b,
                start as int,
                end as int,
                span.end as int,
            ));
        }
    }
}

/// Puts the spans one behind the other. Returns their text and their places.
fn join_spans(spans: &[(&str, Attrs)]) -> (r: (String, Vec<AttrsSpan>))
    ensures
        encode_utf8(r.0@) == span_text(spans@, spans@.len() as int),
        r.1@ == span_places(spans@),
        in_a_row(r.1@, encode_utf8(r.0@).len() as int),
        forall|k: int|
            0 <= k < r.1@.len() ==> at_boundary(encode_utf8(r.0@), (#[trigger] r.1@[k]).start as int)
                && at_boundary(encode_utf8(r.0@), r.1@[k].end as int),
{
    let mut string = String::new();
    let mut places: Vec<AttrsSpan> = Vec::new();
    let mut k: usize = 0;
    proof {
        assert(encode_utf8(string@) =~= span_text(spans@, 0));
        assert(places@ =~= span_places(spans@).take(0));
    }
    while k < spans.len()
        invariant
            k <= spans@.len(),
            encode_utf8(string@) == span_text(spans@, k as int),
            places@ == span_places(spans@).take(k as int),
            in_a_row(places@, encode_utf8(string@).len() as int),
            forall|j: int|
                0 <= j < places@.len() ==> at_boundary(
                    encode_utf8(string@),
                    (#[trigger] places@[j]).start as int,
                ) && at_boundary(encode_utf8(string@), places@[j].end as int),
        decreases spans@.len() - k,
    {
        let ghost b0 = encode_utf8(string@);
        let ghost p0 = places@;
        let start = byte_len(string.as_str());
        push_str(&mut string, spans[k].0);
        let end = byte_len(string.as_str());
        places.push(AttrsSpan { start, end, attrs: spans[k].1 });
        proof {
            let b1 = encode_utf8(string@);
            let p1 = places@;
            let d = encode_utf8(spans@[k as int].0@);
            encode_utf8_valid_utf8(spans@[k as int].0@);
            lemma_first_byte(d);
            assert(b1 == b0 + d);
            assert(span_text(spans@, k + 1) == b0 + d);
            assert(p1 =~= span_places(spans@).take(k + 1));
            assert forall|j: int| 0 <= j < p1.len() implies at_boundary(
                b1,
                (#[trigger] p1[j]).start as int,
            ) && at_boundary(b1, p1[j].end as int) by {
                if j < p0.len() {
                    assert(p1[j] == p0[j]);
                    lemma_boundary_kept(b0, d, p0[j].start as int);
                    lemma_boundary_kept(b0, d, p0[j].end as int);
                } else {
                    lemma_boundary_kept(b0, d, b0.len() as int);
                }
            }
            lemma_row_grows(p0, b0.len() as int, p1.last());
            assert(p1 =~= p0.push(p1.last()));
        }
        k = k + 1;
    }
    assert(span_places(spans@).take(k as int) =~= span_places(spans@));
    (string, places)
}

/// A boundary of a text is one of the text with more behind it.
proof fn lemma_boundary_kept(b: Seq<u8>, d: Seq<u8>, i: int)
    requires
        at_boundary(b, i),
        at_boundary(d, 0),
    ensures
        at_boundary(b + d, i),
{
    if i < b.len() {
        assert((b + d)[i] == b[i]);
    } else if d.len() > 0 {
        assert((b + d)[i] == d[0]);
    }
}

/// Puts the paragraph from `start` to `end` together from the spans from
/// `first` on. Returns its text, its attributes and the span in which it ends.
fn gather_paragraph(
    string: &str,
    places: &Vec<AttrsSpan>,
    start: usize,
    end: usize,
    first: usize,
    defaults: &Attrs,
) -> (r: (String, AttrsList, usize))
    requires
        in_a_row(places@, encode_utf8(string@).len() as int),
        forall|k: int|
            0 <= k < places@.len() ==> at_boundary(
                encode_utf8(string@),
                (#[trigger] places@[k]).start as int,
            ) && at_boundary(encode_utf8(string@), places@[k].end as int),
        start <= end <= encode_utf8(string@).len(),
        at_boundary(encode_utf8(string@), start as int),
        at_boundary(encode_utf8(string@), end as int),
        first < places@.len(),
        first == 0 || places@[first - 1].end < end,
        first == 0 || places@[first as int].start <= start,
    ensures
        encode_utf8(r.0@) == encode_utf8(string@).subrange(start as int, end as int),
        r.1@ == attrs_by(
            places@,
            *defaults,
            start as int,
            end as int,
            first as int,
            reaching(places@, end as int, 0) + 1,
        ),
        r.2 == reaching(places@, end as int, 0),
        r.2 < places@.len(),
{
    let ghost b = encode_utf8(string@);
    let ghost n = b.len() as int;
    let mut line_string = String::new();
    let mut attrs_list = AttrsList::new(defaults);
    let mut k: usize = first;
    proof {
        lemma_reaching(places@, n, end as int, first as int);
        assert(encode_utf8(line_string@) =~= part_before(
            b,
            start as int,
            end as int,
            places@[first as int].start as int,
        ));
    }
    loop
        invariant_except_break
            encode_utf8(line_string@) == part_before(
                b,
                start as int,
                end as int,
                places@[k as int].start as int,
            ),
            attrs_list@ == attrs_by(
                places@,
                *defaults,
                start as int,
                end as int,
                first as int,
                k as int,
            ),
        invariant
            b == encode_utf8(string@),
            n == b.len(),
            in_a_row(places@, n),
            forall|j: int|
                0 <= j < places@.len() ==> at_boundary(b, (#[trigger] places@[j]).start as int)
                    && at_boundary(b, places@[j].end as int),
            start <= end <= n,
            at_boundary(b, start as int),
            at_boundary(b, end as int),
            first <= k < places@.len(),
            k == 0 || places@[k - 1].end < end,
            k == first && k > 0 ==> places@[k as int].start <= start,
        ensures
            encode_utf8(line_string@) == b.subrange(start as int, end as int),
            attrs_list@ == attrs_by(
                places@,
                *defaults,
                start as int,
                end as int,
                first as int,
                k + 1,
            ),
            k == reaching(places@, end as int, 0),
            k < places@.len(),
        decreases places@.len() - k,
    {
        let span = places[k];
        proof {
            lemma_reaching(places@, n, end as int, k as int);
            if k > 0 {
                assert(adjoins(places@, k - 1));
            }
        }
        take_span(string, start, end, span, &mut line_string, &mut attrs_list);
        if span.end >= end {
            break;
        }
        assert(k < places@.len() - 1);
        assert(adjoins(places@, k as int));
        assert(places.len() == places@.len());
        k = k + 1;
    }
    (line_string, attrs_list, k)
}

/// Replaces lines by the paragraphs of `string`, of which there are some.
/// Returns how many there are.
fn put_paragraphs(
    lines: &mut Vec<BufferLine>,
    string: &str,
    places: &Vec<AttrsSpan>,
    parts: &Vec<(usize, usize)>,
    defaults: &Attrs,
    shaping: Shaping,
)
    requires
        in_a_row(places@, encode_utf8(string@).len() as int),
        forall|k: int|
            0 <= k < places@.len() ==> at_boundary(
                encode_utf8(string@),
                (#[trigger] places@[k]).start as int,
            ) && at_boundary(encode_utf8(string@), places@[k].end as int),
        parts@.len() == paragraphs(encode_utf8(string@), 0).len(),
        forall|k: int|
            0 <= k < parts@.len() ==> ((#[trigger] parts@[k]).0 as int, parts@[k].1 as int)
                == paragraphs(encode_utf8(string@), 0)[k],
    ensures
        parts@.len() <= final(lines)@.len(),
        forall|j: int|
            0 <= j < parts@.len() ==> (#[trigger] final(lines)@[j])@ == placed(
                lines_view(old(lines)@),
                j,
                encode_utf8(string@).subrange(
                    paragraphs(encode_utf8(string@), 0)[j].0,
                    paragraphs(encode_utf8(string@), 0)[j].1,
                ),
                LineEnding::Lf,
                paragraph_attrs(places@, paragraphs(encode_utf8(string@), 0), *defaults, j),
                shaping,
            ) && valid_utf8(final(lines)@[j]@.text),
{
    let ghost before = lines@;
    let ghost b = encode_utf8(string@);
    let ghost all = paragraphs(b, 0);
    proof {
        encode_utf8_valid_utf8(string@);
        lemma_first_byte(b);
        lemma_paragraphs(b, 0);
    }
    let mut i: usize = 0;
    let mut first: usize = 0;
    while i < parts.len()
        invariant
            b == encode_utf8(string@),
            valid_utf8(b),
            all == paragraphs(b, 0),
            in_a_row(places@, b.len() as int),
            forall|k: int|
                0 <= k < places@.len() ==> at_boundary(b, (#[trigger] places@[k]).start as int)
                    && at_boundary(b, places@[k].end as int),
            parts@.len() == all.len(),
            forall|k: int|
                0 <= k < parts@.len() ==> ((#[trigger] parts@[k]).0 as int, parts@[k].1 as int)
                    == all[k],
            forall|k: int|
                0 <= k < all.len() ==> 0 <= (#[trigger] all[k]).0 <= all[k].1 <= b.len()
                    && at_boundary(b, all[k].0) && at_boundary(b, all[k].1),
            forall|k: int, l: int|
                0 <= k < l < all.len() ==> (#[trigger] all[k]).1 < (#[trigger] all[l]).0,
            all.len() > 0 ==> b.len() > 0,
            i <= parts@.len(),
            first == first_span(places@, all, i as int),
            i <= lines@.len(),
            lines@.len() >= before.len(),
            lines@.len() > before.len() ==> lines@.len() == i,
            forall|j: int| i <= j < before.len() ==> #[trigger] lines@[j] == before[j],
            forall|j: int|
                0 <= j < i ==> (#[trigger] lines@[j])@ == placed(
                    lines_view(before),
                    j,
                    b.subrange(all[j].0, all[j].1),
                    LineEnding::Lf,
                    paragraph_attrs(places@, all, *defaults, j),
                    shaping,
                ) && valid_utf8(lines@[j]@.text),
        decreases parts@.len() - i,
    {
        let (start, end) = parts[i];
        proof {
            assert((parts@[i as int].0 as int, parts@[i as int].1 as int) == all[i as int]);
            assert(places@.len() > 0);
            if i > 0 {
                assert(all[i - 1].1 < all[i as int].0);
                lemma_reaching(places@, b.len() as int, all[i - 1].1, 0);
            }
        }
        let (text, attrs_list, last) = gather_paragraph(string, places, start, end, first, defaults);
        let ghost now = lines@;
        put_line(lines, i, text, LineEnding::Lf, attrs_list, shaping);
        proof {
            assert(lines.len() == lines@.len());
            lemma_subrange(b, start as int, end as int);
            if i < before.len() {
                assert(lines_view(now)[i as int] == lines_view(before)[i as int]);
            }
        }
        first = last;
        i = i + 1;
    }
}

/// Replaces lines by the paragraphs of the spans.
fn put_spans(
    lines: &mut Vec<BufferLine>,
    spans: &[(&str, Attrs)],
    default_attrs: &Attrs,
    shaping: Shaping,
)
    ensures
        lines_view(final(lines)@) == rich_lines(
            lines_view(old(lines)@),
            spans@,
            *default_attrs,
            shaping,
            None,
        ),
        forall|i: int|
            0 <= i < final(lines)@.len() ==> (#[trigger] final(lines)@[i])@.layout is None
                && final(lines)@[i]@.shape is None && valid_utf8(final(lines)@[i]@.text),
{
    let ghost before = lines@;
    let (string, places) = join_spans(spans);
    let parts = find_paragraphs(string.as_str());
    if parts.len() == 0 {
        let attrs_list = AttrsList::new(default_attrs);
        let empty = String::new();
        assert(encode_utf8(empty@) =~= seq![]);
        put_line(lines, 0, empty, LineEnding::Lf, attrs_list, shaping);
        lines.truncate(1);
    } else {
        put_paragraphs(lines, string.as_str(), &places, &parts, default_attrs, shaping);
        // What is left over of the old lines goes.
        lines.truncate(parts.len());
    }
    proof {
        let rich = rich_lines(lines_view(before), spans@, *default_attrs, shaping, None);
        assert(lines@.len() == rich.len());
        assert forall|i: int| 0 <= i < rich.len() implies lines_view(lines@)[i] == rich[i] by {
            assert(lines_view(lines@)[i] == lines@[i]@);
        }
        assert(lines_view(lines@) =~= rich);
    }
}

impl Buffer {
    /// Replaces the text by that of all spans together. Each paragraph becomes
    /// a line; its parts have the attributes of the spans that they come from.
    /// All lines have the given alignment. The view goes back to the start.
    pub fn set_rich_text(
        &mut self,
        spans: &[(&str, Attrs)],
        default_attrs: &Attrs,
        shaping: Shaping,
        alignment: Option<Align>,
    )
        requires
            old(self).store is Full,
        ensures
            final(self).wf(),
            old(self).retexted(
                rich_lines(
                    lines_view(old(self).store->Full_0@),
                    spans@,
                    *default_attrs,
                    shaping,
                    alignment,
                ),
                final(self),
            ),
    {
        let ghost before = self.store->Full_0@;
        let lines = self.store.full_mut();
        put_spans(lines, spans, default_attrs, shaping);
        let ghost set = lines@;
        align_lines(lines, alignment);
        proof {
            assert forall|i: int| 0 <= i < lines@.len() implies (#[trigger] lines@[i])@.fits() by {
                assert(set[i]@.shape is None);
            }
            let plain = rich_lines(lines_view(before), spans@, *default_attrs, shaping, None);
            let rich = rich_lines(lines_view(before), spans@, *default_attrs, shaping, alignment);
            assert(lines_view(set).len() == plain.len());
            assert forall|i: int| 0 <= i < rich.len() implies lines_view(lines@)[i] == rich[i] by {
                assert(lines_view(set)[i] == plain[i]);
                assert(lines@[i]@ == (LineView { align: alignment, ..set[i]@ }));
            }
            assert(lines_view(lines@) =~= rich);
        }
        self.scroll = Scroll::default();
        self.dirty.text_set = true;
        self.redraw = true;
    }
}

/// Places in a row lie one behind the other.
proof fn lemma_row_order(places: Seq<AttrsSpan>, n: int, i: int, j: int)
    requires
        in_a_row(places, n),
        0 <= i < j < places.len(),
    ensures
        places[i].end <= places[j].start,
    decreases j - i,
{
    assert(adjoins(places, i));
    if i + 1 < j {
        lemma_row_order(places, n, i + 1, j);
    }
}

/// No span of a list that is still being put together reaches beyond the last
/// place that was taken in.
proof fn lemma_attrs_end(
    places: Seq<AttrsSpan>,
    n: int,
    defaults: Attrs,
    start: int,
    end: int,
    first: int,
    k: int,
)
    requires
        in_a_row(places, n),
        n <= usize::MAX,
        0 <= start <= end <= n,
        0 <= first <= k <= places.len(),
    ensures
        forall|j: int|
            0 <= j < attrs_by(places, defaults, start, end, first, k).spans.len() ==> k > 0 && (
            #[trigger] attrs_by(places, defaults, start, end, first, k).spans[j]).end + start
                <= places[k - 1].end,
    decreases k - first,
{
    if k > first {
        lemma_attrs_end(places, n, defaults, start, end, first, k - 1);
        if k - 1 > 0 {
            assert(adjoins(places, k - 2));
        }
    }
}

/// A byte that is behind every span has the default attributes.
proof fn lemma_behind_spans(list: AttrsListView, i: int)
    requires
        forall|j: int| 0 <= j < list.spans.len() ==> (#[trigger] list.spans[j]).end <= i,
    ensures
        crate::attrs::attrs_at(list, i) == list.defaults,
    decreases list.spans.len(),
{
    if list.spans.len() > 0 {
        let less = AttrsListView { defaults: list.defaults, spans: list.spans.drop_last() };
        assert forall|j: int| 0 <= j < less.spans.len() implies (#[trigger] less.spans[j]).end <= i by {
            assert(less.spans[j] == list.spans[j]);
        }
        assert(list.spans.last().end <= i);
        lemma_behind_spans(less, i);
    }
}

proof fn lemma_attrs_by(
    places: Seq<AttrsSpan>,
    n: int,
    defaults: Attrs,
    start: int,
    end: int,
    first: int,
    k: int,
    q: int,
    p: int,
)
    requires
        in_a_row(places, n),
        n <= usize::MAX,
        0 <= start <= p < end <= n,
        0 <= first <= q < k <= places.len(),
        places[q].start <= p < places[q].end,
    ensures
        crate::attrs::attrs_at(attrs_by(places, defaults, start, end, first, k), p - start)
            == places[q].attrs,
    decreases k - first,
{
    let prev = attrs_by(places, defaults, start, end, first, k - 1);
    let list = attrs_by(places, defaults, start, end, first, k);
    if q == k - 1 {
        lemma_attrs_end(places, n, defaults, start, end, first, k - 1);
        if k - 1 > 0 {
            assert(adjoins(places, k - 2));
        }
        assert forall|j: int| 0 <= j < prev.spans.len() implies (#[trigger] prev.spans[j]).end <= p
            - start by {}
        lemma_behind_spans(prev, p - start);
    } else {
        lemma_attrs_by(places, n, defaults, start, end, first, k - 1, q, p);
        lemma_row_order(places, n, q, k - 1);
        if list != prev {
            assert(list.spans.drop_last() =~= prev.spans);
        }
    }
}

/// Every byte of a paragraph has the attributes of the span that it comes
/// from.
pub proof fn law_bytes_keep_their_attrs(
    spans: Seq<(&str, Attrs)>,
    defaults: Attrs,
    i: int,
    q: int,
    p: int,
)
    requires
        span_text(spans, spans.len() as int).len() <= usize::MAX,
        valid_utf8(span_text(spans, spans.len() as int)),
        0 <= i < paragraphs(span_text(spans, spans.len() as int), 0).len(),
        0 <= q < spans.len(),
        ({
            let part = paragraphs(span_text(spans, spans.len() as int), 0)[i];
            part.0 <= p < part.1
        }),
        span_text(spans, q).len() <= p < span_text(spans, q + 1).len(),
    ensures
        ({
            let parts = paragraphs(span_text(spans, spans.len() as int), 0);
            crate::attrs::attrs_at(
                paragraph_attrs(span_places(spans), parts, defaults, i),
                p - parts[i].0,
            ) == spans[q].1
        }),
{
    let b = span_text(spans, spans.len() as int);
    let n = b.len() as int;
    let places = span_places(spans);
    let parts = paragraphs(b, 0);
    lemma_first_byte(b);
    lemma_paragraphs(b, 0);
    lemma_places_in_a_row(spans);
    lemma_text_grows(spans, q, spans.len() as int);
    lemma_text_grows(spans, q + 1, spans.len() as int);
    let start = parts[i].0;
    let end = parts[i].1;
    lemma_reaching(places, n, end, 0);
    let last = reaching(places, end, 0);
    let first = first_span(places, parts, i);
    assert(places[q].start <= p < places[q].end);
    if q > last {
        lemma_row_order(places, n, last, q);
    }
    if i > 0 {
        assert(parts[i - 1].1 < parts[i].0);
        lemma_reaching(places, n, parts[i - 1].1, 0);
        if first > q {
            if first - 1 > q {
                lemma_row_order(places, n, q, first - 1);
            }
            assert(places[first - 1].end < parts[i - 1].1);
        }
    }
    lemma_attrs_by(places, n, defaults, start, end, first, last + 1, q, p);
}

/// More spans have more text.
proof fn lemma_text_grows(spans: Seq<(&str, Attrs)>, i: int, j: int)
    requires
        0 <= i <= j,
    ensures
        span_text(spans, i).len() <= span_text(spans, j).len(),
    decreases j - i,
{
    if i < j {
        lemma_text_grows(spans, i, j - 1);
    }
}

/// The places of spans follow one another without a gap.
proof fn lemma_places_in_a_row(spans: Seq<(&str, Attrs)>)
    requires
        span_text(spans, spans.len() as int).len() <= usize::MAX,
    ensures
        in_a_row(span_places(spans), span_text(spans, spans.len() as int).len() as int),
{
    let places = span_places(spans);
    let n = spans.len() as int;
    assert forall|k: int| 0 <= k < places.len() implies (#[trigger] places[k]).start <= places[k].end
        <= span_text(spans, n).len() by {
        lemma_text_grows(spans, k, k + 1);
        lemma_text_grows(spans, k + 1, n);
    }
    assert forall|k: int| 0 <= k < places.len() - 1 implies #[trigger] adjoins(places, k) by {}
}

} // verus!
