//! Replacing the text of a buffer.

use vstd::prelude::*;
use vstd::utf8::*;

use crate::attrs::{only, Attrs, AttrsList, AttrsListView};
use crate::buffer::{opened, Buffer, LineStore};
use crate::cursor::Scroll;
use crate::dirty::DirtyFlags;
use crate::ending::LineEnding;
use crate::layout::{Align, FontSystem, Shaping};
use crate::line::{fresh_line, joined, lines_view, BufferLine, LineView};
use crate::line_iter::{cuts, law_cuts_make_up_the_text, pasted, Cut, LineIter};
use crate::pixel::{zero, Metrics};
use crate::resolve::resolved;
use crate::text::own;

verus! {

/// The line at index `i` once a new one has been put there. That results of
/// the line that was there have been dropped is remembered.
pub open spec fn placed(
    old_lines: Seq<LineView>,
    i: int,
    text: Seq<u8>,
    ending: LineEnding,
    attrs: AttrsListView,
    shaping: Shaping,
) -> LineView {
    if i < old_lines.len() {
        old_lines[i].replaced(text, ending, attrs, shaping)
    } else {
        fresh_line(text, ending, attrs, shaping)
    }
}

/// The lines of a buffer whose text has been replaced.
pub open spec fn text_lines(
    old_lines: Seq<LineView>,
    lines: Seq<Cut>,
    attrs: Attrs,
    shaping: Shaping,
    align: Option<Align>,
) -> Seq<LineView> {
    Seq::new(
        lines.len(),
        |i: int|
            LineView {
                align,
                ..placed(old_lines, i, lines[i].text, lines[i].ending, only(attrs), shaping)
            },
    )
}

/// Puts a line at index `i`, in the place of one that is there or behind the
/// others.
pub(crate) fn put_line(
    lines: &mut Vec<BufferLine>,
    i: usize,
    text: String,
    ending: LineEnding,
    attrs_list: AttrsList,
    shaping: Shaping,
)
    requires
        i <= old(lines)@.len(),
    ensures
        final(lines)@.len() == if i < old(lines)@.len() {
            old(lines)@.len()
        } else {
            old(lines)@.len() + 1
        },
        final(lines)@[i as int]@ == placed(
            lines_view(old(lines)@),
            i as int,
            encode_utf8(text@),
            ending,
            attrs_list@,
            shaping,
        ),
        forall|j: int| 0 <= j < old(lines)@.len() && j != i ==> #[trigger] final(lines)@[j] == old(lines)@[j],
{
    let ghost before = lines@;
    if i < lines.len() {
        assert(lines_view(before)[i as int] == before[i as int]@);
        lines[i].reset_new(text, ending, attrs_list, shaping);
    } else {
        lines.push(BufferLine::new(text, ending, attrs_list, shaping));
    }
}

/// Gives all lines an alignment.
pub(crate) fn align_lines(lines: &mut Vec<BufferLine>, align: Option<Align>)
    requires
        forall|i: int|
            0 <= i < old(lines)@.len() ==> (#[trigger] old(lines)@[i])@.layout is None,
    ensures
        final(lines)@.len() == old(lines)@.len(),
        forall|i: int|
            0 <= i < old(lines)@.len() ==> (#[trigger] final(lines)@[i])@ == (LineView {
                align,
                ..old(lines)@[i]@
            }),
{
    let ghost before = lines@;
    let n = lines.len();
    let mut i: usize = 0;
    while i < n
        invariant
            n == before.len(),
            lines@.len() == n,
            i <= n,
            forall|j: int| 0 <= j < n ==> (#[trigger] before[j])@.layout is None,
            forall|j: int|
                0 <= j < i ==> (#[trigger] lines@[j])@ == (LineView { align, ..before[j]@ }),
            forall|j: int| i <= j < n ==> #[trigger] lines@[j] == before[j],
        decreases n - i,
    {
        let _changed = lines[i].set_align(align);
        i = i + 1;
    }
}

/// Replaces lines by those of a text. Returns how many there are.
fn put_text(lines: &mut Vec<BufferLine>, text: &str, attrs: &Attrs, shaping: Shaping) -> (n: usize)
    ensures
        n == cuts(encode_utf8(text@), 0).len(),
        n <= final(lines)@.len(),
        forall|j: int|
            0 <= j < n ==> (#[trigger] final(lines)@[j])@ == placed(
                lines_view(old(lines)@),
                j,
                cuts(encode_utf8(text@), 0)[j].text,
                cuts(encode_utf8(text@), 0)[j].ending,
                only(*attrs),
                shaping,
            ) && valid_utf8(final(lines)@[j]@.text),
{
    let ghost before = lines@;
    let ghost b = encode_utf8(text@);
    let ghost all = cuts(b, 0);
    let mut line_count: usize = 0;
    let mut iter = LineIter::new(text);
    assert(iter.rest() =~= all.skip(0));
    loop
        invariant
            b == encode_utf8(text@),
            all == cuts(b, 0),
            iter.wf(),
            line_count <= lines@.len(),
            line_count <= all.len(),
            iter.rest() == all.skip(line_count as int),
            lines@.len() >= before.len(),
            lines@.len() > before.len() ==> lines@.len() == line_count,
            forall|j: int| line_count <= j < before.len() ==> #[trigger] lines@[j] == before[j],
            forall|j: int|
                0 <= j < line_count ==> (#[trigger] lines@[j])@ == placed(
                    lines_view(before),
                    j,
                    all[j].text,
                    all[j].ending,
                    only(*attrs),
                    shaping,
                ) && valid_utf8(lines@[j]@.text),
        ensures
            line_count == all.len(),
        decreases all.len() - line_count,
    {
        match iter.next_line() {
            Some((line_text, ending)) => {
                let ghost now = lines@;
                let attrs_list = AttrsList::new(attrs);
                put_line(lines, line_count, own(line_text), ending, attrs_list, shaping);
                proof {
                    assert(lines.len() == lines@.len());
                    assert(all.skip(line_count as int)[0] == all[line_count as int]);
                    assert(all.skip(line_count as int).skip(1) =~= all.skip(line_count + 1));
                    if line_count < before.len() {
                        assert(now[line_count as int] == before[line_count as int]);
                        assert(lines_view(now)[line_count as int] == lines_view(
                            before,
                        )[line_count as int]);
                    }
                }
                line_count = line_count + 1;
            },
            None => {
                break;
            },
        }
    }
    line_count
}

/// Whether a buffer is one with a single empty line that has been brought up
/// to date.
pub open spec fn blank<F: FontSystem>(metrics: Metrics, buffer: &Buffer, fonts: int) -> bool {
    exists|empty: Buffer, set: Buffer|
        {
            &&& empty == opened(metrics, empty.store)
            &&& empty.store is Full
            &&& #[trigger] empty.retexted(
                text_lines(
                    seq![],
                    cuts(seq![], 0),
                    Attrs::plain(),
                    Shaping::Advanced,
                    None,
                ),
                &set,
            )
            &&& #[trigger] set.brings_up_to_date::<F>(buffer, fonts, false)
        }
}

impl Buffer {
    /// Whether replacing the lines of `self` by `lines` gives `after`.
    pub open spec fn retexted(&self, lines: Seq<LineView>, after: &Buffer) -> bool {
        &&& after.same_frame(
            &(Buffer {
                scroll: Scroll::start(),
                dirty: DirtyFlags { text_set: true, ..self.dirty },
                redraw: true,
                ..*self
            }),
        )
        &&& after.store is Full
        &&& lines_view(after.store->Full_0@) == lines
    }

    /// A buffer with one empty line, brought up to date.
    pub fn new<F: FontSystem>(font_system: &mut F, metrics: Metrics) -> (r: Buffer)
        requires
            !metrics.line_height.same(zero()),
        ensures
            final(font_system).fonts() == old(font_system).fonts(),
            r.wf(),
            blank::<F>(metrics, &r, old(font_system).fonts()),
            r.count() == 1,
            r.store.line_at(0).text == Seq::<u8>::empty(),
    {
        let mut buffer = Self::new_empty(metrics);
        let ghost empty = buffer;
        buffer.set_text("", &Attrs::new(), Shaping::Advanced, None);
        let ghost set = buffer;
        buffer.shape_until_scroll(font_system, false);
        proof {
            reveal_strlit("");
            assert(encode_utf8(""@) =~= Seq::<u8>::empty());
            assert(lines_view(empty.store->Full_0@) =~= Seq::<LineView>::empty());
            assert(set.brings_up_to_date::<F>(&buffer, font_system.fonts(), false));
            let lines = text_lines(
                seq![],
                cuts(seq![], 0),
                Attrs::plain(),
                Shaping::Advanced,
                None,
            );
            assert(cuts(seq![], 0).len() == 1);
            assert(empty.retexted(lines, &set));
            assert(lines_view(set.store->Full_0@).len() == 1);
            assert(lines_view(set.store->Full_0@)[0] == lines[0]);
            assert(lines[0].text =~= Seq::<u8>::empty());
            assert(set.store.same_lines(&buffer.store));
            assert(set.store->Full_0@[0]@.same_line(buffer.store->Full_0@[0]@));
        }
        buffer
    }

    /// Replaces the text. Every line has the given attributes and, where one is
    /// given, the alignment. The view goes back to the start.
    pub fn set_text(&mut self, text: &str, attrs: &Attrs, shaping: Shaping, alignment: Option<Align>)
        requires
            old(self).store is Full,
        ensures
            final(self).wf(),
            old(self).retexted(
                text_lines(
                    lines_view(old(self).store->Full_0@),
                    cuts(encode_utf8(text@), 0),
                    *attrs,
                    shaping,
                    alignment,
                ),
                final(self),
            ),
    {
        let ghost before = self.store->Full_0@;
        let ghost all = cuts(encode_utf8(text@), 0);
        let lines = self.store.full_mut();
        let line_count = put_text(lines, text, attrs, shaping);
        // What is left over of the old lines goes.
        lines.truncate(line_count);
        proof {
            assert forall|i: int| 0 <= i < lines@.len() implies (#[trigger] lines@[i])@.layout is None by {}
        }
        let ghost set = lines@;
        if alignment.is_some() {
            align_lines(lines, alignment);
        }
        proof {
            assert forall|i: int| 0 <= i < lines@.len() implies (#[trigger] lines@[i])@.fits() by {
                assert(set[i]@.shape is None);
            }
            assert(lines_view(lines@) =~= text_lines(
                lines_view(before),
                all,
                *attrs,
                shaping,
                alignment,
            ));
        }
        self.scroll = Scroll::default();
        self.dirty.text_set = true;
        self.redraw = true;
    }
}

/// The lines of a text that has been set, each with its terminator, are the
/// text.
pub proof fn law_set_lines_make_up_the_text(
    old_lines: Seq<LineView>,
    b: Seq<u8>,
    attrs: Attrs,
    shaping: Shaping,
    align: Option<Align>,
)
    ensures
        joined(text_lines(old_lines, cuts(b, 0), attrs, shaping, align)) == b,
{
    let lines = text_lines(old_lines, cuts(b, 0), attrs, shaping, align);
    law_cuts_make_up_the_text(b, 0);
    lemma_joined_is_pasted(lines, cuts(b, 0));
    assert(b.skip(0) =~= b);
}

proof fn lemma_joined_is_pasted(lines: Seq<LineView>, pieces: Seq<Cut>)
    requires
        lines.len() == pieces.len(),
        forall|i: int|
            0 <= i < lines.len() ==> (#[trigger] lines[i]).text == pieces[i].text && lines[i].ending
                == pieces[i].ending,
    ensures
        joined(lines) == pasted(pieces),
    decreases lines.len(),
{
    if lines.len() > 0 {
        let n = lines.len() - 1;
        lemma_joined_is_pasted(lines.drop_last(), pieces.drop_last());
        assert(lines[n].text == pieces[n].text);
        lemma_pasted_last(pieces);
    } else {
        assert(joined(lines) =~= pasted(pieces));
    }
}

proof fn lemma_pasted_last(pieces: Seq<Cut>)
    requires
        pieces.len() > 0,
    ensures
        pasted(pieces) == pasted(pieces.drop_last()) + pieces.last().text + crate::ending::ending_bytes(
            pieces.last().ending,
        ),
    decreases pieces.len(),
{
    if pieces.len() == 1 {
        assert(pasted(pieces.skip(1)) =~= seq![]);
        assert(pasted(pieces.drop_last()) =~= seq![]);
        assert(pasted(pieces) =~= pasted(pieces.drop_last()) + pieces.last().text
            + crate::ending::ending_bytes(pieces.last().ending));
    } else {
        lemma_pasted_last(pieces.skip(1));
        assert(pieces.skip(1).drop_last() =~= pieces.drop_last().skip(1));
        assert(pieces.skip(1).last() == pieces.last());
        assert(pieces.drop_last()[0] == pieces[0]);
        assert(pasted(pieces) =~= pasted(pieces.drop_last()) + pieces.last().text
            + crate::ending::ending_bytes(pieces.last().ending));
    }
}

/// A buffer whose text has just been replaced has no result that is out of
/// date: its lines are not shaped, and none is hidden.
pub proof fn law_set_text_is_tracked<F: FontSystem>(
    before: &Buffer,
    after: &Buffer,
    pieces: Seq<Cut>,
    attrs: Attrs,
    shaping: Shaping,
    align: Option<Align>,
    fonts: int,
)
    requires
        before.store is Full,
        before.retexted(
            text_lines(lines_view(before.store->Full_0@), pieces, attrs, shaping, align),
            after,
        ),
    ensures
        after.tracks::<F>(fonts),
        forall|i: int| 0 <= i < after.count() ==> !(#[trigger] after.store.line_at(i)).hidden,
{
    let lines = after.store->Full_0;
    let set = text_lines(lines_view(before.store->Full_0@), pieces, attrs, shaping, align);
    assert(after.store == LineStore::Full(lines));
    assert forall|i: int| 0 <= i < lines@.len() implies resolved(
        (#[trigger] lines@[i])@,
        after.dirty,
    ).current::<F>(fonts, after.settings()) && lines@[i]@.shape is None && !lines@[i]@.hidden by {
        assert(lines_view(lines@).len() == set.len());
        assert(lines_view(lines@)[i] == lines@[i]@);
        assert(set[i] == lines@[i]@);
        assert(resolved(lines@[i]@, after.dirty) == lines@[i]@);
    }
    assert forall|i: int| 0 <= i < after.count() implies !(#[trigger] after.store.line_at(i)).hidden by {
        assert(!lines@[i]@.hidden);
    }
}

} // verus!
