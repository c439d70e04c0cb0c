//! A line of text with its attributes and its shaping and layout results.

use vstd::prelude::*;
use vstd::utf8::*;

use crate::attrs::{attrs_at, only, AttrsList, AttrsListView};
use crate::ending::{ending_bytes, LineEnding};
use crate::layout::{
    duplicate_layout, layout_fits, layout_view, shape_fits, Align, Direction, Ellipsize, FontSystem,
    Hinting, LayoutLine, LayoutLineView, LayoutParams, ShapeLine, ShapeLineView, Shaping, Wrap,
};
use crate::pixel::Px;
use crate::shape_cap::{lemma_part_fits, lemma_shaped_part, shaped_part, shaped_str};
use crate::text::{at_boundary, lemma_boundary, own};

verus! {

/// The settings of a buffer that shaping and layout depend on.
#[derive(Clone, Copy, PartialEq, Eq, Structural, Debug)]
pub struct Settings {
    /// Font size.
    pub font_size: Px,
    /// Width of the buffer.
    pub width_opt: Option<Px>,
    /// How lines are broken.
    pub wrap: Wrap,
    /// Which part of a line is left out.
    pub ellipsize: Ellipsize,
    /// Width that monospace glyphs are resized to.
    pub monospace_width: Option<Px>,
    /// Spaces between tab stops.
    pub tab_width: u16,
    /// Whether glyphs are fitted to the pixel grid.
    pub hinting: Hinting,
    /// Base direction of paragraphs.
    pub direction: Direction,
}

impl Settings {
    /// The layout parameters of a line with the given alignment.
    pub open spec fn params(self, align: Option<Align>) -> LayoutParams {
        LayoutParams {
            font_size: self.font_size,
            width_opt: self.width_opt,
            wrap: self.wrap,
            ellipsize: self.ellipsize,
            align,
            monospace_width: self.monospace_width,
            hinting: self.hinting,
        }
    }

    /// The layout parameters of a line with the given alignment.
    pub fn layout_params(&self, align: Option<Align>) -> (r: LayoutParams)
        ensures
            r == self.params(align),
    {
        LayoutParams {
            font_size: self.font_size,
            width_opt: self.width_opt,
            wrap: self.wrap,
            ellipsize: self.ellipsize,
            align,
            monospace_width: self.monospace_width,
            hinting: self.hinting,
        }
    }
}

/// A result that is computed when it is first needed.
#[derive(Debug)]
pub struct Cached<T> {
    /// The result, if it is there.
    pub value: Option<T>,
    /// Whether a result was there and has been dropped since.
    pub dropped: bool,
}

impl<T> Cached<T> {
    /// No result yet.
    pub fn new() -> (r: Cached<T>)
        ensures
            r.value is None,
            !r.dropped,
    {
        Cached { value: None, dropped: false }
    }

    /// Drops the result.
    pub fn set_unused(&mut self)
        ensures
            final(self).value is None,
            final(self).dropped == (old(self).dropped || old(self).value is Some),
    {
        if self.value.is_some() {
            self.value = None;
            self.dropped = true;
        }
    }

    /// Keeps a result.
    pub fn set_used(&mut self, value: T)
        ensures
            final(self).value == Some(value),
            !final(self).dropped,
    {
        self.value = Some(value);
        self.dropped = false;
    }
}

/// What a [`BufferLine`] holds.
pub struct LineView {
    /// The text, without its terminator.
    pub text: Seq<u8>,
    /// The terminator.
    pub ending: LineEnding,
    /// The attributes.
    pub attrs: AttrsListView,
    /// The alignment, where it differs from the direction's.
    pub align: Option<Align>,
    /// How the line is shaped.
    pub shaping: Shaping,
    /// Whether the line is left out of the layout of the buffer.
    pub hidden: bool,
    /// A value of the caller's.
    pub metadata: Option<usize>,
    /// The shaping result, if it is there.
    pub shape: Option<ShapeLineView>,
    /// The layout result, if it is there.
    pub layout: Option<Seq<LayoutLineView>>,
    /// Whether a shaping result has been dropped.
    pub shape_dropped: bool,
    /// Whether a layout result has been dropped.
    pub layout_dropped: bool,
}

/// A line that has just been made.
pub open spec fn fresh_line(
    text: Seq<u8>,
    ending: LineEnding,
    attrs: AttrsListView,
    shaping: Shaping,
) -> LineView {
    LineView {
        text,
        ending,
        attrs,
        align: None,
        shaping,
        hidden: false,
        metadata: None,
        shape: None,
        layout: None,
        shape_dropped: false,
        layout_dropped: false,
    }
}

impl LineView {
    /// The line without its layout result.
    pub open spec fn without_layout(self) -> LineView {
        LineView {
            layout: None,
            layout_dropped: self.layout_dropped || self.layout is Some,
            ..self
        }
    }

    /// The line without its shaping and layout results.
    pub open spec fn without_shape(self) -> LineView {
        LineView {
            shape: None,
            shape_dropped: self.shape_dropped || self.shape is Some,
            ..self.without_layout()
        }
    }

    /// The line without its shaping and layout results and its metadata.
    pub open spec fn without_results(self) -> LineView {
        LineView { metadata: None, ..self.without_shape() }
    }

    /// The line replaced by another one; only that results have been dropped
    /// is remembered.
    pub open spec fn replaced(
        self,
        text: Seq<u8>,
        ending: LineEnding,
        attrs: AttrsListView,
        shaping: Shaping,
    ) -> LineView {
        let gone = self.without_shape();
        LineView {
            shape_dropped: gone.shape_dropped,
            layout_dropped: gone.layout_dropped,
            ..fresh_line(text, ending, attrs, shaping)
        }
    }

    /// The shaping result for the line as it stands. Of a very long line only
    /// the first part is shaped.
    pub open spec fn fresh_shape<F: FontSystem>(self, fonts: int, settings: Settings) -> ShapeLineView {
        F::shaped(
            fonts,
            shaped_part(self.text),
            self.attrs,
            self.shaping,
            settings.tab_width,
            settings.direction,
        )
    }

    /// The layout result for the line as it stands.
    pub open spec fn fresh_layout<F: FontSystem>(self, fonts: int, settings: Settings) -> Seq<
        LayoutLineView,
    > {
        F::laid_out(fonts, self.fresh_shape::<F>(fonts, settings), settings.params(self.align))
    }

    /// The line once it has been shaped.
    pub open spec fn with_shape<F: FontSystem>(self, fonts: int, settings: Settings) -> LineView {
        if self.shape is Some {
            self
        } else {
            LineView {
                shape: Some(self.fresh_shape::<F>(fonts, settings)),
                shape_dropped: false,
                ..self.without_layout()
            }
        }
    }

    /// The line once it has been shaped and laid out.
    pub open spec fn with_layout<F: FontSystem>(self, fonts: int, settings: Settings) -> LineView {
        if self.layout is Some {
            self
        } else {
            let shaped = self.with_shape::<F>(fonts, settings);
            LineView {
                layout: Some(F::laid_out(fonts, shaped.shape.unwrap(), settings.params(self.align))),
                layout_dropped: false,
                ..shaped
            }
        }
    }

    /// No result that is there reaches beyond the text, and there is no layout
    /// without a shape.
    pub open spec fn fits(self) -> bool {
        &&& valid_utf8(self.text)
        &&& self.shape matches Some(s) ==> shape_fits(self.text, s)
        &&& self.layout matches Some(l) ==> layout_fits(self.text, l) && self.shape is Some
    }

    /// The same line, whatever results are there.
    pub open spec fn same_line(self, other: LineView) -> bool {
        &&& self.text == other.text
        &&& self.ending == other.ending
        &&& self.attrs == other.attrs
        &&& self.align == other.align
        &&& self.shaping == other.shaping
        &&& self.hidden == other.hidden
        &&& self.metadata == other.metadata
    }

    /// Every result that is there is the one for the line as it stands.
    pub open spec fn current<F: FontSystem>(self, fonts: int, settings: Settings) -> bool {
        &&& self.shape matches Some(s) ==> s == self.fresh_shape::<F>(fonts, settings)
        &&& self.layout matches Some(l) ==> l == self.fresh_layout::<F>(fonts, settings)
    }
}

/// The shape of a line is within its text.
pub proof fn lemma_fresh_shape_fits<F: FontSystem>(line: LineView, fonts: int, settings: Settings)
    requires
        valid_utf8(line.text),
    ensures
        shape_fits(line.text, line.fresh_shape::<F>(fonts, settings)),
{
    lemma_shaped_part(line.text);
    F::law_shape_fits(
        fonts,
        shaped_part(line.text),
        line.attrs,
        line.shaping,
        settings.tab_width,
        settings.direction,
    );
    lemma_part_fits(line.text, line.fresh_shape::<F>(fonts, settings));
}

/// Shaping a line and laying it out keeps its results within its text and is
/// done at most once; what is there afterwards is what would be there if every
/// result had been dropped first, as long as no result was out of date.
pub proof fn lemma_line_results<F: FontSystem>(line: LineView, fonts: int, settings: Settings)
    requires
        line.fits(),
    ensures
        line.with_shape::<F>(fonts, settings).fits(),
        line.with_layout::<F>(fonts, settings).fits(),
        line.current::<F>(fonts, settings) ==> {
            &&& line.with_shape::<F>(fonts, settings).current::<F>(fonts, settings)
            &&& line.with_layout::<F>(fonts, settings).current::<F>(fonts, settings)
            &&& line.with_shape::<F>(fonts, settings).shape == Some(
                line.fresh_shape::<F>(fonts, settings),
            )
            &&& line.with_layout::<F>(fonts, settings).layout == Some(
                line.fresh_layout::<F>(fonts, settings),
            )
        },
{
    lemma_fresh_shape_fits::<F>(line, fonts, settings);
    let shaped = line.with_shape::<F>(fonts, settings);
    F::law_layout_fits(fonts, line.text, shaped.shape.unwrap(), settings.params(line.align));
}

/// A line of text.
#[derive(Debug)]
pub struct BufferLine {
    /// The text, without its terminator.
    pub text: String,
    /// The terminator.
    pub ending: LineEnding,
    /// The attributes.
    pub attrs_list: AttrsList,
    /// The alignment, where it differs from the direction's.
    pub align: Option<Align>,
    /// How the line is shaped.
    pub shaping: Shaping,
    /// Whether the line is left out of the layout of the buffer.
    pub hidden: bool,
    /// A value of the caller's.
    pub metadata: Option<usize>,
    /// The shaping result.
    pub shape_cache: Cached<ShapeLine>,
    /// The layout result.
    pub layout_cache: Cached<Vec<LayoutLine>>,
}

impl View for BufferLine {
    type V = LineView;

    open spec fn view(&self) -> LineView {
        LineView {
            text: encode_utf8(self.text@),
            ending: self.ending,
            attrs: self.attrs_list@,
            align: self.align,
            shaping: self.shaping,
            hidden: self.hidden,
            metadata: self.metadata,
            shape: match self.shape_cache.value {
                Some(s) => Some(s@),
                None => None,
            },
            layout: match self.layout_cache.value {
                Some(l) => Some(layout_view(l@)),
                None => None,
            },
            shape_dropped: self.shape_cache.dropped,
            layout_dropped: self.layout_cache.dropped,
        }
    }
}

/// What a sequence of lines holds.
pub open spec fn lines_view(lines: Seq<BufferLine>) -> Seq<LineView> {
    lines.map_values(|l: BufferLine| l@)
}

/// The texts of the lines, each followed by its terminator.
pub open spec fn joined(lines: Seq<LineView>) -> Seq<u8>
    decreases lines.len(),
{
    if lines.len() == 0 {
        Seq::empty()
    } else {
        joined(lines.drop_last()) + lines.last().text + ending_bytes(lines.last().ending)
    }
}

impl BufferLine {
    /// A line with the given text.
    pub fn new(
        text: String,
        ending: LineEnding,
        attrs_list: AttrsList,
        shaping: Shaping,
    ) -> (r: BufferLine)
        ensures
            r@ == fresh_line(encode_utf8(text@), ending, attrs_list@, shaping),
    {
        BufferLine {
            text,
            ending,
            attrs_list,
            align: None,
            shaping,
            hidden: false,
            metadata: None,
            shape_cache: Cached::new(),
            layout_cache: Cached::new(),
        }
    }

    /// Replaces the line by one with the given text. Everything that was set
    /// on the old line is gone.
    pub fn reset_new(
        &mut self,
        text: String,
        ending: LineEnding,
        attrs_list: AttrsList,
        shaping: Shaping,
    )
        ensures
            final(self)@ == old(self)@.replaced(
                encode_utf8(text@),
                ending,
                attrs_list@,
                shaping,
            ),
    {
        self.text = text;
        self.ending = ending;
        self.attrs_list = attrs_list;
        self.align = None;
        self.hidden = false;
        self.shaping = shaping;
        self.metadata = None;
        self.shape_cache.set_unused();
        self.layout_cache.set_unused();
    }

    /// The text.
    pub fn text(&self) -> (r: &str)
        ensures
            encode_utf8(r@) == self@.text,
            r@ == self.text@,
    {
        self.text.as_str()
    }

    /// The terminator.
    pub fn ending(&self) -> (r: LineEnding)
        ensures
            r == self@.ending,
    {
        self.ending
    }

    /// The attributes.
    pub fn attrs_list(&self) -> (r: &AttrsList)
        ensures
            r@ == self@.attrs,
    {
        &self.attrs_list
    }

    /// The alignment, where it is set.
    pub fn align(&self) -> (r: Option<Align>)
        ensures
            r == self@.align,
    {
        self.align
    }

    /// How the line is shaped.
    pub fn shaping(&self) -> (r: Shaping)
        ensures
            r == self@.shaping,
    {
        self.shaping
    }

    /// Whether the line is left out of the layout.
    pub fn hidden(&self) -> (r: bool)
        ensures
            r == self@.hidden,
    {
        self.hidden
    }

    /// The caller's value, where it is set.
    pub fn metadata(&self) -> (r: Option<usize>)
        ensures
            r == self@.metadata,
    {
        self.metadata
    }

    /// Sets the caller's value.
    pub fn set_metadata(&mut self, metadata: usize)
        ensures
            final(self)@ == (LineView { metadata: Some(metadata), ..old(self)@ }),
    {
        self.metadata = Some(metadata);
    }

    /// Hides or shows the line. Returns whether that is a change; the shaping
    /// and layout results are kept.
    pub fn set_hidden(&mut self, hidden: bool) -> (changed: bool)
        ensures
            final(self)@ == (LineView { hidden, ..old(self)@ }),
            changed == (old(self)@.hidden != hidden),
    {
        let changed = self.hidden != hidden;
        self.hidden = hidden;
        changed
    }

    /// Sets the alignment. Returns whether that is a change; if so the layout
    /// result is dropped.
    pub fn set_align(&mut self, align: Option<Align>) -> (changed: bool)
        ensures
            changed == (old(self)@.align != align),
            final(self)@ == if changed {
                LineView { align, ..old(self)@.without_layout() }
            } else {
                old(self)@
            },
    {
        if self.align != align {
            self.align = align;
            self.reset_layout();
            true
        } else {
            false
        }
    }

    /// Sets the text, the terminator and the attributes. Returns whether that
    /// is a change; if so the results are dropped. The alignment and whether
    /// the line is hidden stay.
    pub fn set_text(&mut self, text: String, ending: LineEnding, attrs_list: AttrsList) -> (changed: bool)
        ensures
            changed == (old(self)@.text != encode_utf8(text@) || old(self)@.ending != ending || old(
                self)@.attrs != attrs_list@),
            final(self)@ == if changed {
                LineView {
                    text: encode_utf8(text@),
                    ending,
                    attrs: attrs_list@,
                    ..old(self)@.without_results()
                }
            } else {
                old(self)@
            },
    {
        proof {
            if encode_utf8(self.text@) == encode_utf8(text@) {
                crate::text::lemma_encode_injective(self.text@, text@);
            }
        }
        if self.text == text && self.ending == ending && self.attrs_list.equals(&attrs_list) {
            false
        } else {
            self.text = text;
            self.ending = ending;
            self.attrs_list = attrs_list;
            self.reset();
            true
        }
    }

    /// Cuts the line at byte `at`. The part behind it, with the terminator, is
    /// returned; both parts keep the alignment and whether they are hidden.
    pub fn split_off(&mut self, at: usize) -> (tail: BufferLine)
        requires
            at_boundary(old(self)@.text, at as int),
        ensures
            final(self)@.text == old(self)@.text.take(at as int),
            final(self)@ == (LineView {
                text: old(self)@.text.take(at as int),
                ending: LineEnding::NoEnding,
                ..old(self)@.without_results()
            }),
            tail@ == (LineView {
                align: old(self)@.align,
                hidden: old(self)@.hidden,
                ..fresh_line(
                    old(self)@.text.skip(at as int),
                    old(self)@.ending,
                    tail@.attrs,
                    old(self)@.shaping,
                )
            }),
            tail@.attrs.defaults == old(self)@.attrs.defaults,
            forall|i: int|
                0 <= i ==> #[trigger] attrs_at(tail@.attrs, i) == attrs_at(
                    old(self)@.attrs,
                    at + i,
                ),
    {
        let ghost b = self@.text;
        proof {
            encode_utf8_valid_utf8(self.text@);
            lemma_boundary(b, at as int);
        }
        let (head, rest) = self.text.as_str().split_at(at);
        assert(encode_utf8(head@) =~= b.take(at as int));
        assert(encode_utf8(rest@) =~= b.skip(at as int));
        let head = own(head);
        let rest = own(rest);
        let attrs = self.attrs_list.split_off(at);
        self.text = head;
        self.reset();
        let mut tail = BufferLine::new(rest, self.ending, attrs, self.shaping);
        self.ending = LineEnding::NoEnding;
        tail.align = self.align;
        tail.hidden = self.hidden;
        tail
    }

    /// The same line over again, with its results.
    pub fn duplicate(&self) -> (r: BufferLine)
        ensures
            r@ == self@,
    {
        let text = own(self.text.as_str());
        let attrs_list = self.attrs_list.duplicate();
        let shape = match &self.shape_cache.value {
            Some(shape) => Some(shape.duplicate()),
            None => None,
        };
        let layout = match &self.layout_cache.value {
            Some(layout) => Some(duplicate_layout(layout)),
            None => None,
        };
        BufferLine {
            text,
            ending: self.ending,
            attrs_list,
            align: self.align,
            shaping: self.shaping,
            hidden: self.hidden,
            metadata: self.metadata,
            shape_cache: Cached { value: shape, dropped: self.shape_cache.dropped },
            layout_cache: Cached { value: layout, dropped: self.layout_cache.dropped },
        }
    }

    /// Drops the shaping and layout results and the metadata.
    pub fn reset(&mut self)
        ensures
            final(self)@ == old(self)@.without_results(),
    {
        self.metadata = None;
        self.reset_shaping();
    }

    /// Drops the shaping and layout results.
    pub fn reset_shaping(&mut self)
        ensures
            final(self)@ == old(self)@.without_shape(),
    {
        self.shape_cache.set_unused();
        self.reset_layout();
    }

    /// Drops the layout result.
    pub fn reset_layout(&mut self)
        ensures
            final(self)@ == old(self)@.without_layout(),
    {
        self.layout_cache.set_unused();
    }

    /// Whether a result has been dropped and not been computed again.
    pub fn needs_reshaping(&self) -> (r: bool)
        ensures
            r == (self@.shape_dropped || self@.layout_dropped),
    {
        self.shape_cache.dropped || self.layout_cache.dropped
    }

    /// The shaping result, if it is there.
    pub fn shape_opt(&self) -> (r: Option<&ShapeLine>)
        ensures
            match r {
                Some(s) => self@.shape == Some(s@),
                None => self@.shape is None,
            },
    {
        self.shape_cache.value.as_ref()
    }

    /// The layout result, if it is there.
    pub fn layout_opt(&self) -> (r: Option<&Vec<LayoutLine>>)
        ensures
            match r {
                Some(l) => self@.layout == Some(layout_view(l@)),
                None => self@.layout is None,
            },
    {
        self.layout_cache.value.as_ref()
    }

    /// Shapes the line, unless it has been.
    pub fn ensure_shape<F: FontSystem>(&mut self, font_system: &mut F, settings: &Settings)
        ensures
            final(font_system).fonts() == old(font_system).fonts(),
            final(self)@ == old(self)@.with_shape::<F>(old(font_system).fonts(), *settings),
            final(self).text@ == old(self).text@,
    {
        if self.shape_cache.value.is_none() {
            let shape = font_system.shape(
                shaped_str(self.text.as_str()),
                &self.attrs_list,
                self.shaping,
                settings.tab_width,
                settings.direction,
            );
            self.shape_cache.set_used(shape);
            self.layout_cache.set_unused();
        }
    }

    /// Shapes the line, unless it has been, and returns the result.
    pub fn shape<F: FontSystem>(&mut self, font_system: &mut F, settings: &Settings) -> (r: &ShapeLine)
        ensures
            final(font_system).fonts() == old(font_system).fonts(),
            final(self)@ == old(self)@.with_shape::<F>(old(font_system).fonts(), *settings),
            final(self)@.shape == Some(r@),
    {
        self.ensure_shape(font_system, settings);
        self.shape_cache.value.as_ref().unwrap()
    }

    /// Lays the line out, unless it has been.
    pub fn ensure_layout<F: FontSystem>(&mut self, font_system: &mut F, settings: &Settings)
        ensures
            final(font_system).fonts() == old(font_system).fonts(),
            final(self)@ == old(self)@.with_layout::<F>(old(font_system).fonts(), *settings),
            final(self).text@ == old(self).text@,
    {
        if self.layout_cache.value.is_none() {
            self.ensure_shape(font_system, settings);
            let params = settings.layout_params(self.align);
            let layout = font_system.layout(self.shape_cache.value.as_ref().unwrap(), params);
            self.layout_cache.set_used(layout);
        }
    }

    /// Lays the line out, unless it has been, and returns the result.
    pub fn layout<F: FontSystem>(&mut self, font_system: &mut F, settings: &Settings) -> (r: &Vec<LayoutLine>)
        ensures
            final(font_system).fonts() == old(font_system).fonts(),
            final(self)@ == old(self)@.with_layout::<F>(old(font_system).fonts(), *settings),
            final(self)@.layout == Some(layout_view(r@)),
    {
        self.ensure_layout(font_system, settings);
        self.layout_cache.value.as_ref().unwrap()
    }
}

} // verus!
