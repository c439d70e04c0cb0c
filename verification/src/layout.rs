//! Shaped and laid-out lines, and the engine that makes them.

use vstd::prelude::*;
use vstd::utf8::*;

use crate::attrs::{AttrsList, AttrsListView, Color};
use crate::pixel::{PixelMath, Px};
use crate::text::{at_boundary, has_tab};

verus! {

/// How lines are broken to fit the width of the buffer.
#[derive(Clone, Copy, PartialEq, Eq, Structural, Debug)]
pub enum Wrap {
    /// Lines are not broken.
    Unwrapped,
    /// Lines break between glyphs.
    Glyph,
    /// Lines break between words.
    Word,
    /// Lines break between words, and inside a word that does not fit.
    WordOrGlyph,
}

/// Which part of a line that does not fit is left out.
#[derive(Clone, Copy, PartialEq, Eq, Structural, Debug)]
pub enum Ellipsize {
    /// No part.
    Never,
    /// The start.
    Start,
    /// The middle.
    Middle,
    /// The end.
    End,
}

/// Whether glyphs are fitted to the pixel grid.
#[derive(Clone, Copy, PartialEq, Eq, Structural, Debug)]
pub enum Hinting {
    /// Glyphs keep their outlines.
    Disabled,
    /// Glyphs are fitted.
    Enabled,
}

/// Base direction of paragraphs.
#[derive(Clone, Copy, PartialEq, Eq, Structural, Debug)]
pub enum Direction {
    /// Detected for each paragraph.
    Auto,
    /// Left to right.
    LeftToRight,
    /// Right to left.
    RightToLeft,
}

/// Horizontal alignment of a line.
#[derive(Clone, Copy, PartialEq, Eq, Structural, Debug)]
pub enum Align {
    /// At the left edge.
    Left,
    /// At the right edge.
    Right,
    /// In the middle.
    Center,
    /// At both edges.
    Justified,
    /// At the edge where the paragraph ends.
    End,
}

/// How much work is put into shaping.
#[derive(Clone, Copy, PartialEq, Eq, Structural, Debug)]
pub enum Shaping {
    /// One glyph per character, without font fallback.
    Basic,
    /// Ligatures, combining characters and font fallback.
    Advanced,
}

/// A shaped cluster of bytes.
#[derive(Clone, Copy, PartialEq, Eq, Structural, Debug)]
pub struct ShapeGlyph {
    /// First byte.
    pub start: usize,
    /// One past the last byte.
    pub end: usize,
    /// Whether the cluster runs right to left.
    pub rtl: bool,
    /// Width in units of the font size.
    pub advance: Px,
    /// Colour, where it differs from the buffer's.
    pub color_opt: Option<Color>,
}

/// What a [`ShapeLine`] holds.
pub struct ShapeLineView {
    /// Whether the paragraph runs right to left.
    pub rtl: bool,
    /// The clusters.
    pub glyphs: Seq<ShapeGlyph>,
}

/// A shaped line.
#[derive(Debug)]
pub struct ShapeLine {
    /// Whether the paragraph runs right to left.
    pub rtl: bool,
    /// The clusters.
    pub glyphs: Vec<ShapeGlyph>,
}

impl View for ShapeLine {
    type V = ShapeLineView;

    open spec fn view(&self) -> ShapeLineView {
        ShapeLineView { rtl: self.rtl, glyphs: self.glyphs@ }
    }
}

impl ShapeLine {
    /// A line without clusters.
    pub fn empty() -> (r: ShapeLine)
        ensures
            r@ == (ShapeLineView { rtl: false, glyphs: seq![] }),
    {
        ShapeLine { rtl: false, glyphs: Vec::new() }
    }

    /// The same line over again.
    pub fn duplicate(&self) -> (r: ShapeLine)
        ensures
            r@ == self@,
    {
        let glyphs = copy_all(self.glyphs.as_slice());
        ShapeLine { rtl: self.rtl, glyphs }
    }
}

/// The same values over again.
pub(crate) fn copy_all<T: Copy>(values: &[T]) -> (r: Vec<T>)
    ensures
        r@ == values@,
{
    let mut r: Vec<T> = Vec::new();
    let mut i: usize = 0;
    while i < values.len()
        invariant
            i <= values@.len(),
            r@ == values@.take(i as int),
        decreases values@.len() - i,
    {
        r.push(values[i]);
        i = i + 1;
        assert(r@ =~= values@.take(i as int));
    }
    assert(r@ =~= values@);
    r
}

/// A glyph at its place in a laid-out line.
#[derive(Clone, Copy, PartialEq, Eq, Structural, Debug)]
pub struct LayoutGlyph {
    /// First byte.
    pub start: usize,
    /// One past the last byte.
    pub end: usize,
    /// Whether the glyph runs right to left.
    pub rtl: bool,
    /// Left edge.
    pub x: Px,
    /// Width.
    pub w: Px,
    /// Colour, where it differs from the buffer's.
    pub color_opt: Option<Color>,
}

/// A range of glyphs that is underlined or struck through.
#[derive(Clone, Copy, PartialEq, Eq, Structural, Debug)]
pub struct DecorationSpan {
    /// First glyph.
    pub glyph_start: usize,
    /// One past the last glyph.
    pub glyph_end: usize,
    /// Colour, where it differs from the glyphs'.
    pub color_opt: Option<Color>,
}

/// What a [`LayoutLine`] holds.
pub struct LayoutLineView {
    /// Width.
    pub w: Px,
    /// Largest distance of a glyph's top from the baseline.
    pub max_ascent: Px,
    /// Largest distance of a glyph's bottom from the baseline.
    pub max_descent: Px,
    /// Height, where it differs from the buffer's line height.
    pub line_height_opt: Option<Px>,
    /// The glyphs, from left to right.
    pub glyphs: Seq<LayoutGlyph>,
    /// The decorations.
    pub decorations: Seq<DecorationSpan>,
}

/// One visual line of a laid-out line of text.
#[derive(Debug)]
pub struct LayoutLine {
    /// Width.
    pub w: Px,
    /// Largest distance of a glyph's top from the baseline.
    pub max_ascent: Px,
    /// Largest distance of a glyph's bottom from the baseline.
    pub max_descent: Px,
    /// Height, where it differs from the buffer's line height.
    pub line_height_opt: Option<Px>,
    /// The glyphs, from left to right.
    pub glyphs: Vec<LayoutGlyph>,
    /// The decorations.
    pub decorations: Vec<DecorationSpan>,
}

impl View for LayoutLine {
    type V = LayoutLineView;

    open spec fn view(&self) -> LayoutLineView {
        LayoutLineView {
            w: self.w,
            max_ascent: self.max_ascent,
            max_descent: self.max_descent,
            line_height_opt: self.line_height_opt,
            glyphs: self.glyphs@,
            decorations: self.decorations@,
        }
    }
}

impl LayoutLine {
    /// The same line over again.
    pub fn duplicate(&self) -> (r: LayoutLine)
        ensures
            r@ == self@,
    {
        let glyphs = copy_all(self.glyphs.as_slice());
        let decorations = copy_all(self.decorations.as_slice());
        LayoutLine {
            w: self.w,
            max_ascent: self.max_ascent,
            max_descent: self.max_descent,
            line_height_opt: self.line_height_opt,
            glyphs,
            decorations,
        }
    }
}

/// The same laid-out line of text over again.
pub fn duplicate_layout(lines: &Vec<LayoutLine>) -> (r: Vec<LayoutLine>)
    ensures
        layout_view(r@) == layout_view(lines@),
{
    let mut r: Vec<LayoutLine> = Vec::new();
    let mut i: usize = 0;
    while i < lines.len()
        invariant
            i <= lines@.len(),
            r@.len() == i,
            forall|j: int| 0 <= j < i ==> (#[trigger] r@[j])@ == lines@[j]@,
        decreases lines@.len() - i,
    {
        let line = lines[i].duplicate();
        r.push(line);
        i = i + 1;
    }
    assert(layout_view(r@) =~= layout_view(lines@));
    r
}

/// What a laid-out line of text holds.
pub open spec fn layout_view(lines: Seq<LayoutLine>) -> Seq<LayoutLineView> {
    lines.map_values(|l: LayoutLine| l@)
}

/// Whether every cluster of a shaped line is a part of `text` between two
/// character boundaries.
pub open spec fn shape_fits(text: Seq<u8>, shape: ShapeLineView) -> bool {
    forall|i: int|
        0 <= i < shape.glyphs.len() ==> (#[trigger] shape.glyphs[i]).start <= shape.glyphs[i].end
            && at_boundary(text, shape.glyphs[i].start as int) && at_boundary(
            text,
            shape.glyphs[i].end as int,
        )
}

/// Whether every glyph of a visual line stands for a part of `text` between
/// two character boundaries.
pub open spec fn line_fits(text: Seq<u8>, glyphs: Seq<LayoutGlyph>) -> bool {
    forall|i: int|
        0 <= i < glyphs.len() ==> (#[trigger] glyphs[i]).start <= glyphs[i].end && at_boundary(
            text,
            glyphs[i].start as int,
        ) && at_boundary(text, glyphs[i].end as int)
}

/// Whether a laid-out line has at least one visual line, and every glyph
/// stands for a part of `text` between two character boundaries.
pub open spec fn layout_fits(text: Seq<u8>, lines: Seq<LayoutLineView>) -> bool {
    &&& lines.len() > 0
    &&& forall|k: int| 0 <= k < lines.len() ==> line_fits(text, (#[trigger] lines[k]).glyphs)
}

/// What the layout of a line depends on besides its shape.
#[derive(Clone, Copy, PartialEq, Eq, Structural, Debug)]
pub struct LayoutParams {
    /// Font size.
    pub font_size: Px,
    /// Width of the buffer.
    pub width_opt: Option<Px>,
    /// How the line is broken.
    pub wrap: Wrap,
    /// Which part is left out.
    pub ellipsize: Ellipsize,
    /// Alignment.
    pub align: Option<Align>,
    /// Width that monospace glyphs are resized to.
    pub monospace_width: Option<Px>,
    /// Whether glyphs are fitted to the pixel grid.
    pub hinting: Hinting,
}

/// The fonts of an engine, as contracts speak of them.
pub type Fonts = int;

/// A text, as contracts speak of it: its UTF-8 bytes.
pub type TextBytes = Seq<u8>;

/// A laid-out line of text, as contracts speak of it.
pub type LayoutView = Seq<LayoutLineView>;

/// An engine that shapes lines and lays them out. The result is fixed by the
/// fonts that the engine has loaded and by what it is handed; using it does
/// not change the fonts.
pub trait FontSystem: PixelMath + Sized {
    /// The fonts that are loaded.
    spec fn fonts(&self) -> Fonts;

    /// A text, shaped.
    spec fn shaped(
        fonts: Fonts,
        text: TextBytes,
        attrs: AttrsListView,
        shaping: Shaping,
        tab_width: u16,
        direction: Direction,
    ) -> ShapeLineView;

    /// A shaped line, laid out.
    spec fn laid_out(fonts: Fonts, shape: ShapeLineView, params: LayoutParams) -> LayoutView;

    /// Every shaped cluster is a part of the text.
    proof fn law_shape_fits(
        fonts: Fonts,
        text: TextBytes,
        attrs: AttrsListView,
        shaping: Shaping,
        tab_width: u16,
        direction: Direction,
    )
        requires
            valid_utf8(text),
        ensures
            shape_fits(
                text,
                Self::shaped(fonts, text, attrs, shaping, tab_width, direction),
            ),
    ;

    /// The tab width matters only where there is a tab.
    proof fn law_tab_width(
        fonts: Fonts,
        text: TextBytes,
        attrs: AttrsListView,
        shaping: Shaping,
        tab_width: u16,
        other_width: u16,
        direction: Direction,
    )
        requires
            !has_tab(text),
        ensures
            Self::shaped(fonts, text, attrs, shaping, tab_width, direction) == Self::shaped(
                fonts,
                text,
                attrs,
                shaping,
                other_width,
                direction,
            ),
    ;

    /// A layout has at least one visual line, and holds no glyph that is not a
    /// part of the text that was shaped.
    proof fn law_layout_fits(fonts: Fonts, text: TextBytes, shape: ShapeLineView, params: LayoutParams)
        requires
            shape_fits(text, shape),
        ensures
            layout_fits(text, Self::laid_out(fonts, shape, params)),
    ;

    /// Shapes a text.
    fn shape(
        &mut self,
        text: &str,
        attrs: &AttrsList,
        shaping: Shaping,
        tab_width: u16,
        direction: Direction,
    ) -> (r: ShapeLine)
        ensures
            final(self).fonts() == old(self).fonts(),
            r@ == Self::shaped(
                old(self).fonts(),
                encode_utf8(text@),
                attrs@,
                shaping,
                tab_width,
                direction,
            ),
    ;

    /// Lays a shaped line out.
    fn layout(&mut self, shape: &ShapeLine, params: LayoutParams) -> (r: Vec<LayoutLine>)
        ensures
            final(self).fonts() == old(self).fonts(),
            layout_view(r@) == Self::laid_out(old(self).fonts(), shape@, params),
    ;
}

} // verus!
