//! Drawing a buffer.

use vstd::prelude::*;

use crate::attrs::Color;
use crate::buffer::Buffer;
use crate::layout::{copy_all, DecorationSpan, FontSystem, LayoutGlyph};
use crate::pixel::Px;
use crate::run_iter::run_views;
use crate::runs::{LayoutRun, RunView};

verus! {

/// Something that has been drawn.
pub enum Mark {
    /// A glyph on its baseline.
    Glyph {
        /// The glyph.
        glyph: LayoutGlyph,
        /// Top edge of the view to the baseline.
        line_y: Px,
        /// Its colour.
        color: Color,
    },
    /// A decoration of a visual line.
    Decoration {
        /// Top edge of the view to the baseline.
        line_y: Px,
        /// The glyphs of the visual line.
        glyphs: Seq<LayoutGlyph>,
        /// Those that are decorated.
        span: DecorationSpan,
        /// The colour of glyphs that have none of their own.
        color: Color,
    },
}

/// What has been drawn, as contracts speak of it.
pub type Marks = Seq<Mark>;

/// Something to draw on.
pub trait Renderer {
    /// What has been drawn, in the order in which it was.
    spec fn drawn(&self) -> Marks;

    /// Draws a glyph on a baseline.
    fn glyph(&mut self, glyph: LayoutGlyph, line_y: Px, color: Color)
        ensures
            final(self).drawn() == old(self).drawn().push(Mark::Glyph { glyph, line_y, color }),
    ;

    /// Draws a decoration of a visual line.
    fn decoration(
        &mut self,
        line_y: Px,
        glyphs: &[LayoutGlyph],
        span: DecorationSpan,
        color: Color,
    )
        ensures
            final(self).drawn() == old(self).drawn().push(
                Mark::Decoration { line_y, glyphs: glyphs@, span, color },
            ),
    ;
}

/// A glyph as it is drawn: in its own colour, or else in the given one.
pub open spec fn glyph_mark(glyph: LayoutGlyph, line_y: Px, color: Color) -> Mark {
    Mark::Glyph {
        glyph,
        line_y,
        color: match glyph.color_opt {
            Some(own) => own,
            None => color,
        },
    }
}

/// What is drawn of a visual line: the glyphs, and over them the decorations.
pub open spec fn run_marks(run: RunView, color: Color) -> Seq<Mark> {
    run.glyphs.map_values(|glyph: LayoutGlyph| glyph_mark(glyph, run.line_y, color))
        + run.decorations.map_values(
        |span: DecorationSpan|
            Mark::Decoration { line_y: run.line_y, glyphs: run.glyphs, span, color },
    )
}

/// What is drawn of visual lines.
pub open spec fn marks(runs: Seq<RunView>, color: Color) -> Seq<Mark>
    decreases runs.len(),
{
    if runs.len() == 0 {
        seq![]
    } else {
        marks(runs.drop_last(), color) + run_marks(runs.last(), color)
    }
}

/// Draws a visual line.
fn render_run<R: Renderer>(renderer: &mut R, run: &LayoutRun, color: Color)
    ensures
        final(renderer).drawn() == old(renderer).drawn() + run_marks(run@, color),
{
    let ghost before = renderer.drawn();
    let ghost all = run_marks(run@, color);
    assert(before + all.take(0) =~= before);
    let mut i: usize = 0;
    while i < run.glyphs.len()
        invariant
            i <= run.glyphs@.len(),
            all == run_marks(run@, color),
            renderer.drawn() == before + all.take(i as int),
        decreases run.glyphs@.len() - i,
    {
        let glyph = run.glyphs[i];
        let own = match glyph.color_opt {
            Some(own) => own,
            None => color,
        };
        renderer.glyph(glyph, run.line_y, own);
        i = i + 1;
        assert(before + all.take(i as int) =~= (before + all.take(i - 1)).push(all[i - 1]));
    }
    let n = i;
    let mut k: usize = 0;
    while k < run.decorations.len()
        invariant
            n == run.glyphs@.len(),
            k <= run.decorations@.len(),
            all == run_marks(run@, color),
            renderer.drawn() == before + all.take(n + k),
        decreases run.decorations@.len() - k,
    {
        renderer.decoration(run.line_y, run.glyphs, run.decorations[k], color);
        k = k + 1;
        assert(before + all.take(n + k) =~= (before + all.take(n + k - 1)).push(all[n + k - 1]));
    }
    assert(all.take(n + k) =~= all);
}

impl Buffer {
    /// Brings the view up to date and draws it.
    pub fn render<F: FontSystem, R: Renderer>(
        &mut self,
        font_system: &mut F,
        renderer: &mut R,
        color: Color,
    )
        requires
            old(self).wf(),
        ensures
            final(font_system).fonts() == old(font_system).fonts(),
            final(self).wf(),
            old(self).refreshes::<F>(final(self), old(font_system).fonts(), false),
            final(renderer).drawn() == old(renderer).drawn() + marks(
                final(self).runs::<F>(),
                color,
            ),
    {
        self.shape_until_scroll(font_system, false);
        let ghost before = renderer.drawn();
        let runs = self.visible_runs::<F>();
        let ghost views = run_views(runs@);
        assert(before + marks(views.take(0), color) =~= before);
        let mut i: usize = 0;
        while i < runs.len()
            invariant
                i <= runs@.len(),
                views == run_views(runs@),
                renderer.drawn() == before + marks(views.take(i as int), color),
            decreases runs@.len() - i,
        {
            render_run(renderer, &runs[i], color);
            i = i + 1;
            proof {
                let upto = views.take(i as int);
                assert(upto.drop_last() =~= views.take(i - 1));
                assert(upto.last() == runs@[i - 1]@);
                assert(before + marks(upto, color) =~= before + marks(views.take(i - 1), color)
                    + run_marks(upto.last(), color));
            }
        }
        assert(views.take(i as int) =~= views);
    }

    /// Draws the view, as [`Buffer::render`] does.
    pub fn draw<F: FontSystem, R: Renderer>(
        &mut self,
        font_system: &mut F,
        renderer: &mut R,
        color: Color,
    )
        requires
            old(self).wf(),
        ensures
            final(font_system).fonts() == old(font_system).fonts(),
            final(self).wf(),
            old(self).refreshes::<F>(final(self), old(font_system).fonts(), false),
            final(renderer).drawn() == old(renderer).drawn() + marks(
                final(self).runs::<F>(),
                color,
            ),
    {
        self.render(font_system, renderer, color);
    }
}

/// An entry of a [`DrawList`].
#[derive(Debug)]
pub enum Drawn {
    /// A glyph on its baseline.
    Glyph {
        /// The glyph.
        glyph: LayoutGlyph,
        /// Top edge of the view to the baseline.
        line_y: Px,
        /// Its colour.
        color: Color,
    },
    /// A decoration of a visual line.
    Decoration {
        /// Top edge of the view to the baseline.
        line_y: Px,
        /// The glyphs of the visual line.
        glyphs: Vec<LayoutGlyph>,
        /// Those that are decorated.
        span: DecorationSpan,
        /// The colour of glyphs that have none of their own.
        color: Color,
    },
}

impl View for Drawn {
    type V = Mark;

    open spec fn view(&self) -> Mark {
        match self {
            Drawn::Glyph { glyph, line_y, color } => Mark::Glyph {
                glyph: *glyph,
                line_y: *line_y,
                color: *color,
            },
            Drawn::Decoration { line_y, glyphs, span, color } => Mark::Decoration {
                line_y: *line_y,
                glyphs: glyphs@,
                span: *span,
                color: *color,
            },
        }
    }
}

/// A renderer that keeps what is drawn on it, to be drawn elsewhere.
#[derive(Debug)]
pub struct DrawList {
    /// What has been drawn.
    pub entries: Vec<Drawn>,
}

impl DrawList {
    /// An empty list.
    pub fn new() -> (r: DrawList)
        ensures
            r.drawn() == Seq::<Mark>::empty(),
    {
        let r = DrawList { entries: Vec::new() };
        assert(r.drawn() =~= Seq::<Mark>::empty());
        r
    }
}

impl Renderer for DrawList {
    open spec fn drawn(&self) -> Marks {
        self.entries@.map_values(|d: Drawn| d@)
    }

    fn glyph(&mut self, glyph: LayoutGlyph, line_y: Px, color: Color) {
        self.entries.push(Drawn::Glyph { glyph, line_y, color });
        assert(self.drawn() =~= old(self).drawn().push(Mark::Glyph { glyph, line_y, color }));
    }

    fn decoration(
        &mut self,
        line_y: Px,
        glyphs: &[LayoutGlyph],
        span: DecorationSpan,
        color: Color,
    ) {
        let glyphs = copy_all(glyphs);
        self.entries.push(Drawn::Decoration { line_y, glyphs, span, color });
        assert(self.drawn() =~= old(self).drawn().push(
            Mark::Decoration { line_y, glyphs: glyphs@, span, color },
        ));
    }
}

} // verus!
