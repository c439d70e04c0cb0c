//! A buffer of text that is shaped and laid out.

use vstd::prelude::*;
use vstd::utf8::*;

use crate::breaks::line_total;
use crate::cursor::Scroll;
use crate::dirty::DirtyFlags;
use crate::ending::LineEnding;
use crate::layout::{Direction, Ellipsize, FontSystem, Hinting, LayoutLineView, Wrap};
use crate::line::{lines_view, BufferLine, LineView, Settings};
use crate::pixel::{zero, Metrics, Px};
use crate::rope_store::RopeStore;

verus! {

/// Where the lines of a buffer are kept.
pub enum LineStore {
    /// All lines, one after the other.
    Full(Vec<BufferLine>),
    /// A text from which lines are made when they are needed.
    Rope(RopeStore),
}

/// A buffer of text that is shaped and laid out.
pub struct Buffer {
    /// The lines.
    pub store: LineStore,
    /// Font size and line height.
    pub metrics: Metrics,
    /// Width of the view.
    pub width_opt: Option<Px>,
    /// Height of the view.
    pub height_opt: Option<Px>,
    /// Where the view begins.
    pub scroll: Scroll,
    /// Whether the buffer has to be drawn again.
    pub redraw: bool,
    /// How lines are broken.
    pub wrap: Wrap,
    /// Which part of a line is left out.
    pub ellipsize: Ellipsize,
    /// Width that monospace glyphs are resized to.
    pub monospace_width: Option<Px>,
    /// Spaces between tab stops.
    pub tab_width: u16,
    /// Whether glyphs are fitted to the pixel grid.
    pub hinting: Hinting,
    /// Base direction of paragraphs.
    pub direction: Direction,
    /// What has changed since the lines were last brought up to date.
    pub dirty: DirtyFlags,
    /// How many bytes of a rope are turned into lines at most.
    pub max_thaw_bytes: Option<usize>,
}

/// What the lines of a buffer show once they are laid out.
#[verifier::ext_equal]
pub struct Page {
    /// The text of each line, without its terminator.
    pub texts: Seq<Seq<u8>>,
    /// Whether each line is left out.
    pub hidden: Seq<bool>,
    /// Whether each line runs right to left.
    pub rtl: Seq<bool>,
    /// The visual lines of each line.
    pub layouts: Seq<Seq<LayoutLineView>>,
}

/// A buffer over the given lines with nothing set.
pub open spec fn opened(metrics: Metrics, store: LineStore) -> Buffer {
    Buffer {
        store,
        metrics,
        width_opt: None,
        height_opt: None,
        scroll: Scroll::start(),
        redraw: false,
        wrap: Wrap::WordOrGlyph,
        ellipsize: Ellipsize::Never,
        monospace_width: None,
        tab_width: 8,
        hinting: Hinting::Disabled,
        direction: Direction::Auto,
        dirty: DirtyFlags::none(),
        max_thaw_bytes: Some(0x4000_0000),
    }
}

impl LineStore {
    /// Number of lines.
    pub open spec fn count(&self) -> nat {
        match self {
            LineStore::Full(lines) => lines@.len(),
            LineStore::Rope(store) => line_total(store.bytes()),
        }
    }

    /// Line `i`. A line of a rope is shown as it stands in the text.
    pub open spec fn line_at(&self, i: int) -> LineView {
        match self {
            LineStore::Full(lines) => lines@[i]@,
            LineStore::Rope(store) => store.line_view(i),
        }
    }

    /// Every part is in order, and no result reaches beyond the text of its
    /// line.
    pub open spec fn wf(&self) -> bool {
        match self {
            LineStore::Full(lines) => forall|i: int|
                0 <= i < lines@.len() ==> (#[trigger] lines@[i])@.fits(),
            LineStore::Rope(store) => store.wf() && store.fresh() && store.fits(),
        }
    }

    /// The same lines, whatever results are kept.
    pub open spec fn same_lines(&self, other: &LineStore) -> bool {
        match (self, other) {
            (LineStore::Full(a), LineStore::Full(b)) => a@.len() == b@.len() && forall|i: int|
                0 <= i < a@.len() ==> (#[trigger] a@[i])@.same_line(b@[i]@),
            (LineStore::Rope(a), LineStore::Rope(b)) => a.text == b.text && a.metadata == b.metadata,
            _ => false,
        }
    }

    /// What the lines show once they are laid out.
    pub open spec fn page<F: FontSystem>(&self, fonts: int, settings: Settings) -> Page {
        Page {
            texts: Seq::new(self.count(), |i: int| self.line_at(i).text),
            hidden: Seq::new(self.count(), |i: int| self.line_at(i).hidden),
            rtl: Seq::new(
                self.count(),
                |i: int|
                    match self {
                        LineStore::Full(lines) => lines@[i]@.with_shape::<F>(
                            fonts,
                            settings,
                        ).shape.unwrap(),
                        LineStore::Rope(store) => store.shape_now::<F>(fonts, settings, i),
                    }.rtl,
            ),
            layouts: Seq::new(
                self.count(),
                |i: int|
                    match self {
                        LineStore::Full(lines) => lines@[i]@.with_layout::<F>(
                            fonts,
                            settings,
                        ).layout.unwrap(),
                        LineStore::Rope(store) => store.layout_now::<F>(fonts, settings, i),
                    },
            ),
        }
    }

    /// Every kept result is the one for its line as it stands.
    pub open spec fn current<F: FontSystem>(&self, fonts: int, settings: Settings) -> bool {
        match self {
            LineStore::Full(lines) => forall|i: int|
                0 <= i < lines@.len() ==> (#[trigger] lines@[i])@.current::<F>(fonts, settings),
            LineStore::Rope(store) => store.current::<F>(fonts, settings),
        }
    }

    /// Shaping one line does not change what another one shows. Results that a
    /// rope keeps may be dropped to make room, so they must be up to date.
    pub open spec fn steady<F: FontSystem>(&self, fonts: int, settings: Settings) -> bool {
        match self {
            LineStore::Full(_) => true,
            LineStore::Rope(store) => store.current::<F>(fonts, settings),
        }
    }

    /// All lines, to be changed.
    pub fn full_mut(&mut self) -> (r: &mut Vec<BufferLine>)
        requires
            *old(self) is Full,
        ensures
            *r == (*old(self))->Full_0,
            *final(self) == LineStore::Full(*final(r)),
    {
        match self {
            LineStore::Full(lines) => lines,
            LineStore::Rope(_) => vstd::pervasive::unreached(),
        }
    }
}

impl Buffer {
    /// What shaping and layout depend on.
    pub open spec fn settings(&self) -> Settings {
        Settings {
            font_size: self.metrics.font_size,
            width_opt: self.width_opt,
            wrap: self.wrap,
            ellipsize: self.ellipsize,
            monospace_width: self.monospace_width,
            tab_width: self.tab_width,
            hinting: self.hinting,
            direction: self.direction,
        }
    }

    /// Every part is in order.
    pub open spec fn wf(&self) -> bool {
        self.store.wf()
    }

    /// Number of lines.
    pub open spec fn count(&self) -> nat {
        self.store.count()
    }

    /// What the lines show once they are laid out.
    pub open spec fn page<F: FontSystem>(&self, fonts: int) -> Page {
        self.store.page::<F>(fonts, self.settings())
    }

    /// Everything but the lines is the same.
    pub open spec fn same_frame(&self, other: &Buffer) -> bool {
        *self == (Buffer { store: self.store, ..*other })
    }

    /// A buffer without lines. It needs at least one before it is shaped.
    pub fn new_empty(metrics: Metrics) -> (r: Buffer)
        requires
            !metrics.line_height.same(zero()),
        ensures
            r.wf(),
            r == opened(metrics, r.store),
            r.store is Full,
            r.count() == 0,
    {
        Buffer {
            store: LineStore::Full(Vec::new()),
            metrics,
            width_opt: None,
            height_opt: None,
            scroll: Scroll::default(),
            redraw: false,
            wrap: Wrap::WordOrGlyph,
            ellipsize: Ellipsize::Never,
            monospace_width: None,
            tab_width: 8,
            hinting: Hinting::Disabled,
            direction: Direction::Auto,
            dirty: DirtyFlags::empty(),
            max_thaw_bytes: Some(0x4000_0000),
        }
    }

    /// A buffer whose lines are made from a rope when they are needed.
    pub fn new_rope(metrics: Metrics, store: RopeStore) -> (r: Buffer)
        requires
            !metrics.line_height.same(zero()),
            store.wf(),
            store.fresh(),
            store.fits(),
        ensures
            r.wf(),
            r == (Buffer {
                dirty: DirtyFlags { text_set: true, ..DirtyFlags::none() },
                redraw: true,
                ..opened(metrics, LineStore::Rope(store))
            }),
    {
        let mut buffer = Self::new_empty(metrics);
        buffer.store = LineStore::Rope(store);
        // Nothing is shaped yet.
        buffer.dirty.text_set = true;
        buffer.redraw = true;
        buffer
    }

    /// The same buffer over again. What a rope keeps of its lines is not taken
    /// along.
    pub fn duplicate(&self) -> (r: Buffer)
        requires
            self.wf(),
        ensures
            r.wf(),
            r.same_frame(self),
            match (&self.store, &r.store) {
                (LineStore::Full(a), LineStore::Full(b)) => lines_view(a@) == lines_view(b@),
                (LineStore::Rope(a), LineStore::Rope(b)) => {
                    &&& a.bytes() == b.bytes()
                    &&& b.metadata.same(&a.metadata)
                    &&& forall|i: int| #[trigger] b.warm(i) is None
                    &&& forall|i: int| #[trigger] b.cache.shape_at(i) is None
                    &&& forall|i: int| #[trigger] b.cache.layout_at(i) is None
                },
                _ => false,
            },
    {
        let store = match &self.store {
            LineStore::Full(lines) => {
                let mut copies: Vec<BufferLine> = Vec::new();
                let mut i: usize = 0;
                while i < lines.len()
                    invariant
                        i <= lines@.len(),
                        copies@.len() == i,
                        forall|j: int| 0 <= j < i ==> (#[trigger] copies@[j])@ == lines@[j]@,
                    decreases lines@.len() - i,
                {
                    let line = lines[i].duplicate();
                    copies.push(line);
                    i = i + 1;
                }
                assert(lines_view(copies@) =~= lines_view(lines@));
                LineStore::Full(copies)
            },
            LineStore::Rope(store) => LineStore::Rope(store.duplicate()),
        };
        Buffer {
            store,
            metrics: self.metrics,
            width_opt: self.width_opt,
            height_opt: self.height_opt,
            scroll: self.scroll,
            redraw: self.redraw,
            wrap: self.wrap,
            ellipsize: self.ellipsize,
            monospace_width: self.monospace_width,
            tab_width: self.tab_width,
            hinting: self.hinting,
            direction: self.direction,
            dirty: self.dirty,
            max_thaw_bytes: self.max_thaw_bytes,
        }
    }

    /// Tells whether the lines are made from a rope.
    pub fn is_rope(&self) -> (r: bool)
        ensures
            r == self.store is Rope,
    {
        match &self.store {
            LineStore::Full(_) => false,
            LineStore::Rope(_) => true,
        }
    }

    /// Sets how many bytes of a rope are turned into lines at most; `None` is
    /// no limit.
    pub fn set_max_thaw_bytes(&mut self, max: Option<usize>)
        ensures
            *final(self) == (Buffer { max_thaw_bytes: max, ..*old(self) }),
    {
        self.max_thaw_bytes = max;
    }

    /// Whether `after` is `self` once its rope has been turned into lines.
    pub open spec fn thaws(&self, after: &Buffer) -> bool {
        &&& after.same_frame(self)
        &&& after.store is Full
        &&& lines_view(after.store->Full_0@) == self.store->Rope_0.all_lines()
    }

    /// Turns a rope into lines, so that they can be changed. Returns `false`,
    /// and leaves everything as it is, if the rope is over the limit.
    pub fn ensure_editable(&mut self) -> (r: bool)
        requires
            old(self).wf(),
        ensures
            final(self).wf(),
            r == match old(self).store {
                LineStore::Full(_) => true,
                LineStore::Rope(store) => match old(self).max_thaw_bytes {
                    Some(max) => store.bytes().len() <= max,
                    None => true,
                },
            },
            if r && old(self).store is Rope {
                old(self).thaws(final(self))
            } else {
                *final(self) == *old(self)
            },
    {
        let over = match &self.store {
            LineStore::Rope(store) => match self.max_thaw_bytes {
                Some(max) => store.text_len_bytes() > max,
                None => false,
            },
            LineStore::Full(_) => {
                return true;
            },
        };
        if over {
            return false;
        }
        let ghost before = self.store->Rope_0;
        let mut store = LineStore::Full(Vec::new());
        std::mem::swap(&mut self.store, &mut store);
        if let LineStore::Rope(rope) = store {
            let lines = rope.thaw();
            proof {
                assert(lines_view(lines@).len() == before.all_lines().len());
                assert forall|i: int| 0 <= i < lines@.len() implies (#[trigger] lines@[i])@.fits() by {
                    assert(lines_view(lines@)[i] == lines@[i]@);
                    assert(before.all_lines()[i] == before.line_view(i));
                    crate::rope_store::lemma_line_text_valid(&before, i);
                }
            }
            self.store = LineStore::Full(lines);
        }
        true
    }

    /// Number of lines.
    pub fn line_count(&self) -> (r: usize)
        requires
            self.wf(),
        ensures
            r == self.count(),
    {
        match &self.store {
            LineStore::Full(lines) => lines.len(),
            LineStore::Rope(store) => store.line_count(),
        }
    }

    /// Line `i`. Of a rope only the lines that are materialized are found.
    pub fn line(&self, i: usize) -> (r: Option<&BufferLine>)
        ensures
            match self.store {
                LineStore::Full(lines) => match r {
                    Some(line) => i < lines@.len() && *line == lines@[i as int],
                    None => i >= lines@.len(),
                },
                LineStore::Rope(store) => match r {
                    Some(line) => store.warm(i as int) == Some(*line),
                    None => store.warm(i as int) is None,
                },
            },
    {
        match &self.store {
            LineStore::Full(lines) => if i < lines.len() {
                Some(&lines[i])
            } else {
                None
            },
            LineStore::Rope(store) => store.materialized(i),
        }
    }

    /// Text of line `i` without its terminator, whether or not the line is
    /// materialized.
    pub fn line_text_cow(&self, i: usize) -> (r: Option<&str>)
        requires
            self.wf(),
        ensures
            r is Some <==> i < self.count(),
            r matches Some(s) ==> encode_utf8(s@) == self.store.line_at(i as int).text,
    {
        match &self.store {
            LineStore::Full(lines) => if i < lines.len() {
                Some(lines[i].text())
            } else {
                None
            },
            LineStore::Rope(store) => store.line_text(i),
        }
    }

    /// Terminator of line `i`, whether or not the line is materialized.
    pub fn line_ending(&self, i: usize) -> (r: Option<LineEnding>)
        requires
            self.wf(),
        ensures
            r == if i < self.count() {
                Some(self.store.line_at(i as int).ending)
            } else {
                None
            },
    {
        match &self.store {
            LineStore::Full(lines) => if i < lines.len() {
                Some(lines[i].ending())
            } else {
                None
            },
            LineStore::Rope(store) => if i < store.line_count() {
                Some(store.ending(i))
            } else {
                None
            },
        }
    }

    /// Text of line `i`. Of a rope only the lines that are materialized are
    /// found.
    pub fn line_text(&self, line_i: usize) -> (r: Option<&str>)
        ensures
            match self.store {
                LineStore::Full(lines) => match r {
                    Some(s) => line_i < lines@.len() && encode_utf8(s@)
                        == lines@[line_i as int]@.text,
                    None => line_i >= lines@.len(),
                },
                LineStore::Rope(store) => match r {
                    Some(s) => store.warm(line_i as int) matches Some(line) && encode_utf8(s@)
                        == line@.text,
                    None => store.warm(line_i as int) is None,
                },
            },
    {
        match self.line(line_i) {
            Some(line) => Some(line.text()),
            None => None,
        }
    }

    /// Line `i`, to be changed.
    pub fn line_mut(&mut self, i: usize) -> (r: Option<&mut BufferLine>)
        requires
            old(self).store is Full,
        ensures
            match r {
                Some(line) => {
                    &&& i < old(self).store->Full_0@.len()
                    &&& *line == old(self).store->Full_0@[i as int]
                    &&& final(self).same_frame(old(self))
                    &&& final(self).store is Full
                    &&& final(self).store->Full_0@ == old(self).store->Full_0@.update(
                        i as int,
                        *final(line),
                    )
                },
                None => i >= old(self).store->Full_0@.len() && *final(self) == *old(self),
            },
    {
        let lines = self.store.full_mut();
        if i < lines.len() {
            Some(&mut lines[i])
        } else {
            None
        }
    }

    /// The last line, to be changed.
    pub fn last_line_mut(&mut self) -> (r: Option<&mut BufferLine>)
        requires
            old(self).store is Full,
        ensures
            match r {
                Some(line) => {
                    &&& old(self).store->Full_0@.len() > 0
                    &&& *line == old(self).store->Full_0@.last()
                    &&& final(self).same_frame(old(self))
                    &&& final(self).store is Full
                    &&& final(self).store->Full_0@ == old(self).store->Full_0@.update(
                        old(self).store->Full_0@.len() - 1,
                        *final(line),
                    )
                },
                None => old(self).store->Full_0@.len() == 0 && *final(self) == *old(self),
            },
    {
        let lines = self.store.full_mut();
        let n = lines.len();
        if n > 0 {
            Some(&mut lines[n - 1])
        } else {
            None
        }
    }

    /// The lines in order. Of a rope only the lines that are materialized are
    /// among them.
    pub fn lines_iter(&self) -> (r: Vec<&BufferLine>)
        requires
            self.wf(),
        ensures
            match self.store {
                LineStore::Full(lines) => r@.len() == lines@.len() && forall|i: int|
                    0 <= i < lines@.len() ==> *(#[trigger] r@[i]) == lines@[i],
                LineStore::Rope(store) => r@.map_values(|l: &BufferLine| *l) == warm_lines(
                    &store,
                    line_total(store.bytes()) as int,
                ),
            },
    {
        let mut r: Vec<&BufferLine> = Vec::new();
        match &self.store {
            LineStore::Full(lines) => {
                let mut i: usize = 0;
                while i < lines.len()
                    invariant
                        i <= lines@.len(),
                        r@.len() == i,
                        forall|j: int| 0 <= j < i ==> *(#[trigger] r@[j]) == lines@[j],
                    decreases lines@.len() - i,
                {
                    r.push(&lines[i]);
                    i = i + 1;
                }
            },
            LineStore::Rope(store) => {
                let n = store.line_count();
                let mut i: usize = 0;
                assert(r@.map_values(|l: &BufferLine| *l) =~= warm_lines(store, 0));
                while i < n
                    invariant
                        i <= n,
                        n == line_total(store.bytes()),
                        r@.map_values(|l: &BufferLine| *l) == warm_lines(store, i as int),
                    decreases n - i,
                {
                    let ghost before = r@;
                    if let Some(line) = store.materialized(i) {
                        r.push(line);
                        assert(r@.map_values(|l: &BufferLine| *l) =~= before.map_values(
                            |l: &BufferLine| *l,
                        ).push(*line));
                    }
                    i = i + 1;
                }
            },
        }
        r
    }

    /// All lines, to be changed.
    pub fn lines_iter_mut(&mut self) -> (r: &mut Vec<BufferLine>)
        requires
            old(self).store is Full,
        ensures
            *r == old(self).store->Full_0,
            final(self).same_frame(old(self)),
            final(self).store == LineStore::Full(*final(r)),
    {
        self.store.full_mut()
    }

    /// Puts a line behind the others.
    pub fn push_line(&mut self, line: BufferLine)
        requires
            old(self).store is Full,
        ensures
            final(self).same_frame(old(self)),
            final(self).store is Full,
            final(self).store->Full_0@ == old(self).store->Full_0@.push(line),
    {
        self.store.full_mut().push(line);
    }

    /// Puts a line in front of line `i`.
    pub fn insert_line(&mut self, i: usize, line: BufferLine)
        requires
            old(self).store is Full,
            i <= old(self).store->Full_0@.len(),
        ensures
            final(self).same_frame(old(self)),
            final(self).store is Full,
            final(self).store->Full_0@ == old(self).store->Full_0@.insert(i as int, line),
    {
        self.store.full_mut().insert(i, line);
    }

    /// Takes line `i` out.
    pub fn remove_line(&mut self, i: usize) -> (r: BufferLine)
        requires
            old(self).store is Full,
            i < old(self).store->Full_0@.len(),
        ensures
            r == old(self).store->Full_0@[i as int],
            final(self).same_frame(old(self)),
            final(self).store is Full,
            final(self).store->Full_0@ == old(self).store->Full_0@.remove(i as int),
    {
        self.store.full_mut().remove(i)
    }

    /// Drops the lines at or behind index `len`.
    pub fn truncate_lines(&mut self, len: usize)
        requires
            old(self).store is Full,
        ensures
            final(self).same_frame(old(self)),
            final(self).store is Full,
            final(self).store->Full_0@ == if len <= old(self).store->Full_0@.len() {
                old(self).store->Full_0@.take(len as int)
            } else {
                old(self).store->Full_0@
            },
    {
        self.store.full_mut().truncate(len);
    }

    /// Drops all lines.
    pub fn clear_lines(&mut self)
        requires
            old(self).store is Full,
        ensures
            final(self).same_frame(old(self)),
            final(self).store is Full,
            final(self).store->Full_0@.len() == 0,
    {
        self.store.full_mut().clear();
    }

    /// Tells whether there are no lines.
    pub fn lines_is_empty(&self) -> (r: bool)
        requires
            self.wf(),
        ensures
            r == (self.count() == 0),
            self.store is Rope ==> !r,
    {
        match &self.store {
            LineStore::Full(lines) => lines.len() == 0,
            LineStore::Rope(store) => store.line_count() == 0,
        }
    }
}

/// The materialized lines among the first `n`, in order.
pub open spec fn warm_lines(store: &RopeStore, n: int) -> Seq<BufferLine>
    decreases n,
{
    if n <= 0 {
        Seq::empty()
    } else {
        match store.warm(n - 1) {
            Some(line) => warm_lines(store, n - 1).push(line),
            None => warm_lines(store, n - 1),
        }
    }
}

} // verus!
