//! Text attributes: how characters of a line are to be styled.

use vstd::prelude::*;

verus! {

/// A colour, as alpha, red, green and blue bytes.
#[derive(Clone, Copy, PartialEq, Eq, Structural, Debug)]
pub struct Color {
    /// The four bytes, alpha in the highest one.
    pub argb: u32,
}

/// A generic font family.
#[derive(Clone, Copy, PartialEq, Eq, Structural, Debug)]
pub enum Family {
    /// Serif.
    Serif,
    /// Sans serif.
    SansSerif,
    /// Cursive.
    Cursive,
    /// Fantasy.
    Fantasy,
    /// Monospace.
    Monospace,
}

/// Metrics that a span sets for itself, as bit patterns.
#[derive(Clone, Copy, PartialEq, Eq, Structural, Debug)]
pub struct CacheMetrics {
    /// Font size.
    pub font_size_bits: u32,
    /// Line height.
    pub line_height_bits: u32,
}

/// The attributes of a run of characters.
#[derive(Clone, Copy, PartialEq, Eq, Structural, Debug)]
pub struct Attrs {
    /// Colour of the glyphs, where it differs from the buffer's.
    pub color_opt: Option<Color>,
    /// Font family.
    pub family: Family,
    /// Font weight.
    pub weight: u16,
    /// Whether the font is italic.
    pub italic: bool,
    /// A value of the caller's that is handed through to the glyphs.
    pub metadata: usize,
    /// Metrics of the span, where they differ from the buffer's.
    pub metrics_opt: Option<CacheMetrics>,
}

impl Attrs {
    /// The plain attributes.
    pub open spec fn plain() -> Attrs {
        Attrs {
            color_opt: None,
            family: Family::SansSerif,
            weight: 400,
            italic: false,
            metadata: 0,
            metrics_opt: None,
        }
    }

    /// The plain attributes.
    pub fn new() -> (r: Attrs)
        ensures
            r == Attrs::plain(),
    {
        Attrs {
            color_opt: None,
            family: Family::SansSerif,
            weight: 400,
            italic: false,
            metadata: 0,
            metrics_opt: None,
        }
    }
}

/// Attributes of the bytes from `start` to `end` of a line.
#[derive(Clone, Copy, PartialEq, Eq, Structural, Debug)]
pub struct AttrsSpan {
    /// First byte.
    pub start: usize,
    /// One past the last byte.
    pub end: usize,
    /// The attributes.
    pub attrs: Attrs,
}

/// What an [`AttrsList`] holds.
pub struct AttrsListView {
    /// Attributes of the bytes that no span covers.
    pub defaults: Attrs,
    /// The spans; where two overlap the later one counts.
    pub spans: Seq<AttrsSpan>,
}

/// The attributes of one line: defaults, and spans that differ from them.
#[derive(Debug)]
pub struct AttrsList {
    /// Attributes of the bytes that no span covers.
    pub defaults: Attrs,
    /// The spans; where two overlap the later one counts.
    pub spans: Vec<AttrsSpan>,
}

impl View for AttrsList {
    type V = AttrsListView;

    open spec fn view(&self) -> AttrsListView {
        AttrsListView { defaults: self.defaults, spans: self.spans@ }
    }
}

/// A list without spans.
pub open spec fn only(defaults: Attrs) -> AttrsListView {
    AttrsListView { defaults, spans: seq![] }
}

/// The attributes of byte `i` by the given spans.
pub open spec fn attrs_at(l: AttrsListView, i: int) -> Attrs
    decreases l.spans.len(),
{
    if l.spans.len() == 0 {
        l.defaults
    } else if l.spans.last().start <= i < l.spans.last().end {
        l.spans.last().attrs
    } else {
        attrs_at(AttrsListView { defaults: l.defaults, spans: l.spans.drop_last() }, i)
    }
}

impl AttrsList {
    /// A list with the given defaults and no spans.
    pub fn new(defaults: &Attrs) -> (r: AttrsList)
        ensures
            r@ == only(*defaults),
    {
        AttrsList { defaults: *defaults, spans: Vec::new() }
    }

    /// The default attributes.
    pub fn defaults(&self) -> (r: Attrs)
        ensures
            r == self@.defaults,
    {
        self.defaults
    }

    /// The same list once more.
    pub fn duplicate(&self) -> (r: AttrsList)
        ensures
            r@ == self@,
    {
        let mut spans: Vec<AttrsSpan> = Vec::new();
        let mut i: usize = 0;
        while i < self.spans.len()
            invariant
                i <= self.spans@.len(),
                spans@ == self.spans@.take(i as int),
            decreases self.spans@.len() - i,
        {
            spans.push(self.spans[i]);
            i = i + 1;
            assert(self.spans@.take(i as int) =~= self.spans@.take(i - 1).push(
                self.spans@[i - 1],
            ));
        }
        assert(spans@ =~= self.spans@);
        AttrsList { defaults: self.defaults, spans }
    }

    /// Gives the bytes from `start` to `end` the attributes `attrs`.
    pub fn add_span(&mut self, start: usize, end: usize, attrs: &Attrs)
        ensures
            final(self)@.defaults == old(self)@.defaults,
            final(self)@.spans == old(self)@.spans.push(AttrsSpan { start, end, attrs: *attrs }),
            forall|i: int| #[trigger]
                attrs_at(final(self)@, i) == if start <= i < end {
                    *attrs
                } else {
                    attrs_at(old(self)@, i)
                },
    {
        self.spans.push(AttrsSpan { start, end, attrs: *attrs });
        assert(self@.spans.drop_last() =~= old(self)@.spans);
    }

    /// The attributes of byte `i`.
    pub fn get_span(&self, i: usize) -> (r: Attrs)
        ensures
            r == attrs_at(self@, i as int),
    {
        let mut n: usize = self.spans.len();
        assert(self.spans@.take(n as int) =~= self.spans@);
        while n > 0
            invariant
                n <= self.spans@.len(),
                attrs_at(self@, i as int) == attrs_at(
                    AttrsListView { defaults: self.defaults, spans: self.spans@.take(n as int) },
                    i as int,
                ),
            decreases n,
        {
            assert(self.spans@.take(n as int).drop_last() =~= self.spans@.take(n - 1));
            let span = self.spans[n - 1];
            if span.start <= i && i < span.end {
                return span.attrs;
            }
            n = n - 1;
        }
        self.defaults
    }

    /// Tells whether two lists hold the same defaults and spans.
    pub fn equals(&self, other: &AttrsList) -> (r: bool)
        ensures
            r == (self@ == other@),
    {
        if self.defaults != other.defaults || self.spans.len() != other.spans.len() {
            return false;
        }
        let mut i: usize = 0;
        while i < self.spans.len()
            invariant
                self.spans@.len() == other.spans@.len(),
                i <= self.spans@.len(),
                forall|j: int| 0 <= j < i ==> self.spans@[j] == other.spans@[j],
            decreases self.spans@.len() - i,
        {
            if self.spans[i] != other.spans[i] {
                assert(self@.spans[i as int] != other@.spans[i as int]);
                return false;
            }
            i = i + 1;
        }
        assert(self.spans@ =~= other.spans@);
        true
    }

    /// Cuts the list at byte `at`: the bytes behind it go to the returned
    /// list, counted from there.
    pub fn split_off(&mut self, at: usize) -> (r: AttrsList)
        ensures
            final(self)@ == old(self)@,
            r@.defaults == old(self)@.defaults,
            forall|i: int| 0 <= i ==> #[trigger] attrs_at(r@, i) == attrs_at(old(self)@, at + i),
    {
        let mut spans: Vec<AttrsSpan> = Vec::new();
        let mut n: usize = 0;
        let ghost l = self@;
        while n < self.spans.len()
            invariant
                self@ == l,
                self@ == old(self)@,
                n <= self.spans@.len(),
                forall|i: int|
                    0 <= i ==> #[trigger] attrs_at(
                        AttrsListView { defaults: l.defaults, spans: spans@ },
                        i,
                    ) == attrs_at(
                        AttrsListView { defaults: l.defaults, spans: l.spans.take(n as int) },
                        at + i,
                    ),
            decreases self.spans@.len() - n,
        {
            let span = self.spans[n];
            let ghost before = spans@;
            if span.end > at {
                let start = if span.start > at {
                    span.start - at
                } else {
                    0
                };
                spans.push(AttrsSpan { start, end: span.end - at, attrs: span.attrs });
                assert(spans@.drop_last() =~= before);
            }
            proof {
                let upto = l.spans.take(n + 1);
                assert(upto.drop_last() =~= l.spans.take(n as int));
                assert(upto.last() == span);
                assert forall|i: int| 0 <= i implies #[trigger] attrs_at(
                    AttrsListView { defaults: l.defaults, spans: spans@ },
                    i,
                ) == attrs_at(AttrsListView { defaults: l.defaults, spans: upto }, at + i) by {
                    let earlier = AttrsListView { defaults: l.defaults, spans: before };
                    assert(attrs_at(earlier, i) == attrs_at(
                        AttrsListView { defaults: l.defaults, spans: l.spans.take(n as int) },
                        at + i,
                    ));
                }
            }
            n = n + 1;
        }
        assert(l.spans.take(n as int) =~= l.spans);
        AttrsList { defaults: self.defaults, spans }
    }
}

} // verus!
