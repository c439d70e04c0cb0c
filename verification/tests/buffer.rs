//! Buffers over single-precision arithmetic and a font of equal widths.

use textbuf::attrs::{Attrs, AttrsList, AttrsListView, Color};
use textbuf::buffer::{Buffer, LineStore};
use textbuf::cursor::{Affinity, Cursor, Motion, Scroll};
use textbuf::ending::LineEnding;
use textbuf::layout::{
    Direction, FontSystem, Fonts, LayoutGlyph, LayoutLine, LayoutParams, LayoutView, ShapeGlyph,
    ShapeLine, ShapeLineView, Shaping, TextBytes, Wrap,
};
use textbuf::line::BufferLine;
use textbuf::pixel::{Metrics, PixelMath, Px};
use textbuf::render::{DrawList, Drawn};
use textbuf::rope_store::RopeStore;
use textbuf::shape_cap::MAX_SHAPE_BYTES;

/// Every character is half as wide as the font is high.
struct HalfFont;

fn f(p: Px) -> f32 {
    f32::from_bits(p.bits)
}

fn px(v: f32) -> Px {
    Px { bits: v.to_bits() }
}

impl PixelMath for HalfFont {
    fn sum(a: Px, b: Px) -> Px {
        Self::plus(a, b)
    }

    fn difference(a: Px, b: Px) -> Px {
        Self::minus(a, b)
    }

    fn product(a: Px, b: Px) -> Px {
        Self::times(a, b)
    }

    fn quotient(a: Px, b: Px) -> Px {
        Self::over(a, b)
    }

    fn counted(n: usize) -> Px {
        Self::count(n)
    }

    fn truncated(a: Px) -> i32 {
        Self::truncate(a)
    }

    fn plus(a: Px, b: Px) -> Px {
        px(f(a) + f(b))
    }

    fn minus(a: Px, b: Px) -> Px {
        px(f(a) - f(b))
    }

    fn times(a: Px, b: Px) -> Px {
        px(f(a) * f(b))
    }

    fn over(a: Px, b: Px) -> Px {
        px(f(a) / f(b))
    }

    fn count(n: usize) -> Px {
        px(n as f32)
    }

    fn truncate(a: Px) -> i32 {
        f(a) as i32
    }
}

impl FontSystem for HalfFont {
    fn fonts(&self) -> Fonts {
        unreachable!()
    }

    fn shaped(
        _fonts: Fonts,
        _text: TextBytes,
        _attrs: AttrsListView,
        _shaping: Shaping,
        _tab_width: u16,
        _direction: Direction,
    ) -> ShapeLineView {
        unreachable!()
    }

    fn laid_out(_fonts: Fonts, _shape: ShapeLineView, _params: LayoutParams) -> LayoutView {
        unreachable!()
    }

    fn law_shape_fits(
        _fonts: Fonts,
        _text: TextBytes,
        _attrs: AttrsListView,
        _shaping: Shaping,
        _tab_width: u16,
        _direction: Direction,
    ) {
    }

    fn law_tab_width(
        _fonts: Fonts,
        _text: TextBytes,
        _attrs: AttrsListView,
        _shaping: Shaping,
        _tab_width: u16,
        _other_width: u16,
        _direction: Direction,
    ) {
    }

    fn law_layout_fits(_fonts: Fonts, _text: TextBytes, _shape: ShapeLineView, _params: LayoutParams) {
    }

    fn shape(
        &mut self,
        text: &str,
        attrs: &AttrsList,
        _shaping: Shaping,
        tab_width: u16,
        direction: Direction,
    ) -> ShapeLine {
        let rtl = direction == Direction::RightToLeft;
        let glyphs = text
            .char_indices()
            .map(|(start, c)| ShapeGlyph {
                start,
                end: start + c.len_utf8(),
                rtl,
                advance: px(if c == '\t' { 0.5 * tab_width as f32 } else { 0.5 }),
                color_opt: attrs.get_span(start).color_opt,
            })
            .collect();
        ShapeLine { rtl, glyphs }
    }

    fn layout(&mut self, shape: &ShapeLine, params: LayoutParams) -> Vec<LayoutLine> {
        let size = f(params.font_size);
        let limit = match params.width_opt {
            Some(width) if params.wrap != Wrap::Unwrapped => f(width),
            _ => f32::INFINITY,
        };
        let mut lines = Vec::new();
        let mut glyphs: Vec<LayoutGlyph> = Vec::new();
        let mut x = 0.0;
        for glyph in &shape.glyphs {
            let w = f(glyph.advance) * size;
            if !glyphs.is_empty() && x + w > limit {
                lines.push(row(std::mem::take(&mut glyphs), x, size));
                x = 0.0;
            }
            glyphs.push(LayoutGlyph {
                start: glyph.start,
                end: glyph.end,
                rtl: glyph.rtl,
                x: px(x),
                w: px(w),
                color_opt: glyph.color_opt,
            });
            x += w;
        }
        lines.push(row(glyphs, x, size));
        lines
    }
}

fn row(glyphs: Vec<LayoutGlyph>, w: f32, size: f32) -> LayoutLine {
    LayoutLine {
        w: px(w),
        max_ascent: px(0.8 * size),
        max_descent: px(0.2 * size),
        line_height_opt: None,
        glyphs,
        decorations: Vec::new(),
    }
}

const LINE_HEIGHT: f32 = 20.0;

fn metrics() -> Metrics {
    Metrics::new(px(14.0), px(LINE_HEIGHT))
}

fn rope_buffer(lines: usize) -> Buffer {
    let text: String = (0..lines).map(|i| format!("line {i} padding padding\n")).collect();
    let store = RopeStore::from_text(&text, &Attrs::new(), Shaping::Advanced);
    let mut buffer = Buffer::new_rope(metrics(), store);
    buffer.set_size(Some(px(800.0)), Some(px(600.0)));
    buffer
}

fn full_buffer(text: &str) -> Buffer {
    let mut buffer = Buffer::new_empty(metrics());
    buffer.set_size(Some(px(800.0)), Some(px(600.0)));
    buffer.set_text(text, &Attrs::new(), Shaping::Advanced, None);
    buffer
}

fn buffer_with_lines(n: usize, height: Option<f32>) -> (HalfFont, Buffer) {
    let text = (0..n).map(|i| format!("line {i}")).collect::<Vec<_>>().join("\n");
    let mut buffer = Buffer::new_empty(metrics());
    buffer.set_size(Some(px(800.0)), height.map(px));
    buffer.set_text(&text, &Attrs::new(), Shaping::Advanced, None);
    (HalfFont, buffer)
}

/// Index and text of the line of each visual line in the view.
fn shown(buffer: &Buffer) -> Vec<(usize, String)> {
    buffer
        .layout_runs()
        .collect_runs::<HalfFont>()
        .iter()
        .map(|run| (run.line_i, run.text.to_string()))
        .collect()
}

fn visible_runs(buffer: &Buffer) -> Vec<usize> {
    shown(buffer).into_iter().map(|(line_i, _)| line_i).collect()
}

fn tops(buffer: &Buffer) -> Vec<(usize, f32)> {
    buffer
        .layout_runs()
        .collect_runs::<HalfFont>()
        .iter()
        .map(|run| (run.line_i, f(run.line_top)))
        .collect()
}

fn reconstruct(buffer: &Buffer) -> String {
    let mut out = String::new();
    for i in 0..buffer.line_count() {
        out.push_str(buffer.line_text_cow(i).expect("line in bounds"));
        out.push_str(buffer.line_ending(i).expect("line in bounds").as_str());
    }
    out
}

/// Shaping must be bounded per line no matter how long the line is, and the cap
/// must never touch the text.
#[test]
fn giant_single_line_shaping_is_capped() {
    let mut font_system = HalfFont;
    let unit = r#"{"key":"value","n":12345},"#;
    let text: String = unit.repeat(8 * 1024); // ~208 KB, one line, no newlines
    assert!(text.len() > MAX_SHAPE_BYTES * 6);

    let mut buffer = Buffer::new_empty(Metrics::new(px(14.0), px(20.0)));
    buffer.set_size(Some(px(800.0)), Some(px(600.0)));
    buffer.set_text(&text, &Attrs::new(), Shaping::Advanced, None);

    let layout = buffer.line_layout(&mut font_system, 0).expect("layout of line 0");
    let max_end = layout
        .iter()
        .flat_map(|line| line.glyphs.iter())
        .map(|glyph| glyph.end)
        .max()
        .unwrap_or(0);
    assert!(
        max_end <= MAX_SHAPE_BYTES,
        "glyphs extend to byte {max_end}, shaping cap is {MAX_SHAPE_BYTES}"
    );
    // All that may be shaped is.
    assert_eq!(max_end, MAX_SHAPE_BYTES);
    // The cap bounds SHAPING only; the document itself stays whole.
    assert_eq!(buffer.line(0).expect("line 0").text().len(), text.len());
}

/// The cap must not split a multi-byte character.
#[test]
fn shape_cap_snaps_to_char_boundary() {
    let mut font_system = HalfFont;
    // 3-byte chars ensure the cap lands mid-char unless snapped.
    let text: String = "€".repeat(MAX_SHAPE_BYTES / 3 + 64);

    let mut buffer = Buffer::new_empty(Metrics::new(px(14.0), px(20.0)));
    buffer.set_size(Some(px(800.0)), Some(px(600.0)));
    buffer.set_text(&text, &Attrs::new(), Shaping::Advanced, None);

    // Must not panic on a non-boundary slice.
    let layout = buffer.line_layout(&mut font_system, 0).expect("layout of line 0");
    let max_end = layout
        .iter()
        .flat_map(|line| line.glyphs.iter())
        .map(|glyph| glyph.end)
        .max()
        .unwrap_or(0);
    assert!(max_end <= MAX_SHAPE_BYTES);
    assert_eq!(max_end, MAX_SHAPE_BYTES / 3 * 3);
    assert_eq!(text.len() % 3, 0);
}

/// A rope shapes no more of a line than a full buffer does.
#[test]
fn giant_rope_line_shaping_is_capped() {
    let text = "x".repeat(MAX_SHAPE_BYTES + 1);
    let store = RopeStore::from_text(&text, &Attrs::new(), Shaping::Advanced);
    let mut buffer = Buffer::new_rope(metrics(), store);
    let shape = buffer.line_shape(&mut HalfFont, 0).expect("shape of line 0");
    assert_eq!(shape.glyphs.len(), MAX_SHAPE_BYTES);
    assert_eq!(buffer.line_text_cow(0).map(str::len), Some(text.len()));
}

#[test]
fn rope_accessors_cold_and_warm() {
    let buffer = rope_buffer(10_000);
    assert!(buffer.is_rope());
    // +1: the trailing newline produces a final empty line.
    assert_eq!(buffer.line_count(), 10_001);
    assert!(!buffer.lines_is_empty());
    // Cold: no line materialized yet, but text reads work anywhere.
    assert!(buffer.line(9_999).is_none());
    assert_eq!(buffer.line_text_cow(9_999), Some("line 9999 padding padding"));
    assert!(buffer.line_text_cow(10_001).is_none());
}

#[test]
fn rope_layout_runs_start_at_scroll() {
    let mut font_system = HalfFont;
    let mut buffer = rope_buffer(10_000);
    buffer.shape_until_scroll(&mut font_system, false);
    let line_indices = visible_runs(&buffer);
    assert!(!line_indices.is_empty());
    assert_eq!(line_indices[0], buffer.scroll().line);
    assert_eq!(line_indices[0], 0);
    // Unwrapped short lines: runs walk consecutive absolute indices.
    for pair in line_indices.windows(2) {
        assert_eq!(pair[1], pair[0] + 1);
    }
}

#[test]
fn rope_deep_scroll_keeps_absolute_coordinates() {
    let mut font_system = HalfFont;
    let mut buffer = rope_buffer(10_000);
    buffer.shape_until_scroll(&mut font_system, false);

    let mut scroll = buffer.scroll();
    scroll.line = 7_000;
    buffer.set_scroll(scroll);
    buffer.shape_until_scroll(&mut font_system, false);

    let runs = shown(&buffer);
    assert!(!runs.is_empty());
    // No window offset anywhere.
    assert_eq!(runs[0].0, 7_000);
    assert_eq!(runs[0].1, "line 7000 padding padding");
    assert!(runs.iter().all(|(line_i, _)| *line_i >= 7_000));

    let cursor = buffer.hit::<HalfFont>(px(10.0), px(10.0)).expect("hit inside shaped region");
    assert!(cursor.line >= 7_000, "hit cursor line {}", cursor.line);
}

#[test]
fn thaw_on_first_edit() {
    let mut buffer = rope_buffer(1_000);
    assert!(buffer.is_rope());

    assert!(buffer.ensure_editable());
    let line = buffer.line_mut(500).expect("line 500");
    let text = format!("hello {}", line.text());
    let ending = line.ending();
    line.set_text(text, ending, AttrsList::new(&Attrs::new()));

    assert!(!buffer.is_rope(), "first edit must thaw the rope store into a full one");
    assert_eq!(buffer.line_text_cow(500), Some("hello line 500 padding padding"));
    // No newline inserted: line count is unchanged (1000 lines + trailing empty).
    assert_eq!(buffer.line_count(), 1_001);
}

#[test]
fn thaw_cap_refuses_edit() {
    let mut buffer = rope_buffer(1_000);
    buffer.set_max_thaw_bytes(Some(10));

    assert!(!buffer.ensure_editable(), "rejected edit must be a no-op");

    assert!(buffer.is_rope(), "over-cap buffer must stay rope-backed");
    assert_eq!(buffer.line_text_cow(500), Some("line 500 padding padding"));
}

#[test]
fn reset_shaping_reshapes_rope_at_absolute_scroll() {
    let mut font_system = HalfFont;
    let mut buffer = rope_buffer(10_000);
    let mut scroll = buffer.scroll();
    scroll.line = 7_000;
    buffer.set_scroll(scroll);
    buffer.shape_until_scroll(&mut font_system, false);
    assert!(buffer.layout_runs().next_run::<HalfFont>().is_some());

    // All shaping state is dropped; the next pass must rebuild it, not return
    // early on clean dirty flags and render nothing.
    buffer.reset_shaping();
    buffer.shape_until_scroll(&mut font_system, false);

    let runs = visible_runs(&buffer);
    assert!(!runs.is_empty(), "reset_shaping must leave the buffer reshapeable");
    assert_eq!(runs[0], 7_000, "absolute coordinates survive the reset");
}

#[test]
fn reset_shaping_resets_full_lines_and_reshapes() {
    let mut font_system = HalfFont;
    let mut buffer = Buffer::new(&mut font_system, metrics());
    buffer.set_size(Some(px(800.0)), Some(px(600.0)));
    buffer.set_text("alpha\nbeta\ngamma", &Attrs::new(), Shaping::Advanced, None);
    buffer.shape_until_scroll(&mut font_system, false);
    assert!(buffer.line(0).expect("line 0").shape_opt().is_some());
    buffer.line_mut(1).expect("line 1").set_metadata(7);

    buffer.reset_shaping();

    assert!(buffer.line(0).expect("line 0").shape_opt().is_none());
    assert_eq!(buffer.line(1).expect("line 1").metadata(), None);

    buffer.shape_until_scroll(&mut font_system, false);
    assert_eq!(buffer.layout_runs().collect_runs::<HalfFont>().len(), 3);
}

#[test]
fn hidden_lines_are_skipped_by_layout_runs() {
    let (mut font_system, mut buffer) = buffer_with_lines(6, Some(600.0));
    assert!(buffer.set_line_hidden(1, true));
    assert!(buffer.set_line_hidden(2, true));
    buffer.shape_until_scroll(&mut font_system, false);

    let runs = tops(&buffer);
    let lines: Vec<usize> = runs.iter().map(|(line_i, _)| *line_i).collect();
    assert_eq!(lines, vec![0, 3, 4, 5]);
    // Hidden lines contribute no height: line 3 sits directly below line 0.
    assert_eq!(runs[1].1, LINE_HEIGHT);
    assert_eq!(runs[3].1, 3.0 * LINE_HEIGHT);
}

#[test]
fn hiding_after_shape_marks_dirty_and_reshapes() {
    let (mut font_system, mut buffer) = buffer_with_lines(6, Some(600.0));
    buffer.shape_until_scroll(&mut font_system, false);
    assert_eq!(visible_runs(&buffer), vec![0, 1, 2, 3, 4, 5]);

    buffer.set_redraw(false);
    assert!(buffer.set_line_hidden(2, true));
    assert!(buffer.redraw(), "hiding a line must request a redraw");
    buffer.shape_until_scroll(&mut font_system, false);
    assert_eq!(visible_runs(&buffer), vec![0, 1, 3, 4, 5]);

    // Setting the same value again is a no-op.
    buffer.set_redraw(false);
    assert!(!buffer.set_line_hidden(2, true));
    assert!(!buffer.redraw());

    // Unhiding restores the line without any reshaping loss.
    assert!(buffer.set_line_hidden(2, false));
    buffer.shape_until_scroll(&mut font_system, false);
    assert_eq!(visible_runs(&buffer), vec![0, 1, 2, 3, 4, 5]);
}

/// The view must fill with *visible* lines across a hidden gap.
#[test]
fn viewport_fills_with_visible_lines_across_hidden_gap() {
    let (mut font_system, mut buffer) = buffer_with_lines(20, Some(5.0 * LINE_HEIGHT));
    for line_i in 1..=10 {
        buffer.set_line_hidden(line_i, true);
    }
    buffer.shape_until_scroll(&mut font_system, false);

    let lines = visible_runs(&buffer);
    assert!(
        lines.len() >= 5,
        "viewport of 5 line-heights must fill with 5 visible lines, got {lines:?}"
    );
    assert_eq!(&lines[..5], &[0, 11, 12, 13, 14]);
    assert!(lines.iter().all(|&line_i| line_i == 0 || line_i >= 11));
}

#[test]
fn vertical_motion_lands_on_nearest_visible_line() {
    let (mut font_system, mut buffer) = buffer_with_lines(10, Some(600.0));
    for line_i in 1..=3 {
        buffer.set_line_hidden(line_i, true);
    }
    buffer.shape_until_scroll(&mut font_system, false);

    let (cursor, _) = buffer
        .cursor_motion(&mut font_system, Cursor::new(0, 0), None, Motion::Down)
        .expect("down motion");
    assert_eq!(cursor.line, 4, "Down from line 0 must skip hidden 1..=3");

    let (cursor, _) = buffer
        .cursor_motion(&mut font_system, Cursor::new(4, 0), None, Motion::Up)
        .expect("up motion");
    assert_eq!(cursor.line, 0, "Up from line 4 must skip hidden 1..=3");
}

/// With only hidden lines beyond the edge, vertical motion stays put.
#[test]
fn vertical_motion_stops_at_hidden_edges() {
    let (mut font_system, mut buffer) = buffer_with_lines(10, Some(600.0));
    for line_i in (0..=2).chain(7..=9) {
        buffer.set_line_hidden(line_i, true);
    }
    buffer.shape_until_scroll(&mut font_system, false);

    let (cursor, _) = buffer
        .cursor_motion(&mut font_system, Cursor::new(3, 0), None, Motion::Up)
        .expect("up motion");
    assert_eq!(cursor.line, 3, "no visible line above line 3");

    let (cursor, _) = buffer
        .cursor_motion(&mut font_system, Cursor::new(6, 0), None, Motion::Down)
        .expect("down motion");
    assert_eq!(cursor.line, 6, "no visible line below line 6");
}

/// Pages cross hidden lines entirely.
#[test]
fn page_motions_skip_hidden_lines() {
    let (mut font_system, mut buffer) = buffer_with_lines(30, Some(5.0 * LINE_HEIGHT));
    for line_i in 2..=25 {
        buffer.set_line_hidden(line_i, true);
    }
    buffer.shape_until_scroll(&mut font_system, false);

    // 5 Down steps: 0 -> 1 -> 26 -> 27 -> 28 -> 29
    let (cursor, _) = buffer
        .cursor_motion(&mut font_system, Cursor::new(0, 0), None, Motion::PageDown)
        .expect("page down");
    assert_eq!(cursor.line, 29);

    // And back: 29 -> 28 -> 27 -> 26 -> 1 -> 0
    let (cursor, _) = buffer
        .cursor_motion(&mut font_system, cursor, None, Motion::PageUp)
        .expect("page up");
    assert_eq!(cursor.line, 0);
}

/// Hidden lines keep their text and endings.
#[test]
fn hidden_lines_keep_text_and_endings_byte_exact() {
    let text = "alpha\r\nbeta\ngamma\r\ndelta\nepsilon";
    let mut buffer = Buffer::new_empty(metrics());
    buffer.set_text(text, &Attrs::new(), Shaping::Advanced, None);

    for line_i in 1..=3 {
        buffer.set_line_hidden(line_i, true);
    }
    assert_eq!(reconstruct(&buffer), text);

    for line_i in 1..=3 {
        buffer.set_line_hidden(line_i, false);
    }
    assert_eq!(reconstruct(&buffer), text);
}

#[test]
fn visible_line_count_excludes_hidden() {
    let (_font_system, mut buffer) = buffer_with_lines(10, Some(600.0));
    assert_eq!(buffer.visible_line_count(), 10);

    for line_i in [2, 5, 8] {
        assert!(buffer.set_line_hidden(line_i, true));
    }
    assert_eq!(buffer.visible_line_count(), 7);
    assert!(buffer.line_hidden(5));
    assert!(!buffer.line_hidden(4));

    // Out of bounds: no-op, reports not hidden.
    assert!(!buffer.set_line_hidden(999, true));
    assert!(!buffer.line_hidden(999));

    assert!(buffer.set_line_hidden(5, false));
    assert_eq!(buffer.visible_line_count(), 8);
}

/// Stale hidden flags must not survive the reuse of lines.
#[test]
fn set_text_clears_hidden_on_reused_lines() {
    let (_font_system, mut buffer) = buffer_with_lines(5, Some(600.0));
    for line_i in 1..=3 {
        buffer.set_line_hidden(line_i, true);
    }
    assert_eq!(buffer.visible_line_count(), 2);

    buffer.set_text("a\nb\nc\nd\ne", &Attrs::new(), Shaping::Advanced, None);
    assert_eq!(buffer.visible_line_count(), buffer.line_count());
    for line_i in 0..buffer.line_count() {
        assert!(!buffer.line_hidden(line_i), "line {line_i} leaked hidden");
    }
}

/// Every line hidden: the view settles and shows nothing.
#[test]
fn fully_hidden_buffer_settles_without_hanging() {
    let (mut font_system, mut buffer) = buffer_with_lines(5, Some(600.0));
    for line_i in 0..5 {
        buffer.set_line_hidden(line_i, true);
    }
    buffer.shape_until_scroll(&mut font_system, false);
    assert_eq!(buffer.layout_runs().collect_runs::<HalfFont>().len(), 0);
    assert_eq!(buffer.visible_line_count(), 0);
}

/// A hidden prefix with a short visible tail settles at the top.
#[test]
fn hidden_prefix_scroll_settles_at_top() {
    let (mut font_system, mut buffer) = buffer_with_lines(13, Some(600.0));
    for line_i in 0..=9 {
        buffer.set_line_hidden(line_i, true);
    }
    let mut scroll = buffer.scroll();
    scroll.line = 10;
    buffer.set_scroll(scroll);
    buffer.shape_until_scroll(&mut font_system, false);

    let runs = tops(&buffer);
    let lines: Vec<usize> = runs.iter().map(|(line_i, _)| *line_i).collect();
    assert_eq!(lines, vec![10, 11, 12]);
    assert_eq!(runs[0].1, 0.0, "visible tail must render at the top");
}

/// Hidden lines are preserved through set_text, inherited by split_off, and
/// cleared by reset_new.
#[test]
fn buffer_line_hidden_lifecycle_follows_align() {
    let mut line = BufferLine::new(
        "hello world".to_string(),
        LineEnding::Lf,
        AttrsList::new(&Attrs::new()),
        Shaping::Advanced,
    );
    assert!(!line.hidden());
    assert!(line.set_hidden(true));
    assert!(!line.set_hidden(true), "same value is a no-op");

    line.set_text("other".to_string(), LineEnding::Lf, AttrsList::new(&Attrs::new()));
    assert!(line.hidden(), "text edits keep display properties");

    let tail = line.split_off(2);
    assert!(line.hidden() && tail.hidden(), "both split halves stay hidden");

    line.reset_new(
        "fresh".to_string(),
        LineEnding::Lf,
        AttrsList::new(&Attrs::new()),
        Shaping::Advanced,
    );
    assert!(!line.hidden(), "wholesale replacement clears hidden");
}

/// Edits inside, above and below a view deep in a rope: the view shows the
/// text as it stands, by its index in the whole text.
#[test]
fn shaped_consistency_after_native_edits_deep_in_file() {
    fn rope(buffer: &mut Buffer) -> &mut RopeStore {
        match &mut buffer.store {
            LineStore::Rope(store) => store,
            LineStore::Full(_) => panic!("must stay rope-backed"),
        }
    }

    fn assert_visible_consistent(buffer: &mut Buffer, ctx: &str) {
        buffer.dirty.scroll = true;
        buffer.shape_until_scroll(&mut HalfFont, false);
        let runs = shown(buffer);
        assert!(!runs.is_empty(), "{ctx}: viewport must have runs");
        for pair in runs.windows(2) {
            assert_eq!(pair[1].0, pair[0].0 + 1, "{ctx}: run line indices must stay consecutive");
        }
        for (line_i, run_text) in &runs {
            let store_text = buffer.line_text_cow(*line_i).expect("visible line in bounds");
            assert_eq!(
                store_text, run_text,
                "{ctx}: run text must match store text at absolute line {line_i}"
            );
        }
        assert!(buffer.is_rope(), "{ctx}: must stay rope-backed");
    }

    let mut buffer = rope_buffer(10_000);
    let mut scroll = buffer.scroll();
    scroll.line = 5_000;
    buffer.set_scroll(scroll);
    assert_visible_consistent(&mut buffer, "before edits");

    rope(&mut buffer).insert_text(5_002, 5, "IN-VIEW ");
    assert_visible_consistent(&mut buffer, "after in-viewport insert");

    rope(&mut buffer).insert_text(100, 0, "ABOVE\n");
    assert_visible_consistent(&mut buffer, "after above-viewport insert");

    let join_len = buffer.line_text_cow(200).map_or(0, |c| c.len());
    rope(&mut buffer).delete_text(200, join_len, 201, 0);
    assert_visible_consistent(&mut buffer, "after above-viewport delete");

    rope(&mut buffer).insert_text(9_000, 0, "BELOW ");
    assert_visible_consistent(&mut buffer, "after below-viewport insert");

    let text = reconstruct(&buffer);
    assert!(text.contains("IN-VIEW "));
    assert!(text.contains("ABOVE\n"));
    assert!(text.contains("BELOW "));
}

#[test]
fn a_new_buffer_has_one_empty_line() {
    let mut font_system = HalfFont;
    let buffer = Buffer::new(&mut font_system, metrics());
    assert_eq!(buffer.line_count(), 1);
    assert_eq!(buffer.line_text(0), Some(""));
    assert!(!buffer.is_rope());
    assert!(buffer.redraw());
    assert!(buffer.line(0).expect("line 0").layout_opt().is_some());
}

#[test]
fn a_view_beyond_the_end_is_moved_up() {
    let (mut font_system, mut buffer) = buffer_with_lines(50, Some(100.0));
    buffer.set_scroll(Scroll::new(49, px(0.0), px(0.0)));
    buffer.shape_until_scroll(&mut font_system, false);
    // Five lines of twenty pixels: the view ends with line 49.
    assert_eq!(buffer.scroll(), Scroll::new(45, px(0.0), px(0.0)));
    assert_eq!(tops(&buffer)[0], (45, 0.0));
    assert_eq!(*tops(&buffer).last().expect("a line"), (49, 80.0));
}

#[test]
fn a_negative_scroll_moves_back_by_lines() {
    let (mut font_system, mut buffer) = buffer_with_lines(50, Some(100.0));
    buffer.set_scroll(Scroll::new(10, px(-25.0), px(0.0)));
    buffer.shape_until_scroll(&mut font_system, false);
    assert_eq!(buffer.scroll(), Scroll::new(8, px(15.0), px(0.0)));
    assert_eq!(tops(&buffer)[0], (8, -15.0));
}

#[test]
fn a_large_scroll_moves_on_by_lines() {
    let (mut font_system, mut buffer) = buffer_with_lines(50, Some(100.0));
    buffer.set_scroll(Scroll::new(0, px(47.5), px(0.0)));
    buffer.shape_until_scroll(&mut font_system, false);
    assert_eq!(buffer.scroll(), Scroll::new(2, px(7.5), px(0.0)));
}

#[test]
fn a_scroll_line_beyond_the_text_is_clamped() {
    let (mut font_system, mut buffer) = buffer_with_lines(3, Some(20.0));
    buffer.set_scroll(Scroll::new(99, px(5.0), px(0.0)));
    buffer.shape_until_scroll(&mut font_system, false);
    assert_eq!(buffer.scroll(), Scroll::new(2, px(0.0), px(0.0)));
}

#[test]
fn pruning_drops_what_is_not_shown() {
    let (mut font_system, mut buffer) = buffer_with_lines(50, Some(100.0));
    buffer.shape_until_scroll(&mut font_system, false);
    assert!(buffer.line(0).expect("line 0").layout_opt().is_some());
    buffer.set_scroll(Scroll::new(20, px(0.0), px(0.0)));
    buffer.shape_until_scroll(&mut font_system, true);
    assert!(buffer.line(0).expect("line 0").layout_opt().is_none());
    assert!(buffer.line(20).expect("line 20").layout_opt().is_some());
    assert!(buffer.line(40).expect("line 40").layout_opt().is_none());
}

#[test]
fn an_unbounded_rope_is_shaped_for_fifty_lines() {
    let mut font_system = HalfFont;
    let mut buffer = rope_buffer(1_000);
    buffer.set_size(Some(px(800.0)), None);
    buffer.shape_until_scroll(&mut font_system, false);
    assert!(buffer.line(50).is_some());
    assert!(buffer.line(60).is_none());
}

#[test]
fn a_cursor_below_the_view_is_brought_into_it() {
    let (mut font_system, mut buffer) = buffer_with_lines(50, Some(100.0));
    buffer.shape_until_cursor(&mut font_system, Cursor::new(30, 0), false);
    assert_eq!(buffer.scroll(), Scroll::new(26, px(0.0), px(0.0)));
    // And one above it.
    buffer.shape_until_cursor(&mut font_system, Cursor::new(3, 0), false);
    assert_eq!(buffer.scroll(), Scroll::new(3, px(0.0), px(0.0)));
}

#[test]
fn a_cursor_beside_the_view_is_brought_into_it() {
    let mut font_system = HalfFont;
    let mut buffer = full_buffer("abcdefghijklmnopqrstuvwxyz");
    buffer.set_wrap(Wrap::Unwrapped);
    buffer.set_size(Some(px(70.0)), Some(px(100.0)));
    buffer.set_redraw(false);
    let cursor = Cursor::new_with_affinity(0, 20, Affinity::After);
    buffer.shape_until_cursor(&mut font_system, cursor, false);
    // Glyph 20 ends at 21 * 7 pixels.
    assert_eq!(buffer.scroll().horizontal, px(147.0 - 70.0));
    assert!(buffer.redraw());
    buffer.shape_until_cursor(&mut font_system, Cursor::new_with_affinity(0, 2, Affinity::After), false);
    assert_eq!(buffer.scroll().horizontal, px(14.0));
}

#[test]
fn a_cursor_in_a_wrapped_line_is_brought_into_view() {
    let mut font_system = HalfFont;
    let mut buffer = full_buffer(&"x".repeat(100));
    // Ten characters to a visual line, two visual lines to the view.
    buffer.set_size(Some(px(70.0)), Some(px(40.0)));
    let cursor = Cursor::new_with_affinity(0, 55, Affinity::After);
    buffer.shape_until_cursor(&mut font_system, cursor, false);
    assert_eq!(buffer.scroll(), Scroll::new(0, px(80.0), px(0.0)));
}

#[test]
fn a_point_is_at_the_nearest_character() {
    let mut font_system = HalfFont;
    let mut buffer = full_buffer("abc\n日本語");
    buffer.shape_until_scroll(&mut font_system, false);
    // Characters are 7 pixels wide; the left half belongs to the one before.
    assert_eq!(
        buffer.hit::<HalfFont>(px(8.0), px(5.0)),
        Some(Cursor::new_with_affinity(0, 1, Affinity::After))
    );
    assert_eq!(
        buffer.hit::<HalfFont>(px(12.0), px(5.0)),
        Some(Cursor::new_with_affinity(0, 2, Affinity::Before))
    );
    // Three bytes to a character.
    assert_eq!(
        buffer.hit::<HalfFont>(px(12.0), px(25.0)),
        Some(Cursor::new_with_affinity(1, 6, Affinity::Before))
    );
    // Behind the end, above the first and below the last visual line.
    assert_eq!(
        buffer.hit::<HalfFont>(px(500.0), px(5.0)),
        Some(Cursor::new_with_affinity(0, 3, Affinity::Before))
    );
    assert_eq!(buffer.hit::<HalfFont>(px(8.0), px(-5.0)), Some(Cursor::new(0, 0)));
    assert_eq!(
        buffer.hit::<HalfFont>(px(8.0), px(500.0)),
        Some(Cursor::new_with_affinity(1, 9, Affinity::Before))
    );
}

#[test]
fn a_cursor_is_shown_at_its_glyph() {
    let mut font_system = HalfFont;
    let mut buffer = full_buffer("abc\ndef");
    buffer.shape_until_scroll(&mut font_system, false);
    assert_eq!(
        buffer.cursor_position::<HalfFont>(&Cursor::new(1, 2)),
        Some((px(14.0), px(20.0)))
    );
    assert_eq!(buffer.cursor_position::<HalfFont>(&Cursor::new(7, 0)), None);
}

#[test]
fn a_selection_is_highlighted() {
    let mut font_system = HalfFont;
    let mut buffer = full_buffer("abcdef\nghi");
    buffer.shape_until_scroll(&mut font_system, false);
    let runs = buffer.layout_runs().collect_runs::<HalfFont>();
    assert_eq!(
        runs[0].highlight::<HalfFont>(Cursor::new(0, 2), Cursor::new(0, 5)),
        vec![(px(14.0), px(21.0))]
    );
    assert!(runs[1].highlight::<HalfFont>(Cursor::new(0, 2), Cursor::new(0, 5)).is_empty());
}

#[test]
fn text_motions_go_by_clusters_and_words() {
    let mut font_system = HalfFont;
    // The second cluster is a letter and a combining mark.
    let mut buffer = full_buffer("ae\u{301}z two words\nnext");
    let mut go = |cursor: Cursor, motion: Motion| {
        buffer.cursor_motion(&mut font_system, cursor, None, motion).expect("a motion").0
    };
    assert_eq!(go(Cursor::new(0, 1), Motion::Next), Cursor::new(0, 4));
    assert_eq!(
        go(Cursor::new(0, 4), Motion::Previous),
        Cursor::new_with_affinity(0, 1, Affinity::After)
    );
    assert_eq!(go(Cursor::new(0, 0), Motion::NextWord), Cursor::new(0, 5));
    assert_eq!(go(Cursor::new(0, 5), Motion::NextWord), Cursor::new(0, 9));
    assert_eq!(go(Cursor::new(0, 9), Motion::PreviousWord), Cursor::new(0, 6));
    assert_eq!(go(Cursor::new(0, 15), Motion::Next), Cursor::new(1, 0));
    assert_eq!(
        go(Cursor::new(1, 0), Motion::Previous),
        Cursor::new_with_affinity(0, 15, Affinity::After)
    );
    assert_eq!(go(Cursor::new(0, 7), Motion::Home), Cursor::new(0, 0));
    assert_eq!(go(Cursor::new(0, 7), Motion::End), Cursor::new(0, 15));
    assert_eq!(go(Cursor::new(0, 7), Motion::BufferEnd), Cursor::new(1, 4));
    assert_eq!(go(Cursor::new(1, 2), Motion::BufferStart), Cursor::new(0, 0));
}

#[test]
fn soft_home_skips_white_space() {
    let mut font_system = HalfFont;
    let mut buffer = full_buffer(" \t\u{a0}x\n  ");
    let mut go = |cursor: Cursor| {
        buffer.cursor_motion(&mut font_system, cursor, None, Motion::SoftHome).expect("a motion").0
    };
    assert_eq!(go(Cursor::new(0, 5)).index, 4);
    assert_eq!(go(Cursor::new(1, 2)).index, 0);
}

#[test]
fn left_and_right_follow_the_direction() {
    let mut font_system = HalfFont;
    let mut buffer = full_buffer("abc");
    let mut go = |buffer: &mut Buffer, motion: Motion| {
        buffer
            .cursor_motion(&mut font_system, Cursor::new(0, 1), None, motion)
            .expect("a motion")
            .0
            .index
    };
    assert_eq!(go(&mut buffer, Motion::Left), 0);
    assert_eq!(go(&mut buffer, Motion::Right), 2);
    buffer.shape_until_scroll(&mut HalfFont, false);
    buffer.set_direction(Direction::RightToLeft);
    assert!(buffer.resolve_dirty());
    assert_eq!(go(&mut buffer, Motion::Left), 2);
    assert_eq!(go(&mut buffer, Motion::Right), 0);
}

#[test]
fn up_and_down_keep_to_the_column() {
    let mut font_system = HalfFont;
    let mut buffer = full_buffer("abcdef\nab\nabcdef");
    let start = Cursor::new_with_affinity(0, 4, Affinity::After);
    let (middle, x) = buffer.cursor_motion(&mut font_system, start, None, Motion::Down).expect("down");
    assert_eq!((middle.line, middle.index, x), (1, 2, Some(4)));
    let (end, x) = buffer.cursor_motion(&mut font_system, middle, x, Motion::Down).expect("down");
    assert_eq!((end.line, end.index, x), (2, 4, Some(4)));
    let (back, x) =
        buffer.cursor_motion(&mut font_system, end, x, Motion::Vertical(-40)).expect("up");
    assert_eq!((back.line, back.index, x), (0, 4, Some(4)));
    assert!(buffer.cursor_motion(&mut font_system, Cursor::new(9, 0), None, Motion::Up).is_none());
}

#[test]
fn going_to_a_line_keeps_the_place() {
    let mut font_system = HalfFont;
    let mut buffer = full_buffer("abcdef\nghijkl\nx");
    let start = Cursor::new_with_affinity(0, 4, Affinity::After);
    let (there, _) =
        buffer.cursor_motion(&mut font_system, start, None, Motion::GotoLine(1)).expect("a line");
    assert_eq!((there.line, there.index), (1, 4));
    assert!(buffer.cursor_motion(&mut font_system, start, None, Motion::GotoLine(7)).is_none());
}

#[test]
fn a_tab_width_of_zero_is_ignored() {
    let mut buffer = full_buffer("a\tb");
    assert_eq!(buffer.tab_width(), 8);
    buffer.set_tab_width(0);
    assert_eq!(buffer.tab_width(), 8);
    buffer.set_tab_width(4);
    assert_eq!(buffer.tab_width(), 4);
}

#[test]
fn a_new_tab_width_shapes_lines_with_tabs_anew() {
    let mut font_system = HalfFont;
    let mut buffer = full_buffer("a\tb\nno tab");
    buffer.shape_until_scroll(&mut font_system, false);
    let width = |buffer: &Buffer| {
        f(buffer.line(0).and_then(|l| l.layout_opt()).expect("a layout")[0].w)
    };
    assert_eq!(width(&buffer), 10.0 * 7.0);
    buffer.set_tab_width(2);
    buffer.resolve_dirty();
    assert!(buffer.line(0).expect("line 0").shape_opt().is_none());
    assert!(buffer.line(1).expect("line 1").shape_opt().is_some());
    assert!(buffer.line(1).expect("line 1").layout_opt().is_none());
    buffer.line_layout(&mut font_system, 0);
    assert_eq!(width(&buffer), 4.0 * 7.0);
}

#[test]
fn a_size_below_zero_is_none_at_all() {
    let mut buffer = full_buffer("a");
    buffer.set_size(Some(px(-1.0)), Some(px(f32::NAN)));
    assert_eq!(buffer.size(), (Some(px(0.0)), Some(px(0.0))));
}

#[test]
fn setting_what_is_set_changes_nothing() {
    let mut font_system = HalfFont;
    let mut buffer = full_buffer("a");
    buffer.shape_until_scroll(&mut font_system, false);
    buffer.set_redraw(false);
    buffer.set_wrap(buffer.wrap());
    buffer.set_size(Some(px(800.0)), Some(px(600.0)));
    buffer.set_metrics(metrics());
    buffer.set_scroll(buffer.scroll());
    assert!(!buffer.redraw());
    buffer.set_metrics_and_size(Metrics::new(px(10.0), px(12.0)), None, None);
    assert!(buffer.redraw());
    assert_eq!(buffer.metrics(), Metrics::new(px(10.0), px(12.0)));
}

#[test]
fn metrics_are_scaled() {
    let relative = Metrics::relative::<HalfFont>(px(14.0), px(1.5));
    assert_eq!(relative, Metrics::new(px(14.0), px(21.0)));
    assert_eq!(relative.scale::<HalfFont>(px(2.0)), Metrics::new(px(28.0), px(42.0)));
}

#[test]
fn a_buffer_is_drawn_glyph_by_glyph() {
    let mut font_system = HalfFont;
    let red = Color { argb: 0xffff_0000 };
    let black = Color { argb: 0xff00_0000 };
    let mut buffer = full_buffer("");
    let styled = Attrs { color_opt: Some(red), ..Attrs::new() };
    buffer.set_rich_text(
        &[("a", Attrs::new()), ("b", styled)],
        &Attrs::new(),
        Shaping::Advanced,
        None,
    );
    let mut list = DrawList::new();
    buffer.render(&mut font_system, &mut list, black);
    let drawn: Vec<(usize, f32, Color)> = list
        .entries
        .iter()
        .map(|entry| match entry {
            Drawn::Glyph { glyph, line_y, color } => (glyph.start, f(*line_y), *color),
            Drawn::Decoration { .. } => panic!("nothing is decorated"),
        })
        .collect();
    // The glyphs are 14 pixels high, in the middle of 20.
    let line_y = 3.0 + 0.8 * 14.0;
    assert_eq!(drawn, vec![(0, line_y, black), (1, line_y, red)]);

    let mut again = DrawList::new();
    buffer.borrow_with(&mut font_system).draw(&mut again, black);
    assert_eq!(again.entries.len(), 2);
}

#[test]
fn a_borrowed_buffer_brings_itself_up_to_date() {
    let mut font_system = HalfFont;
    let mut buffer = Buffer::new_empty(metrics());
    let mut borrowed = buffer.borrow_with(&mut font_system);
    borrowed.set_text("abc\ndef", &Attrs::new(), Shaping::Advanced, None);
    borrowed.set_size(Some(px(800.0)), Some(px(600.0)));
    borrowed.set_wrap(Wrap::Word);
    borrowed.set_tab_width(4);
    borrowed.set_metrics(Metrics::new(px(20.0), px(30.0)));
    assert_eq!(borrowed.layout_runs().collect_runs::<HalfFont>().len(), 2);
    assert_eq!(
        borrowed.hit(px(11.0), px(35.0)),
        Some(Cursor::new_with_affinity(1, 1, Affinity::After))
    );
    assert_eq!(borrowed.line_shape(0).map(|shape| shape.glyphs.len()), Some(3));
    assert_eq!(borrowed.line_layout(1).map(|layout| f(layout[0].w)), Some(30.0));
    assert!(borrowed.line_layout(2).is_none());
    let (cursor, _) =
        borrowed.cursor_motion(Cursor::new(0, 0), None, Motion::Next).expect("a motion");
    assert_eq!(cursor, Cursor::new(0, 1));
    assert_eq!(buffer.wrap(), Wrap::Word);
    assert_eq!(buffer.tab_width(), 4);
}

#[test]
fn changing_a_thawed_buffer_line_by_line() {
    let mut buffer = rope_buffer(3);
    assert!(buffer.ensure_editable());
    let line = || {
        BufferLine::new(
            "new".to_string(),
            LineEnding::Lf,
            AttrsList::new(&Attrs::new()),
            Shaping::Advanced,
        )
    };
    buffer.insert_line(1, line());
    buffer.push_line(line());
    assert_eq!(buffer.line_count(), 6);
    assert_eq!(buffer.line_text(1), Some("new"));
    assert_eq!(buffer.remove_line(0).text(), "line 0 padding padding");
    buffer.last_line_mut().expect("a line").set_metadata(3);
    assert_eq!(buffer.line(4).and_then(|l| l.metadata()), Some(3));
    buffer.truncate_lines(2);
    assert_eq!(buffer.lines_iter().len(), 2);
    assert_eq!(buffer.lines_iter_mut().len(), 2);
    buffer.clear_lines();
    assert!(buffer.lines_is_empty());
}

#[test]
fn a_duplicate_shows_the_same() {
    let mut font_system = HalfFont;
    let mut buffer = rope_buffer(100);
    buffer.shape_until_scroll(&mut font_system, false);
    let mut other = buffer.duplicate();
    assert!(other.line(0).is_none());
    assert_eq!(reconstruct(&other), reconstruct(&buffer));
    assert_eq!(other.scroll(), buffer.scroll());
    other.dirty.scroll = true;
    other.shape_until_scroll(&mut font_system, false);
    assert_eq!(shown(&other), shown(&buffer));
}
