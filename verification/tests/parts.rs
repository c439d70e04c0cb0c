//! The parts that buffers are made of, and a buffer over a font of cells.

use textbuf::attrs::{Attrs, AttrsList, CacheMetrics, Color, Family};
use textbuf::buffer::Buffer;
use textbuf::cell_font::CellFont;
use textbuf::cursor::{Affinity, Cursor, LayoutCursor, Motion, Scroll};
use textbuf::dirty::DirtyFlags;
use textbuf::ending::LineEnding;
use textbuf::layout::{
    Align, DecorationSpan, Direction, Ellipsize, FontSystem, Hinting, LayoutGlyph, LayoutParams,
    Shaping, Wrap,
};
use textbuf::line::BufferLine;
use textbuf::line_iter::LineIter;
use textbuf::paragraphs::find_paragraphs;
use textbuf::pixel::{Metrics, PixelMath, Px};
use textbuf::recency::RecentMap;
use textbuf::render::{DrawList, Drawn, Renderer};
use textbuf::rope_store::RopeStore;
use textbuf::rope_text::RopeText;
use textbuf::run_iter::LayoutRunIter;
use textbuf::runs::LayoutRun;
use textbuf::whole_pixels::{divide_whole, from_whole, to_whole};

fn px(v: f32) -> Px {
    Px { bits: v.to_bits() }
}

fn metrics() -> Metrics {
    Metrics::new(px(10.0), px(20.0))
}

fn store(text: &str) -> RopeStore {
    RopeStore::from_text(text, &Attrs::new(), Shaping::Advanced)
}

fn whole(store: &RopeStore) -> String {
    (0..store.line_count())
        .map(|i| format!("{}{}", store.line_text(i).expect("a line"), store.ending(i).as_str()))
        .collect()
}

fn text_buffer(text: &str) -> Buffer {
    let mut buffer = Buffer::new_empty(metrics());
    buffer.set_text(text, &Attrs::new(), Shaping::Advanced, None);
    buffer
}

fn lines_of(buffer: &Buffer) -> Vec<(String, LineEnding)> {
    buffer.lines_iter().iter().map(|line| (line.text().to_string(), line.ending())).collect()
}

// Pixel quantities

#[test]
fn quantities_compare_like_numbers() {
    let values = [f32::NEG_INFINITY, -2.5, -0.0, 0.0, 1e-40, 1.0, 3.5, f32::INFINITY, f32::NAN];
    for a in values {
        for b in values {
            assert_eq!(px(a).less(px(b)), a < b, "{a} < {b}");
            assert_eq!(px(a).at_most(px(b)), a <= b, "{a} <= {b}");
            assert_eq!(px(a).equals(px(b)), a == b, "{a} == {b}");
        }
        assert_eq!(px(a).negate().bits, (-a).to_bits());
        assert_eq!(px(a).clamp_to_zero(), px(a.max(0.0) + 0.0));
    }
    assert_eq!(px(2.0).min_with(px(3.0)), px(2.0));
    assert_eq!(px(2.0).max_with(px(3.0)), px(3.0));
    assert_eq!(px(f32::NAN).min_with(px(3.0)), px(3.0));
    assert_eq!(px(3.0).max_with(px(f32::NAN)), px(3.0));
}

#[test]
fn whole_pixels_round_towards_zero() {
    for v in [0.0f32, 0.9, 1.0, 1.5, 2.0, 41.75, 1000.0, 16_777_215.0] {
        assert_eq!(to_whole(px(v)), v as i64);
        assert_eq!(to_whole(px(-v)), -(v as i64));
    }
    assert_eq!(to_whole(px(1e30)), 16_777_215);
    assert_eq!(to_whole(px(f32::NEG_INFINITY)), -16_777_215);
    assert_eq!(to_whole(px(f32::NAN)), 0);
    for n in [0i64, 1, -1, 2, 3, 20, -600, 65_537, 16_777_215] {
        assert_eq!(from_whole(n), px(n as f32));
        assert_eq!(to_whole(from_whole(n)), n);
    }
    assert_eq!(from_whole(1 << 40), px(16_777_215.0));
    assert_eq!(divide_whole(-7, 2), -3);
    assert_eq!(divide_whole(7, 0), 0);
}

#[test]
fn a_cell_font_computes_with_whole_pixels() {
    assert_eq!(CellFont::plus(px(1.5), px(2.0)), px(3.0));
    assert_eq!(CellFont::minus(px(1.0), px(4.0)), px(-3.0));
    assert_eq!(CellFont::times(px(20.0), px(50.0)), px(1000.0));
    assert_eq!(CellFont::over(px(7.0), px(2.0)), px(3.0));
    assert_eq!(CellFont::count(12), px(12.0));
    assert_eq!(CellFont::truncate(px(-3.75)), -3);
}

#[test]
fn a_cell_font_gives_every_character_a_cell() {
    let mut font = CellFont::new(8);
    let mut attrs = AttrsList::new(&Attrs::new());
    let red = Color { argb: 0xffff_0000 };
    attrs.add_span(1, 3, &Attrs { color_opt: Some(red), ..Attrs::new() });
    let shape = font.shape("aé\tz", &attrs, Shaping::Advanced, 4, Direction::Auto);
    let ranges: Vec<(usize, usize)> = shape.glyphs.iter().map(|g| (g.start, g.end)).collect();
    assert_eq!(ranges, vec![(0, 1), (1, 3), (3, 4), (4, 5)]);
    assert_eq!(shape.glyphs[1].color_opt, Some(red));
    assert_eq!(shape.glyphs[2].advance, px(4.0));
    let params = LayoutParams {
        font_size: px(10.0),
        width_opt: Some(px(20.0)),
        wrap: Wrap::Glyph,
        ellipsize: Ellipsize::Never,
        align: None,
        monospace_width: None,
        hinting: Hinting::Disabled,
    };
    let layout = font.layout(&shape, params);
    // Two cells fit, the tab takes a row to itself, the last one the third.
    let rows: Vec<usize> = layout.iter().map(|row| row.glyphs.len()).collect();
    assert_eq!(rows, vec![2, 1, 1]);
    assert_eq!(layout[1].w, px(32.0));
    assert_eq!(layout[0].glyphs[1].x, px(8.0));
    let unwrapped = font.layout(&shape, LayoutParams { wrap: Wrap::Unwrapped, ..params });
    assert_eq!(unwrapped.len(), 1);
    assert_eq!(unwrapped[0].w, px(7.0 * 8.0));
    // From right to left the last character comes first.
    let back = font.shape("ab", &attrs, Shaping::Advanced, 4, Direction::RightToLeft);
    assert!(back.rtl);
    assert_eq!(font.layout(&back, params)[0].glyphs[0].start, 1);
    // An empty line has one row.
    let empty = font.shape("", &attrs, Shaping::Advanced, 4, Direction::Auto);
    assert_eq!(font.layout(&empty, params).len(), 1);
}

// Lines and paragraphs

#[test]
fn a_text_is_cut_at_its_breaks() {
    let mut iter = LineIter::new("one\r\ntwo\n\rthree\rfour\n");
    let mut lines = Vec::new();
    while let Some((text, ending)) = iter.next_line() {
        lines.push((text, ending));
    }
    assert_eq!(
        lines,
        vec![
            ("one", LineEnding::CrLf),
            ("two", LineEnding::LfCr),
            ("three", LineEnding::Cr),
            ("four", LineEnding::Lf),
            ("", LineEnding::NoEnding),
        ]
    );
}

#[test]
fn endings_are_written_as_they_are_read() {
    assert_eq!(LineEnding::CrLf.as_str(), "\r\n");
    assert_eq!(LineEnding::LfCr.as_str(), "\n\r");
    assert_eq!(LineEnding::Lf.as_str(), "\n");
    assert_eq!(LineEnding::Cr.as_str(), "\r");
    assert_eq!(LineEnding::NoEnding.as_str(), "");
}

#[test]
fn the_lines_of_a_set_text_make_it_up() {
    for text in ["", "\n", "a", "a\r\nb\n\rc\rd\n", "日本\n\n語"] {
        let buffer = text_buffer(text);
        let joined: String =
            lines_of(&buffer).iter().map(|(text, ending)| format!("{text}{}", ending.as_str())).collect();
        assert_eq!(joined, text);
        assert_eq!(lines_of(&buffer).last().expect("a line").1, LineEnding::NoEnding);
    }
}

#[test]
fn a_shorter_text_leaves_no_lines_over() {
    let mut buffer = text_buffer("a\nb\nc");
    buffer.set_text("x", &Attrs::new(), Shaping::Advanced, Some(Align::Center));
    assert_eq!(lines_of(&buffer), vec![("x".to_string(), LineEnding::NoEnding)]);
    assert_eq!(buffer.line(0).expect("line 0").align(), Some(Align::Center));
    assert_eq!(buffer.scroll(), Scroll::default());
    assert!(buffer.redraw());
    assert!(buffer.dirty.text_set);
}

#[test]
fn paragraphs_are_ranges_of_the_text() {
    // Each separator ends a paragraph of its own.
    assert_eq!(find_paragraphs("a\nbc\r\nd"), vec![(0, 1), (2, 4), (5, 5), (6, 7)]);
    assert_eq!(find_paragraphs("a\u{2029}b"), vec![(0, 1), (4, 5)]);
    assert!(find_paragraphs("").is_empty());
}

#[test]
fn rich_text_keeps_the_attributes_of_its_spans() {
    let mut buffer = Buffer::new_empty(Metrics::new(px(32.0), px(44.0)));
    let attrs = Attrs { family: Family::Serif, ..Attrs::new() };
    let mono = Attrs { family: Family::Monospace, ..attrs };
    buffer.set_rich_text(
        &[("hello, ", attrs), ("cosmic\ntext", mono)],
        &attrs,
        Shaping::Advanced,
        None,
    );
    assert_eq!(buffer.line_text(0), Some("hello, cosmic"));
    assert_eq!(buffer.line_text(1), Some("text"));
    let family = |line: usize, i: usize| {
        buffer.line(line).expect("a line").attrs_list().get_span(i).family
    };
    assert_eq!(family(0, 0), Family::Serif);
    assert_eq!(family(0, 6), Family::Serif);
    assert_eq!(family(0, 7), Family::Monospace);
    assert_eq!(family(0, 12), Family::Monospace);
    assert_eq!(family(1, 0), Family::Monospace);
}

#[test]
fn an_empty_paragraph_takes_the_metrics_of_its_span() {
    let sized = Attrs {
        metrics_opt: Some(CacheMetrics {
            font_size_bits: 30.0f32.to_bits(),
            line_height_bits: 40.0f32.to_bits(),
        }),
        ..Attrs::new()
    };
    let mut buffer = Buffer::new_empty(metrics());
    buffer.set_rich_text(
        &[("a", Attrs::new()), ("\n\nb", sized)],
        &Attrs::new(),
        Shaping::Advanced,
        None,
    );
    assert_eq!(buffer.line_count(), 3);
    assert_eq!(buffer.line_text(1), Some(""));
    assert_eq!(buffer.line(1).expect("line 1").attrs_list().defaults().metrics_opt, sized.metrics_opt);
    assert_eq!(buffer.line(0).expect("line 0").attrs_list().defaults().metrics_opt, None);
    // No text at all is one empty line.
    buffer.set_rich_text(&[], &sized, Shaping::Basic, Some(Align::Right));
    assert_eq!(buffer.line_count(), 1);
    assert_eq!(buffer.line(0).expect("line 0").align(), Some(Align::Right));
}

#[test]
fn a_line_forgets_its_results_when_it_changes() {
    let mut font = CellFont::new(8);
    let buffer = text_buffer("");
    let settings = buffer.settings_now();
    let mut line = BufferLine::new(
        "hello world".to_string(),
        LineEnding::CrLf,
        AttrsList::new(&Attrs::new()),
        Shaping::Advanced,
    );
    assert!(line.shape_opt().is_none() && line.layout_opt().is_none());
    assert_eq!(line.layout(&mut font, &settings).len(), 1);
    assert!(line.shape_opt().is_some() && line.layout_opt().is_some());
    assert!(line.set_align(Some(Align::End)));
    assert!(line.shape_opt().is_some() && line.layout_opt().is_none());
    let tail = line.split_off(5);
    assert_eq!((line.text(), line.ending()), ("hello", LineEnding::NoEnding));
    assert_eq!((tail.text(), tail.ending()), (" world", LineEnding::CrLf));
    assert_eq!(tail.align(), Some(Align::End));
    assert!(line.shape_opt().is_none());
    assert!(!line.set_text("hello".to_string(), LineEnding::NoEnding, AttrsList::new(&Attrs::new())));
    assert!(line.set_text("x".to_string(), LineEnding::NoEnding, AttrsList::new(&Attrs::new())));
}

#[test]
fn attributes_follow_a_split() {
    let mut list = AttrsList::new(&Attrs::new());
    let bold = Attrs { weight: 700, ..Attrs::new() };
    list.add_span(2, 6, &bold);
    let tail = list.split_off(4);
    assert_eq!(list.get_span(3).weight, 700);
    assert_eq!(tail.get_span(1).weight, 700);
    assert_eq!(tail.get_span(2).weight, 400);
    assert!(list.equals(&list.duplicate()));
    assert!(!list.equals(&tail));
}

#[test]
fn no_change_is_no_flag() {
    assert!(DirtyFlags::empty().is_empty());
    assert!(!DirtyFlags { scroll: true, ..DirtyFlags::empty() }.is_empty());
}

// Ropes

#[test]
fn a_rope_breaks_lines_where_unicode_does() {
    let rope = RopeText::from_text("a\u{b}b\u{c}c\u{85}d\u{2028}e\u{2029}f\r\ng");
    assert_eq!(rope.line_count(), 7);
    // Only CR and LF are terminators; other breaks stay in the text.
    assert_eq!(rope.line_text(0), Some("a\u{b}"));
    assert_eq!(rope.line_text(3), Some("d\u{2028}"));
    assert_eq!(rope.line_text(5), Some("f"));
    assert_eq!(rope.detect_line_ending(5), LineEnding::CrLf);
    assert_eq!(rope.detect_line_ending(9), LineEnding::NoEnding);
    assert_eq!(rope.line_text(7), None);
}

#[test]
fn bytes_of_a_rope_are_on_lines() {
    let rope = RopeText::from_text("ab\ncd\n");
    assert_eq!(rope.byte_to_line(0), 0);
    assert_eq!(rope.byte_to_line(2), 0);
    assert_eq!(rope.byte_to_line(3), 1);
    assert_eq!(rope.byte_to_line(6), 2);
    assert_eq!(rope.line_to_byte(2), 6);
    assert_eq!(rope.slice(1, 4), "b\nc");
    assert_eq!(rope.len_bytes(), 6);
}

#[test]
fn deleting_undoes_inserting() {
    for (text, line, index, data) in [
        ("alpha\nbravo charlie\ndelta\n", 1, 5, "X\nY\nZ"),
        ("alpha\r\nbravo\r\n", 1, 2, "X\r\nY"),
        ("AB\ncd", 0, 2, "\r"),
        ("a\rb", 1, 0, "\nX"),
        ("日本語", 0, 3, "é😀\n日"),
        ("", 0, 0, "tail\n"),
    ] {
        let mut s = store(text);
        let (start, end) = s.insert_text(line, index, data);
        assert_eq!(s.text_len_bytes(), text.len() + data.len());
        let (_, removed) = s.delete_text(start.0, start.1, end.0, end.1);
        assert_eq!(removed, data);
        assert_eq!(whole(&s), text);
    }
}

#[test]
fn inserting_undoes_deleting() {
    for (text, start, end) in [
        ("alpha\nbravo charlie\ndelta\n", (0, 2), (2, 3)),
        ("alpha\r\nbravo\r\n", (0, 5), (1, 0)),
        ("a\rX\nb", (1, 0), (1, 1)),
        ("a\r\nb", (0, 2), (0, 3)),
    ] {
        let mut s = store(text);
        let (at, removed) = s.delete_text(start.0, start.1, end.0, end.1);
        assert_eq!(s.text_len_bytes(), text.len() - removed.len());
        s.insert_text(at.0, at.1, &removed);
        assert_eq!(whole(&s), text);
    }
}

#[test]
fn deleting_nothing_changes_nothing() {
    let mut s = store("abc\ndef");
    s.materialize(0);
    // The end of line 0 and the start of line 1 are one place.
    let (at, removed) = s.delete_text(0, 4, 1, 0);
    assert_eq!(at, (0, 4));
    assert_eq!(removed, "");
    assert!(s.materialized(0).is_some());
    assert_eq!(whole(&s), "abc\ndef");
}

#[test]
fn an_edit_begins_where_it_was_asked_for() {
    for (text, line, index, data, start) in [
        ("alpha\nbravo", 1, 2, "X\nY", (1, 2)),
        ("a\rb", 1, 0, "X", (1, 0)),
        ("a\r\nb", 0, 2, "\nX", (0, 2)),
        // A CR and an LF that come together, or part, move the boundary.
        ("a\rb", 1, 0, "\nX", (0, 2)),
        ("a\r\nb", 0, 2, "X", (1, 0)),
    ] {
        let mut s = store(text);
        assert_eq!(s.insert_text(line, index, data).0, start, "{text:?}");
    }
    let mut s = store("alpha\nbravo");
    assert_eq!(s.delete_text(0, 3, 1, 2).0, (0, 3));
}

#[test]
fn edits_are_those_of_a_string() {
    let text = "héllo wörld\n日本語\r\nэмодзи 😀🦀 😀\nlast é";
    let bounds: Vec<usize> =
        (0..=text.len()).filter(|&i| text.is_char_boundary(i)).collect();
    for &at in &bounds {
        let mut s = store(text);
        for i in 0..s.line_count() {
            s.materialize(i);
        }
        let line = s.text.byte_to_line(at);
        let index = at - s.text.line_to_byte(line);
        let (start, end) = s.insert_text(line, index, "x\ny");
        let mut expected = text.to_string();
        expected.insert_str(at, "x\ny");
        assert_eq!(whole(&s), expected);
        assert_eq!(s.text.line_to_byte(start.0) + start.1, at);
        assert_eq!(s.text.line_to_byte(end.0) + end.1, at + 3);
        // Whatever is kept shows the text as it stands.
        for i in 0..s.line_count() {
            if let Some(line) = s.materialized(i) {
                assert_eq!(line.text(), s.line_text(i).expect("a line"), "line {i} after {at}");
            }
        }
    }
}

#[test]
fn an_insertion_past_the_line_drops_the_line_that_it_is_on() {
    let mut s = store("a\nb");
    s.materialize(1);
    assert_eq!(s.insert_text(0, 2, "X\nY"), ((1, 0), (2, 1)));
    assert_eq!(s.line_text(1), Some("X"));
    assert_eq!(s.line_text(2), Some("Yb"));
    assert_eq!(s.materialize(1).map(|line| line.text()), Some("X"));
    assert_eq!(s.materialize(2).map(|line| line.text()), Some("Yb"));
    assert_eq!(whole(&s), "a\nX\nYb");
}

#[test]
fn a_deletion_past_the_line_drops_the_line_that_it_is_on() {
    let mut s = store("a\nbc");
    s.materialize(1);
    assert_eq!(s.delete_text(0, 2, 0, 3), ((1, 0), "b".to_string()));
    assert_eq!(s.materialize(1).map(|line| line.text()), Some("c"));
}

#[test]
fn a_deletion_into_the_next_line_drops_both_lines() {
    let mut s = store("a\r\nXb");
    s.materialize(0);
    s.materialize(1);
    assert_eq!(s.delete_text(0, 2, 1, 1), ((1, 0), "\nX".to_string()));
    assert_eq!(s.line_count(), 2);
    assert_eq!(s.materialize(0).map(|line| line.ending()), Some(LineEnding::Cr));
    assert_eq!(s.materialize(1).map(|line| line.text()), Some("b"));
    assert_eq!(whole(&s), "a\rb");
}

#[test]
fn no_edit_leaves_a_line_that_is_out_of_date() {
    let text = "ab\r\ncd\r\r\n\n\nef\rgh";
    let inserts = ["", "x", "\n", "\r", "\r\n", "\nx", "x\r", "\n\r", "x\ny"];
    let check = |s: &mut RopeStore, expected: &str, edit: &str| {
        assert_eq!(whole(s), expected, "{edit}");
        for i in 0..s.line_count() {
            let line = s.line_text(i).expect("a line").to_string();
            let ending = s.ending(i);
            let made = s.materialize(i).expect("a line");
            assert_eq!((made.text(), made.ending()), (line.as_str(), ending), "line {i}, {edit}");
        }
    };
    let warm = || {
        let mut s = store(text);
        for i in 0..s.line_count() {
            s.materialize(i);
            // The terminator that the line has in the text, set for it as well.
            let ending = s.text.detect_line_ending(i);
            s.metadata.set_line_ending(i, ending);
        }
        s
    };
    for at in 0..=text.len() {
        for data in inserts {
            let mut s = warm();
            // From the first line and from the line that holds the position.
            for line in [0, s.text.byte_to_line(at)] {
                let mut s = warm();
                let index = at - s.text.line_to_byte(line);
                s.insert_text(line, index, data);
                let expected = format!("{}{data}{}", &text[..at], &text[at..]);
                check(&mut s, &expected, &format!("{data:?} at {at} from line {line}"));
            }
            check(&mut s, text, "no edit");
        }
        for end in at..=text.len() {
            for line in [0, store(text).text.byte_to_line(at)] {
                let mut s = warm();
                let first = s.text.line_to_byte(line);
                s.delete_text(line, at - first, line, end - first);
                let expected = format!("{}{}", &text[..at], &text[end..]);
                check(&mut s, &expected, &format!("{at}..{end} from line {line}"));
            }
        }
    }
}

#[test]
fn a_rope_shapes_a_line_once() {
    let mut font = CellFont::new(8);
    let settings = text_buffer("").settings_now();
    let mut s = store("abc\ndef");
    assert_eq!(s.line_layout(&mut font, &settings, 1).map(|rows| rows[0].w), Some(px(24.0)));
    assert!(s.cache.shape.contains(1) && s.cache.layout.contains(1));
    assert!(s.materialized(1).is_some());
    assert!(!s.cache.shape.contains(0));
    assert!(s.line_shape(&mut font, &settings, 2).is_none());
    s.metadata.set_align(0, Align::Center);
    assert_eq!(s.materialize(0).and_then(|line| line.align()), Some(Align::Center));
}

#[test]
fn a_rope_line_keeps_attributes_of_its_own() {
    let mut s = store("abc\ndef");
    let mut red = Attrs::new();
    red.color_opt = Some(Color { argb: 0xffff_0000 });
    let mut list = AttrsList::new(&Attrs::new());
    list.add_span(1, 2, &red);
    s.metadata.set_attrs_list(1, list);
    let attrs_at = |s: &mut RopeStore, line, i| {
        s.materialize(line).map(|line| line.attrs_list().get_span(i))
    };
    assert_eq!(attrs_at(&mut s, 0, 1), Some(Attrs::new()));
    assert_eq!(attrs_at(&mut s, 1, 0), Some(Attrs::new()));
    assert_eq!(attrs_at(&mut s, 1, 1), Some(red));
    assert_eq!(attrs_at(&mut s, 1, 2), Some(Attrs::new()));
}

#[test]
fn a_duplicate_of_a_rope_starts_cold() {
    let mut s = store("abc\ndef");
    s.metadata.set_line_ending(0, LineEnding::CrLf);
    s.materialize(0);
    let copy = s.duplicate();
    assert!(copy.materialized(0).is_none());
    assert_eq!(copy.ending(0), LineEnding::CrLf);
    assert_eq!(copy.line_text(1), Some("def"));
}

#[test]
fn the_least_recent_line_makes_room() {
    let mut map: RecentMap<char> = RecentMap::new(2);
    map.insert(1, 'a');
    map.insert(2, 'b');
    assert_eq!(map.get(1), Some(&'a'));
    map.insert(3, 'c');
    assert!(map.contains(1) && !map.contains(2) && map.contains(3));
    map.shift_lines(3, 4);
    assert_eq!(map.peek(7), Some(&'c'));
    map.remove_lines(1, 2);
    assert_eq!(map.peek(5), Some(&'c'));
    assert!(!map.contains(1));
    map.invalidate_from(5);
    assert!(!map.contains(5));
    assert_eq!(map.remove(5), None);
}

// Runs

fn glyph(start: usize, end: usize, rtl: bool, x: f32, w: f32) -> LayoutGlyph {
    LayoutGlyph { start, end, rtl, x: px(x), w: px(w), color_opt: None }
}

fn run<'a>(text: &'a str, rtl: bool, glyphs: &'a [LayoutGlyph]) -> LayoutRun<'a> {
    LayoutRun {
        line_i: 3,
        text,
        rtl,
        glyphs,
        decorations: &[],
        line_y: px(15.0),
        line_top: px(0.0),
        line_height: px(20.0),
        line_w: px(40.0),
    }
}

#[test]
fn a_cursor_inside_a_glyph_shares_its_width() {
    // One glyph for two clusters.
    let glyphs = [glyph(0, 2, false, 0.0, 20.0), glyph(2, 3, false, 20.0, 10.0)];
    let run = run("abc", false, &glyphs);
    assert_eq!(run.cursor_glyph::<CellFont>(&Cursor::new(3, 0)), Some((0, px(0.0))));
    assert_eq!(run.cursor_glyph::<CellFont>(&Cursor::new(3, 1)), Some((0, px(10.0))));
    assert_eq!(run.cursor_position::<CellFont>(&Cursor::new(3, 1)), Some(px(10.0)));
    assert_eq!(run.cursor_glyph::<CellFont>(&Cursor::new(3, 3)), Some((1, px(10.0))));
    assert_eq!(run.cursor_position::<CellFont>(&Cursor::new(3, 3)), Some(px(30.0)));
    assert_eq!(run.cursor_glyph::<CellFont>(&Cursor::new(2, 1)), None);
    assert_eq!(run.cursor_position::<CellFont>(&Cursor::new(3, 9)), None);
}

#[test]
fn a_cursor_counts_from_the_right_where_text_does() {
    let glyphs = [glyph(1, 2, true, 0.0, 10.0), glyph(0, 1, true, 10.0, 10.0)];
    let run = run("ab", true, &glyphs);
    assert_eq!(run.cursor_position::<CellFont>(&Cursor::new(3, 0)), Some(px(20.0)));
    assert_eq!(run.cursor_position::<CellFont>(&Cursor::new(3, 2)), Some(px(0.0)));
    assert_eq!(
        run.cursor_from_glyph_left(&glyphs[0]),
        Cursor::new_with_affinity(3, 2, Affinity::Before)
    );
    assert_eq!(
        run.cursor_from_glyph_right(&glyphs[0]),
        Cursor::new_with_affinity(3, 1, Affinity::After)
    );
    // All glyphs go back in the text: one span.
    assert_eq!(
        run.highlight::<CellFont>(Cursor::new(3, 0), Cursor::new(3, 2)),
        vec![(px(0.0), px(20.0))]
    );
    assert_eq!(
        run.highlight::<CellFont>(Cursor::new(2, 0), Cursor::new(3, 1)),
        vec![(px(10.0), px(10.0))]
    );
}

#[test]
fn a_run_from_right_to_left_is_highlighted_in_one_piece() {
    // Two glyphs of two clusters each; in the text: 0 1 2 3, on the screen: 3 2 1 0.
    let glyphs = [glyph(2, 4, true, 0.0, 20.0), glyph(0, 2, true, 20.0, 20.0)];
    let run = run("abcd", true, &glyphs);
    assert_eq!(
        run.highlight::<CellFont>(Cursor::new(3, 1), Cursor::new(3, 3)),
        vec![(px(10.0), px(20.0))]
    );
    assert_eq!(
        run.highlight::<CellFont>(Cursor::new(3, 0), Cursor::new(3, 1)),
        vec![(px(30.0), px(10.0))]
    );
    assert_eq!(
        run.highlight::<CellFont>(Cursor::new(3, 3), Cursor::new(4, 0)),
        vec![(px(0.0), px(10.0))]
    );
}

#[test]
fn an_empty_run_has_a_cursor_at_its_start() {
    let run = run("", false, &[]);
    assert_eq!(run.cursor_glyph::<CellFont>(&Cursor::new(3, 0)), Some((0, px(0.0))));
    assert_eq!(run.cursor_position::<CellFont>(&Cursor::new(3, 0)), Some(px(0.0)));
    assert!(run.highlight::<CellFont>(Cursor::new(3, 0), Cursor::new(3, 0)).is_empty());
}

#[test]
fn mixed_directions_are_highlighted_in_pieces() {
    // In the text: 0 1 2; on the screen: 0 2 1.
    let glyphs = [
        glyph(0, 1, false, 0.0, 10.0),
        glyph(2, 3, true, 10.0, 10.0),
        glyph(1, 2, true, 20.0, 10.0),
    ];
    let run = run("abc", false, &glyphs);
    assert_eq!(
        run.highlight::<CellFont>(Cursor::new(3, 0), Cursor::new(3, 2)),
        vec![(px(0.0), px(10.0)), (px(20.0), px(10.0))]
    );
    // Not between the cursors at all.
    assert!(run.highlight::<CellFont>(Cursor::new(4, 0), Cursor::new(5, 2)).is_empty());
    assert!(run.highlight::<CellFont>(Cursor::new(0, 0), Cursor::new(2, 9)).is_empty());
    // On a line between those of the cursors all of it is.
    assert_eq!(
        run.highlight::<CellFont>(Cursor::new(2, 5), Cursor::new(4, 0)),
        vec![(px(0.0), px(30.0))]
    );
}

#[test]
fn a_walk_over_lines_ends_below_the_view() {
    let mut font = CellFont::new(8);
    let mut buffer = text_buffer("a\nb\nc\nd");
    buffer.set_size(None, Some(px(200.0)));
    buffer.shape_until_scroll(&mut font, false);
    let lines: Vec<BufferLine> = buffer.lines_iter().iter().map(|line| line.duplicate()).collect();
    let runs = LayoutRunIter::from_lines(&lines, Some(px(45.0)), px(20.0), px(25.0), 0)
        .collect_runs::<CellFont>();
    // The first line is above the view, which begins in the second one.
    let tops: Vec<(usize, Px)> = runs.iter().map(|run| (run.line_i, run.line_top)).collect();
    assert_eq!(tops, vec![(1, px(-5.0)), (2, px(15.0)), (3, px(35.0))]);
    assert_eq!(runs[0].line_y, px(10.0));
}

#[test]
fn decorations_are_drawn_over_glyphs() {
    let mut list = DrawList::new();
    let color = Color { argb: 1 };
    let glyphs = [glyph(0, 1, false, 0.0, 10.0)];
    list.glyph(glyphs[0], px(12.0), color);
    let span = DecorationSpan { glyph_start: 0, glyph_end: 1, color_opt: None };
    list.decoration(px(12.0), &glyphs, span, color);
    assert_eq!(list.entries.len(), 2);
    match &list.entries[1] {
        Drawn::Decoration { glyphs, span: drawn, .. } => {
            assert_eq!(glyphs.len(), 1);
            assert_eq!(*drawn, span);
        }
        Drawn::Glyph { .. } => panic!("a decoration was drawn last"),
    }
}

// A buffer over cells

#[test]
fn going_back_undoes_going_forth() {
    let mut font = CellFont::new(8);
    let mut buffer = text_buffer("e\u{301}a👩‍👩‍👧b\nnext");
    let mut cursor = Cursor::new(0, 0);
    loop {
        let (forth, _) =
            buffer.cursor_motion(&mut font, cursor, None, Motion::Next).expect("a motion");
        if forth == cursor {
            break;
        }
        let (back, _) =
            buffer.cursor_motion(&mut font, forth, None, Motion::Previous).expect("a motion");
        assert_eq!((back.line, back.index), (cursor.line, cursor.index));
        cursor = forth;
    }
    assert_eq!((cursor.line, cursor.index), (1, 4));
}

#[test]
fn a_place_in_the_layout_is_a_cursor() {
    let mut font = CellFont::new(10);
    let mut buffer = text_buffer("abcdefgh");
    buffer.set_size(Some(px(30.0)), Some(px(100.0)));
    let cursor = Cursor::new_with_affinity(0, 4, Affinity::After);
    assert_eq!(buffer.layout_cursor(&mut font, cursor), Some(LayoutCursor::new(0, 1, 1)));
    // A cursor at no glyph is taken to the start of the line.
    let nowhere = Cursor::new_with_affinity(0, 8, Affinity::After);
    assert_eq!(buffer.layout_cursor(&mut font, nowhere), Some(LayoutCursor::new(0, 0, 0)));
    assert_eq!(buffer.layout_cursor(&mut font, Cursor::new(5, 0)), None);
    let go = Motion::LayoutCursor(LayoutCursor::new(0, 9, 9));
    let (end, _) = buffer.cursor_motion(&mut font, cursor, None, go).expect("a place");
    assert_eq!(end, Cursor::new_with_affinity(0, 8, Affinity::Before));
    // Up from the second visual line to the first.
    let (up, x) = buffer.cursor_motion(&mut font, cursor, None, Motion::Up).expect("up");
    assert_eq!((up.line, up.index, x), (0, 1, Some(1)));
}

#[test]
fn kept_results_follow_the_settings() {
    let mut font = CellFont::new(10);
    let mut buffer = text_buffer("abcdef\tg");
    buffer.set_size(Some(px(1000.0)), Some(px(100.0)));
    buffer.shape_until_scroll(&mut font, false);
    assert_eq!(buffer.is_rtl(0), Some(false));
    buffer.set_size(Some(px(30.0)), Some(px(100.0)));
    buffer.shape_until_scroll(&mut font, false);
    assert!(buffer.line(0).and_then(|line| line.layout_opt()).expect("a layout").len() > 1);
    buffer.set_direction(Direction::RightToLeft);
    buffer.shape_until_scroll(&mut font, false);
    assert_eq!(buffer.is_rtl(0), Some(true));
    assert_eq!(buffer.is_rtl(9), None);
    // A different font, which the buffer cannot know of.
    let mut other = CellFont::new(20);
    buffer.reset_shaping();
    assert_eq!(buffer.is_rtl(0), None);
    buffer.set_wrap(Wrap::Unwrapped);
    buffer.shape_until_scroll(&mut other, false);
    let layout = buffer.line(0).and_then(|line| line.layout_opt()).expect("a layout");
    assert_eq!(layout[0].w, px(20.0 * 15.0));
}

#[test]
fn lines_that_were_laid_out_early_follow_the_settings() {
    let mut font = CellFont::new(10);
    let ropes = [store("abcdef"), store("abcdef")];
    let mut buffers: Vec<Buffer> =
        ropes.into_iter().map(|rope| Buffer::new_rope(metrics(), rope)).collect();
    buffers.push(text_buffer("abcdef"));
    buffers.push(text_buffer("abcdef"));
    let rows = |buffer: &mut Buffer, font: &mut CellFont| -> usize {
        buffer.line_layout(font, 0).expect("a line").len()
    };
    for buffer in &mut buffers {
        // The line is laid out before the new text has been brought up to date.
        assert_eq!(rows(buffer, &mut font), 1);
        buffer.set_size(Some(px(30.0)), Some(px(100.0)));
        buffer.shape_until_scroll(&mut font, false);
        assert_eq!(rows(buffer, &mut font), 2);
        buffer.reset_shaping();
        assert_eq!(rows(buffer, &mut font), 2);
        buffer.set_direction(Direction::RightToLeft);
        buffer.shape_until_scroll(&mut font, false);
        assert_eq!(buffer.is_rtl(0), Some(true));
    }
}

#[test]
fn visual_lines_stand_one_below_the_other() {
    let mut font = CellFont::new(10);
    let mut buffer = text_buffer("abcd\nx\ny\nabcd\nz");
    buffer.set_size(Some(px(30.0)), Some(px(100.0)));
    buffer.set_line_hidden(2, true);
    buffer.set_scroll(Scroll::new(0, px(25.0), px(0.0)));
    buffer.shape_until_scroll(&mut font, false);
    let runs = buffer.layout_runs().collect_runs::<CellFont>();
    let seen: Vec<(usize, Px)> = runs.iter().map(|run| (run.line_i, run.line_top)).collect();
    // A hidden line is passed over.
    assert_eq!(
        seen,
        vec![
            (0, px(-5.0)),
            (1, px(15.0)),
            (3, px(35.0)),
            (3, px(55.0)),
            (4, px(75.0)),
        ]
    );
    for pair in runs.windows(2) {
        assert_eq!(pair[1].line_top, CellFont::plus(pair[0].line_top, pair[0].line_height));
    }
    // A line that is not laid out ends the walk.
    let mut lines: Vec<BufferLine> =
        buffer.lines_iter().iter().map(|line| line.duplicate()).collect();
    lines[3].reset_layout();
    let runs = LayoutRunIter::from_lines(&lines, None, px(20.0), px(0.0), 0);
    let seen: Vec<usize> = runs.collect_runs::<CellFont>().iter().map(|run| run.line_i).collect();
    assert_eq!(seen, vec![0, 0, 1]);
}

#[test]
fn vertical_motions_are_made_line_by_line() {
    let mut font = CellFont::new(10);
    let mut buffer = text_buffer("abc\nde\nfgh\ni\njkl");
    buffer.set_size(Some(px(300.0)), Some(px(50.0)));
    for (px_moved, motion, times) in [
        (45, Motion::Down, 2),
        (19, Motion::Down, 0),
        (-19, Motion::Up, 0),
        (-45, Motion::Up, 2),
        (200, Motion::Down, 10),
    ] {
        let start = Cursor::new(2, 2);
        let mut there = (start, None);
        for _ in 0..times {
            there = buffer.cursor_motion(&mut font, there.0, there.1, motion).expect("a line");
        }
        let whole = buffer.cursor_motion(&mut font, start, None, Motion::Vertical(px_moved));
        assert_eq!(whole, Some(there), "{px_moved}");
    }
    let start = Cursor::new(2, 2);
    for (motion, px_moved) in [(Motion::PageDown, 50), (Motion::PageUp, -50)] {
        assert_eq!(
            buffer.cursor_motion(&mut font, start, None, motion),
            buffer.cursor_motion(&mut font, start, None, Motion::Vertical(px_moved)),
        );
    }
    buffer.set_size(None, None);
    for motion in [Motion::PageDown, Motion::PageUp] {
        assert_eq!(buffer.cursor_motion(&mut font, start, Some(7), motion), Some((start, Some(7))));
    }
}

#[test]
fn sideways_motions_follow_the_direction() {
    let mut font = CellFont::new(10);
    for direction in [Direction::LeftToRight, Direction::RightToLeft] {
        let mut buffer = text_buffer("one two three");
        buffer.set_direction(direction);
        buffer.shape_until_scroll(&mut font, false);
        let rtl = buffer.is_rtl(0).expect("a direction");
        assert_eq!(rtl, direction == Direction::RightToLeft);
        let (left, right) = if rtl {
            (Motion::Next, Motion::Previous)
        } else {
            (Motion::Previous, Motion::Next)
        };
        let (left_word, right_word) = if rtl {
            (Motion::NextWord, Motion::PreviousWord)
        } else {
            (Motion::PreviousWord, Motion::NextWord)
        };
        let start = Cursor::new(0, 5);
        for (sideways, in_order) in [
            (Motion::Left, left),
            (Motion::Right, right),
            (Motion::LeftWord, left_word),
            (Motion::RightWord, right_word),
        ] {
            assert_eq!(
                buffer.cursor_motion(&mut font, start, Some(3), sideways),
                buffer.cursor_motion(&mut font, start, Some(3), in_order),
            );
            // Without a line nothing changes.
            let nowhere = Cursor::new(4, 1);
            assert_eq!(
                buffer.cursor_motion(&mut font, nowhere, Some(3), sideways),
                Some((nowhere, Some(3))),
            );
        }
        let (there, _) =
            buffer.cursor_motion(&mut font, start, None, Motion::Left).expect("a motion");
        assert_eq!(there.index, if rtl { 6 } else { 4 });
    }
}

#[test]
fn a_rope_and_its_thawed_lines_show_the_same() {
    let mut font = CellFont::new(8);
    let text: String = (0..200).map(|i| format!("line {i}\r\n")).collect();
    let mut buffer = Buffer::new_rope(metrics(), store(&text));
    buffer.set_size(Some(px(100.0)), Some(px(90.0)));
    buffer.set_scroll(Scroll::new(120, px(5.0), px(0.0)));
    let show = |buffer: &mut Buffer, font: &mut CellFont| -> Vec<(usize, String, Px)> {
        buffer.shape_until_scroll(font, false);
        buffer
            .layout_runs()
            .collect_runs::<CellFont>()
            .iter()
            .map(|run| (run.line_i, run.text.to_string(), run.line_top))
            .collect()
    };
    let rope = show(&mut buffer, &mut font);
    assert!(buffer.ensure_editable());
    buffer.reset_shaping();
    let full = show(&mut buffer, &mut font);
    assert_eq!(rope, full);
    assert_eq!(rope[0], (120, "line 120".to_string(), px(-5.0)));
}

#[test]
fn every_cursor_comes_into_view() {
    let text: Vec<String> = (0..30).map(|i| format!("line {i}")).collect();
    let text = text.join("\n");
    let mut font = CellFont::new(8);
    let starts = [(0, 0.0), (0, 50.0), (3, 31.0), (7, -45.0), (12, 7.0), (29, 0.0), (40, 3.0)];
    for hidden in [vec![], vec![1], vec![0, 1, 2, 9, 10, 11, 29], (4..27).collect()] {
        for (line, vertical) in starts {
            for target in (0..30).filter(|i| !hidden.contains(i)) {
                let mut buffer = text_buffer(&text);
                buffer.set_size(Some(px(32.0)), Some(px(100.0)));
                for &i in &hidden {
                    buffer.set_line_hidden(i, true);
                }
                buffer.set_scroll(Scroll::new(line, px(vertical), px(0.0)));
                let cursor = Cursor::new_with_affinity(target, 5, Affinity::Before);
                buffer.shape_until_cursor(&mut font, cursor, false);
                let (x, y) = buffer
                    .cursor_position::<CellFont>(&cursor)
                    .expect("a cursor in view");
                let (x, y) = (f32::from_bits(x.bits), f32::from_bits(y.bits));
                assert!((0.0..=80.0).contains(&y), "line {target} at {y} from {line}+{vertical}");
                let left = f32::from_bits(buffer.scroll().horizontal.bits);
                assert!(left <= x && x <= left + 32.0, "line {target} at {x}");
            }
        }
    }
}

#[test]
fn a_view_moves_on_past_hidden_lines_above_it() {
    let mut buffer = text_buffer("a\nb\nc\nd\ne\nf");
    buffer.set_size(None, Some(px(40.0)));
    buffer.set_line_hidden(1, true);
    buffer.set_scroll(Scroll::new(0, px(50.0), px(0.0)));
    buffer.shape_until_scroll(&mut CellFont::new(8), false);
    assert_eq!(buffer.scroll(), Scroll::new(3, px(10.0), px(0.0)));
}

#[test]
fn a_view_at_rest_stays_where_it_is() {
    let text: Vec<String> = (0..30).map(|i| format!("line {i}")).collect();
    let mut font = CellFont::new(8);
    for (line, vertical) in [(0, 0.0), (0, 50.0), (7, -45.0), (12, 7.0), (28, 9.0), (40, 3.0)] {
        let mut buffer = text_buffer(&text.join("\n"));
        buffer.set_size(Some(px(320.0)), Some(px(100.0)));
        buffer.set_line_hidden(3, true);
        buffer.set_scroll(Scroll::new(line, px(vertical), px(0.0)));
        buffer.shape_until_scroll(&mut font, false);
        let at = buffer.scroll();
        buffer.reset_shaping();
        buffer.shape_until_scroll(&mut font, false);
        assert_eq!(buffer.scroll(), at);
    }
}

#[test]
fn a_reset_buffer_takes_new_fonts() {
    let width = |buffer: &Buffer| {
        LayoutRunIter::new(buffer).next_run::<CellFont>().map(|run| run.line_w)
    };
    let rope = RopeStore::from_text("abc", &Attrs::new(), Shaping::Advanced);
    for mut buffer in [text_buffer("abc"), Buffer::new_rope(metrics(), rope)] {
        buffer.shape_until_scroll(&mut CellFont::new(8), false);
        assert_eq!(width(&buffer), Some(px(24.0)));
        buffer.reset_shaping();
        buffer.shape_until_scroll(&mut CellFont::new(16), false);
        assert_eq!(width(&buffer), Some(px(48.0)));
    }
}
