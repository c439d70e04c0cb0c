//! Edits of a rope-backed buffer, side by side with those of a plain string.
//!
//! After every step the bytes, the positions and the number of lines are the
//! same, and the buffer is never turned into lines.

use textbuf::attrs::Attrs;
use textbuf::buffer::{Buffer, LineStore};
use textbuf::layout::Shaping;
use textbuf::pixel::{Metrics, Px};
use textbuf::rope_store::RopeStore;

fn px(v: f32) -> Px {
    Px { bits: v.to_bits() }
}

fn rope_buffer(content: &str) -> Buffer {
    Buffer::new_rope(
        Metrics::new(px(14.0), px(20.0)),
        RopeStore::from_text(content, &Attrs::new(), Shaping::Advanced),
    )
}

/// The document byte by byte: text plus real ending per line.
fn reconstruct(buffer: &Buffer) -> String {
    let mut text = String::new();
    for i in 0..buffer.line_count() {
        text.push_str(buffer.line_text_cow(i).expect("line in bounds"));
        text.push_str(buffer.line_ending(i).expect("line in bounds").as_str());
    }
    text
}

fn rope(buffer: &mut Buffer) -> &mut RopeStore {
    match &mut buffer.store {
        LineStore::Rope(store) => store,
        LineStore::Full(_) => panic!("rope arm thawed"),
    }
}

/// An edit that has been made.
#[derive(Clone, Debug, PartialEq)]
struct Change {
    start: (usize, usize),
    end: (usize, usize),
    text: String,
    insert: bool,
}

fn apply_change(buffer: &mut Buffer, change: &Change, undo: bool) {
    let store = rope(buffer);
    if change.insert != undo {
        store.insert_text(change.start.0, change.start.1, &change.text);
    } else {
        store.delete_text(change.start.0, change.start.1, change.end.0, change.end.1);
    }
}

struct Twins {
    text: String,
    rope: Buffer,
    cursor: (usize, usize),
    captured: Vec<Change>,
}

impl Twins {
    fn new(content: &str) -> Self {
        let twins = Self {
            text: content.to_string(),
            rope: rope_buffer(content),
            cursor: (0, 0),
            captured: Vec::new(),
        };
        twins.assert_twins("initial state");
        twins
    }

    /// Where the lines of the string begin; it breaks at LF alone.
    fn starts(&self) -> Vec<usize> {
        let breaks = self.text.match_indices('\n').map(|(at, _)| at + 1);
        std::iter::once(0).chain(breaks).collect()
    }

    fn byte(&self, at: (usize, usize)) -> usize {
        self.starts()[at.0] + at.1
    }

    fn position(&self, byte: usize) -> (usize, usize) {
        let starts = self.starts();
        let line = starts.iter().rposition(|&start| start <= byte).expect("a line");
        (line, byte - starts[line])
    }

    fn insert(&mut self, line: usize, index: usize, data: &str, ctx: &str) {
        let at = self.byte((line, index));
        self.text.insert_str(at, data);
        let (start, end) = rope(&mut self.rope).insert_text(line, index, data);
        assert_eq!(start, (line, index), "{ctx}: start diverged");
        assert_eq!(end, self.position(at + data.len()), "{ctx}: end diverged");
        self.cursor = end;
        // An empty insertion leaves nothing to undo.
        if !data.is_empty() {
            self.captured.push(Change { start, end, text: data.to_string(), insert: true });
        }
        self.assert_twins(ctx);
    }

    fn delete(&mut self, start: (usize, usize), end: (usize, usize), ctx: &str) {
        let (from, to) = (self.byte(start), self.byte(end));
        let expected: String = self.text.drain(from..to).collect();
        let (at, removed) = rope(&mut self.rope).delete_text(start.0, start.1, end.0, end.1);
        assert_eq!(at, start, "{ctx}: join diverged");
        assert_eq!(removed, expected, "{ctx}: removed text diverged");
        self.cursor = start;
        self.captured.push(Change { start, end, text: removed, insert: false });
        self.assert_twins(ctx);
    }

    fn assert_twins(&self, ctx: &str) {
        assert!(self.rope.is_rope(), "{ctx}: rope arm thawed");
        assert_eq!(reconstruct(&self.rope), self.text, "{ctx}: reconstructed text diverged");
        assert_eq!(self.rope.line_count(), self.starts().len(), "{ctx}: line_count diverged");
    }

    fn line_count(&self) -> usize {
        self.rope.line_count()
    }

    fn line_text(&self, line: usize) -> &str {
        self.rope.line_text_cow(line).unwrap_or("")
    }

    fn line_len(&self, line: usize) -> usize {
        self.line_text(line).len()
    }

    /// Midpoint of a line's text, snapped down to a char boundary.
    fn mid_index(&self, line: usize) -> usize {
        let text = self.line_text(line);
        let mut i = text.len() / 2;
        while i > 0 && !text.is_char_boundary(i) {
            i -= 1;
        }
        i
    }

    /// The first line that holds `needle`, and where.
    fn find(&self, needle: &str) -> Option<(usize, usize)> {
        (0..self.line_count()).find_map(|i| self.line_text(i).find(needle).map(|at| (i, at)))
    }
}

/// LF, CRLF, mixed, trailing/no trailing newline, empty, multibyte-heavy,
/// and a 200-line file for cache-shift visibility. No lone CR, `\n\r`, or
/// exotic breaks.
fn corpus() -> Vec<(&'static str, String)> {
    let two_hundred: String = (0..200).map(|i| format!("line {i} with some padding\n")).collect();
    vec![
        ("lf", "alpha\nbravo charlie\ndelta echo foxtrot\ngolf\n".to_string()),
        ("crlf", "alpha\r\nbravo charlie\r\ndelta echo foxtrot\r\ngolf\r\n".to_string()),
        ("mixed", "alpha\r\nbravo charlie\ndelta echo foxtrot\r\ngolf\n".to_string()),
        ("no_trailing_newline", "alpha\nbravo charlie\ndelta echo".to_string()),
        ("trailing_newline", "alpha\nbravo\n".to_string()),
        ("empty", String::new()),
        (
            "multibyte",
            "héllo wörld\n日本語のテキスト日本\nэмодзи 😀🦀 😀\ndernière ligne é😀\n".to_string(),
        ),
        ("two_hundred_lines", two_hundred),
    ]
}

/// Run `script` against every corpus entry.
fn for_corpus(script: impl Fn(&mut Twins, &str)) {
    for (name, content) in corpus() {
        let mut twins = Twins::new(&content);
        script(&mut twins, name);
    }
}

#[test]
fn script_1_typing_run() {
    for_corpus(|t, name| {
        let keys = "abcdefghijklmnopqrst";
        let line = 1.min(t.line_count() - 1);
        let mut index = t.mid_index(line);
        for i in 0..keys.len() {
            let ch = &keys[i..=i];
            t.insert(line, index, ch, &format!("{name}: typing[{i}]"));
            index += ch.len();
        }
    });
}

#[test]
fn script_2_multiline_paste_mid_line() {
    for_corpus(|t, name| {
        let line = 1.min(t.line_count() - 1);
        let index = t.mid_index(line);
        t.insert(line, index, "X\nY\nZ", &format!("{name}: paste lf"));
        let line = t.line_count() - 1;
        let index = t.mid_index(line);
        t.insert(line, index, "X\r\nY", &format!("{name}: paste crlf"));
    });
}

#[test]
fn script_3_paste_ending_in_break() {
    for_corpus(|t, name| {
        let line = t.line_count() / 2;
        let index = t.mid_index(line);
        let before_count = t.line_count();
        t.insert(line, index, "tail\n", &format!("{name}: paste tail"));
        assert_eq!(t.line_count(), before_count + 1, "{name}: sentinel segment");
        // The cursor lands at the start of the next line.
        assert_eq!(t.cursor, (line + 1, 0), "{name}: cursor");
    });
}

#[test]
fn script_4_cross_line_delete() {
    for_corpus(|t, name| {
        if t.line_count() < 3 {
            return;
        }
        let start = (0, t.mid_index(0));
        let end = (2, t.mid_index(2));
        t.delete(start, end, &format!("{name}: cross-line delete"));
    });
}

#[test]
fn script_5_line_join_deletes() {
    for_corpus(|t, name| {
        // Join the first pair (covers LF or CRLF ending removal depending
        // on the corpus entry), then the last pair.
        if t.line_count() < 2 {
            return;
        }
        let len = t.line_len(0);
        t.delete((0, len), (1, 0), &format!("{name}: join first pair"));
        if t.line_count() < 2 {
            return;
        }
        let line = t.line_count() - 2;
        let len = t.line_len(line);
        t.delete((line, len), (line + 1, 0), &format!("{name}: join last pair"));
    });
}

#[test]
fn script_6_boundary_ops() {
    for_corpus(|t, name| {
        t.insert(0, 0, "head ", &format!("{name}: insert at origin"));
        if t.line_count() >= 2 {
            t.delete((0, 0), (1, 0), &format!("{name}: whole-line delete including ending"));
        }
        if let Some(n) = t.line_text(0).chars().next().map(char::len_utf8) {
            t.delete((0, 0), (0, n), &format!("{name}: delete at (0,0)"));
        }
    });
}

#[test]
fn script_8_multibyte() {
    for_corpus(|t, name| {
        // Insert between 日 and 本 where present.
        if let Some((line, at)) = t.find("日本") {
            t.insert(line, at + "日".len(), "中", &format!("{name}: insert 日|本"));
        }
        // Delete exactly one 😀 where present.
        if let Some((line, at)) = t.find("😀") {
            t.delete((line, at), (line, at + '😀'.len_utf8()), &format!("{name}: delete one emoji"));
        }
        // Multibyte data with an interior newline, at end of document.
        let line = t.line_count() - 1;
        let index = t.line_len(line);
        t.insert(line, index, "é😀\n日", &format!("{name}: insert multibyte with newline"));
    });
}

#[test]
fn script_9_whole_document_delete_and_reinsert() {
    for_corpus(|t, name| {
        let before = t.text.clone();
        let last = t.line_count() - 1;
        let len = t.line_len(last);
        if last == 0 && len == 0 {
            return; // already empty
        }
        t.delete((0, 0), (last, len), &format!("{name}: whole-document delete"));
        assert_eq!(reconstruct(&t.rope), "", "{name}: document should be empty");
        // The removed text is byte-identical to the document.
        let removed = t.captured.last().expect("captured whole-document delete").text.clone();
        assert_eq!(removed, before, "{name}: removed text must equal the document bytes");
        t.insert(0, 0, &removed, &format!("{name}: reinsert document"));
        assert_eq!(reconstruct(&t.rope), before, "{name}: round trip");
    });
}

#[test]
fn script_10_degenerates() {
    for_corpus(|t, name| {
        let line = t.line_count() - 1;
        let index = t.line_len(line);
        let depth = t.captured.len();
        t.insert(line, index, "", &format!("{name}: empty insert"));
        assert_eq!(t.captured.len(), depth, "{name}: empty insert must record nothing");
        t.delete((line, index), (line, index), &format!("{name}: empty delete"));
        // An empty deletion is recorded, with an empty text.
        assert_eq!(t.captured.len(), depth + 1);
        assert_eq!(t.captured[depth].text, "", "{name}: empty delete must remove nothing");
    });
}

#[test]
fn every_state_comes_back_by_undo_and_redo() {
    for_corpus(|t, name| {
        let mut states = vec![t.text.clone()];
        let line = 1.min(t.line_count() - 1);
        let index = t.mid_index(line);
        t.insert(line, index, "X\nY\nZ", &format!("{name}: paste lf"));
        states.push(t.text.clone());
        let line = t.line_count() - 1;
        let index = t.mid_index(line);
        t.insert(line, index, "X\r\nY", &format!("{name}: paste crlf"));
        states.push(t.text.clone());
        let (start, end) = ((0, t.mid_index(0)), (2, t.mid_index(2)));
        t.delete(start, end, &format!("{name}: cross-line delete"));
        states.push(t.text.clone());
        let last = t.line_count() - 1;
        let len = t.line_len(last);
        t.insert(last, len, "END", &format!("{name}: insert at eof"));

        let changes = t.captured.clone();
        for (change, state) in changes.iter().zip(&states).rev() {
            apply_change(&mut t.rope, change, true);
            assert_eq!(&reconstruct(&t.rope), state, "{name}: undo checkpoint");
        }
        for change in &changes {
            apply_change(&mut t.rope, change, false);
        }
        t.assert_twins(&format!("{name}: redo"));
    });
}

fn merge_case(
    content: &str,
    edited: &str,
    op: impl Fn(&mut RopeStore) -> Change,
    expected: Change,
    ctx: &str,
) {
    let mut buffer = rope_buffer(content);
    let change = op(rope(&mut buffer));
    assert_eq!(reconstruct(&buffer), edited, "{ctx}: bytes diverged after edit");
    // The record is byte-true in the text after the edit.
    assert_eq!(change, expected, "{ctx}: record");
    apply_change(&mut buffer, &change, true);
    assert_eq!(reconstruct(&buffer), content, "{ctx}: undo bytes");
    apply_change(&mut buffer, &change, false);
    assert_eq!(reconstruct(&buffer), edited, "{ctx}: redo bytes");
}

fn inserted(store: &mut RopeStore, line: usize, index: usize, data: &str) -> Change {
    let (start, end) = store.insert_text(line, index, data);
    Change { start, end, text: data.to_string(), insert: true }
}

fn deleted(store: &mut RopeStore, start: (usize, usize), end: (usize, usize)) -> Change {
    let (start, text) = store.delete_text(start.0, start.1, end.0, end.1);
    Change { start, end, text, insert: false }
}

#[test]
fn cr_lf_merge_family_is_byte_exact() {
    let record = |start, end, text: &str, insert| Change {
        start,
        end,
        text: text.to_string(),
        insert,
    };
    // Data ends with \r and the byte at the insertion point is \n. The
    // recorded end lands inside the merged CRLF ending of line 0.
    merge_case(
        "AB\ncd",
        "AB\r\ncd",
        |store| inserted(store, 0, 2, "\r"),
        record((0, 2), (0, 3), "\r", true),
        "insert trailing CR before LF",
    );
    // Data begins with \n and the byte before the insertion point is \r. The
    // recorded start re-maps into the absorbing line.
    merge_case(
        "a\rb",
        "a\r\nXb",
        |store| inserted(store, 1, 0, "\nX"),
        record((0, 2), (1, 1), "\nX", true),
        "insert leading LF after CR",
    );
    // A delete joins \r and \n. The recorded start is the join point, inside
    // the fused CRLF; the end stays as passed.
    merge_case(
        "a\rX\nb",
        "a\r\nb",
        |store| deleted(store, (1, 0), (1, 1)),
        record((0, 2), (1, 1), "X", false),
        "delete joining CR and LF",
    );
}
