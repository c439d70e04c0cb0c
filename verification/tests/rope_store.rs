//! Materializing and editing a rope-backed store.

use textbuf::attrs::Attrs;
use textbuf::ending::LineEnding;
use textbuf::layout::{ShapeLine, Shaping};
use textbuf::rope_store::RopeStore;

fn store(text: &str) -> RopeStore {
    RopeStore::from_text(text, &Attrs::new(), Shaping::Advanced)
}

/// Rebuild the original text from materialized lines: text + ending per line.
fn reconstruct(store: &mut RopeStore) -> String {
    let mut out = String::new();
    for i in 0..store.line_count() {
        let line = store.materialize(i).expect("line index in bounds");
        out.push_str(line.text());
        out.push_str(line.ending().as_str());
    }
    out
}

#[test]
fn materialize_round_trip_crlf() {
    let input = "one\r\ntwo\r\nthree";
    let mut s = store(input);
    assert_eq!(s.line_count(), 3);
    {
        let l0 = s.materialize(0).expect("line 0");
        assert_eq!(l0.text(), "one");
        assert_eq!(l0.ending(), LineEnding::CrLf);
    }
    {
        let l2 = s.materialize(2).expect("line 2");
        assert_eq!(l2.text(), "three");
        assert_eq!(l2.ending(), LineEnding::NoEnding);
    }
    assert_eq!(reconstruct(&mut s), input);
}

#[test]
fn materialize_round_trip_trailing_newline() {
    let input = "alpha\nbeta\n";
    let mut s = store(input);
    // A text has an empty line behind the final newline.
    assert_eq!(s.line_count(), 3);
    assert_eq!(s.materialize(2).map(|l| l.text()), Some(""));
    assert_eq!(reconstruct(&mut s), input);
}

#[test]
fn materialize_round_trip_no_trailing_newline() {
    let input = "alpha\nbeta";
    let mut s = store(input);
    assert_eq!(s.line_count(), 2);
    {
        let l1 = s.materialize(1).expect("line 1");
        assert_eq!(l1.text(), "beta");
        assert_eq!(l1.ending(), LineEnding::NoEnding);
    }
    assert_eq!(reconstruct(&mut s), input);
}

#[test]
fn materialize_round_trip_empty() {
    let mut s = store("");
    assert_eq!(s.line_count(), 1);
    {
        let l0 = s.materialize(0).expect("line 0");
        assert_eq!(l0.text(), "");
        assert_eq!(l0.ending(), LineEnding::NoEnding);
    }
    assert_eq!(reconstruct(&mut s), "");
}

#[test]
fn materialize_round_trip_multibyte() {
    let input = "héllo wörld\n日本語のテキスト\nэмодзи 😀🦀\n";
    let mut s = store(input);
    assert_eq!(s.materialize(1).map(|l| l.text()), Some("日本語のテキスト"));
    assert_eq!(reconstruct(&mut s), input);
}

#[test]
fn materialize_out_of_bounds() {
    let mut s = store("a\nb");
    assert!(s.materialize(2).is_none());
}

/// Inserting between the \r and \n of a CRLF cleaves the terminator
/// itself: the head keeps \r, the tail gets \n, and NO surviving line
/// carries the original CrLf ending. A stale metadata override must not
/// be migrated onto any of them — bytes are truth, and reconstruction
/// must stay byte-exact.
#[test]
fn crlf_split_insert_does_not_migrate_ending_override() {
    let mut s = store("head\r\nnext\n");
    // A stale CrLf override on the line whose bytes currently agree.
    s.metadata.set_line_ending(0, LineEnding::CrLf);

    // Split the CRLF: "head\r" | "X\nY" | "\nnext\n"
    s.insert_text(0, 5, "X\nY");

    assert_eq!(reconstruct(&mut s), "head\rX\nY\nnext\n");
}

#[test]
fn materialized_is_cache_hit_only() {
    let mut s = store("a\nb\nc");
    assert!(s.materialized(1).is_none());
    assert!(s.materialize(1).is_some());
    assert_eq!(s.materialized(1).map(|l| l.text()), Some("b"));
    // peek must not fault line 2 in
    assert!(s.materialized(2).is_none());
}

#[test]
fn thaw_matches_input() {
    for input in [
        "one\r\ntwo\r\nthree",
        "alpha\nbeta\n",
        "no newline",
        "",
        "日本語\nmixed 😀\r\nend",
    ] {
        let lines = store(input).thaw();
        let mut out = String::new();
        for line in &lines {
            out.push_str(line.text());
            out.push_str(line.ending().as_str());
        }
        assert_eq!(out, input, "thaw must reconstruct the input exactly");
    }
}

#[test]
fn thaw_matches_materialized_lines() {
    let input = "a\nbb\r\nccc\n";
    let mut s = store(input);
    let materialized: Vec<(String, LineEnding)> = (0..s.line_count())
        .map(|i| {
            let line = s.materialize(i).expect("line in bounds");
            (line.text().to_string(), line.ending())
        })
        .collect();
    let thawed = store(input).thaw();
    assert_eq!(thawed.len(), materialized.len());
    for (line, (text, ending)) in thawed.iter().zip(&materialized) {
        assert_eq!(line.text(), text);
        assert_eq!(line.ending(), *ending);
    }
}

#[test]
fn ending_is_cold_capable() {
    let s = store("a\nb\r\nc");
    // &self — must not materialize or cache anything.
    assert_eq!(s.ending(0), LineEnding::Lf);
    assert_eq!(s.ending(1), LineEnding::CrLf);
    assert_eq!(s.ending(2), LineEnding::NoEnding);
    assert!(s.materialized(0).is_none());
}

#[test]
fn insert_text_same_line() {
    let mut s = store("abc\ndef\nghi");
    s.materialize(0);
    s.materialize(1);
    s.materialize(2);
    let (start, end) = s.insert_text(1, 1, "XY");
    assert_eq!(start, (1, 1));
    assert_eq!(end, (1, 3));
    assert_eq!(s.line_count(), 3);
    // The edited line is popped (a present entry is never rebuilt);
    // untouched lines stay warm.
    assert!(s.materialized(1).is_none());
    assert_eq!(s.materialized(0).map(|l| l.text()), Some("abc"));
    assert_eq!(s.materialized(2).map(|l| l.text()), Some("ghi"));
    assert_eq!(s.line_text(1), Some("dXYef"));
    assert_eq!(reconstruct(&mut s), "abc\ndXYef\nghi");
}

#[test]
fn insert_text_with_newline_shifts_caches_and_metadata() {
    let mut s = store("abc\ndef\nghi");
    // A self-consistent override (matches the detected ending) so the
    // shift is observable without changing reconstruction.
    s.metadata.set_line_ending(1, LineEnding::Lf);
    s.materialize(0);
    s.materialize(1);
    s.materialize(2);
    s.cache.shape.insert(2, ShapeLine::empty());

    let (start, end) = s.insert_text(0, 3, "X\nY");
    assert_eq!(start, (0, 3));
    assert_eq!(end, (1, 1));
    assert_eq!(s.line_count(), 4);
    // Above-edit entries shifted to their new absolute indices.
    assert_eq!(s.materialized(2).map(|l| l.text()), Some("def"));
    assert_eq!(s.materialized(3).map(|l| l.text()), Some("ghi"));
    assert!(s.materialized(0).is_none(), "edited line must be popped");
    assert!(s.materialized(1).is_none(), "new line is cold");
    assert!(s.cache.shape.contains(3), "shape entry follows its line");
    assert!(!s.cache.shape.contains(2));
    // The metadata override followed its line.
    assert_eq!(s.metadata.line_ending(2), LineEnding::Lf);
    assert_eq!(s.metadata.line_ending(1), LineEnding::NoEnding);
    assert_eq!(reconstruct(&mut s), "abcX\nY\ndef\nghi");
}

#[test]
fn insert_text_split_carries_ending_override_to_tail() {
    let mut s = store("abc\ndef");
    // Self-consistent override on the edited line.
    s.metadata.set_line_ending(0, LineEnding::Lf);
    let (start, end) = s.insert_text(0, 1, "1\n2");
    assert_eq!(start, (0, 1));
    assert_eq!(end, (1, 1));
    // The tail line carries the original ending override; the head
    // line's override is cleared (its ending is now the inserted break).
    assert_eq!(s.metadata.line_ending(0), LineEnding::NoEnding);
    assert_eq!(s.metadata.line_ending(1), LineEnding::Lf);
    assert_eq!(reconstruct(&mut s), "a1\n2bc\ndef");
}

#[test]
fn insert_text_trailing_break_lands_on_next_line() {
    let mut s = store("abc");
    let (start, end) = s.insert_text(0, 1, "tail\n");
    assert_eq!(start, (0, 1));
    assert_eq!(end, (1, 0));
    assert_eq!(s.line_count(), 2);
    assert_eq!(reconstruct(&mut s), "atail\nbc");
}

#[test]
fn delete_text_same_line_keeps_other_lines_warm() {
    let mut s = store("abc\ndef");
    s.materialize(0);
    s.materialize(1);
    let (start, removed) = s.delete_text(1, 0, 1, 2);
    assert_eq!(start, (1, 0));
    assert_eq!(removed, "de");
    assert!(s.materialized(1).is_none());
    assert_eq!(
        s.materialized(0).map(|l| l.text()),
        Some("abc"),
        "line below the edit stays warm"
    );
    assert_eq!(reconstruct(&mut s), "abc\nf");
}

#[test]
fn delete_text_cross_line_invalidates_from_edit() {
    let mut s = store("abc\ndef\nghi\njkl");
    s.materialize(0);
    s.materialize(3);
    let (start, removed) = s.delete_text(1, 1, 2, 1);
    assert_eq!(start, (1, 1));
    assert_eq!(removed, "ef\ng");
    assert_eq!(s.line_count(), 3);
    assert_eq!(s.line_text(1), Some("dhi"));
    // invalidate_from(1): entries at or above the edit are dropped,
    // entries below survive.
    assert!(s.materialized(3).is_none());
    assert!(s.materialized(2).is_none());
    assert_eq!(s.materialized(0).map(|l| l.text()), Some("abc"));
    assert_eq!(reconstruct(&mut s), "abc\ndhi\njkl");
}

#[test]
fn delete_text_merges_ending_override_from_end_line() {
    let mut s = store("one\r\ntwo\r\nthree");
    // Self-consistent overrides on both lines of the join.
    s.metadata.set_line_ending(0, LineEnding::CrLf);
    let (start, removed) = s.delete_text(0, 3, 1, 0);
    assert_eq!(start, (0, 3));
    assert_eq!(removed, "\r\n");
    assert_eq!(s.line_count(), 2);
    assert_eq!(s.line_text(0), Some("onetwo"));
    // The merged line takes the end line's (absent) override: the stale
    // start-line override must not survive.
    assert_eq!(s.metadata.line_ending(0), LineEnding::NoEnding);
    assert_eq!(reconstruct(&mut s), "onetwo\r\nthree");
}

#[test]
fn delete_text_empty_range_is_noop() {
    let mut s = store("abc\ndef");
    s.materialize(0);
    let (start, removed) = s.delete_text(1, 2, 1, 2);
    assert_eq!(start, (1, 2));
    assert_eq!(removed, "");
    assert!(
        s.materialized(0).is_some(),
        "empty delete must not invalidate anything"
    );
    assert_eq!(reconstruct(&mut s), "abc\ndef");
}

#[test]
fn delete_whole_content_leaves_one_empty_line() {
    let mut s = store("abc\ndef\n");
    let (start, removed) = s.delete_text(0, 0, 2, 0);
    assert_eq!(start, (0, 0));
    assert_eq!(removed, "abc\ndef\n");
    assert_eq!(s.line_count(), 1);
    assert_eq!(reconstruct(&mut s), "");
}

// The CR|LF adjacency merge family: an adjacent \r and \n make one CRLF
// break, which cuts the text anew around the edit. Returned positions are byte-true in the post-edit text.

#[test]
fn merge_shape_1_trailing_cr_before_lf() {
    let mut s = store("AB\ncd");
    s.materialize(0);
    let (start, end) = s.insert_text(0, 2, "\r");
    assert_eq!(start, (0, 2));
    assert_eq!(end, (0, 3), "end lands inside the merged CRLF ending");
    assert_eq!(s.line_count(), 2);
    assert!(s.materialized(0).is_none());
    assert_eq!(
        s.materialize(0).map(|l| l.ending()),
        Some(LineEnding::CrLf)
    );
    assert_eq!(reconstruct(&mut s), "AB\r\ncd");
}

#[test]
fn merge_shape_2_leading_lf_after_cr() {
    let mut s = store("a\rb");
    s.materialize(0);
    s.materialize(1);
    let (start, end) = s.insert_text(1, 0, "\nX");
    assert_eq!(start, (0, 2), "start re-maps into the absorbing line");
    assert_eq!(end, (1, 1));
    assert_eq!(s.line_count(), 2);
    assert!(s.materialized(0).is_none(), "absorbing line must be popped");
    assert!(s.materialized(1).is_none(), "edited line must be popped");
    assert_eq!(
        s.materialize(0).map(|l| l.ending()),
        Some(LineEnding::CrLf),
        "cached Cr must not survive the fusion"
    );
    assert_eq!(reconstruct(&mut s), "a\r\nXb");
}

#[test]
fn merge_shape_3_delete_joins_cr_and_lf() {
    let mut s = store("a\rX\nb");
    s.materialize(0);
    s.materialize(1);
    s.materialize(2);
    let (start, removed) = s.delete_text(1, 0, 1, 1);
    assert_eq!(start, (0, 2), "join point maps inside the fused CRLF");
    assert_eq!(removed, "X");
    assert_eq!(s.line_count(), 2);
    assert!(s.materialized(0).is_none());
    assert_eq!(
        s.materialize(0).map(|l| l.ending()),
        Some(LineEnding::CrLf)
    );
    assert_eq!(reconstruct(&mut s), "a\r\nb");
    // The undo hazard: replaying the byte-true join point restores the
    // original bytes exactly.
    s.insert_text(0, 2, "X");
    assert_eq!(reconstruct(&mut s), "a\rX\nb");
}

#[test]
fn delete_lf_of_crlf_keeps_cr_break() {
    let mut s = store("a\r\nb");
    s.materialize(0);
    s.materialize(1);
    let (start, removed) = s.delete_text(0, 2, 0, 3);
    assert_eq!(removed, "\n");
    assert_eq!(start, (1, 0), "join maps to the start of the next line");
    assert_eq!(s.line_count(), 2);
    assert!(s.materialized(0).is_none(), "line 0 ending changed CrLf→Cr");
    assert_eq!(s.materialize(0).map(|l| l.ending()), Some(LineEnding::Cr));
    assert_eq!(reconstruct(&mut s), "a\rb");
}

#[test]
fn lru_eviction_does_not_change_results() {
    // 3000 lines against a 2048-line cache: early lines get evicted and
    // must re-materialize identically.
    let input = (0..3000)
        .map(|i| format!("line {i}"))
        .collect::<Vec<_>>()
        .join("\n");
    let mut s = store(&input);
    assert_eq!(s.line_count(), 3000);
    for i in 0..3000 {
        let line = s.materialize(i).expect("line in bounds");
        assert_eq!(line.text(), format!("line {i}"));
    }
    // Sequential materialization retains only the most recent 2048 lines.
    assert!(s.materialized(0).is_none());
    let line0 = s.materialize(0).expect("re-materialize after eviction");
    assert_eq!(line0.text(), "line 0");
    assert_eq!(line0.ending(), LineEnding::Lf);
}
