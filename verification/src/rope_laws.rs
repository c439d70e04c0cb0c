//! What holds of a rope-backed store across its operations.

use vstd::prelude::*;
use vstd::utf8::*;

use crate::breaks::{
    break_end, breaks, content_of, ending_of, lemma_breaks_monotone, lemma_content_and_ending,
    lemma_line_after_splice, lemma_line_at, lemma_line_before_splice, lemma_line_of, lemma_splice,
    lemma_starts, line_bytes, line_end, line_start, line_total, spliced,
};
use crate::buffer::LineStore;
use crate::dirty::DirtyFlags;
use crate::ending::{ending_bytes, LineEnding, CR, LF};
use crate::layout::{layout_fits, shape_fits, FontSystem};
use crate::line::{joined, Settings};
use crate::metadata::origin;
use crate::rope_store::{joined_from, kept_line, lemma_deletion, position, RopeStore};
use crate::text::at_boundary;

verus! {

/// An insertion at byte `index` of line `line`, which may lie on a later line.
pub open spec fn inserts_at(
    store: &RopeStore,
    line: int,
    index: int,
    data: Seq<u8>,
    after: &RopeStore,
) -> bool {
    let b = store.bytes();
    &&& store.wf()
    &&& after.wf()
    &&& 0 <= line < line_total(b)
    &&& at_boundary(b, line_start(b, line) + index)
    &&& valid_utf8(data)
    &&& store.inserts(line, index, data, after)
}

/// A deletion from byte `start_index` of line `start_line` to byte `end_index`
/// of line `end_line`, each of which may lie on a later line.
pub open spec fn deletes_at(
    store: &RopeStore,
    start_line: int,
    start_index: int,
    end_line: int,
    end_index: int,
    after: &RopeStore,
) -> bool {
    let b = store.bytes();
    let s = line_start(b, start_line) + start_index;
    let e = line_start(b, end_line) + end_index;
    &&& store.wf()
    &&& after.wf()
    &&& 0 <= start_line < line_total(b)
    &&& 0 <= end_line < line_total(b)
    &&& s <= e
    &&& at_boundary(b, s)
    &&& at_boundary(b, e)
    &&& store.deletes(start_line, start_index, end_line, end_index, after)
}

/// A line that the insertion does not touch is the same line under its new
/// index.
proof fn lemma_kept_by_insert(
    store: &RopeStore,
    line: int,
    index: int,
    data: Seq<u8>,
    after: &RopeStore,
    i: int,
    k: int,
)
    requires
        inserts_at(store, line, index, data, after),
        0 <= i <= usize::MAX,
        0 <= k < line_total(store.bytes()),
        ({
            let p = line_start(store.bytes(), line) + index;
            let delta = line_total(after.bytes()) - line_total(store.bytes());
            &&& kept_line(i, breaks(store.bytes(), p) as int, delta) == Some(k)
            &&& i != breaks(after.bytes(), p)
        }),
    ensures
        i < line_total(after.bytes()),
        line_bytes(after.bytes(), i) == line_bytes(store.bytes(), k),
        after.line_view(i) == store.line_view(k),
{
    let b = store.bytes();
    let p = line_start(b, line) + index;
    let at = breaks(b, p) as int;
    encode_utf8_valid_utf8(store.text.text@);
    lemma_splice(b, p, data);
    if i < at {
        lemma_line_before_splice(b, p, data, i);
    } else {
        lemma_line_after_splice(b, p, data, k);
    }
    let delta = line_total(after.bytes()) - line_total(b);
    assert(origin(i, at, delta) == Some(k));
    assert(after.metadata.own_attrs(i) == store.metadata.own_attrs(k));
    assert(after.metadata.align_at(i) == store.metadata.align_at(k));
    assert(after.metadata.ending_at(i) == store.metadata.ending_at(k));
}

/// An insertion leaves no materialized line that is out of date.
pub proof fn law_insert_keeps_lines_fresh(
    store: &RopeStore,
    line: int,
    index: int,
    data: Seq<u8>,
    after: &RopeStore,
)
    requires
        inserts_at(store, line, index, data, after),
        store.fresh(),
    ensures
        after.fresh(),
{
    let at = breaks(store.bytes(), line_start(store.bytes(), line) + index) as int;
    let delta = line_total(after.bytes()) - line_total(store.bytes());
    assert forall|i: int| (#[trigger] after.warm(i)) is Some implies 0 <= i < line_total(
        after.bytes(),
    ) && after.warm(i).unwrap()@ == after.line_view(i) by {
        lemma_key_in_range(after, i);
        let k = kept_line(i, at, delta).unwrap();
        assert(store.warm(k) is Some);
        lemma_kept_by_insert(store, line, index, data, after, i, k);
    }
}

/// A line that is kept has an index that fits.
proof fn lemma_key_in_range(store: &RopeStore, i: int)
    requires
        store.warm(i) is Some || store.cache.shape_at(i) is Some || store.cache.layout_at(i) is Some,
    ensures
        0 <= i <= usize::MAX,
{
}

/// An insertion leaves no shaping or layout result that is out of date.
pub proof fn law_insert_keeps_results_current<F: FontSystem>(
    store: &RopeStore,
    line: int,
    index: int,
    data: Seq<u8>,
    after: &RopeStore,
    fonts: int,
    settings: Settings,
)
    requires
        inserts_at(store, line, index, data, after),
        store.current::<F>(fonts, settings),
    ensures
        after.current::<F>(fonts, settings),
{
    let at = breaks(store.bytes(), line_start(store.bytes(), line) + index) as int;
    let delta = line_total(after.bytes()) - line_total(store.bytes());
    assert forall|i: int| (#[trigger] after.cache.shape_at(i)) is Some implies 0 <= i < line_total(
        after.bytes(),
    ) && after.cache.shape_at(i).unwrap() == after.line_view(i).fresh_shape::<F>(fonts, settings) by {
        lemma_key_in_range(after, i);
        let k = kept_line(i, at, delta).unwrap();
        assert(store.cache.shape_at(k) is Some);
        lemma_kept_by_insert(store, line, index, data, after, i, k);
    }
    assert forall|i: int| (#[trigger] after.cache.layout_at(i)) is Some implies 0 <= i < line_total(
        after.bytes(),
    ) && after.cache.layout_at(i).unwrap() == after.line_view(i).fresh_layout::<F>(
        fonts,
        settings,
    ) by {
        lemma_key_in_range(after, i);
        let k = kept_line(i, at, delta).unwrap();
        assert(store.cache.layout_at(k) is Some);
        lemma_kept_by_insert(store, line, index, data, after, i, k);
    }
}

/// An insertion leaves no result that is out of date without being known to be,
/// whatever is still to be brought up to date.
pub proof fn law_insert_keeps_results_tracked<F: FontSystem>(
    store: &RopeStore,
    line: int,
    index: int,
    data: Seq<u8>,
    after: &RopeStore,
    fonts: int,
    settings: Settings,
    dirty: DirtyFlags,
)
    requires
        inserts_at(store, line, index, data, after),
        LineStore::Rope(*store).tracks::<F>(fonts, settings, dirty),
    ensures
        LineStore::Rope(*after).tracks::<F>(fonts, settings, dirty),
{
    let at = breaks(store.bytes(), line_start(store.bytes(), line) + index) as int;
    let delta = line_total(after.bytes()) - line_total(store.bytes());
    if !dirty.drops_all() {
        assert forall|i: int| (#[trigger] after.cache.shape_at(i)) is Some implies 0 <= i
            < line_total(after.bytes()) && after.cache.shape_at(i).unwrap() == after.line_view(
            i,
        ).fresh_shape::<F>(fonts, settings) by {
            lemma_key_in_range(after, i);
            let k = kept_line(i, at, delta).unwrap();
            assert(store.cache.shape_at(k) is Some);
            lemma_kept_by_insert(store, line, index, data, after, i, k);
        }
    }
    if !dirty.drops_layouts() {
        assert forall|i: int| (#[trigger] after.cache.layout_at(i)) is Some implies 0 <= i
            < line_total(after.bytes()) && after.cache.layout_at(i).unwrap() == after.line_view(
            i,
        ).fresh_layout::<F>(fonts, settings) by {
            lemma_key_in_range(after, i);
            let k = kept_line(i, at, delta).unwrap();
            assert(store.cache.layout_at(k) is Some);
            lemma_kept_by_insert(store, line, index, data, after, i, k);
        }
    }
}

/// An insertion leaves no result that reaches beyond the text of its line.
pub proof fn law_insert_keeps_results_fitting(
    store: &RopeStore,
    line: int,
    index: int,
    data: Seq<u8>,
    after: &RopeStore,
)
    requires
        inserts_at(store, line, index, data, after),
        store.fits(),
    ensures
        after.fits(),
{
    let at = breaks(store.bytes(), line_start(store.bytes(), line) + index) as int;
    let delta = line_total(after.bytes()) - line_total(store.bytes());
    assert forall|i: int| (#[trigger] after.cache.shape_at(i)) is Some implies 0 <= i < line_total(
        after.bytes(),
    ) && shape_fits(after.line_view(i).text, after.cache.shape_at(i).unwrap()) by {
        lemma_key_in_range(after, i);
        let k = kept_line(i, at, delta).unwrap();
        assert(store.cache.shape_at(k) is Some);
        lemma_kept_by_insert(store, line, index, data, after, i, k);
    }
    assert forall|i: int| (#[trigger] after.cache.layout_at(i)) is Some implies 0 <= i < line_total(
        after.bytes(),
    ) && layout_fits(after.line_view(i).text, after.cache.layout_at(i).unwrap()) by {
        lemma_key_in_range(after, i);
        let k = kept_line(i, at, delta).unwrap();
        assert(store.cache.layout_at(k) is Some);
        lemma_kept_by_insert(store, line, index, data, after, i, k);
    }
}

/// Where a deletion takes no more than the LF of a CRLF, the next line stays.
proof fn lemma_only_lf_cut(b: Seq<u8>, n: Seq<u8>, s: int, d: Seq<u8>, line: int)
    requires
        valid_utf8(n),
        at_boundary(n, s),
        valid_utf8(d),
        b == spliced(n, s, d),
        0 <= line < line_total(b),
        breaks(b, s) == line,
        breaks(n, s) == line + 1,
        line_total(n) == line_total(b),
        s + d.len() <= line_end(b, line),
    ensures
        line + 1 < line_total(n),
        line_bytes(n, line + 1) == line_bytes(b, line + 1),
        breaks(b, s + d.len()) == line + 1,
{
    let i = line + 1;
    lemma_starts(b);
    lemma_starts(n);
    lemma_line_at(n, s);
    lemma_line_of(b, s, line);
    if s > 0 {
        assert(b[s - 1] == n[s - 1]);
    }
    lemma_same_front(b, n, s);
    assert(parts_crlf(b, s) && !parts_crlf(n, s));
    assert(!break_end(b, s) && break_end(n, s));
    assert(break_end(b, s + 1));
    assert(breaks(b, s + 1) == line + 1);
    assert(line_start(b, i) == s + 1);
    assert(line_start(n, i) == s);
    assert(d.len() <= 1);
    if d.len() == 0 {
        assert(n =~= b);
    }
    if i + 1 < line_total(n) {
        lemma_line_after_splice(n, s, d, i + 1);
    }
    assert(line_end(n, i) + 1 == line_end(b, i));
    assert(line_bytes(n, i) =~= line_bytes(b, i));
}

/// Two texts that are the same in front of a position have the same breaks in
/// front of it, unless it parts a CR from an LF in one of them alone.
proof fn lemma_same_front(b: Seq<u8>, n: Seq<u8>, s: int)
    requires
        0 <= s <= b.len(),
        s <= n.len(),
        forall|k: int| 0 <= k < s ==> b[k] == n[k],
    ensures
        parts_crlf(b, s) == parts_crlf(n, s) ==> breaks(b, s) == breaks(n, s),
        parts_crlf(n, s) && !parts_crlf(b, s) ==> breaks(b, s) == breaks(n, s) + 1,
{
    if s > 0 {
        lemma_same_breaks(b, n, s - 1, s - 1);
    }
}

/// A line whose kept results survive the deletion is the same line as before.
proof fn lemma_kept_by_delete(
    store: &RopeStore,
    start_line: int,
    start_index: int,
    end_line: int,
    end_index: int,
    after: &RopeStore,
    i: int,
)
    requires
        deletes_at(store, start_line, start_index, end_line, end_index, after),
        0 <= i < line_total(store.bytes()),
        i <= usize::MAX,
        ({
            let b = store.bytes();
            let s = line_start(b, start_line) + start_index;
            let e = line_start(b, end_line) + end_index;
            let (start_at, mapped) = (breaks(b, s) as int, breaks(after.bytes(), s) as int);
            let first = if start_at < mapped {
                start_at
            } else {
                mapped
            };
            i < first || (line_total(after.bytes()) == line_total(b) && e <= line_end(b, first) && i
                != first)
        }),
    ensures
        i < line_total(after.bytes()),
        line_bytes(after.bytes(), i) == line_bytes(store.bytes(), i),
        after.line_view(i) == store.line_view(i),
{
    let b = store.bytes();
    let n = after.bytes();
    let s = line_start(b, start_line) + start_index;
    let e = line_start(b, end_line) + end_index;
    let d = b.subrange(s, e);
    let start_at = breaks(b, s) as int;
    let mapped = breaks(n, s) as int;
    encode_utf8_valid_utf8(store.text.text@);
    lemma_deletion(b, s, e, after.text.text@);
    lemma_splice(n, s, d);
    lemma_breaks_monotone(b, 0, s);
    lemma_breaks_monotone(b, s, e);
    lemma_breaks_monotone(b, e, b.len() as int);
    if i < mapped && i < start_at {
        lemma_line_before_splice(n, s, d, i);
    } else if i > mapped {
        lemma_line_after_splice(n, s, d, i);
    } else {
        // The join begins line `i`, and only the LF of a CRLF is gone.
        assert(i == mapped && mapped == start_at + 1);
        lemma_only_lf_cut(b, n, s, d, start_at);
    }
}

/// A deletion leaves no materialized line that is out of date.
pub proof fn law_delete_keeps_lines_fresh(
    store: &RopeStore,
    start_line: int,
    start_index: int,
    end_line: int,
    end_index: int,
    after: &RopeStore,
)
    requires
        deletes_at(store, start_line, start_index, end_line, end_index, after),
        store.fresh(),
    ensures
        after.fresh(),
{
    assert forall|i: int| (#[trigger] after.warm(i)) is Some implies 0 <= i < line_total(
        after.bytes(),
    ) && after.warm(i).unwrap()@ == after.line_view(i) by {
        lemma_key_in_range(after, i);
        assert(store.warm(i) is Some);
        lemma_kept_by_delete(store, start_line, start_index, end_line, end_index, after, i);
    }
}

/// A deletion leaves no shaping or layout result that is out of date.
pub proof fn law_delete_keeps_results_current<F: FontSystem>(
    store: &RopeStore,
    start_line: int,
    start_index: int,
    end_line: int,
    end_index: int,
    after: &RopeStore,
    fonts: int,
    settings: Settings,
)
    requires
        deletes_at(store, start_line, start_index, end_line, end_index, after),
        store.current::<F>(fonts, settings),
    ensures
        after.current::<F>(fonts, settings),
{
    assert forall|i: int| (#[trigger] after.cache.shape_at(i)) is Some implies 0 <= i < line_total(
        after.bytes(),
    ) && after.cache.shape_at(i).unwrap() == after.line_view(i).fresh_shape::<F>(fonts, settings) by {
        lemma_key_in_range(after, i);
        assert(store.cache.shape_at(i) is Some);
        lemma_kept_by_delete(store, start_line, start_index, end_line, end_index, after, i);
    }
    assert forall|i: int| (#[trigger] after.cache.layout_at(i)) is Some implies 0 <= i < line_total(
        after.bytes(),
    ) && after.cache.layout_at(i).unwrap() == after.line_view(i).fresh_layout::<F>(
        fonts,
        settings,
    ) by {
        lemma_key_in_range(after, i);
        assert(store.cache.layout_at(i) is Some);
        lemma_kept_by_delete(store, start_line, start_index, end_line, end_index, after, i);
    }
}

/// A deletion leaves no result that is out of date without being known to be,
/// whatever is still to be brought up to date.
pub proof fn law_delete_keeps_results_tracked<F: FontSystem>(
    store: &RopeStore,
    start_line: int,
    start_index: int,
    end_line: int,
    end_index: int,
    after: &RopeStore,
    fonts: int,
    settings: Settings,
    dirty: DirtyFlags,
)
    requires
        deletes_at(store, start_line, start_index, end_line, end_index, after),
        LineStore::Rope(*store).tracks::<F>(fonts, settings, dirty),
    ensures
        LineStore::Rope(*after).tracks::<F>(fonts, settings, dirty),
{
    if !dirty.drops_all() {
        assert forall|i: int| (#[trigger] after.cache.shape_at(i)) is Some implies 0 <= i
            < line_total(after.bytes()) && after.cache.shape_at(i).unwrap() == after.line_view(
            i,
        ).fresh_shape::<F>(fonts, settings) by {
            lemma_key_in_range(after, i);
            assert(store.cache.shape_at(i) is Some);
            lemma_kept_by_delete(store, start_line, start_index, end_line, end_index, after, i);
        }
    }
    if !dirty.drops_layouts() {
        assert forall|i: int| (#[trigger] after.cache.layout_at(i)) is Some implies 0 <= i
            < line_total(after.bytes()) && after.cache.layout_at(i).unwrap() == after.line_view(
            i,
        ).fresh_layout::<F>(fonts, settings) by {
            lemma_key_in_range(after, i);
            assert(store.cache.layout_at(i) is Some);
            lemma_kept_by_delete(store, start_line, start_index, end_line, end_index, after, i);
        }
    }
}

/// A deletion leaves no result that reaches beyond the text of its line.
pub proof fn law_delete_keeps_results_fitting(
    store: &RopeStore,
    start_line: int,
    start_index: int,
    end_line: int,
    end_index: int,
    after: &RopeStore,
)
    requires
        deletes_at(store, start_line, start_index, end_line, end_index, after),
        store.fits(),
    ensures
        after.fits(),
{
    assert forall|i: int| (#[trigger] after.cache.shape_at(i)) is Some implies 0 <= i < line_total(
        after.bytes(),
    ) && shape_fits(after.line_view(i).text, after.cache.shape_at(i).unwrap()) by {
        lemma_key_in_range(after, i);
        assert(store.cache.shape_at(i) is Some);
        lemma_kept_by_delete(store, start_line, start_index, end_line, end_index, after, i);
    }
    assert forall|i: int| (#[trigger] after.cache.layout_at(i)) is Some implies 0 <= i < line_total(
        after.bytes(),
    ) && layout_fits(after.line_view(i).text, after.cache.layout_at(i).unwrap()) by {
        lemma_key_in_range(after, i);
        assert(store.cache.layout_at(i) is Some);
        lemma_kept_by_delete(store, start_line, start_index, end_line, end_index, after, i);
    }
}

/// No edit sets a terminator for a line for which none was set.
pub proof fn law_insert_keeps_plain(
    store: &RopeStore,
    line: int,
    index: int,
    data: Seq<u8>,
    after: &RopeStore,
)
    requires
        store.inserts(line, index, data, after),
        store.plain(),
    ensures
        after.plain(),
{
    assert forall|i: int| #[trigger] after.metadata.ending_at(i) == LineEnding::NoEnding by {
        if i <= usize::MAX {
            let delta = line_total(after.bytes()) - line_total(store.bytes());
            let at = breaks(store.bytes(), line_start(store.bytes(), line) + index) as int;
            if let Some(k) = kept_line(i, at, delta) {
                assert(store.metadata.ending_at(k) == LineEnding::NoEnding);
            }
            assert(store.metadata.ending_at(at) == LineEnding::NoEnding);
        }
    }
}

/// No deletion sets a terminator for a line for which none was set.
pub proof fn law_delete_keeps_plain(
    store: &RopeStore,
    start_line: int,
    start_index: int,
    end_line: int,
    end_index: int,
    after: &RopeStore,
)
    requires
        store.deletes(start_line, start_index, end_line, end_index, after),
        store.plain(),
    ensures
        after.plain(),
{
    assert forall|i: int| #[trigger] after.metadata.ending_at(i) == LineEnding::NoEnding by {
        if i <= usize::MAX {
            let s = line_start(store.bytes(), start_line) + start_index;
            let mapped = breaks(after.bytes(), s) as int;
            let count = line_total(store.bytes()) - line_total(after.bytes());
            assert(store.metadata.ending_at(joined_from(i, mapped, count)) == LineEnding::NoEnding);
            let end_at = breaks(store.bytes(), line_start(store.bytes(), end_line) + end_index) as int;
            assert(store.metadata.ending_at(end_at) == LineEnding::NoEnding);
        }
    }
}

/// Where no terminator is set, every line ends as the text says.
pub proof fn law_plain_is_honest(store: &RopeStore)
    requires
        store.plain(),
    ensures
        store.honest(),
{
}

/// An insertion leaves every terminator that is set the one in the text.
pub proof fn law_insert_keeps_honest(
    store: &RopeStore,
    line: int,
    index: int,
    data: Seq<u8>,
    after: &RopeStore,
)
    requires
        inserts_at(store, line, index, data, after),
        store.honest(),
    ensures
        after.honest(),
{
    let b = store.bytes();
    let n = after.bytes();
    let p = line_start(b, line) + index;
    let at = breaks(b, p) as int;
    let delta = line_total(n) - line_total(b);
    encode_utf8_valid_utf8(store.text.text@);
    lemma_splice(b, p, data);
    lemma_breaks_monotone(b, 0, p);
    lemma_breaks_monotone(b, p, b.len() as int);
    assert(at < line_total(b));
    assert forall|i: int| 0 <= i < line_total(n) implies (#[trigger] after.metadata.ending_at(i)
        == LineEnding::NoEnding || after.metadata.ending_at(i) == ending_of(line_bytes(n, i))) by {
        assert(store.metadata.ending_at(at) == LineEnding::NoEnding || store.metadata.ending_at(at)
            == ending_of(line_bytes(b, at)));
        if i != breaks(n, p) && kept_line(i, at, delta) is Some {
            let k = kept_line(i, at, delta).unwrap();
            assert(k < line_total(b));
            lemma_breaks_monotone(n, 0, n.len() as int);
            lemma_kept_by_insert(store, line, index, data, after, i, k);
            assert(store.metadata.ending_at(k) == LineEnding::NoEnding
                || store.metadata.ending_at(k) == ending_of(line_bytes(b, k)));
        }
    }
}

/// A deletion leaves every terminator that is set the one in the text.
pub proof fn law_delete_keeps_honest(
    store: &RopeStore,
    start_line: int,
    start_index: int,
    end_line: int,
    end_index: int,
    after: &RopeStore,
)
    requires
        deletes_at(store, start_line, start_index, end_line, end_index, after),
        store.honest(),
    ensures
        after.honest(),
{
    let b = store.bytes();
    let n = after.bytes();
    let s = line_start(b, start_line) + start_index;
    let e = line_start(b, end_line) + end_index;
    let d = b.subrange(s, e);
    let count = line_total(b) - line_total(n);
    let start_at = breaks(b, s) as int;
    let end_at = breaks(b, e) as int;
    let mapped = breaks(n, s) as int;
    encode_utf8_valid_utf8(store.text.text@);
    lemma_deletion(b, s, e, after.text.text@);
    lemma_splice(n, s, d);
    lemma_breaks_monotone(b, e, b.len() as int);
    assert(0 <= end_at < line_total(b));
    assert forall|i: int| 0 <= i < line_total(n) implies (#[trigger] after.metadata.ending_at(i)
        == LineEnding::NoEnding || after.metadata.ending_at(i) == ending_of(line_bytes(n, i))) by {
        if i == mapped {
            assert(store.metadata.ending_at(end_at) == LineEnding::NoEnding
                || store.metadata.ending_at(end_at) == ending_of(line_bytes(b, end_at)));
        } else if i > mapped {
            lemma_line_after_splice(n, s, d, i);
            assert(store.metadata.ending_at(i + count) == LineEnding::NoEnding
                || store.metadata.ending_at(i + count) == ending_of(line_bytes(b, i + count)));
        } else if i < start_at {
            lemma_line_before_splice(n, s, d, i);
            assert(store.metadata.ending_at(i) == LineEnding::NoEnding
                || store.metadata.ending_at(i) == ending_of(line_bytes(b, i)));
        }
    }
}

/// The lines in front of line `k`, each with its terminator, are the text in
/// front of the line.
proof fn lemma_joined_prefix(store: &RopeStore, k: int)
    requires
        store.honest(),
        0 <= k < line_total(store.bytes()),
    ensures
        joined(store.all_lines().take(k)) == store.bytes().take(line_start(store.bytes(), k)),
    decreases k,
{
    let b = store.bytes();
    let all = store.all_lines();
    lemma_starts(b);
    if k == 0 {
        assert(joined(all.take(0)) =~= b.take(0));
    } else {
        lemma_joined_prefix(store, k - 1);
        assert(all.take(k).drop_last() =~= all.take(k - 1));
        lemma_joined_step(store, k - 1);
        assert(line_start(b, k - 1) < line_start(b, k));
        assert(joined(all.take(k)) =~= b.take(line_start(b, k)));
    }
}

/// A line and its terminator are the bytes of the line.
proof fn lemma_joined_step(store: &RopeStore, k: int)
    requires
        store.honest(),
        0 <= k < line_total(store.bytes()),
    ensures
        store.line_view(k).text + ending_bytes(store.line_view(k).ending) == line_bytes(
            store.bytes(),
            k,
        ),
{
    lemma_content_and_ending(line_bytes(store.bytes(), k));
    assert(store.metadata.ending_at(k) == LineEnding::NoEnding || store.metadata.ending_at(k)
        == ending_of(line_bytes(store.bytes(), k)));
}

/// The lines, each with its terminator, are the text: nothing is lost and
/// nothing is added.
pub proof fn law_lines_make_up_the_text(store: &RopeStore)
    requires
        store.honest(),
    ensures
        joined(store.all_lines()) == store.bytes(),
{
    let b = store.bytes();
    let all = store.all_lines();
    let last = line_total(b) - 1;
    lemma_starts(b);
    lemma_joined_prefix(store, last);
    lemma_joined_step(store, last);
    assert(all.drop_last() =~= all.take(last));
    assert(joined(all) =~= b);
}

/// Deleting between the positions that an insertion returned brings the old
/// text back.
pub proof fn law_delete_undoes_insert(
    store: &RopeStore,
    line: int,
    index: int,
    data: Seq<u8>,
    after: &RopeStore,
    undone: &RopeStore,
)
    requires
        inserts_at(store, line, index, data, after),
        ({
            let p = line_start(store.bytes(), line) + index;
            let (sl, si) = position(after.bytes(), p);
            let (el, ei) = position(after.bytes(), p + data.len());
            after.deletes(sl, si, el, ei, undone)
        }),
    ensures
        undone.bytes() == store.bytes(),
{
    let p = line_start(store.bytes(), line) + index;
    assert(undone.bytes() =~= store.bytes());
}

/// Inserting the removed text at the position that a deletion returned brings
/// the old text back.
pub proof fn law_insert_undoes_delete(
    store: &RopeStore,
    start_line: int,
    start_index: int,
    end_line: int,
    end_index: int,
    after: &RopeStore,
    undone: &RopeStore,
)
    requires
        deletes_at(store, start_line, start_index, end_line, end_index, after),
        ({
            let b = store.bytes();
            let s = line_start(b, start_line) + start_index;
            let e = line_start(b, end_line) + end_index;
            let (line, index) = position(after.bytes(), s);
            after.inserts(line, index, b.subrange(s, e), undone)
        }),
    ensures
        undone.bytes() == store.bytes(),
{
    assert(undone.bytes() =~= store.bytes());
}

/// Whether position `p` lies between a CR and the LF that ends the same line.
pub open spec fn parts_crlf(b: Seq<u8>, p: int) -> bool {
    0 < p < b.len() && b[p - 1] == CR && b[p] == LF
}

/// A position is on the same line in two texts that are the same in front of
/// it, unless it parts a CR from an LF in one of them alone.
proof fn lemma_same_position(b: Seq<u8>, n: Seq<u8>, p: int)
    requires
        0 <= p <= b.len(),
        p <= n.len(),
        b.take(p) == n.take(p),
        parts_crlf(b, p) == parts_crlf(n, p),
    ensures
        position(b, p) == position(n, p),
{
    assert forall|j: int| 0 <= j < p implies b[j] == n[j] by {
        assert(b.take(p)[j] == b[j]);
        assert(n.take(p)[j] == n[j]);
    }
    lemma_same_breaks(b, n, p, p);
    lemma_line_at(b, p);
    lemma_starts(b);
    lemma_starts(n);
    let q = line_start(b, breaks(b, p) as int);
    lemma_same_breaks(b, n, p, q);
    assert(q == 0 || break_end(n, q));
}

/// Breaks in front of a position depend on nothing behind it but an LF behind
/// a CR.
proof fn lemma_same_breaks(b: Seq<u8>, n: Seq<u8>, p: int, j: int)
    requires
        0 <= j <= p <= b.len(),
        p <= n.len(),
        forall|k: int| 0 <= k < p ==> b[k] == n[k],
        parts_crlf(b, p) == parts_crlf(n, p),
    ensures
        breaks(b, j) == breaks(n, j),
        break_end(b, j) == break_end(n, j),
    decreases j,
{
    if j > 0 {
        lemma_same_breaks(b, n, p, j - 1);
        assert(b[j - 1] == n[j - 1]);
        assert(j < p ==> b[j] == n[j]);
    }
}

/// An insertion leaves the position at which it begins where it was, unless it
/// brings a CR and an LF together there, or parts them.
pub proof fn law_insert_begins_where_it_was(
    store: &RopeStore,
    line: int,
    index: int,
    data: Seq<u8>,
    after: &RopeStore,
)
    requires
        inserts_at(store, line, index, data, after),
        ({
            let p = line_start(store.bytes(), line) + index;
            parts_crlf(store.bytes(), p) == parts_crlf(after.bytes(), p)
        }),
    ensures
        position(after.bytes(), line_start(store.bytes(), line) + index) == position(
            store.bytes(),
            line_start(store.bytes(), line) + index,
        ),
{
    let b = store.bytes();
    let p = line_start(b, line) + index;
    assert(b.take(p) =~= after.bytes().take(p));
    lemma_same_position(b, after.bytes(), p);
}

/// A deletion leaves the position at which it begins where it was, unless it
/// brings a CR and an LF together there, or parts them.
pub proof fn law_delete_begins_where_it_was(
    store: &RopeStore,
    start_line: int,
    start_index: int,
    end_line: int,
    end_index: int,
    after: &RopeStore,
)
    requires
        deletes_at(store, start_line, start_index, end_line, end_index, after),
        ({
            let s = line_start(store.bytes(), start_line) + start_index;
            parts_crlf(store.bytes(), s) == parts_crlf(after.bytes(), s)
        }),
    ensures
        position(after.bytes(), line_start(store.bytes(), start_line) + start_index) == position(
            store.bytes(),
            line_start(store.bytes(), start_line) + start_index,
        ),
{
    let b = store.bytes();
    let s = line_start(b, start_line) + start_index;
    assert(b.take(s) =~= after.bytes().take(s));
    lemma_same_position(b, after.bytes(), s);
}

/// An insertion leaves the bytes in front of it and those behind it as they
/// were, with the new ones in between.
pub proof fn law_insert_puts_the_bytes_in(
    store: &RopeStore,
    line: int,
    index: int,
    data: Seq<u8>,
    after: &RopeStore,
    i: int,
)
    requires
        inserts_at(store, line, index, data, after),
        0 <= i < after.bytes().len(),
    ensures
        ({
            let b = store.bytes();
            let p = line_start(b, line) + index;
            &&& after.bytes().len() == b.len() + data.len()
            &&& after.bytes()[i] == if i < p {
                b[i]
            } else if i < p + data.len() {
                data[i - p]
            } else {
                b[i - data.len()]
            }
        }),
{
}

/// A deletion leaves the bytes in front of it and those behind it as they were.
pub proof fn law_delete_takes_the_bytes_out(
    store: &RopeStore,
    start_line: int,
    start_index: int,
    end_line: int,
    end_index: int,
    after: &RopeStore,
    i: int,
)
    requires
        deletes_at(store, start_line, start_index, end_line, end_index, after),
        0 <= i < after.bytes().len(),
    ensures
        ({
            let b = store.bytes();
            let s = line_start(b, start_line) + start_index;
            let e = line_start(b, end_line) + end_index;
            &&& after.bytes().len() == b.len() - (e - s)
            &&& after.bytes()[i] == if i < s {
                b[i]
            } else {
                b[i + (e - s)]
            }
        }),
{
}

/// The attributes and the alignment that are set for a line follow it: in front
/// of an insertion they stay, behind it they move by as many lines as it adds.
/// Those of the line that it is made in stay on the front of that line, and none
/// are set for the lines that it adds.
pub proof fn law_attributes_follow_an_insertion(
    store: &RopeStore,
    line: int,
    index: int,
    data: Seq<u8>,
    after: &RopeStore,
    i: int,
)
    requires
        inserts_at(store, line, index, data, after),
        0 <= i < line_total(store.bytes()),
    ensures
        ({
            let b = store.bytes();
            let at = breaks(b, line_start(b, line) + index) as int;
            let added = line_total(after.bytes()) - line_total(b);
            &&& i <= at ==> after.metadata.own_attrs(i) == store.metadata.own_attrs(i)
                && after.metadata.align_at(i) == store.metadata.align_at(i)
            &&& i > at ==> after.metadata.own_attrs(i + added) == store.metadata.own_attrs(i)
                && after.metadata.align_at(i + added) == store.metadata.align_at(i)
            &&& at < i <= at + added ==> after.metadata.own_attrs(i) is None
                && after.metadata.align_at(i) is None
            &&& after.metadata.default_attrs == store.metadata.default_attrs
            &&& after.metadata.default_shaping == store.metadata.default_shaping
        }),
{
    let n = after.bytes();
    lemma_breaks_monotone(n, 0, n.len() as int);
    encode_utf8_valid_utf8(store.text.text@);
    lemma_splice(store.bytes(), line_start(store.bytes(), line) + index, data);
    assert(line_total(n) <= usize::MAX) by {
        assert(after.text.starts.len() == after.text.starts@.len());
    }
}

/// The attributes and the alignment that are set for a line follow it: up to the
/// line of the join they stay, and behind it they move up by as many lines as
/// the deletion takes away.
pub proof fn law_attributes_follow_a_deletion(
    store: &RopeStore,
    start_line: int,
    start_index: int,
    end_line: int,
    end_index: int,
    after: &RopeStore,
    i: int,
)
    requires
        deletes_at(store, start_line, start_index, end_line, end_index, after),
        0 <= i < line_total(after.bytes()),
    ensures
        ({
            let b = store.bytes();
            let join = breaks(after.bytes(), line_start(b, start_line) + start_index);
            let taken = line_total(b) - line_total(after.bytes());
            &&& i <= join ==> after.metadata.own_attrs(i) == store.metadata.own_attrs(i)
                && after.metadata.align_at(i) == store.metadata.align_at(i)
            &&& i > join ==> after.metadata.own_attrs(i) == store.metadata.own_attrs(i + taken)
                && after.metadata.align_at(i) == store.metadata.align_at(i + taken)
            &&& after.metadata.default_attrs == store.metadata.default_attrs
            &&& after.metadata.default_shaping == store.metadata.default_shaping
        }),
{
    assert(line_total(after.bytes()) <= usize::MAX) by {
        assert(after.text.starts.len() == after.text.starts@.len());
    }
}

/// A line of a rope is made of its content in the text, the terminator that is
/// set for it or else that of the text, and the attributes that are set for it
/// or else the default ones.
pub proof fn law_rope_lines_are_made_of_the_text(store: &RopeStore, i: int)
    requires
        0 <= i < line_total(store.bytes()),
    ensures
        ({
            let line = store.line_view(i);
            let bytes = line_bytes(store.bytes(), i);
            &&& line.text == content_of(bytes)
            &&& store.metadata.ending_at(i) == LineEnding::NoEnding ==> line.ending == ending_of(
                bytes,
            )
            &&& store.metadata.ending_at(i) != LineEnding::NoEnding ==> line.ending
                == store.metadata.ending_at(i)
            &&& store.metadata.own_attrs(i) matches Some(own) ==> line.attrs == own
            &&& store.metadata.own_attrs(i) is None ==> line.attrs.defaults
                == store.metadata.default_attrs && line.attrs.spans.len() == 0
            &&& line.align == store.metadata.align_at(i)
            &&& line.shaping == store.metadata.default_shaping
            &&& !line.hidden
            &&& line.metadata is None
        }),
{
}

/// What is kept of a line that an edit does not reach stays where the line is:
/// an insertion drops what is kept of the line that it is made in, and of a line
/// that the break in front of it moves to, and of no other.
pub proof fn law_insert_drops_no_more_than_it_must(
    store: &RopeStore,
    line: int,
    index: int,
    data: Seq<u8>,
    after: &RopeStore,
    i: int,
)
    requires
        inserts_at(store, line, index, data, after),
        0 <= i < line_total(store.bytes()),
        ({
            let b = store.bytes();
            let p = line_start(b, line) + index;
            i != breaks(b, p) && !(i < breaks(b, p) && i == breaks(after.bytes(), p)) && !(i
                > breaks(b, p) && i + (line_total(after.bytes()) - line_total(b)) == breaks(
                after.bytes(),
                p,
            ))
        }),
    ensures
        ({
            let b = store.bytes();
            let at = breaks(b, line_start(b, line) + index) as int;
            let added = line_total(after.bytes()) - line_total(b);
            let to = if i < at {
                i
            } else {
                i + added
            };
            &&& after.warm(to) == store.warm(i)
            &&& after.cache.shape_at(to) == store.cache.shape_at(i)
            &&& after.cache.layout_at(to) == store.cache.layout_at(i)
        }),
{
    assert(line_total(after.bytes()) <= usize::MAX) by {
        assert(after.text.starts.len() == after.text.starts@.len());
    }
}

/// A deletion drops what is kept of the line that it begins on. What is kept of
/// the lines in front of it stays, and so does what is kept of the lines behind
/// it if that one line is all that changes.
pub proof fn law_delete_drops_no_more_than_it_must(
    store: &RopeStore,
    start_line: int,
    start_index: int,
    end_line: int,
    end_index: int,
    after: &RopeStore,
    i: int,
)
    requires
        deletes_at(store, start_line, start_index, end_line, end_index, after),
        0 <= i < line_total(store.bytes()),
    ensures
        ({
            let b = store.bytes();
            let n = after.bytes();
            let s = line_start(b, start_line) + start_index;
            let e = line_start(b, end_line) + end_index;
            let in_front = i < breaks(b, s) && i < breaks(n, s);
            let one_line = line_total(n) == line_total(b) && breaks(n, s) == breaks(b, s) && e
                <= line_end(b, breaks(b, s) as int);
            &&& in_front || (one_line && i != breaks(b, s)) ==> {
                &&& after.warm(i) == store.warm(i)
                &&& after.cache.shape_at(i) == store.cache.shape_at(i)
                &&& after.cache.layout_at(i) == store.cache.layout_at(i)
            }
            &&& i == breaks(b, s) && i == breaks(n, s) ==> {
                &&& after.warm(i) is None
                &&& after.cache.shape_at(i) is None
                &&& after.cache.layout_at(i) is None
            }
        }),
{
}

} // verus!
