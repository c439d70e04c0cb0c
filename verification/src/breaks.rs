//! Where the lines of a rope begin.
//!
//! A rope breaks lines at LF, VT, FF, CR, NEL, LS and PS, and takes a CR
//! directly before an LF as one break. Whether a position begins a line is
//! decided by the few bytes around it, so an edit can only change the lines
//! that touch it.

use vstd::prelude::*;
use vstd::utf8::*;

use crate::ending::{ending_bytes, LineEnding, CR, LF};
use crate::text::{
    at_boundary, lemma_after_ascii, lemma_first_byte, lemma_next_boundary, lemma_split,
};

verus! {

/// Whether a line break ends directly before position `j` of `b`.
pub open spec fn break_end(b: Seq<u8>, j: int) -> bool {
    0 < j <= b.len() && {
        ||| b[j - 1] == LF
        ||| b[j - 1] == 0x0b
        ||| b[j - 1] == 0x0c
        ||| b[j - 1] == CR && !(j < b.len() && b[j] == LF)
        ||| j >= 2 && b[j - 2] == 0xc2 && b[j - 1] == 0x85
        ||| j >= 3 && b[j - 3] == 0xe2 && b[j - 2] == 0x80 && (b[j - 1] == 0xa8 || b[j - 1] == 0xa9)
    }
}

/// Number of line breaks that end at or before position `hi` of `b`: the
/// index of the line that holds the position.
pub open spec fn breaks(b: Seq<u8>, hi: int) -> nat
    decreases hi,
{
    if hi <= 0 {
        0
    } else if break_end(b, hi) {
        breaks(b, hi - 1) + 1
    } else {
        breaks(b, hi - 1)
    }
}

/// Number of lines of `b`; an empty text is one empty line.
pub open spec fn line_total(b: Seq<u8>) -> nat {
    breaks(b, b.len() as int) + 1
}

/// The line starts of `b` up to position `hi`, in order.
pub open spec fn starts_to(b: Seq<u8>, hi: int) -> Seq<int>
    decreases hi,
{
    if hi <= 0 {
        seq![0]
    } else if break_end(b, hi) {
        starts_to(b, hi - 1).push(hi)
    } else {
        starts_to(b, hi - 1)
    }
}

/// Byte position at which line `k` of `b` begins.
pub open spec fn line_start(b: Seq<u8>, k: int) -> int {
    starts_to(b, b.len() as int)[k]
}

/// Byte position at which line `k` of `b` ends, its terminator taken in.
pub open spec fn line_end(b: Seq<u8>, k: int) -> int {
    if k + 1 < line_total(b) {
        line_start(b, k + 1)
    } else {
        b.len() as int
    }
}

/// The bytes of line `k` of `b`, its terminator taken in.
pub open spec fn line_bytes(b: Seq<u8>, k: int) -> Seq<u8> {
    b.subrange(line_start(b, k), line_end(b, k))
}

/// The terminator at the end of the bytes `l` of one line.
pub open spec fn ending_of(l: Seq<u8>) -> LineEnding {
    if l.len() >= 1 && l[l.len() - 1] == LF {
        if l.len() >= 2 && l[l.len() - 2] == CR {
            LineEnding::CrLf
        } else {
            LineEnding::Lf
        }
    } else if l.len() >= 1 && l[l.len() - 1] == CR {
        LineEnding::Cr
    } else {
        LineEnding::NoEnding
    }
}

/// The bytes `l` of one line without its terminator.
pub open spec fn content_of(l: Seq<u8>) -> Seq<u8> {
    l.take(l.len() - ending_bytes(ending_of(l)).len())
}

/// The bytes `d` put into `b` at position `p`.
pub open spec fn spliced(b: Seq<u8>, p: int, d: Seq<u8>) -> Seq<u8> {
    b.take(p) + d + b.skip(p)
}

/// A line is its content followed by its terminator.
pub proof fn lemma_content_and_ending(l: Seq<u8>)
    ensures
        content_of(l) + ending_bytes(ending_of(l)) == l,
{
    assert(content_of(l) + ending_bytes(ending_of(l)) =~= l);
}

proof fn lemma_starts_to(b: Seq<u8>, hi: int)
    requires
        0 <= hi <= b.len(),
    ensures
        ({
            let s = starts_to(b, hi);
            &&& s.len() == breaks(b, hi) + 1
            &&& s[0] == 0
            &&& forall|k: int|
                0 <= k < s.len() ==> 0 <= #[trigger] s[k] <= hi && breaks(b, s[k]) == k && (s[k] == 0
                    || break_end(b, s[k]))
            &&& forall|i: int, k: int| 0 <= i < k < s.len() ==> s[i] < s[k]
            &&& forall|p: int|
                0 <= p <= hi && (p == 0 || break_end(b, p)) ==> s[#[trigger] breaks(b, p) as int] == p
                    && breaks(b, p) < s.len()
        }),
    decreases hi,
{
    if hi > 0 {
        lemma_starts_to(b, hi - 1);
        assert forall|p: int| 0 <= p <= hi && (p == 0 || break_end(b, p)) implies starts_to(
            b,
            hi,
        )[#[trigger] breaks(b, p) as int] == p && breaks(b, p) < starts_to(b, hi).len() by {
            if p < hi {
                let t = starts_to(b, hi - 1);
                assert(t[breaks(b, p) as int] == p);
            }
        }
    }
}

/// The line starts are strictly increasing positions, the first is 0, and
/// each is found again from its own line index.
pub proof fn lemma_starts(b: Seq<u8>)
    ensures
        starts_to(b, b.len() as int).len() == line_total(b),
        line_start(b, 0) == 0,
        forall|k: int|
            0 <= k < line_total(b) ==> 0 <= #[trigger] line_start(b, k) <= b.len() && breaks(
                b,
                line_start(b, k),
            ) == k && (line_start(b, k) == 0 || break_end(b, line_start(b, k))),
        forall|i: int, k: int|
            0 <= i < k < line_total(b) ==> #[trigger] line_start(b, i) < #[trigger] line_start(b, k),
        forall|p: int|
            0 <= p <= b.len() && (p == 0 || break_end(b, p)) ==> line_start(
                b,
                #[trigger] breaks(b, p) as int,
            ) == p && breaks(b, p) < line_total(b),
{
    lemma_starts_to(b, b.len() as int);
}

/// The line index never falls along the text, and grows by at most one per byte.
pub proof fn lemma_breaks_monotone(b: Seq<u8>, i: int, j: int)
    requires
        0 <= i <= j,
    ensures
        breaks(b, i) <= breaks(b, j) <= breaks(b, i) + (j - i),
    decreases j - i,
{
    if i < j {
        lemma_breaks_monotone(b, i, j - 1);
    }
}

/// A position belongs to line `k` exactly when it lies between the start of
/// that line and the start of the next one.
pub proof fn lemma_line_of(b: Seq<u8>, p: int, k: int)
    requires
        0 <= p <= b.len(),
        0 <= k < line_total(b),
    ensures
        breaks(b, p) == k <==> line_start(b, k) <= p && (k + 1 < line_total(b) ==> p < line_start(
            b,
            k + 1,
        )),
        breaks(b, p) < line_total(b),
{
    lemma_starts(b);
    lemma_breaks_monotone(b, p, b.len() as int);
    let q = line_start(b, k);
    if q <= p {
        lemma_breaks_monotone(b, q, p);
    } else {
        // `q` is a start behind `p`, so a break ends in between.
        lemma_breaks_monotone(b, p, q - 1);
    }
    if k + 1 < line_total(b) {
        let r = line_start(b, k + 1);
        if r <= p {
            lemma_breaks_monotone(b, r, p);
        } else {
            lemma_breaks_monotone(b, p, r - 1);
        }
    }
}

/// The line index of a position is in range, and the position lies on that line.
pub proof fn lemma_line_at(b: Seq<u8>, p: int)
    requires
        0 <= p <= b.len(),
    ensures
        breaks(b, p) < line_total(b),
        line_start(b, breaks(b, p) as int) <= p <= line_end(b, breaks(b, p) as int),
{
    lemma_breaks_monotone(b, p, b.len() as int);
    lemma_line_of(b, p, breaks(b, p) as int);
}

/// A line starts and ends on character boundaries.
pub proof fn lemma_start_boundary(b: Seq<u8>, j: int)
    requires
        valid_utf8(b),
        0 <= j <= b.len(),
        j == 0 || break_end(b, j),
    ensures
        at_boundary(b, j),
{
    if j == 0 {
        lemma_first_byte(b);
    } else if b[j - 1] < 0x80 {
        lemma_after_ascii(b, j - 1);
    } else if j >= 2 && b[j - 2] == 0xc2 && b[j - 1] == 0x85 {
        lemma_next_boundary(b, j - 2);
    } else {
        lemma_next_boundary(b, j - 3);
    }
}

/// Bounds and boundaries of line `k`, of its content and of its terminator.
pub proof fn lemma_line_bounds(b: Seq<u8>, k: int)
    requires
        valid_utf8(b),
        0 <= k < line_total(b),
    ensures
        0 <= line_start(b, k) <= line_end(b, k) <= b.len(),
        at_boundary(b, line_start(b, k)),
        at_boundary(b, line_end(b, k)),
        ending_bytes(ending_of(line_bytes(b, k))).len() <= line_bytes(b, k).len(),
        at_boundary(b, line_end(b, k) - ending_bytes(ending_of(line_bytes(b, k))).len()),
        content_of(line_bytes(b, k)) == b.subrange(
            line_start(b, k),
            line_end(b, k) - ending_bytes(ending_of(line_bytes(b, k))).len(),
        ),
{
    lemma_starts(b);
    lemma_start_boundary(b, line_start(b, k));
    if k + 1 < line_total(b) {
        lemma_start_boundary(b, line_start(b, k + 1));
    }
    let s = line_start(b, k);
    let e = line_end(b, k);
    let l = line_bytes(b, k);
    let n = ending_bytes(ending_of(l)).len() as int;
    if n >= 1 {
        assert(b[e - n] == l[l.len() - n]);
        lemma_after_ascii(b, e - n);
    }
    assert(content_of(l) =~= b.subrange(s, e - n));
}

/// Bytes in front of a splice keep their breaks.
proof fn lemma_prefix_breaks(b: Seq<u8>, p: int, d: Seq<u8>, j: int)
    requires
        0 <= j < p <= b.len(),
    ensures
        breaks(spliced(b, p, d), j) == breaks(b, j),
        break_end(spliced(b, p, d), j) == break_end(b, j),
    decreases j,
{
    let n = spliced(b, p, d);
    assert(forall|i: int| 0 <= i < p ==> n[i] == b[i]);
    if j > 0 {
        lemma_prefix_breaks(b, p, d, j - 1);
    }
}

/// Bytes behind a splice keep their breaks, shifted by its length.
proof fn lemma_suffix_breaks(b: Seq<u8>, p: int, d: Seq<u8>, j: int)
    requires
        at_boundary(b, p),
        p < j <= b.len(),
    ensures
        break_end(spliced(b, p, d), j + d.len()) == break_end(b, j),
        breaks(spliced(b, p, d), j + d.len()) - breaks(spliced(b, p, d), p + d.len()) == breaks(b, j)
            - breaks(b, p),
    decreases j - p,
{
    let n = spliced(b, p, d);
    assert(forall|i: int| p <= i < b.len() ==> #[trigger] n[i + d.len()] == b[i]);
    assert(n[j - 1 + d.len()] == b[j - 1]);
    assert(j < b.len() ==> n[j + d.len()] == b[j]);
    assert(j - 2 >= p ==> n[j - 2 + d.len()] == b[j - 2]);
    assert(j - 3 >= p ==> n[j - 3 + d.len()] == b[j - 3]);
    assert(n[p + d.len()] == b[p]);
    if j > p + 1 {
        lemma_suffix_breaks(b, p, d, j - 1);
    }
}

/// What putting `d` into `b` at `p` does to the line structure. The lines
/// behind the edit move by as many lines as the edit adds, never by a
/// negative number; the edit position stays on its line or changes to a
/// neighbouring one.
pub proof fn lemma_splice(b: Seq<u8>, p: int, d: Seq<u8>)
    requires
        valid_utf8(b),
        valid_utf8(d),
        at_boundary(b, p),
    ensures
        ({
            let n = spliced(b, p, d);
            &&& n.len() == b.len() + d.len()
            &&& valid_utf8(n)
            &&& at_boundary(n, p)
            &&& at_boundary(n, p + d.len())
            &&& line_total(n) - line_total(b) == breaks(n, p + d.len()) - breaks(b, p)
            &&& line_total(n) >= line_total(b)
            &&& breaks(b, p) - 1 <= breaks(n, p) <= breaks(b, p) + 1
            &&& breaks(n, p) == breaks(b, p) - 1 <==> p > 0 && break_end(b, p) && !break_end(n, p)
            &&& breaks(n, p) == breaks(b, p) + 1 <==> p > 0 && !break_end(b, p) && break_end(n, p)
            &&& d.len() == 0 ==> n == b
        }),
{
    let n = spliced(b, p, d);
    let m = d.len() as int;
    lemma_split(b, p);
    assert(b.take(p) =~= b.subrange(0, p));
    assert(b.skip(p) =~= b.subrange(p, b.len() as int));
    valid_utf8_concat(b.take(p), d);
    valid_utf8_concat(b.take(p) + d, b.skip(p));
    lemma_first_byte(d);
    assert(p + m < n.len() ==> n[p + m] == b[p]);
    assert(at_boundary(n, p + m));
    assert(m > 0 ==> n[p] == d[0]);
    assert(at_boundary(n, p));
    if p < b.len() {
        lemma_suffix_breaks(b, p, d, b.len() as int);
    }
    if p > 0 {
        lemma_prefix_breaks(b, p, d, p - 1);
    }
    if m == 0 {
        assert(n =~= b);
    } else {
        assert(forall|i: int| 0 <= i < p ==> n[i] == b[i]);
        if p > 0 && break_end(b, p) && !break_end(n, p) {
            // A CR that ended a line now stands before an LF.
            assert(n[p - 1] == b[p - 1]);
            assert(n[p] == LF);
            assert(break_end(n, p + 1));
            assert(breaks(n, p + 1) == breaks(n, p) + 1);
            lemma_breaks_monotone(n, p + 1, p + m);
        } else {
            lemma_breaks_monotone(n, p, p + m);
        }
    }
    assert(line_total(n) - line_total(b) == breaks(n, p + m) - breaks(b, p));
    assert(p > 0 ==> breaks(n, p - 1) == breaks(b, p - 1));
    assert(breaks(b, p) - 1 <= breaks(n, p) <= breaks(b, p) + 1);
    assert(breaks(n, p + m) >= breaks(b, p));
}

/// A line that ends in front of the edit keeps its index and its bytes.
pub proof fn lemma_line_before_splice(b: Seq<u8>, p: int, d: Seq<u8>, k: int)
    requires
        valid_utf8(b),
        valid_utf8(d),
        at_boundary(b, p),
        0 <= k < breaks(b, p),
        k < breaks(spliced(b, p, d), p),
    ensures
        line_bytes(spliced(b, p, d), k) == line_bytes(b, k),
        line_start(spliced(b, p, d), k) == line_start(b, k),
        k < line_total(b),
        k < line_total(spliced(b, p, d)),
{
    let n = spliced(b, p, d);
    lemma_splice(b, p, d);
    lemma_starts(b);
    lemma_starts(n);
    lemma_line_at(b, p);
    lemma_line_at(n, p);
    let s = line_start(b, k);
    let e = line_start(b, k + 1);
    lemma_line_of(b, p, k + 1);
    lemma_line_of(b, p, breaks(b, p) as int);
    assert(e <= p) by {
        if k + 1 < breaks(b, p) {
            assert(line_start(b, k + 1) < line_start(b, breaks(b, p) as int));
        }
    }
    assert(s < e);
    lemma_prefix_breaks(b, p, d, s);
    assert(line_start(n, k) == s);
    if e < p {
        lemma_prefix_breaks(b, p, d, e);
    } else {
        lemma_prefix_breaks(b, p, d, p - 1);
        lemma_breaks_monotone(n, p - 1, p);
    }
    assert(breaks(n, e) == k + 1);
    assert(break_end(n, e));
    assert(line_start(n, k + 1) == e);
    assert(line_bytes(n, k) =~= line_bytes(b, k));
}

/// A line that begins behind the edit keeps its bytes; its index moves by the
/// number of lines that the edit adds.
pub proof fn lemma_line_after_splice(b: Seq<u8>, p: int, d: Seq<u8>, k: int)
    requires
        valid_utf8(b),
        valid_utf8(d),
        at_boundary(b, p),
        breaks(b, p) < k < line_total(b),
    ensures
        ({
            let n = spliced(b, p, d);
            let delta = line_total(n) - line_total(b);
            &&& k + delta < line_total(n)
            &&& line_bytes(n, k + delta) == line_bytes(b, k)
            &&& line_start(n, k + delta) == line_start(b, k) + d.len()
        }),
{
    let n = spliced(b, p, d);
    let delta = line_total(n) - line_total(b);
    let m = d.len() as int;
    lemma_splice(b, p, d);
    lemma_starts(b);
    lemma_starts(n);
    let s = line_start(b, k);
    lemma_line_of(b, p, k);
    assert(s > p) by {
        if s <= p {
            lemma_breaks_monotone(b, s, p);
        }
    }
    lemma_suffix_breaks(b, p, d, s);
    assert(breaks(n, s + m) == k + delta);
    assert(line_start(n, k + delta) == s + m);
    if k + 1 < line_total(b) {
        let e = line_start(b, k + 1);
        assert(s < e);
        lemma_suffix_breaks(b, p, d, e);
        assert(breaks(n, e + m) == k + 1 + delta);
        assert(line_start(n, k + 1 + delta) == e + m);
    }
    assert(line_bytes(n, k + delta) =~= line_bytes(b, k));
}

} // verus!
