//! The text of a rope-backed store, with random access by line.

use vstd::prelude::*;
use vstd::utf8::*;

use crate::breaks::{
    break_end, breaks, content_of, ending_of, lemma_line_bounds, lemma_line_of, lemma_starts,
    line_bytes, line_end, line_start, line_total, spliced, starts_to,
};
use crate::ending::{ending_bytes, LineEnding, CR, LF};
use crate::text::{at_boundary, byte_len, lemma_boundary, own, push_str, slice_str};

verus! {

/// A text and the byte positions at which its lines begin.
#[derive(Debug)]
pub struct RopeText {
    /// The whole text.
    pub text: String,
    /// Where each line begins.
    pub starts: Vec<usize>,
}

/// Tells whether a line break ends directly before position `j`.
fn breaks_at(bytes: &[u8], j: usize) -> (r: bool)
    requires
        0 < j <= bytes@.len(),
    ensures
        r == break_end(bytes@, j as int),
{
    let last = bytes[j - 1];
    last == LF || last == 0x0b || last == 0x0c || (last == CR && !(j < bytes.len() && bytes[j] == LF))
        || (j >= 2 && bytes[j - 2] == 0xc2 && last == 0x85) || (j >= 3 && bytes[j - 3] == 0xe2
        && bytes[j - 2] == 0x80 && (last == 0xa8 || last == 0xa9))
}

/// The positions at which the lines of `text` begin.
fn scan_starts(text: &str) -> (r: Vec<usize>)
    ensures
        r@.map_values(|p: usize| p as int) == starts_to(
            encode_utf8(text@),
            encode_utf8(text@).len() as int,
        ),
{
    let bytes = text.as_bytes();
    let ghost b = encode_utf8(text@);
    let mut starts: Vec<usize> = Vec::new();
    starts.push(0);
    let mut j: usize = 0;
    assert(starts@.map_values(|p: usize| p as int) =~= starts_to(b, 0));
    while j < bytes.len()
        invariant
            bytes@ == b,
            j <= bytes.len(),
            starts@.map_values(|p: usize| p as int) == starts_to(b, j as int),
        decreases bytes.len() - j,
    {
        j = j + 1;
        if breaks_at(bytes, j) {
            let ghost before = starts@;
            starts.push(j);
            assert(starts@.map_values(|p: usize| p as int) =~= before.map_values(
                |p: usize| p as int,
            ).push(j as int));
        }
    }
    starts
}

impl RopeText {
    /// The bytes of the text.
    pub open spec fn bytes(&self) -> Seq<u8> {
        encode_utf8(self.text@)
    }

    /// The line table agrees with the text.
    pub open spec fn wf(&self) -> bool {
        &&& self.starts@.len() == line_total(self.bytes())
        &&& forall|k: int|
            0 <= k < self.starts@.len() ==> #[trigger] self.starts@[k] as int == line_start(
                self.bytes(),
                k,
            )
        &&& self.bytes().len() <= usize::MAX
    }

    fn over(text: String) -> (r: RopeText)
        ensures
            r.wf(),
            r.text@ == text@,
    {
        let starts = scan_starts(text.as_str());
        let len = byte_len(text.as_str());
        let r = RopeText { text, starts };
        proof {
            assert(r.bytes().len() == len);
            lemma_starts(r.bytes());
            let m = r.starts@.map_values(|p: usize| p as int);
            assert forall|k: int| 0 <= k < r.starts@.len() implies #[trigger] r.starts@[k] as int
                == line_start(r.bytes(), k) by {
                assert(m[k] == r.starts@[k] as int);
            }
            assert(m.len() == r.starts@.len());
        }
        r
    }

    /// A rope that holds `text`.
    pub fn from_text(text: &str) -> (r: RopeText)
        ensures
            r.wf(),
            r.bytes() == encode_utf8(text@),
    {
        Self::over(own(text))
    }

    /// A rope with the same text.
    pub fn duplicate(&self) -> (r: RopeText)
        requires
            self.wf(),
        ensures
            r.wf(),
            r.bytes() == self.bytes(),
    {
        Self::over(self.text.clone())
    }

    /// Number of bytes of the text.
    pub fn len_bytes(&self) -> (r: usize)
        ensures
            r == self.bytes().len(),
    {
        byte_len(self.text.as_str())
    }

    /// Number of lines; an empty text is one empty line.
    pub fn line_count(&self) -> (r: usize)
        requires
            self.wf(),
        ensures
            r == line_total(self.bytes()),
    {
        self.starts.len()
    }

    /// Byte position at which line `line` begins.
    pub fn line_to_byte(&self, line: usize) -> (r: usize)
        requires
            self.wf(),
            line < line_total(self.bytes()),
        ensures
            r == line_start(self.bytes(), line as int),
    {
        self.starts[line]
    }

    /// Index of the line that holds the byte position `byte`.
    pub fn byte_to_line(&self, byte: usize) -> (r: usize)
        requires
            self.wf(),
            byte <= self.bytes().len(),
        ensures
            r == breaks(self.bytes(), byte as int),
            r < line_total(self.bytes()),
            line_start(self.bytes(), r as int) <= byte,
    {
        let ghost b = self.bytes();
        proof {
            lemma_starts(b);
        }
        let mut lo: usize = 0;
        let mut hi: usize = self.starts.len();
        while hi - lo > 1
            invariant
                self.wf(),
                b == self.bytes(),
                byte <= b.len(),
                lo < hi <= self.starts@.len(),
                line_start(b, lo as int) <= byte,
                hi < self.starts@.len() ==> byte < line_start(b, hi as int),
            decreases hi - lo,
        {
            let mid = lo + (hi - lo) / 2;
            if self.starts[mid] <= byte {
                lo = mid;
            } else {
                hi = mid;
            }
        }
        proof {
            lemma_line_of(b, byte as int, lo as int);
        }
        lo
    }

    /// Byte position at which line `line` ends, its terminator taken in.
    pub fn line_limit(&self, line: usize) -> (r: usize)
        requires
            self.wf(),
            line < line_total(self.bytes()),
        ensures
            r == line_end(self.bytes(), line as int),
    {
        if line < self.starts.len() - 1 {
            self.starts[line + 1]
        } else {
            self.len_bytes()
        }
    }

    /// Terminator of line `line`, read off the bytes; a line that is out of
    /// range has none.
    pub fn detect_line_ending(&self, line: usize) -> (r: LineEnding)
        requires
            self.wf(),
        ensures
            r == if line < line_total(self.bytes()) {
                ending_of(line_bytes(self.bytes(), line as int))
            } else {
                LineEnding::NoEnding
            },
    {
        if line >= self.starts.len() {
            return LineEnding::NoEnding;
        }
        let ghost b = self.bytes();
        let ghost l = line_bytes(b, line as int);
        let bytes = self.text.as_str().as_bytes();
        let start = self.starts[line];
        let end = self.line_limit(line);
        proof {
            encode_utf8_valid_utf8(self.text@);
            lemma_line_bounds(b, line as int);
            assert(start < end ==> l[l.len() - 1] == b[end - 1]);
            assert(start + 1 < end ==> l[l.len() - 2] == b[end - 2]);
        }
        if start < end && bytes[end - 1] == LF {
            if start + 1 < end && bytes[end - 2] == CR {
                LineEnding::CrLf
            } else {
                LineEnding::Lf
            }
        } else if start < end && bytes[end - 1] == CR {
            LineEnding::Cr
        } else {
            LineEnding::NoEnding
        }
    }

    /// Text of line `line` without its terminator.
    pub fn line_text(&self, line: usize) -> (r: Option<&str>)
        requires
            self.wf(),
        ensures
            r is Some <==> line < line_total(self.bytes()),
            r matches Some(s) ==> encode_utf8(s@) == content_of(
                line_bytes(self.bytes(), line as int),
            ),
    {
        if line >= self.starts.len() {
            return None;
        }
        let ghost b = self.bytes();
        let start = self.starts[line];
        let end = self.line_limit(line);
        let ending = self.detect_line_ending(line);
        let skip: usize = match ending {
            LineEnding::CrLf | LineEnding::LfCr => 2,
            LineEnding::Lf | LineEnding::Cr => 1,
            LineEnding::NoEnding => 0,
        };
        proof {
            encode_utf8_valid_utf8(self.text@);
            lemma_line_bounds(b, line as int);
            assert(skip == ending_bytes(ending).len());
        }
        Some(slice_str(self.text.as_str(), start, end - skip))
    }

    /// A copy of the text between two byte positions.
    pub fn slice(&self, start: usize, end: usize) -> (r: String)
        requires
            start <= end,
            at_boundary(self.bytes(), start as int),
            at_boundary(self.bytes(), end as int),
        ensures
            encode_utf8(r@) == self.bytes().subrange(start as int, end as int),
    {
        own(slice_str(self.text.as_str(), start, end))
    }

    /// Puts `data` into the text at byte position `at`.
    pub fn insert(&mut self, at: usize, data: &str)
        requires
            old(self).wf(),
            at_boundary(old(self).bytes(), at as int),
        ensures
            final(self).wf(),
            final(self).bytes() == spliced(old(self).bytes(), at as int, encode_utf8(data@)),
    {
        let ghost b = self.bytes();
        let mut joined = own(slice_str_to(self.text.as_str(), at));
        push_str(&mut joined, data);
        push_str(&mut joined, slice_str_from(self.text.as_str(), at));
        assert(encode_utf8(joined@) =~= spliced(b, at as int, encode_utf8(data@)));
        *self = Self::over(joined);
    }

    /// Removes the text between two byte positions.
    pub fn delete(&mut self, start: usize, end: usize)
        requires
            old(self).wf(),
            start <= end,
            at_boundary(old(self).bytes(), start as int),
            at_boundary(old(self).bytes(), end as int),
        ensures
            final(self).wf(),
            final(self).bytes() == old(self).bytes().take(start as int) + old(self).bytes().skip(
                end as int,
            ),
    {
        let ghost b = self.bytes();
        let mut joined = own(slice_str_to(self.text.as_str(), start));
        push_str(&mut joined, slice_str_from(self.text.as_str(), end));
        assert(encode_utf8(joined@) =~= b.take(start as int) + b.skip(end as int));
        *self = Self::over(joined);
    }
}

/// The part of `s` in front of byte position `to`.
fn slice_str_to<'a>(s: &'a str, to: usize) -> (r: &'a str)
    requires
        at_boundary(encode_utf8(s@), to as int),
    ensures
        encode_utf8(r@) == encode_utf8(s@).take(to as int),
{
    proof {
        encode_utf8_valid_utf8(s@);
        lemma_boundary(encode_utf8(s@), to as int);
    }
    let (head, _tail) = s.split_at(to);
    assert(encode_utf8(head@) =~= encode_utf8(s@).take(to as int));
    head
}

/// The part of `s` behind byte position `from`.
fn slice_str_from<'a>(s: &'a str, from: usize) -> (r: &'a str)
    requires
        at_boundary(encode_utf8(s@), from as int),
    ensures
        encode_utf8(r@) == encode_utf8(s@).skip(from as int),
{
    proof {
        encode_utf8_valid_utf8(s@);
        lemma_boundary(encode_utf8(s@), from as int);
    }
    let (_head, tail) = s.split_at(from);
    assert(encode_utf8(tail@) =~= encode_utf8(s@).skip(from as int));
    tail
}

} // verus!
