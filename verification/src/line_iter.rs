//! Cutting a text into lines at its terminators.

use vstd::prelude::*;
use vstd::utf8::*;

use crate::ending::{ending_bytes, LineEnding, CR, LF};
use crate::text::{at_boundary, lemma_after_ascii, lemma_first_byte, slice_str};

verus! {

/// A line of text and its terminator.
#[verifier::ext_equal]
pub struct Cut {
    /// The text.
    pub text: Seq<u8>,
    /// The terminator.
    pub ending: LineEnding,
}

/// The first position of `b`, from `i` on, with a CR or an LF; the end if
/// there is none.
pub open spec fn next_break(b: Seq<u8>, i: int) -> int
    decreases b.len() - i,
{
    if i >= b.len() {
        b.len() as int
    } else if i >= 0 && (b[i] == CR || b[i] == LF) {
        i
    } else {
        next_break(b, i + 1)
    }
}

/// The terminator at position `i` of `b`. CR and LF, in either order, are one
/// terminator.
pub open spec fn ending_at(b: Seq<u8>, i: int) -> LineEnding {
    if i >= b.len() {
        LineEnding::NoEnding
    } else if b[i] == CR {
        if i + 1 < b.len() && b[i + 1] == LF {
            LineEnding::CrLf
        } else {
            LineEnding::Cr
        }
    } else if b[i] == LF {
        if i + 1 < b.len() && b[i + 1] == CR {
            LineEnding::LfCr
        } else {
            LineEnding::Lf
        }
    } else {
        LineEnding::NoEnding
    }
}

/// The lines of `b` from position `i` on. The last one has no terminator and
/// may be empty.
pub open spec fn cuts(b: Seq<u8>, i: int) -> Seq<Cut>
    decreases b.len() - i,
{
    let j = next_break(b, i);
    if i < 0 || i > b.len() || j >= b.len() {
        seq![Cut { text: b.skip(i), ending: LineEnding::NoEnding }]
    } else {
        proof {
            lemma_next_break(b, i);
        }
        let ending = ending_at(b, j);
        seq![Cut { text: b.subrange(i, j), ending }] + cuts(b, j + ending_bytes(ending).len())
    }
}

/// The texts and terminators of lines, one behind the other.
pub open spec fn pasted(lines: Seq<Cut>) -> Seq<u8>
    decreases lines.len(),
{
    if lines.len() == 0 {
        Seq::empty()
    } else {
        lines[0].text + ending_bytes(lines[0].ending) + pasted(lines.skip(1))
    }
}

/// A break is found at or behind the position from which it is looked for.
pub proof fn lemma_next_break(b: Seq<u8>, i: int)
    requires
        0 <= i <= b.len(),
    ensures
        i <= next_break(b, i) <= b.len(),
        next_break(b, i) < b.len() ==> b[next_break(b, i)] == CR || b[next_break(b, i)] == LF,
        forall|k: int| i <= k < next_break(b, i) ==> #[trigger] b[k] != CR && b[k] != LF,
    decreases b.len() - i,
{
    if i < b.len() && b[i] != CR && b[i] != LF {
        lemma_next_break(b, i + 1);
    }
}

/// Cutting a text into lines loses no byte and adds none.
pub proof fn law_cuts_make_up_the_text(b: Seq<u8>, i: int)
    requires
        0 <= i <= b.len(),
    ensures
        pasted(cuts(b, i)) == b.skip(i),
    decreases b.len() - i,
{
    let j = next_break(b, i);
    lemma_next_break(b, i);
    let all = cuts(b, i);
    if j >= b.len() {
        assert(all.skip(1) =~= seq![]);
        assert(pasted(all.skip(1)) =~= seq![]);
        assert(pasted(all) =~= b.skip(i));
    } else {
        let ending = ending_at(b, j);
        let n = ending_bytes(ending).len() as int;
        law_cuts_make_up_the_text(b, j + n);
        assert(all.skip(1) =~= cuts(b, j + n));
        assert(ending_bytes(ending) =~= b.subrange(j, j + n));
        assert(pasted(all) =~= b.skip(i));
    }
}

/// No line of a cut text holds a CR or an LF, every line but the last has a
/// terminator, and the last one has none.
pub proof fn law_cuts_are_lines(b: Seq<u8>, i: int)
    requires
        0 <= i <= b.len(),
    ensures
        cuts(b, i).len() >= 1,
        forall|k: int|
            0 <= k < cuts(b, i).len() ==> ((#[trigger] cuts(b, i)[k]).ending == LineEnding::NoEnding
                <==> k == cuts(b, i).len() - 1),
        forall|k: int, p: int|
            0 <= k < cuts(b, i).len() && 0 <= p < cuts(b, i)[k].text.len()
                ==> #[trigger] cuts(b, i)[k].text[p] != CR && cuts(b, i)[k].text[p] != LF,
    decreases b.len() - i,
{
    let j = next_break(b, i);
    lemma_next_break(b, i);
    let all = cuts(b, i);
    if j >= b.len() {
        assert forall|k: int, p: int| 0 <= k < all.len() && 0 <= p < all[k].text.len() implies
            #[trigger] all[k].text[p] != CR && all[k].text[p] != LF by {
            assert(all[k].text[p] == b[i + p]);
        }
    } else {
        let ending = ending_at(b, j);
        let n = ending_bytes(ending).len() as int;
        let rest = cuts(b, j + n);
        law_cuts_are_lines(b, j + n);
        assert forall|k: int| 0 <= k < all.len() implies ((#[trigger] all[k]).ending
            == LineEnding::NoEnding <==> k == all.len() - 1) by {
            if k > 0 {
                assert(all[k] == rest[k - 1]);
            }
        }
        assert forall|k: int, p: int| 0 <= k < all.len() && 0 <= p < all[k].text.len() implies
            #[trigger] all[k].text[p] != CR && all[k].text[p] != LF by {
            if k == 0 {
                assert(all[0].text[p] == b[i + p]);
            } else {
                assert(all[k] == rest[k - 1]);
                assert(rest[k - 1].text[p] != CR);
            }
        }
    }
}

/// A walk through the lines of a text.
pub struct LineIter<'a> {
    /// The text.
    pub text: &'a str,
    /// Where the next line begins.
    pub start: usize,
    /// Whether the last line has been handed out.
    pub done: bool,
}

impl<'a> LineIter<'a> {
    /// The position is one at which a line begins.
    pub open spec fn wf(&self) -> bool {
        at_boundary(encode_utf8(self.text@), self.start as int)
    }

    /// The lines that are still to come.
    pub open spec fn rest(&self) -> Seq<Cut> {
        if self.done {
            seq![]
        } else {
            cuts(encode_utf8(self.text@), self.start as int)
        }
    }

    /// A walk from the start of a text.
    pub fn new(text: &'a str) -> (r: LineIter<'a>)
        ensures
            r.wf(),
            r.text == text,
            r.rest() == cuts(encode_utf8(text@), 0),
    {
        proof {
            encode_utf8_valid_utf8(text@);
            lemma_first_byte(encode_utf8(text@));
        }
        LineIter { text, start: 0, done: false }
    }

    /// The next line.
    pub fn next_line(&mut self) -> (r: Option<(&'a str, LineEnding)>)
        requires
            old(self).wf(),
        ensures
            final(self).wf(),
            final(self).text == old(self).text,
            match r {
                Some((text, ending)) => {
                    &&& old(self).rest().len() > 0
                    &&& old(self).rest()[0] == (Cut { text: encode_utf8(text@), ending })
                    &&& final(self).rest() == old(self).rest().skip(1)
                    &&& valid_utf8(encode_utf8(text@))
                },
                None => old(self).rest().len() == 0 && *final(self) == *old(self),
            },
    {
        let ghost b = encode_utf8(self.text@);
        let ghost rest = self.rest();
        if self.done {
            return None;
        }
        proof {
            encode_utf8_valid_utf8(self.text@);
            lemma_next_break(b, self.start as int);
            law_cuts_are_lines(b, self.start as int);
        }
        let bytes = self.text.as_bytes();
        let start = self.start;
        let mut end: usize = start;
        while end < bytes.len() && bytes[end] != CR && bytes[end] != LF
            invariant
                bytes@ == b,
                start <= end <= bytes@.len(),
                next_break(b, start as int) == next_break(b, end as int),
            decreases bytes@.len() - end,
        {
            end = end + 1;
        }
        if end == bytes.len() {
            let line = slice_str(self.text, start, end);
            self.done = true;
            proof {
                encode_utf8_valid_utf8(line@);
                assert(b.subrange(start as int, end as int) =~= b.skip(start as int));
                assert(rest.skip(1) =~= seq![]);
            }
            return Some((line, LineEnding::NoEnding));
        }
        let ending = if bytes[end] == CR {
            if end + 1 < bytes.len() && bytes[end + 1] == LF {
                LineEnding::CrLf
            } else {
                LineEnding::Cr
            }
        } else if end + 1 < bytes.len() && bytes[end + 1] == CR {
            LineEnding::LfCr
        } else {
            LineEnding::Lf
        };
        let skip: usize = match ending {
            LineEnding::CrLf | LineEnding::LfCr => 2,
            _ => 1,
        };
        proof {
            assert(ending == ending_at(b, end as int));
            assert(skip == ending_bytes(ending).len());
            lemma_after_ascii(b, end as int);
            lemma_after_ascii(b, end + skip - 1);
        }
        let line = slice_str(self.text, start, end);
        self.start = end + skip;
        proof {
            encode_utf8_valid_utf8(line@);
            assert(rest.skip(1) =~= cuts(b, end + skip));
        }
        Some((line, ending))
    }
}

} // verus!
