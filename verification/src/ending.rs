//! Line terminators.

use vstd::prelude::*;
use vstd::utf8::*;

verus! {

/// The terminator of a line of text.
#[derive(Clone, Copy, PartialEq, Eq, Structural, Debug)]
pub enum LineEnding {
    /// `\n` (POSIX).
    Lf,
    /// `\r\n` (Windows).
    CrLf,
    /// `\r` (classic Mac OS).
    Cr,
    /// `\n\r` (some legacy systems).
    LfCr,
    /// No terminator: the last line of a text.
    NoEnding,
}

/// The byte `\n`.
pub const LF: u8 = 0x0a;

/// The byte `\r`.
pub const CR: u8 = 0x0d;

/// The bytes that terminate a line with the given ending.
pub open spec fn ending_bytes(ending: LineEnding) -> Seq<u8> {
    match ending {
        LineEnding::Lf => seq![LF],
        LineEnding::CrLf => seq![CR, LF],
        LineEnding::Cr => seq![CR],
        LineEnding::LfCr => seq![LF, CR],
        LineEnding::NoEnding => seq![],
    }
}

proof fn lemma_ascii_literal(s: Seq<char>, b: Seq<u8>)
    requires
        s.len() == b.len(),
        forall|i: int| 0 <= i < s.len() ==> '\0' <= s[i] <= '\u{7f}' && s[i] as u8 == b[i],
    ensures
        encode_utf8(s) == b,
{
    is_ascii_chars_encode_utf8(s);
    assert(encode_utf8(s) =~= b);
}

impl Default for LineEnding {
    fn default() -> (r: LineEnding)
        ensures
            r == LineEnding::Lf,
    {
        LineEnding::Lf
    }
}

impl LineEnding {
    /// The terminator as text.
    pub fn as_str(&self) -> (r: &'static str)
        ensures
            encode_utf8(r@) == ending_bytes(*self),
    {
        match self {
            LineEnding::Lf => {
                proof {
                    reveal_strlit("\n");
                    lemma_ascii_literal("\n"@, seq![LF]);
                }
                "\n"
            },
            LineEnding::CrLf => {
                proof {
                    reveal_strlit("\r\n");
                    lemma_ascii_literal("\r\n"@, seq![CR, LF]);
                }
                "\r\n"
            },
            LineEnding::Cr => {
                proof {
                    reveal_strlit("\r");
                    lemma_ascii_literal("\r"@, seq![CR]);
                }
                "\r"
            },
            LineEnding::LfCr => {
                proof {
                    reveal_strlit("\n\r");
                    lemma_ascii_literal("\n\r"@, seq![LF, CR]);
                }
                "\n\r"
            },
            LineEnding::NoEnding => {
                proof {
                    reveal_strlit("");
                    lemma_ascii_literal(""@, seq![]);
                }
                ""
            },
        }
    }
}

} // verus!
