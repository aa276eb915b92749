//! Frontmatter parsing and the positions it reports.

pub mod date;
pub mod frontmatter;

pub use frontmatter::{split_frontmatter, Frontmatter};



use crate::text::{count_newlines, law_count_newlines_is_line_feeds, line_feeds};
use vstd::prelude::*;
use vstd::string::StringSliceAdditionalSpecFns;
use vstd::utf8::*;

verus! {

broadcast use vstd::utf8::encode_utf8_valid_utf8, vstd::utf8::is_char_boundary_start_end_of_seq;

/// A position inside a document: the text from that position to the end,
/// the byte offset from the start of the document, and the (1-based) line.
#[derive(Debug, Clone, Copy)]
pub struct Span<'a> {
    fragment: &'a str,
    offset: usize,
    line: u32,
}

impl<'a> Span<'a> {
    /// The remaining text of the document, from this position on.
    pub closed spec fn spec_fragment(&self) -> &'a str {
        self.fragment
    }

    /// The byte offset from the start of the document.
    pub closed spec fn spec_offset(&self) -> usize {
        self.offset
    }

    /// The line number, counted from 1.
    pub closed spec fn spec_line(&self) -> u32 {
        self.line
    }

    /// True when this span is the position `pos` (a byte offset) of `doc`.
    pub open spec fn is_position_of(&self, doc: Seq<u8>, pos: int) -> bool {
        &&& 0 <= pos <= doc.len()
        &&& self.spec_fragment().spec_bytes() == doc.subrange(pos, doc.len() as int)
        &&& self.spec_offset() == pos
        &&& self.spec_line() == 1 + count_newlines(doc.take(pos))
    }

    /// The span of a whole document: offset 0, line 1.
    pub fn new(input: &'a str) -> (s: Span<'a>)
        ensures
            s.is_position_of(input.spec_bytes(), 0),
            s.spec_fragment() == input,
    {
        assert(input.spec_bytes().subrange(0, input.spec_bytes().len() as int)
            =~= input.spec_bytes());
        assert(input.spec_bytes().take(0) =~= Seq::<u8>::empty());
        Span { fragment: input, offset: 0, line: 1 }
    }

    /// The span of `input` at byte offset `pos`, which must fall on a
    /// character boundary; the line counter is a `u32`, so the document
    /// must hold fewer than `u32::MAX` line feeds before `pos`.
    pub fn located(input: &'a str, pos: usize) -> (s: Span<'a>)
        requires
            pos <= input.spec_bytes().len(),
            is_char_boundary(input.spec_bytes(), pos as int),
            count_newlines(input.spec_bytes().take(pos as int)) < u32::MAX,
        ensures
            s.is_position_of(input.spec_bytes(), pos as int),
    {
        let bytes = input.as_bytes();
        let ghost b = input.spec_bytes();
        let mut newlines: u32 = 0;
        let mut i: usize = 0;
        while i < pos
            invariant
                bytes@ == b,
                i <= pos <= b.len(),
                newlines == count_newlines(b.take(i as int)),
                count_newlines(b.take(pos as int)) < u32::MAX,
            decreases pos - i,
        {
            assert(b.take(i + 1).drop_last() =~= b.take(i as int));
            proof {
                lemma_count_newlines_monotone(b, i + 1, pos as int);
            }
            if bytes[i] == 10u8 {
                newlines = newlines + 1;
            }
            i = i + 1;
        }
        let (_, rest) = input.split_at(pos);
        Span { fragment: rest, offset: pos, line: newlines + 1 }
    }

    /// The remaining text of the document, from this position on.
    pub fn fragment(&self) -> (f: &'a str)
        ensures
            f == self.spec_fragment(),
    {
        self.fragment
    }

    /// The byte offset from the start of the document.
    pub fn location_offset(&self) -> (o: usize)
        ensures
            o == self.spec_offset(),
    {
        self.offset
    }

    /// The line number, counted from 1.
    pub fn location_line(&self) -> (l: u32)
        ensures
            l == self.spec_line(),
    {
        self.line
    }
}

/// The line of a position is 1 plus the number of line feed bytes before
/// it; no other byte, a carriage return included, starts a line.
pub proof fn law_line_of_position(s: Span, doc: Seq<u8>, pos: int)
    requires
        s.is_position_of(doc, pos),
    ensures
        s.spec_line() == 1 + line_feeds(doc.take(pos)).len(),
{
    law_count_newlines_is_line_feeds(doc.take(pos));
}

/// More bytes hold at least as many line feeds.
pub proof fn lemma_count_newlines_monotone(b: Seq<u8>, i: int, j: int)
    requires
        0 <= i <= j <= b.len(),
    ensures
        count_newlines(b.take(i)) <= count_newlines(b.take(j)),
    decreases j - i,
{
    if i < j {
        assert(b.take(j).drop_last() =~= b.take(j - 1));
        lemma_count_newlines_monotone(b, i, j - 1);
    }
}

} // verus!
