//! The error of the frontmatter grammar and its rendering.

use crate::parsing::Span;
use crate::text::{
    count_newlines, decimal, digit_count, first_line, first_line_of, join, push_char,
    push_decimal, push_repeated, repeat_char,
};
use vstd::prelude::*;
use vstd::string::{StringExecFns, StringSliceAdditionalSpecFns};
use vstd::utf8::decode_utf8;

verus! {

/// The step of the grammar that failed.
#[derive(Debug, Clone, Copy, PartialEq, Eq, Structural)]
pub enum ErrorKind {
    /// A literal (the `---` marker) was not found.
    Tag,
    /// A line ending (`\n` or `\r\n`) was not found.
    CrLf,
}

impl ErrorKind {
    /// The name under which the kind is reported.
    pub open spec fn spec_name(self) -> Seq<char> {
        match self {
            ErrorKind::Tag => "Tag"@,
            ErrorKind::CrLf => "CrLf"@,
        }
    }

    /// The name under which the kind is reported.
    pub fn name(&self) -> (n: &'static str)
        ensures
            n@ == self.spec_name(),
    {
        match self {
            ErrorKind::Tag => "Tag",
            ErrorKind::CrLf => "CrLf",
        }
    }
}

/// The rendering of a parse error whose position is on line `line`, at byte
/// offset `col`, with `fragment` the text from there on.
pub open spec fn rendered_error(
    line: u32,
    col: usize,
    fragment: Seq<u8>,
    message: Seq<char>,
    context: Seq<Seq<char>>,
) -> Seq<char> {
    let ln = decimal(line as nat);
    let gutter = repeat_char(' ', ln.len() + 1);
    let bad = first_line(fragment);
    let carets: nat = if bad.len() >= 1 {
        (bad.len() - 1) as nat
    } else {
        0
    };
    "Frontmatter parse error at line "@ + ln + ", column "@ + decimal(col as nat) + "\n"@ + gutter
        + "|\n"@ + ln + " | "@ + decode_utf8(bad) + "\n"@ + gutter + "|"@ + repeat_char(
        ' ',
        col as nat + 1,
    ) + "^"@ + repeat_char('^', carets) + "\n"@ + message + "\n"@ + if context.len() == 0 {
        Seq::<char>::empty()
    } else {
        "while: "@ + join(context, "\nwhile: "@) + "\n"@
    }
}

/// A failure of the frontmatter grammar: where it happened, what failed, and
/// the steps that were under way, innermost first.
#[derive(Debug, Clone)]
pub struct ParseError<'a> {
    span: Span<'a>,
    message: String,
    context: Vec<&'static str>,
}

impl<'a> ParseError<'a> {
    /// Where the failure happened.
    pub closed spec fn spec_span(&self) -> Span<'a> {
        self.span
    }

    /// What failed.
    pub closed spec fn spec_message(&self) -> Seq<char> {
        self.message@
    }

    /// The steps under way, innermost first.
    pub closed spec fn spec_context(&self) -> Seq<Seq<char>> {
        self.context@.map_values(|c: &'static str| c@)
    }

    /// The text that `render` produces.
    pub open spec fn spec_rendered(&self) -> Seq<char> {
        rendered_error(
            self.spec_span().spec_line(),
            self.spec_span().spec_offset(),
            self.spec_span().spec_fragment().spec_bytes(),
            self.spec_message(),
            self.spec_context(),
        )
    }

    /// True when this error reports a failure of kind `kind` at byte offset
    /// `pos` of `doc`, while the steps `steps` were under way.
    pub open spec fn reports(
        &self,
        doc: Seq<u8>,
        pos: int,
        kind: ErrorKind,
        steps: Seq<Seq<char>>,
    ) -> bool {
        &&& self.spec_span().is_position_of(doc, pos)
        &&& self.spec_message() == "Parse error: "@ + kind.spec_name()
        &&& self.spec_context() == steps
    }

    /// An error with a message, a position and at most one step of context.
    pub fn new(message: String, span: Span<'a>, context: Option<&'static str>) -> (e: Self)
        ensures
            e.spec_span() == span,
            e.spec_message() == message@,
            e.spec_context() == match context {
                Some(c) => seq![c@],
                None => Seq::<Seq<char>>::empty(),
            },
    {
        let mut c: Vec<&'static str> = Vec::new();
        if let Some(context) = context {
            c.push(context);
        }
        let e = ParseError { span, message, context: c };
        assert(e.spec_context() =~= match context {
            Some(c) => seq![c@],
            None => Seq::<Seq<char>>::empty(),
        });
        e
    }

    /// Where the failure happened.
    pub fn span(&self) -> (s: &Span<'a>)
        ensures
            *s == self.spec_span(),
    {
        &self.span
    }

    /// The line of the failure, counted from 1.
    pub fn line(&self) -> (l: u32)
        ensures
            l == self.spec_span().spec_line(),
    {
        self.span.location_line()
    }

    /// The byte offset of the failure from the start of the document.
    pub fn offset(&self) -> (o: usize)
        ensures
            o == self.spec_span().spec_offset(),
    {
        self.span.location_offset()
    }

    /// The error of a grammar step of kind `kind` that failed at `input`.
    pub fn from_error_kind(input: Span<'a>, kind: ErrorKind) -> (e: Self)
        ensures
            e.spec_span() == input,
            e.spec_message() == "Parse error: "@ + kind.spec_name(),
            e.spec_context() == Seq::<Seq<char>>::empty(),
    {
        let mut message = String::new();
        message.append("Parse error: ");
        message.append(kind.name());
        let e = ParseError { span: input, message, context: Vec::new() };
        assert(e.spec_context() =~= Seq::<Seq<char>>::empty());
        e
    }

    /// Combining a failure with a further one keeps the earlier failure.
    pub fn append(_input: Span<'a>, _kind: ErrorKind, other: Self) -> (e: Self)
        ensures
            e == other,
    {
        other
    }

    /// The error of an unexpected character `c` at `input`.
    pub fn from_char(input: Span<'a>, c: char) -> (e: Self)
        ensures
            e.spec_span() == input,
            e.spec_message() == "Unexpected character: '"@.push(c) + "'"@,
            e.spec_context() == Seq::<Seq<char>>::empty(),
    {
        let mut message = String::new();
        message.append("Unexpected character: '");
        push_char(&mut message, c);
        message.append("'");
        let e = ParseError { span: input, message, context: Vec::new() };
        assert(e.spec_context() =~= Seq::<Seq<char>>::empty());
        e
    }

    /// Of two alternatives that both failed, the error of the second is kept.
    pub fn or(self, other: Self) -> (e: Self)
        ensures
            e == other,
    {
        other
    }

    /// Records that `other` happened while the step `ctx` was under way.
    pub fn add_context(_input: Span<'a>, ctx: &'static str, other: Self) -> (e: Self)
        ensures
            e.spec_span() == other.spec_span(),
            e.spec_message() == other.spec_message(),
            e.spec_context() == other.spec_context().push(ctx@),
    {
        let mut s = ParseError { span: other.span, message: other.message, context: other.context };
        s.context.push(ctx);
        assert(s.spec_context() =~= other.spec_context().push(ctx@));
        s
    }

    /// The report shown to a reader: the position, the offending line with
    /// carets under it, the message, and one `while:` line per step.
    pub fn render(&self) -> (r: String)
        ensures
            r@ == self.spec_rendered(),
    {
        let line = self.span.location_line();
        let col = self.span.location_offset();
        let gutter = digit_count(line as u64);
        let bad_line = first_line_of(self.span.fragment());
        let ghost ln = decimal(line as nat);
        let ghost bad = first_line(self.spec_span().spec_fragment().spec_bytes());
        let mut out = String::new();
        out.append("Frontmatter parse error at line ");
        push_decimal(&mut out, line as u64);
        out.append(", column ");
        push_decimal(&mut out, col as u64);
        out.append("\n");
        let ghost p1 = out@;
        assert(p1 =~= "Frontmatter parse error at line "@ + ln + ", column "@ + decimal(col as nat)
            + "\n"@);
        push_repeated(&mut out, ' ', gutter + 1);
        out.append("|\n");
        push_decimal(&mut out, line as u64);
        out.append(" | ");
        out.append(bad_line);
        out.append("\n");
        let ghost p2 = out@;
        assert(p2 =~= p1 + repeat_char(' ', ln.len() + 1) + "|\n"@ + ln + " | "@ + decode_utf8(bad)
            + "\n"@);
        push_repeated(&mut out, ' ', gutter + 1);
        out.append("|");
        let ghost q1 = out@;
        push_char(&mut out, ' ');
        push_repeated(&mut out, ' ', col as u64);
        proof {
            lemma_repeat_char_push(' ', col as nat);
            assert(out@ =~= q1 + (seq![' '] + repeat_char(' ', col as nat)));
        }
        assert(out@ =~= q1 + repeat_char(' ', col as nat + 1));
        out.append("^");
        let ghost q2 = out@;
        let len = bad_line.len();
        assert(len == bad.len());
        if len >= 1 {
            push_repeated(&mut out, '^', (len - 1) as u64);
        } else {
            push_repeated(&mut out, '^', 0);
        }
        out.append("\n");
        let ghost carets: nat = if bad.len() >= 1 {
            (bad.len() - 1) as nat
        } else {
            0
        };
        assert(out@ =~= q2 + repeat_char('^', carets) + "\n"@);
        let ghost p3 = out@;
        assert(p3 =~= p2 + repeat_char(' ', ln.len() + 1) + "|"@ + repeat_char(' ', col as nat + 1)
            + "^"@ + repeat_char('^', carets) + "\n"@);
        out.append(self.message.as_str());
        out.append("\n");
        let ghost before_context = out@;
        assert(before_context =~= p3 + self.spec_message() + "\n"@);
        let n = self.context.len();
        assert(self.spec_context().len() == n);
        if n > 0 {
            out.append("while: ");
            let mut i: usize = 0;
            while i < n
                invariant
                    n == self.context.len(),
                    0 <= i <= n,
                    i > 0 ==> out@ == before_context + "while: "@ + join(
                        self.spec_context().take(i as int),
                        "\nwhile: "@,
                    ),
                    i == 0 ==> out@ == before_context + "while: "@,
                decreases n - i,
            {
                if i > 0 {
                    out.append("\nwhile: ");
                }
                out.append(self.context[i]);
                assert(self.spec_context().take(i + 1).drop_last() =~= self.spec_context().take(
                    i as int,
                ));
                i = i + 1;
            }
            assert(self.spec_context().take(n as int) =~= self.spec_context());
            out.append("\n");
        }
        assert(out@ =~= self.spec_rendered());
        out
    }
}

/// One more repetition at the front is one more at the end.
pub proof fn lemma_repeat_char_push(c: char, n: nat)
    ensures
        seq![c] + repeat_char(c, n) == repeat_char(c, n + 1),
    decreases n,
{
    if n > 0 {
        lemma_repeat_char_push(c, (n - 1) as nat);
        assert(seq![c] + repeat_char(c, n) =~= (seq![c] + repeat_char(c, (n - 1) as nat)).push(c));
    } else {
        assert(seq![c] + repeat_char(c, 0) =~= repeat_char(c, 1));
    }
}

} // verus!
