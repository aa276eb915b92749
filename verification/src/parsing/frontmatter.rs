//! The frontmatter grammar: a document opens with a `---` marker line,
//! holds the frontmatter source, then a second `---` marker line, then the
//! markdown body. Whitespace around each marker belongs to the marker.

use crate::error::parse::{rendered_error, ErrorKind, ParseError};
use crate::error::FrontmatterError;
use crate::parsing::date::Date;
use crate::parsing::Span;
use crate::text::{count_newlines, slice_str};
use vstd::prelude::*;
use vstd::string::StringSliceAdditionalSpecFns;
use vstd::utf8::*;

verus! {

broadcast use vstd::utf8::encode_utf8_valid_utf8, vstd::utf8::is_char_boundary_start_end_of_seq;

/// The whitespace the markers absorb: space, tab, carriage return, line feed.
pub open spec fn is_space(c: u8) -> bool {
    c == 32u8 || c == 9u8 || c == 13u8 || c == 10u8
}

/// The position after the run of whitespace that starts at `i`.
pub open spec fn skip_space(b: Seq<u8>, i: int) -> int
    decreases b.len() - i,
{
    if 0 <= i < b.len() && is_space(b[i]) {
        skip_space(b, i + 1)
    } else {
        i
    }
}

/// `b` holds the marker `---` at `i`.
pub open spec fn has_marker_tag(b: Seq<u8>, i: int) -> bool {
    0 <= i && i + 3 <= b.len() && b[i] == 45u8 && b[i + 1] == 45u8 && b[i + 2] == 45u8
}

/// The length of the line ending (`\n` or `\r\n`) at `i`, 0 when there is none.
pub open spec fn line_ending_len(b: Seq<u8>, i: int) -> int {
    if 0 <= i < b.len() && b[i] == 10u8 {
        1
    } else if 0 <= i && i + 1 < b.len() && b[i] == 13u8 && b[i + 1] == 10u8 {
        2
    } else {
        0
    }
}

/// Where a marker line that starts at `i` ends: whitespace, `---`, a line
/// ending, whitespace. `None` when there is no marker line at `i`.
pub open spec fn marker_end(b: Seq<u8>, i: int) -> Option<int> {
    let j = skip_space(b, i);
    if has_marker_tag(b, j) && line_ending_len(b, j + 3) > 0 {
        Some(skip_space(b, j + 3 + line_ending_len(b, j + 3)))
    } else {
        None
    }
}

/// Where and how matching a marker line at `i` fails: at the end of the
/// leading whitespace when `---` is missing, after the `---` when the line
/// ending is missing.
pub open spec fn marker_failure(b: Seq<u8>, i: int) -> (int, ErrorKind) {
    let j = skip_space(b, i);
    if !has_marker_tag(b, j) {
        (j, ErrorKind::Tag)
    } else {
        (j + 3, ErrorKind::CrLf)
    }
}

/// The first position at or after `i` where a marker line starts, or the
/// end of `b` when there is none.
pub open spec fn next_marker(b: Seq<u8>, i: int) -> int
    decreases b.len() - i,
{
    if i < 0 || i >= b.len() || marker_end(b, i) is Some {
        i
    } else {
        next_marker(b, i + 1)
    }
}

/// For a document that parses: where the frontmatter starts, where it ends,
/// and where the body starts.
pub open spec fn split_points(b: Seq<u8>) -> Option<(int, int, int)> {
    match marker_end(b, 0) {
        None => None,
        Some(start) => {
            let end = next_marker(b, start);
            match marker_end(b, end) {
                None => None,
                Some(body) => Some((start, end, body)),
            }
        },
    }
}

/// For a document that does not parse: the position, the kind of the
/// failure, and the marker that was being sought.
pub open spec fn split_failure(b: Seq<u8>) -> (int, ErrorKind, Seq<char>) {
    match marker_end(b, 0) {
        None => {
            let (p, k) = marker_failure(b, 0);
            (p, k, "Finding first marker"@)
        },
        Some(start) => {
            let (p, k) = marker_failure(b, next_marker(b, start));
            (p, k, "Finding second marker"@)
        },
    }
}

/// The steps under way when a marker search fails, innermost first.
pub open spec fn marker_steps(stage: Seq<char>) -> Seq<Seq<char>> {
    seq!["Stripping whitespace"@, "Matching marker"@, stage]
}

/// Whitespace skipping stays on character boundaries.
pub proof fn lemma_skip_space(b: Seq<u8>, i: int)
    requires
        valid_utf8(b),
        0 <= i <= b.len(),
        is_char_boundary(b, i),
    ensures
        i <= skip_space(b, i) <= b.len(),
        is_char_boundary(b, skip_space(b, i)),
    decreases b.len() - i,
{
    if i < b.len() && is_space(b[i]) {
        crate::text::lemma_ascii_step(b, i);
        lemma_skip_space(b, i + 1);
    }
}

/// Marker matching, successful or not, stays on character boundaries.
pub proof fn lemma_marker(b: Seq<u8>, i: int)
    requires
        valid_utf8(b),
        0 <= i <= b.len(),
        is_char_boundary(b, i),
    ensures
        marker_end(b, i) matches Some(e) ==> i <= e <= b.len() && is_char_boundary(b, e),
        0 <= marker_failure(b, i).0 <= b.len(),
        is_char_boundary(b, marker_failure(b, i).0),
{
    lemma_skip_space(b, i);
    let j = skip_space(b, i);
    if has_marker_tag(b, j) {
        crate::text::lemma_ascii_step(b, j);
        crate::text::lemma_ascii_step(b, j + 1);
        crate::text::lemma_ascii_step(b, j + 2);
        let le = line_ending_len(b, j + 3);
        if le >= 1 {
            crate::text::lemma_ascii_step(b, j + 3);
        }
        if le == 2 {
            crate::text::lemma_ascii_step(b, j + 4);
        }
        if le > 0 {
            lemma_skip_space(b, j + 3 + le);
        }
    }
}

/// The marker search stops on a character boundary.
pub proof fn lemma_next_marker(b: Seq<u8>, i: int)
    requires
        valid_utf8(b),
        0 <= i <= b.len(),
    ensures
        is_char_boundary(b, next_marker(b, i)),
    decreases b.len() - i,
{
    if i < b.len() && marker_end(b, i) is None {
        lemma_next_marker(b, i + 1);
    } else if i < b.len() {
        assert(is_space(b[i]) || b[i] == 45u8);
        is_char_boundary_iff_not_is_continuation_byte(b, i);
    }
}

/// The position after the whitespace that starts at `i`.
fn ws(bytes: &[u8], i: usize) -> (j: usize)
    requires
        i <= bytes@.len(),
    ensures
        j == skip_space(bytes@, i as int),
{
    let mut j = i;
    while j < bytes.len() && (bytes[j] == 32u8 || bytes[j] == 9u8 || bytes[j] == 13u8 || bytes[j]
        == 10u8)
        invariant
            i <= j <= bytes@.len(),
            skip_space(bytes@, j as int) == skip_space(bytes@, i as int),
        decreases bytes@.len() - j,
    {
        j = j + 1;
    }
    j
}

/// Matches a marker line at `i`: its end, or where and how matching failed.
fn match_marker(bytes: &[u8], i: usize) -> (r: Result<usize, (usize, ErrorKind)>)
    requires
        i <= bytes@.len(),
    ensures
        match marker_end(bytes@, i as int) {
            Some(e) => r matches Ok(v) && v == e,
            None => r matches Err((p, k)) && (p as int, k) == marker_failure(bytes@, i as int),
        },
{
    let j = ws(bytes, i);
    proof {
        lemma_skip_space_bound(bytes@, i as int);
    }
    if bytes.len() >= 3 && j <= bytes.len() - 3 && bytes[j] == 45u8 && bytes[j + 1] == 45u8 && bytes[j + 2] == 45u8 {
        let k = j + 3;
        let le: usize = if k < bytes.len() && bytes[k] == 10u8 {
            1
        } else if k < bytes.len() && k + 1 < bytes.len() && bytes[k] == 13u8 && bytes[k + 1] == 10u8 {
            2
        } else {
            0
        };
        if le == 0 {
            Err((k, ErrorKind::CrLf))
        } else {
            let e = ws(bytes, k + le);
            proof {
                lemma_skip_space_bound(bytes@, (k + le) as int);
            }
            Ok(e)
        }
    } else {
        Err((j, ErrorKind::Tag))
    }
}

/// Whitespace skipping stays within `b`.
pub proof fn lemma_skip_space_bound(b: Seq<u8>, i: int)
    requires
        0 <= i <= b.len(),
    ensures
        i <= skip_space(b, i) <= b.len(),
    decreases b.len() - i,
{
    if i < b.len() && is_space(b[i]) {
        lemma_skip_space_bound(b, i + 1);
    }
}

/// The end of the frontmatter that starts at `start`: the first position
/// where a marker line starts, or the end of the document.
fn grab_frontmatter(bytes: &[u8], start: usize) -> (end: usize)
    requires
        start <= bytes@.len(),
    ensures
        end == next_marker(bytes@, start as int),
{
    let mut i = start;
    while i < bytes.len()
        invariant
            start <= i <= bytes@.len(),
            next_marker(bytes@, i as int) == next_marker(bytes@, start as int),
        decreases bytes@.len() - i,
    {
        match match_marker(bytes, i) {
            Ok(_) => {
                return i;
            },
            Err(_) => {
                i = i + 1;
            },
        }
    }
    i
}

/// The error of a marker search that failed at `pos` with `kind`, while
/// looking for the marker named by `stage`.
fn marker_error<'a>(input: &'a str, pos: usize, kind: ErrorKind, stage: &'static str) -> (e:
    ParseError<'a>)
    requires
        pos <= input.spec_bytes().len(),
        is_char_boundary(input.spec_bytes(), pos as int),
        count_newlines(input.spec_bytes()) < u32::MAX,
    ensures
        e.reports(input.spec_bytes(), pos as int, kind, marker_steps(stage@)),
{
    proof {
        crate::parsing::lemma_count_newlines_monotone(
            input.spec_bytes(),
            pos as int,
            input.spec_bytes().len() as int,
        );
        assert(input.spec_bytes().take(input.spec_bytes().len() as int) =~= input.spec_bytes());
    }
    let span = Span::located(input, pos);
    let e = ParseError::from_error_kind(span, kind);
    let e = ParseError::add_context(span, "Stripping whitespace", e);
    let e = ParseError::add_context(span, "Matching marker", e);
    let e = ParseError::add_context(span, stage, e);
    assert(e.spec_context() =~= marker_steps(stage@));
    e
}

/// Splits a document into its frontmatter source and its markdown body.
///
/// The document must open (after optional whitespace) with a `---` line; the
/// frontmatter runs up to the next `---` line, which must exist. The
/// whitespace around each marker line is dropped. The line counter of the
/// reported position is a `u32`, so the document holds fewer than
/// `u32::MAX` line feeds.
pub fn split_frontmatter<'a>(input: &'a str) -> (r: Result<(&'a str, &'a str), ParseError<'a>>)
    requires
        count_newlines(input.spec_bytes()) < u32::MAX,
    ensures
        match split_points(input.spec_bytes()) {
            Some((start, end, body)) => r matches Ok((fm, md)) && fm.spec_bytes()
                == input.spec_bytes().subrange(start, end) && md.spec_bytes()
                == input.spec_bytes().subrange(body, input.spec_bytes().len() as int),
            None => r matches Err(e) && e.reports(
                input.spec_bytes(),
                split_failure(input.spec_bytes()).0,
                split_failure(input.spec_bytes()).1,
                marker_steps(split_failure(input.spec_bytes()).2),
            ),
        },
{
    let bytes = input.as_bytes();
    let ghost b = input.spec_bytes();
    proof {
        lemma_marker(b, 0);
    }
    let start = match match_marker(bytes, 0) {
        Ok(start) => start,
        Err((pos, kind)) => {
            return Err(marker_error(input, pos, kind, "Finding first marker"));
        },
    };
    let end = grab_frontmatter(bytes, start);
    proof {
        lemma_next_marker_bound(b, start as int);
        lemma_next_marker(b, start as int);
        lemma_marker(b, end as int);
    }
    let body = match match_marker(bytes, end) {
        Ok(body) => body,
        Err((pos, kind)) => {
            return Err(marker_error(input, pos, kind, "Finding second marker"));
        },
    };
    let fm = slice_str(input, start, end);
    let md = slice_str(input, body, bytes.len());
    Ok((fm, md))
}

/// The rendered report of a document that does not parse.
pub open spec fn failure_report(b: Seq<u8>) -> Seq<char> {
    let (pos, kind, stage) = split_failure(b);
    rendered_error(
        (1 + count_newlines(b.take(pos))) as u32,
        pos as usize,
        b.subrange(pos, b.len() as int),
        "Parse error: "@ + kind.spec_name(),
        marker_steps(stage),
    )
}

/// `deserialize` may give `result` for a source text that reads `source`.
pub open spec fn deserializes_to<F: Fn(String) -> Result<Frontmatter, toml::de::Error>>(
    deserialize: F,
    source: Seq<char>,
    result: Result<Frontmatter, toml::de::Error>,
) -> bool {
    exists|s: String| s@ == source && #[trigger] deserialize.ensures((s,), result)
}

/// The metadata at the head of a page.
#[derive(Debug)]
pub struct Frontmatter {
    title: String,
    created: Date,
    modified: Date,
    tags: Vec<String>,
}

impl Frontmatter {
    /// The title of the page.
    pub closed spec fn spec_title(&self) -> Seq<char> {
        self.title@
    }

    /// When the page was created.
    pub closed spec fn spec_created(&self) -> Date {
        self.created
    }

    /// When the page was last modified.
    pub closed spec fn spec_modified(&self) -> Date {
        self.modified
    }

    /// The tags of the page.
    pub closed spec fn spec_tags(&self) -> Seq<Seq<char>> {
        self.tags@.map_values(|t: String| t@)
    }

    /// Frontmatter with the given fields.
    pub fn new(title: String, created: Date, modified: Date, tags: Vec<String>) -> (f: Self)
        ensures
            f.spec_title() == title@,
            f.spec_created() == created,
            f.spec_modified() == modified,
            f.spec_tags() == tags@.map_values(|t: String| t@),
    {
        Frontmatter { title, created, modified, tags }
    }

    /// The title of the page.
    pub fn title(&self) -> (t: &str)
        ensures
            t@ == self.spec_title(),
    {
        self.title.as_str()
    }

    /// When the page was created.
    pub fn created(&self) -> (d: Date)
        ensures
            d == self.spec_created(),
    {
        self.created
    }

    /// When the page was last modified.
    pub fn modified(&self) -> (d: Date)
        ensures
            d == self.spec_modified(),
    {
        self.modified
    }

    /// The tags of the page.
    pub fn tags(&self) -> (t: &Vec<String>)
        ensures
            t@.map_values(|t: String| t@) == self.spec_tags(),
    {
        &self.tags
    }

    /// Parses a page: its frontmatter and its markdown body. The page is
    /// split as `split_frontmatter` does; a page without frontmatter is
    /// refused with the rendered parse error. The frontmatter source (TOML)
    /// is handed to `deserialize`, whose failure is reported as a TOML error.
    pub fn parse<F>(input: &str, deserialize: F) -> (r: Result<(Frontmatter, &str), FrontmatterError>)
        where
            F: Fn(String) -> Result<Frontmatter, toml::de::Error>,
        requires
            count_newlines(input.spec_bytes()) < u32::MAX,
            forall|s: String| deserialize.requires((s,)),
        ensures
            match split_points(input.spec_bytes()) {
                Some((start, end, body)) => {
                    let source = decode_utf8(input.spec_bytes().subrange(start, end));
                    match r {
                        Ok((f, md)) => {
                            &&& md.spec_bytes() == input.spec_bytes().subrange(
                                body,
                                input.spec_bytes().len() as int,
                            )
                            &&& deserializes_to(deserialize, source, Ok(f))
                        },
                        Err(FrontmatterError::TOMLError(te)) => deserializes_to(
                            deserialize,
                            source,
                            Err(te),
                        ),
                        Err(FrontmatterError::Parse(_)) => false,
                    }
                },
                None => r matches Err(FrontmatterError::Parse(m)) && m@ == failure_report(
                    input.spec_bytes(),
                ),
            },
    {
        match split_frontmatter(input) {
            Ok((fm, md)) => {
                let source = fm.to_owned();
                let ghost src = source;
                proof {
                    encode_utf8_decode_utf8(fm@);
                }
                let res = deserialize(source);
                assert(deserialize.ensures((src,), res));
                assert(deserializes_to(deserialize, decode_utf8(fm.spec_bytes()), res));
                match res {
                    Ok(f) => Ok((f, md)),
                    Err(te) => Err(FrontmatterError::TOMLError(te)),
                }
            },
            Err(e) => Err(FrontmatterError::from(e)),
        }
    }
}

/// Of a document that splits, the frontmatter holds no marker line, a marker
/// line starts right where it ends, and the body starts where that marker
/// line ends; the three parts follow each other in order.
pub proof fn law_split_parts(b: Seq<u8>)
    ensures
        split_points(b) matches Some((start, end, body)) ==> {
            &&& 0 <= start <= end <= body <= b.len()
            &&& marker_end(b, 0) == Some(start)
            &&& forall|k: int| start <= k < end ==> marker_end(b, k) is None
            &&& marker_end(b, end) == Some(body)
        },
{
    if let Some(start) = marker_end(b, 0) {
        lemma_marker_bound(b, 0);
        lemma_next_marker_bound(b, start);
        let end = next_marker(b, start);
        lemma_marker_bound(b, end);
    }
}

/// A marker line ends after it starts, within `b`.
proof fn lemma_marker_bound(b: Seq<u8>, i: int)
    requires
        0 <= i <= b.len(),
    ensures
        marker_end(b, i) matches Some(e) ==> i <= e <= b.len(),
{
    lemma_skip_space_bound(b, i);
    let j = skip_space(b, i);
    if has_marker_tag(b, j) && line_ending_len(b, j + 3) > 0 {
        lemma_skip_space_bound(b, j + 3 + line_ending_len(b, j + 3));
    }
}

/// The marker search stops ahead, within `b`, past positions where no marker
/// line starts.
proof fn lemma_next_marker_bound(b: Seq<u8>, i: int)
    requires
        0 <= i <= b.len(),
    ensures
        i <= next_marker(b, i) <= b.len(),
        forall|k: int| i <= k < next_marker(b, i) ==> marker_end(b, k) is None,
    decreases b.len() - i,
{
    if i < b.len() && marker_end(b, i) is None {
        lemma_next_marker_bound(b, i + 1);
    }
}

/// A document whose first text after leading whitespace is not `---` is
/// refused where that text starts, while the first marker is sought.
pub proof fn law_refuses_without_opening_marker(b: Seq<u8>)
    requires
        skip_space(b, 0) < b.len(),
        b[skip_space(b, 0)] != 45u8,
    ensures
        split_points(b) is None,
        split_failure(b) == (skip_space(b, 0), ErrorKind::Tag, "Finding first marker"@),
{
}

/// The document that opens with a `---` line, holds `t`, closes it with a
/// `---` line and ends with `body`.
pub open spec fn compose_document(t: Seq<u8>, body: Seq<u8>) -> Seq<u8> {
    seq![45u8, 45u8, 45u8, 10u8] + t + seq![10u8, 45u8, 45u8, 45u8, 10u8] + body
}

/// `t` can stand between two marker lines as it is: it neither starts nor
/// ends with whitespace and holds no `---`.
pub open spec fn is_plain_frontmatter(t: Seq<u8>) -> bool {
    &&& t.len() > 0 ==> !is_space(t[0]) && !is_space(t.last())
    &&& forall|i: int|
        0 <= i && i + 3 <= t.len() ==> !(#[trigger] t[i] == 45u8 && t[i + 1] == 45u8 && t[i + 2]
            == 45u8)
}

/// Inside a block that ends with a non-space byte at `end - 1`, whitespace
/// skipping stops before `end`.
proof fn lemma_skip_space_inside(b: Seq<u8>, k: int, end: int)
    requires
        0 <= k < end <= b.len(),
        !is_space(b[end - 1]),
    ensures
        k <= skip_space(b, k) < end,
        !is_space(b[skip_space(b, k)]),
    decreases end - k,
{
    if is_space(b[k]) {
        lemma_skip_space_inside(b, k + 1, end);
    }
}

/// Whitespace skipping in the second part of a concatenation.
proof fn lemma_skip_space_suffix(a: Seq<u8>, c: Seq<u8>, i: int)
    requires
        0 <= i <= c.len(),
    ensures
        skip_space(a + c, a.len() + i) == a.len() + skip_space(c, i),
    decreases c.len() - i,
{
    if i < c.len() {
        assert((a + c)[a.len() + i] == c[i]);
        if is_space(c[i]) {
            lemma_skip_space_suffix(a, c, i + 1);
        }
    }
}

/// Composing a document from plain frontmatter `t` and a body, then
/// splitting it, gives back `t` and the body without its leading whitespace.
pub proof fn law_split_composed(t: Seq<u8>, body: Seq<u8>)
    requires
        is_plain_frontmatter(t),
    ensures
        split_points(compose_document(t, body)) matches Some((start, end, rest)) && compose_document(
            t,
            body,
        ).subrange(start, end) == t && compose_document(t, body).subrange(
            rest,
            compose_document(t, body).len() as int,
        ) == body.subrange(skip_space(body, 0), body.len() as int),
{
    let doc = compose_document(t, body);
    let n = t.len() as int;
    let head = seq![45u8, 45u8, 45u8, 10u8] + t + seq![10u8, 45u8, 45u8, 45u8, 10u8];
    assert(doc == head + body);
    assert(head.len() == n + 9);
    assert(doc[0] == 45u8 && doc[1] == 45u8 && doc[2] == 45u8 && doc[3] == 10u8);
    assert(forall|i: int| 0 <= i < n ==> doc[4 + i] == t[i]);
    assert(doc[4 + n] == 10u8 && doc[5 + n] == 45u8 && doc[6 + n] == 45u8 && doc[7 + n] == 45u8
        && doc[8 + n] == 10u8);
    assert(skip_space(doc, 0) == 0);
    assert(line_ending_len(doc, 3) == 1);
    let start = skip_space(doc, 4);
    // The frontmatter starts right after the first marker line.
    if n > 0 {
        assert(!is_space(doc[4]));
        assert(start == 4);
    } else {
        assert(is_space(doc[4]));
        assert(skip_space(doc, 5) == 5);
        assert(start == 5);
    }
    assert(marker_end(doc, 0) == Some(start));
    // No marker line starts inside the frontmatter.
    assert forall|k: int| start <= k < 4 + n implies marker_end(doc, k) is None by {
        lemma_skip_space_inside(doc, k, 4 + n);
        let j = skip_space(doc, k);
        assert(4 <= j < 4 + n);
        if has_marker_tag(doc, j) {
            if j + 3 <= 4 + n {
                assert(t[j - 4] == 45u8 && t[j - 3] == 45u8 && t[j - 2] == 45u8);
                assert(false);
            } else {
                assert(j + 1 == 4 + n || j + 2 == 4 + n);
            }
        }
    }
    let end = if n > 0 {
        4 + n
    } else {
        5
    };
    // The closing marker line follows.
    if n > 0 {
        assert(skip_space(doc, end + 1) == end + 1);
        assert(skip_space(doc, end) == end + 1);
    } else {
        assert(skip_space(doc, end) == end);
    }
    assert(has_marker_tag(doc, 5 + n));
    assert(line_ending_len(doc, 8 + n) == 1);
    lemma_skip_space_suffix(head, body, 0);
    let rest = (n + 9) + skip_space(body, 0);
    assert(marker_end(doc, end) == Some(rest));
    // The search for it stops there.
    assert(next_marker(doc, start) == end) by {
        lemma_next_marker_reaches(doc, start, end);
    }
    assert(split_points(doc) == Some((start, end, rest)));
    assert(doc.subrange(start, end) =~= t);
    lemma_skip_space_bound(body, 0);
    assert(doc.subrange(rest, doc.len() as int) =~= body.subrange(
        skip_space(body, 0),
        body.len() as int,
    ));
}

/// The marker search from `i` stops at `e` when no marker line starts
/// before `e` and one starts at `e`.
proof fn lemma_next_marker_reaches(b: Seq<u8>, i: int, e: int)
    requires
        0 <= i <= e < b.len(),
        forall|k: int| i <= k < e ==> marker_end(b, k) is None,
        marker_end(b, e) is Some,
    ensures
        next_marker(b, i) == e,
    decreases e - i,
{
    if i < e {
        lemma_next_marker_reaches(b, i + 1, e);
    }
}

} // verus!
