use corrode::error::parse::ErrorKind;
use corrode::error::FrontmatterError;
use corrode::parsing::date::Date;
use corrode::parsing::{split_frontmatter, Frontmatter};

/// A deserialiser that records the frontmatter source as the title.
fn source_as_title(s: String) -> Result<Frontmatter, toml::de::Error> {
    let d = Date::from_ymd(2024, 1, 2).unwrap();
    Ok(Frontmatter::new(s, d, d, vec!["t".to_string()]))
}

/// A deserialiser that refuses every source, as `toml` refuses bad TOML.
fn refuse(_s: String) -> Result<Frontmatter, toml::de::Error> {
    Err(toml::from_str::<toml::Table>("= bad").unwrap_err())
}

fn split(doc: &str) -> (String, String) {
    let (f, md) = Frontmatter::parse(doc, source_as_title).unwrap();
    (f.title().to_string(), md.to_string())
}

#[test]
fn splits_frontmatter_and_body() {
    let doc = "---\ntitle = \"x\"\n---\n# Body\n";
    let (fm, md) = split(doc);
    assert_eq!(fm, "title = \"x\"");
    assert_eq!(md, "# Body\n");
}

#[test]
fn splits_with_crlf_line_endings() {
    let doc = "---\r\na = 1\r\n---\r\nbody";
    let (fm, md) = split(doc);
    assert_eq!(fm, "a = 1");
    assert_eq!(md, "body");
}

#[test]
fn whitespace_around_markers_is_dropped() {
    let doc = "  \n---\n\n  x = 2  \n\n---\n\n\nText";
    let (fm, md) = split(doc);
    assert_eq!(fm, "x = 2");
    assert_eq!(md, "Text");
}

#[test]
fn empty_frontmatter() {
    let (fm, md) = split_frontmatter("---\n---\nbody").unwrap();
    assert_eq!(fm, "");
    assert_eq!(md, "body");
}

#[test]
fn marker_may_end_a_line_of_text() {
    // A marker line starts wherever whitespace, `---` and a line ending follow.
    let (fm, md) = split_frontmatter("---\na = 1 ---\nrest").unwrap();
    assert_eq!(fm, "a = 1");
    assert_eq!(md, "rest");
}

#[test]
fn composed_document_splits_back() {
    let t = "title = \"A\"\ntags = [\"x\"]";
    let body = "\n\n# Heading\n";
    let doc = format!("---\n{t}\n---\n{body}");
    let (fm, md) = split(&doc);
    assert_eq!(fm, t);
    assert_eq!(md, "# Heading\n");
}

#[test]
fn refuses_document_without_frontmatter() {
    match Frontmatter::parse("# Title\n", refuse) {
        Err(FrontmatterError::Parse(m)) => assert_eq!(
            m,
            "Frontmatter parse error at line 1, column 0\n  |\n1 | # Title\n  | ^^^^^^^\nParse error: Tag\nwhile: Stripping whitespace\nwhile: Matching marker\nwhile: Finding first marker\n"
        ),
        other => panic!("unexpected {:?}", other),
    }
}

#[test]
fn refuses_missing_closing_marker() {
    match Frontmatter::parse("---\ntitle = 1\n", refuse) {
        Err(FrontmatterError::Parse(m)) => assert_eq!(
            m,
            format!(
                "Frontmatter parse error at line 3, column 14\n  |\n3 | \n  |{}^\nParse error: Tag\nwhile: Stripping whitespace\nwhile: Matching marker\nwhile: Finding second marker\n",
                " ".repeat(15)
            )
        ),
        other => panic!("unexpected {:?}", other),
    }
}

#[test]
fn refuses_marker_without_line_ending() {
    let e = split_frontmatter("---x\n").unwrap_err();
    assert_eq!(e.offset(), 3);
    assert_eq!(e.line(), 1);
    assert_eq!(e.span().fragment(), "x\n");
    assert_eq!(
        e.render(),
        "Frontmatter parse error at line 1, column 3\n  |\n1 | x\n  |    ^\nParse error: CrLf\nwhile: Stripping whitespace\nwhile: Matching marker\nwhile: Finding first marker\n"
    );
}

#[test]
fn error_line_drops_carriage_return() {
    let e = split_frontmatter("---ab\r\nc").unwrap_err();
    assert_eq!(
        e.render(),
        "Frontmatter parse error at line 1, column 3\n  |\n1 | ab\n  |    ^^\nParse error: CrLf\nwhile: Stripping whitespace\nwhile: Matching marker\nwhile: Finding first marker\n"
    );
}

#[test]
fn carets_count_bytes() {
    let e = split_frontmatter("---\u{e9}\n").unwrap_err();
    assert_eq!(
        e.render(),
        "Frontmatter parse error at line 1, column 3\n  |\n1 | \u{e9}\n  |    ^^\nParse error: CrLf\nwhile: Stripping whitespace\nwhile: Matching marker\nwhile: Finding first marker\n"
    );
}

#[test]
fn wide_gutter_for_long_documents() {
    let doc = format!("---\n{}", "a\n".repeat(10));
    let e = split_frontmatter(&doc).unwrap_err();
    assert_eq!(e.line(), 12);
    assert_eq!(e.offset(), 24);
    assert_eq!(
        e.render(),
        format!(
            "Frontmatter parse error at line 12, column 24\n   |\n12 | \n   |{}^\nParse error: Tag\nwhile: Stripping whitespace\nwhile: Matching marker\nwhile: Finding second marker\n",
            " ".repeat(25)
        )
    );
}

#[test]
fn error_kind_names() {
    assert_eq!(ErrorKind::Tag.name(), "Tag");
    assert_eq!(ErrorKind::CrLf.name(), "CrLf");
}

#[test]
fn deserialised_fields_come_back() {
    let (f, md) = Frontmatter::parse("---\ntitle = 1\n---\nbody", source_as_title).unwrap();
    assert_eq!(f.title(), "title = 1");
    assert_eq!(f.tags(), &vec!["t".to_string()]);
    let d = f.created();
    assert_eq!((d.year(), d.month(), d.day()), (2024, 1, 2));
    assert_eq!(f.modified(), d);
    assert_eq!(md, "body");
}

#[test]
fn refused_toml_is_reported() {
    match Frontmatter::parse("---\ntitle = 1\n---\nbody", refuse) {
        Err(FrontmatterError::TOMLError(_)) => {}
        other => panic!("unexpected {:?}", other),
    }
}
